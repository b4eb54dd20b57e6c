use azdo::error::{AzdoError, ExitCode};

#[test]
fn exit_codes_by_category() {
    let http = |status: u16| AzdoError::Http { status, url: "u".to_owned(), body: String::new() };
    assert_eq!(AzdoError::Config("x".to_owned()).exit_code(), ExitCode::Config);
    assert_eq!(AzdoError::PatMissing("X".to_owned()).exit_code(), ExitCode::Config);
    assert_eq!(http(404).exit_code(), ExitCode::HttpClient);
    assert_eq!(http(400).exit_code(), ExitCode::HttpClient);
    assert_eq!(http(500).exit_code(), ExitCode::HttpServer);
    assert_eq!(http(599).exit_code(), ExitCode::HttpServer);
    assert_eq!(http(302).exit_code(), ExitCode::Generic);
    assert_eq!(AzdoError::Transport("t".to_owned()).exit_code(), ExitCode::Transport);
    assert_eq!(AzdoError::Io("i".to_owned()).exit_code(), ExitCode::Generic);
    assert_eq!(AzdoError::Render("r".to_owned()).exit_code(), ExitCode::Generic);
    assert_eq!(ExitCode::Generic.code(), 1);
    assert_eq!(ExitCode::Config.code(), 2);
    assert_eq!(ExitCode::Transport.code(), 3);
    assert_eq!(ExitCode::HttpClient.code(), 4);
    assert_eq!(ExitCode::HttpServer.code(), 5);
}

#[test]
fn messages_match_the_cli_wording() {
    assert_eq!(AzdoError::Config("bad".to_owned()).message(), "config error: bad");
    assert_eq!(
        AzdoError::PatMissing("AZDO_PAT".to_owned()).message(),
        "PAT env variable `AZDO_PAT` not set or empty",
    );
    assert_eq!(
        AzdoError::Http { status: 401, url: "https://h/x".to_owned(), body: "denied".to_owned() }
            .message(),
        "http error: 401 https://h/x\ndenied",
    );
    assert_eq!(AzdoError::Toml("eof".to_owned()).message(), "toml parse error: eof");
    assert_eq!(AzdoError::Header("h".to_owned()).message(), "invalid header: h");
    assert_eq!(AzdoError::Io("gone".to_owned()).message(), "io error: gone");
}

#[test]
fn input_errors_are_generic() {
    let e = AzdoError::Input("bad".to_owned());
    assert_eq!(e.exit_code(), ExitCode::Generic);
    assert_eq!(e.message(), "input error: bad");
}
