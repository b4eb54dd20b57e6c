use azdo::config::{default_api_version, default_pat_env, AuthConfig, Config, Pat, ProductConfig};
use azdo::error::AzdoError;

/// A configuration as the file reader builds it when only the three
/// required keys are given: everything else takes its default.
fn from_required(server: &str, collection: &str, project: &str) -> Config {
    Config {
        server: server.to_owned(),
        collection: collection.to_owned(),
        project: project.to_owned(),
        api_version: default_api_version(),
        auth: AuthConfig::default(),
        wiki: None,
        states: Vec::new(),
        products: Vec::new(),
        profiles: Vec::new(),
        workflows: None,
    }
}

#[test]
fn defaults_api_version_and_pat_env() {
    let cfg = from_required("https://x/tfs", "Col", "P");
    assert!(cfg.validate().is_ok());
    assert_eq!(cfg.api_version, "6.0");
    assert_eq!(cfg.auth.pat_env, "AZDO_PAT");
    assert_eq!(default_pat_env(), "AZDO_PAT");
}

#[test]
fn rejects_non_http_server() {
    let err = from_required("azdo.company.local", "Col", "P")
        .validate()
        .err()
        .unwrap_or_else(|| panic!("must reject"));
    assert!(matches!(err, AzdoError::Config(_)), "got {err:?}");
}

#[test]
fn rejects_empty_required() {
    let err = from_required("", "Col", "P")
        .validate()
        .err()
        .unwrap_or_else(|| panic!("must reject"));
    assert!(matches!(err, AzdoError::Config(_)), "got {err:?}");
}

#[test]
fn validation_messages_name_the_field() {
    let msg = |c: Config| match c.validate() {
        Err(AzdoError::Config(m)) => m,
        other => panic!("expected a config error, got {other:?}"),
    };
    assert_eq!(msg(from_required(" ", "Col", "P")), "`server` is empty");
    assert_eq!(msg(from_required("https://x", "", "P")), "`collection` is empty");
    assert_eq!(msg(from_required("https://x", "C", "\t")), "`project` is empty");
    assert_eq!(
        msg(from_required("ftp://x", "C", "P")),
        "`server` must start with http:// or https:// (got: ftp://x)",
    );
    let mut c = from_required("http://x", "C", "P");
    c.auth.pat_env = "  ".to_owned();
    assert_eq!(msg(c), "`auth.pat_env` is empty");
}

#[test]
fn validate_accepts_exactly_http_schemes() {
    for (server, ok) in [
        ("http://h", true),
        ("https://h/tfs", true),
        ("https://", true),
        ("HTTP://h", false),
        ("http:/h", false),
        (" https://h", false),
    ] {
        assert_eq!(from_required(server, "C", "P").validate().is_ok(), ok, "server {server:?}");
    }
}

#[test]
fn pat_debug_does_not_leak_value() {
    let pat = Pat::new("super-secret-token-do-not-print".to_owned());
    let dbg = pat.debug_text();
    assert!(
        !dbg.contains("super-secret-token"),
        "debug output leaked secret: {dbg}",
    );
    assert!(
        dbg.contains("redacted"),
        "debug missing redaction marker: {dbg}"
    );
}

#[test]
fn pat_debug_depends_only_on_length() {
    assert_eq!(Pat::new("abc".to_owned()).debug_text(), "Pat(***redacted, len=3)");
    assert_eq!(Pat::new("xyz".to_owned()).debug_text(), "Pat(***redacted, len=3)");
    assert_eq!(Pat::new("é".to_owned()).debug_text(), "Pat(***redacted, len=2)");
    assert_eq!(Pat::new(String::new()).debug_text(), "Pat(***redacted, len=0)");
}

#[test]
fn pat_comes_from_a_non_empty_variable() {
    let cfg = from_required("https://x", "C", "P");
    assert_eq!(cfg.pat_from_env(Some("tok".to_owned())).expect("set").as_str(), "tok");
    assert!(matches!(cfg.pat_from_env(Some(String::new())), Err(AzdoError::PatMissing(n)) if n == "AZDO_PAT"));
    assert!(matches!(cfg.pat_from_env(None), Err(AzdoError::PatMissing(n)) if n == "AZDO_PAT"));
}

#[test]
fn overrides_replace_only_what_is_given() {
    let mut cfg = from_required("https://x", "C", "P");
    cfg.apply_overrides(None, Some("C2".to_owned()), None);
    assert_eq!(cfg.server, "https://x");
    assert_eq!(cfg.collection, "C2");
    assert_eq!(cfg.project, "P");
    cfg.apply_overrides(Some("http://y".to_owned()), None, Some("P2".to_owned()));
    assert_eq!(cfg.server, "http://y");
    assert_eq!(cfg.project, "P2");
}

fn product(id: Option<u32>) -> ProductConfig {
    ProductConfig { build_definition_id: id, test_state: None, test_comment_template: None }
}

#[test]
fn state_aliases_resolve_or_pass_through() {
    let mut cfg = from_required("https://x", "C", "P");
    cfg.states = vec![
        ("active".to_owned(), "Active".to_owned()),
        ("test".to_owned(), "Ready for Test".to_owned()),
    ];
    assert_eq!(cfg.resolve_state("test"), "Ready for Test");
    assert_eq!(cfg.resolve_state("Active"), "Active");
    assert_eq!(cfg.resolve_state("Closed"), "Closed");
}

#[test]
fn products_name_their_build_definition() {
    let mut cfg = from_required("https://x", "C", "P");
    cfg.products = vec![
        ("declaration".to_owned(), product(Some(42))),
        ("docs".to_owned(), product(None)),
    ];
    assert_eq!(cfg.product_definition("declaration").expect("configured"), 42);
    for missing in ["docs", "portal"] {
        match cfg.product_definition(missing) {
            Err(AzdoError::Config(m)) => {
                assert_eq!(m, format!("no build_definition_id for product `{missing}`"));
            }
            other => panic!("expected a config error, got {other:?}"),
        }
    }
}
