use azdo::browser::opener_command;

const URL: &str = "https://azdo.local/tfs/Col/Proj/_workitems/edit/42";

#[test]
fn opener_command_targets_the_url() {
    let (program, args) = opener_command(URL, true);
    assert_eq!(program, "cmd", "windows uses cmd");
    assert_eq!(
        args,
        ["/C", "start", "", URL],
        "windows passes an empty title then the url to `start`",
    );
    let (program, args) = opener_command(URL, false);
    assert_eq!(program, "xdg-open", "non-windows uses xdg-open");
    assert_eq!(args, [URL], "xdg-open receives the url verbatim");
}
