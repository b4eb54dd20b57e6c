use azdo::builds::{build_results_url, builds_url, Build};
use azdo::client::AzdoClient;
use azdo::config::{AuthConfig, Config, Pat};

fn build(status: Option<&str>, result: Option<&str>, number: Option<&str>) -> Build {
    Build {
        id: 1,
        status: status.map(str::to_owned),
        result: result.map(str::to_owned),
        number: number.map(str::to_owned),
    }
}

#[test]
fn completion_is_driven_by_status_field() {
    let running = build(Some("inProgress"), None, None);
    assert!(!running.is_complete(), "inProgress is not terminal");

    let done = build(Some("completed"), Some("succeeded"), Some("20260517.1"));
    assert!(done.is_complete(), "completed is terminal");
    assert_eq!(done.result.as_deref(), Some("succeeded"));
    assert_eq!(done.number.as_deref(), Some("20260517.1"));

    let no_status = build(None, None, None);
    assert!(
        !no_status.is_complete(),
        "a missing status must not read as complete",
    );
}

#[test]
fn build_urls() {
    let cfg = Config {
        server: "https://h/tfs/".to_owned(),
        collection: "C".to_owned(),
        project: "P".to_owned(),
        api_version: "7.1".to_owned(),
        auth: AuthConfig::default(),
        wiki: None,
        states: Vec::new(),
        products: Vec::new(),
        profiles: Vec::new(),
        workflows: None,
    };
    let client = AzdoClient::new(&cfg, &Pat::new("x".to_owned())).expect("client must build");
    assert_eq!(builds_url(&client, ""), "https://h/tfs/C/P/_apis/build/builds?api-version=7.1");
    assert_eq!(builds_url(&client, "/17"), "https://h/tfs/C/P/_apis/build/builds/17?api-version=7.1");
    assert_eq!(build_results_url(&client, 17), "https://h/tfs/C/P/_build/results?buildId=17");
}
