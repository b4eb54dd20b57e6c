use azdo::client::{
    basic_auth_value, check_status, ensure_leading_slash, trim_slash, AzdoClient,
};
use azdo::config::{AuthConfig, Config, Pat};
use azdo::error::AzdoError;

fn cfg() -> Config {
    Config {
        server: "https://azdo.company.local/tfs/".to_owned(),
        collection: "DefaultCollection".to_owned(),
        project: "Customs".to_owned(),
        api_version: "6.0".to_owned(),
        auth: AuthConfig::default(),
        wiki: None,
        states: Vec::new(),
        products: Vec::new(),
        profiles: Vec::new(),
        workflows: None,
    }
}

fn client() -> AzdoClient {
    let c = cfg();
    assert!(c.validate().is_ok(), "fixture config must validate");
    AzdoClient::new(&c, &Pat::new("x".to_owned())).expect("client must build")
}

#[test]
fn builds_collection_url() {
    assert_eq!(
        client().collection_url("/_apis/projects"),
        "https://azdo.company.local/tfs/DefaultCollection/_apis/projects",
    );
}

#[test]
fn builds_project_url() {
    assert_eq!(
        client().project_url("/_apis/wit/workitems/12345"),
        "https://azdo.company.local/tfs/DefaultCollection/Customs/_apis/wit/workitems/12345",
    );
}

#[test]
fn url_normalizes_missing_leading_slash() {
    assert_eq!(
        client().project_url("_apis/wit"),
        "https://azdo.company.local/tfs/DefaultCollection/Customs/_apis/wit",
    );
}

#[test]
fn trailing_slashes_are_all_removed() {
    assert_eq!(trim_slash("https://x/tfs///"), "https://x/tfs");
    assert_eq!(trim_slash("no-slash"), "no-slash");
    assert_eq!(trim_slash("///"), "");
}

#[test]
fn leading_slash_is_added_only_when_missing() {
    assert_eq!(ensure_leading_slash(""), "");
    assert_eq!(ensure_leading_slash("/a"), "/a");
    assert_eq!(ensure_leading_slash("a/b"), "/a/b");
}

#[test]
fn ping_and_web_urls() {
    let c = client();
    assert_eq!(
        c.ping_url(),
        "https://azdo.company.local/tfs/DefaultCollection/_apis/projects/Customs?api-version=6.0",
    );
    assert_eq!(
        c.web_item_url(42),
        "https://azdo.company.local/tfs/DefaultCollection/Customs/_workitems/edit/42",
    );
    assert_eq!(
        c.collection_api_url("/_apis/wit/workitemsbatch"),
        "https://azdo.company.local/tfs/DefaultCollection/_apis/wit/workitemsbatch?api-version=6.0",
    );
    assert_eq!(c.project_name(), "Customs");
    assert_eq!(c.api_version(), "6.0");
}

#[test]
fn basic_auth_encodes_colon_and_token() {
    assert_eq!(basic_auth_value(&Pat::new("x".to_owned())), "Basic Ong=");
    assert_eq!(
        basic_auth_value(&Pat::new("abc".to_owned())),
        "Basic OmFiYw==",
    );
}

#[test]
fn success_statuses_pass() {
    assert!(check_status(200, "u".to_owned(), "b").is_ok());
    assert!(check_status(299, "u".to_owned(), "b").is_ok());
}

#[test]
fn failed_status_keeps_url_and_truncates_body() {
    let long: String = "é".repeat(600);
    match check_status(404, "https://x/y".to_owned(), &long) {
        Err(AzdoError::Http { status, url, body }) => {
            assert_eq!(status, 404);
            assert_eq!(url, "https://x/y");
            assert_eq!(body.len(), 500);
            assert_eq!(body.chars().count(), 250);
        }
        other => panic!("expected an http error, got {other:?}"),
    }
    let ascii: String = "a".repeat(700);
    match check_status(500, "u".to_owned(), &ascii) {
        Err(AzdoError::Http { body, .. }) => assert_eq!(body, "a".repeat(500)),
        other => panic!("expected an http error, got {other:?}"),
    }
    let mixed: String = format!("{}{}", "a".repeat(499), "é");
    match check_status(500, "u".to_owned(), &mixed) {
        Err(AzdoError::Http { body, .. }) => {
            assert_eq!(body, "a".repeat(499), "a character that would cross the limit is left out")
        }
        other => panic!("expected an http error, got {other:?}"),
    }
    let emoji: String = "\u{1F600}".repeat(200);
    match check_status(500, "u".to_owned(), &emoji) {
        Err(AzdoError::Http { body, .. }) => {
            assert_eq!(body.len(), 500);
            assert_eq!(body.chars().count(), 125);
        }
        other => panic!("expected an http error, got {other:?}"),
    }
    match check_status(199, "u".to_owned(), "short") {
        Err(AzdoError::Http { body, .. }) => assert_eq!(body, "short"),
        other => panic!("expected an http error, got {other:?}"),
    }
}

#[test]
fn client_carries_the_authorization_header() {
    let c = AzdoClient::new(&cfg(), &Pat::new("abc".to_owned())).expect("client must build");
    assert_eq!(c.authorization(), "Basic OmFiYw==");
    let odd = AzdoClient::new(&cfg(), &Pat::new("tab\tand\nnewline é".to_owned()));
    assert!(odd.is_ok(), "base64 makes every token a valid header");
}

#[test]
fn base64_covers_every_remainder_and_utf8() {
    assert_eq!(basic_auth_value(&Pat::new("ab".to_owned())), "Basic OmFi");
    assert_eq!(basic_auth_value(&Pat::new("abcd".to_owned())), "Basic OmFiY2Q=");
    assert_eq!(basic_auth_value(&Pat::new("é".to_owned())), "Basic OsOp");
}
