use azdo::client::AzdoClient;
use azdo::config::{AuthConfig, Config, Pat};
use azdo::wiki::{flatten, page_content, page_paths, pages_url, WikiPage};

fn page(path: &str, sub_pages: Vec<WikiPage>) -> WikiPage {
    WikiPage { path: path.to_owned(), content: None, sub_pages }
}

fn tree() -> WikiPage {
    page(
        "/Daily",
        vec![
            page("", vec![page("/Daily/2026", vec![])]),
            page(
                "/Daily/2026/Q1",
                vec![
                    page("/Daily/2026/Q1/30.01.2026", vec![]),
                    page("/Daily/2026/Q1/31.12.2025", vec![]),
                ],
            ),
        ],
    )
}

#[test]
fn flatten_is_preorder_and_skips_empty_paths() {
    let mut out = Vec::new();
    flatten(&tree(), &mut out);
    assert_eq!(
        out,
        vec![
            "/Daily".to_owned(),
            "/Daily/2026".to_owned(),
            "/Daily/2026/Q1".to_owned(),
            "/Daily/2026/Q1/30.01.2026".to_owned(),
            "/Daily/2026/Q1/31.12.2025".to_owned(),
        ],
        "flatten must be pre-order and drop empty-path nodes",
    );
}

#[test]
fn flatten_appends_to_what_is_there() {
    let mut out = vec!["kept".to_owned()];
    flatten(&page("/x", vec![]), &mut out);
    assert_eq!(out, vec!["kept".to_owned(), "/x".to_owned()]);
    assert_eq!(page_paths(&tree()).len(), 5);
}

#[test]
fn absent_content_reads_empty() {
    assert_eq!(page_content(page("/p", vec![])), "");
    let with = WikiPage { path: "/p".to_owned(), content: Some("body".to_owned()), sub_pages: vec![] };
    assert_eq!(page_content(with), "body");
}

#[test]
fn pages_endpoint_is_under_the_project() {
    let cfg = Config {
        server: "https://h/tfs".to_owned(),
        collection: "C".to_owned(),
        project: "P".to_owned(),
        api_version: "6.0".to_owned(),
        auth: AuthConfig::default(),
        wiki: None,
        states: Vec::new(),
        products: Vec::new(),
        profiles: Vec::new(),
        workflows: None,
    };
    let client = AzdoClient::new(&cfg, &Pat::new("x".to_owned())).expect("client must build");
    assert_eq!(pages_url(&client, "TeamWiki"), "https://h/tfs/C/P/_apis/wiki/wikis/TeamWiki/pages");
}

#[test]
fn page_queries() {
    let q = |v: Vec<(String, String)>| v.into_iter().map(|(k, v)| format!("{k}={v}")).collect::<Vec<_>>();
    assert_eq!(
        q(azdo::wiki::page_get_query("/D/p", "6.0")),
        vec!["path=/D/p", "includeContent=true", "api-version=6.0"],
    );
    assert_eq!(
        q(azdo::wiki::page_list_query("/D", "6.0")),
        vec!["path=/D", "recursionLevel=full", "api-version=6.0"],
    );
    assert_eq!(q(azdo::wiki::page_put_query("/D/p", "6.0")), vec!["path=/D/p", "api-version=6.0"]);
}
