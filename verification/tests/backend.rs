use azdo::backend::{
    build_definitions, build_parameters, build_ref, find_build_definition, not_wired, plan_build,
    script_int, script_item_id, sorted_params, task_from_item, wiki_id_of,
};
use azdo::client::AzdoClient;
use azdo::config::{AuthConfig, Config, Pat, ProductConfig, WikiConfig};
use azdo::ops::{BuildParams, OpsError, WorkItemId};
use azdo::workitem::{Fields, WorkItem};

fn pairs(p: &[(&str, &str)]) -> Vec<(String, String)> {
    p.iter().map(|(k, v)| ((*k).to_owned(), (*v).to_owned())).collect()
}

fn client() -> AzdoClient {
    let cfg = Config {
        server: "https://h/tfs".to_owned(),
        collection: "C".to_owned(),
        project: "P".to_owned(),
        api_version: "6.0".to_owned(),
        auth: AuthConfig::default(),
        wiki: None,
        states: Vec::new(),
        products: Vec::new(),
        profiles: Vec::new(),
        workflows: None,
    };
    AzdoClient::new(&cfg, &Pat::new("x".to_owned())).expect("client must build")
}

#[test]
fn params_are_sorted_and_the_last_value_wins() {
    let sorted = sorted_params(&pairs(&[("b", "1"), ("a", "2"), ("b", "3"), ("é", "4"), ("Z", "5")]));
    assert_eq!(sorted, pairs(&[("Z", "5"), ("a", "2"), ("b", "3"), ("é", "4")]));
    assert!(sorted_params(&Vec::new()).is_empty());
}

#[test]
fn params_travel_as_a_json_object_string() {
    assert_eq!(build_parameters(&Vec::new()), None);
    assert_eq!(
        build_parameters(&pairs(&[("WorkItemId", "12345")])).as_deref(),
        Some(r#"{"WorkItemId":"12345"}"#),
    );
    assert_eq!(
        build_parameters(&pairs(&[("b", "x\"y"), ("a", "1"), ("b", "2")])).as_deref(),
        Some(r#"{"a":"1","b":"2"}"#),
    );
    assert_eq!(
        build_parameters(&pairs(&[("q", "say \"hi\"\n")])).as_deref(),
        Some(r#"{"q":"say \"hi\"\n"}"#),
    );
}

#[test]
fn products_without_a_definition_are_left_out() {
    let product = |id: Option<u32>| ProductConfig {
        build_definition_id: id,
        test_state: None,
        test_comment_template: None,
    };
    let products = vec![
        ("declaration".to_owned(), product(Some(42))),
        ("docs".to_owned(), product(None)),
        ("portal".to_owned(), product(Some(7))),
    ];
    let defs = build_definitions(&products);
    assert_eq!(defs, vec![("declaration".to_owned(), 42), ("portal".to_owned(), 7)]);
    assert_eq!(find_build_definition(&defs, "portal").expect("named"), 7);
    match find_build_definition(&defs, "docs") {
        Err(OpsError::Io(m)) => assert_eq!(m, "no build_definition_id for product `docs`"),
        other => panic!("expected an io error, got {other:?}"),
    }
}

#[test]
fn a_build_plan_names_the_definition_and_parameters() {
    let defs = vec![("declaration".to_owned(), 42)];
    let (id, params) = plan_build(&defs, "declaration", &BuildParams(pairs(&[("WorkItemId", "12345")])))
        .expect("planned");
    assert_eq!(id, 42);
    assert_eq!(params.as_deref(), Some(r#"{"WorkItemId":"12345"}"#));
    let (_, none) = plan_build(&defs, "declaration", &BuildParams(vec![])).expect("planned");
    assert_eq!(none, None);
    assert!(matches!(plan_build(&defs, "x", &BuildParams(vec![])), Err(OpsError::Io(_))));
    let r = build_ref(&client(), 9001);
    assert_eq!(r.id, 9001);
    assert_eq!(r.url, "https://h/tfs/C/P/_build/results?buildId=9001");
}

#[test]
fn a_task_is_the_item_under_the_asked_id() {
    let item = WorkItem {
        id: 12,
        fields: Fields {
            work_item_type: "Bug".to_owned(),
            state: "Ready for Release".to_owned(),
            title: "ship it".to_owned(),
            assigned_to: None,
            changed_date: None,
            tags: Some("a; b".to_owned()),
            description: Some("<p>Body</p>".to_owned()),
        },
    };
    let t = task_from_item(&client(), WorkItemId(12345), &item).expect("task");
    assert_eq!(t.id, WorkItemId(12345));
    assert_eq!(t.kind, "Bug");
    assert_eq!(t.state, "Ready for Release");
    assert_eq!(t.title, "ship it");
    assert_eq!(t.description, "Body");
    assert!(t.tags.is_empty());
    assert_eq!(t.assigned_to, None);
    assert_eq!(t.url, "https://h/tfs/C/P/_workitems/edit/12");
}

#[test]
fn unconfigured_and_unwired_surfaces_fail_honestly() {
    let wiki = Some(WikiConfig { id: "TeamWiki".to_owned(), daily_path: "/D".to_owned() });
    assert_eq!(wiki_id_of(&wiki).expect("configured"), "TeamWiki");
    match wiki_id_of(&None) {
        Err(OpsError::Io(m)) => assert_eq!(m, "no `[wiki]` section in config"),
        other => panic!("expected an io error, got {other:?}"),
    }
    match not_wired("prompt") {
        OpsError::Io(m) => assert_eq!(m, "prompt: not wired in the S8 + Rhai spike stage"),
        other => panic!("expected an io error, got {other:?}"),
    }
}

#[test]
fn script_integers_are_range_checked() {
    assert_eq!(script_item_id(5), Ok(5));
    assert_eq!(script_item_id(-1), Err("task: id must be >= 0".to_owned()));
    assert_eq!(script_int(9001, "build id"), Ok(9001));
    assert_eq!(script_int(u64::MAX, "build id"), Err("build id overflows i64".to_owned()));
    assert_eq!(script_int(i64::MAX as u64, "task id"), Ok(i64::MAX));
}

#[test]
fn parameter_order_does_not_change_the_string() {
    let a = build_parameters(&pairs(&[("b", "2"), ("a", "1"), ("c", "0"), ("c", "3")]));
    let b = build_parameters(&pairs(&[("c", "3"), ("a", "1"), ("b", "2")]));
    assert_eq!(a, b);
    assert_eq!(a.as_deref(), Some(r#"{"a":"1","b":"2","c":"3"}"#));
}

#[test]
fn parameter_strings_escape_like_json() {
    assert_eq!(
        build_parameters(&pairs(&[("k", "a\u{1}b\u{7f}\t\\/é")])).as_deref(),
        Some("{\"k\":\"a\\u0001b\u{7f}\\t\\\\/é\"}"),
    );
}
