use azdo::client::AzdoClient;
use azdo::builds::Build;
use azdo::commands::{
    build_args, build_done_line, comment_body, comment_posted_line, comments_to_fetch,
    comments_url, config_not_found, default_config_path, exit_status, item_url, no_config_dir,
    opening_line, parse_param, ping_line, queued_line, state_set_line, task_report, task_view,
    workflow_names, workflow_path, TaskView,
};
use azdo::config::{AuthConfig, Config, Pat};
use azdo::error::AzdoError;
use azdo::workitem::{Comment, Fields, WorkItem};

fn client() -> AzdoClient {
    let cfg = Config {
        server: "https://h/tfs/".to_owned(),
        collection: "C".to_owned(),
        project: "P".to_owned(),
        api_version: "6.0".to_owned(),
        auth: AuthConfig::default(),
        wiki: None,
        states: Vec::new(),
        products: Vec::new(),
        profiles: Vec::new(),
        workflows: None,
    };
    AzdoClient::new(&cfg, &Pat::new("x".to_owned())).expect("client must build")
}

fn item() -> WorkItem {
    WorkItem {
        id: 7,
        fields: Fields {
            work_item_type: "Task".to_owned(),
            state: "New".to_owned(),
            title: "Wire up the thing".to_owned(),
            assigned_to: None,
            changed_date: None,
            tags: None,
            description: None,
        },
    }
}

#[test]
fn config_path_by_platform() {
    let s = |v: &str| Some(v.to_owned());
    assert_eq!(
        default_config_path(None, s("/x"), s("/home/u"), false).as_deref(),
        Some("/x/azdo/config.toml"),
    );
    assert_eq!(
        default_config_path(None, s("/x/"), None, false).as_deref(),
        Some("/x/azdo/config.toml"),
    );
    assert_eq!(
        default_config_path(None, None, s("/home/u"), false).as_deref(),
        Some("/home/u/.config/azdo/config.toml"),
    );
    assert_eq!(default_config_path(s("C:\\A"), None, None, false), None);
    assert_eq!(
        default_config_path(s("C:\\Users\\u\\AppData"), s("/x"), None, true).as_deref(),
        Some("C:\\Users\\u\\AppData\\azdo\\config.toml"),
    );
    assert_eq!(default_config_path(None, s("/x"), s("/h"), true), None);
}

#[test]
fn config_errors_read_as_the_cli_prints_them() {
    assert_eq!(no_config_dir().message(), "config error: cannot resolve config directory");
    assert_eq!(
        config_not_found("/etc/azdo.toml").message(),
        "config error: config file not found: /etc/azdo.toml",
    );
}

#[test]
fn ping_reports_status_and_project() {
    assert_eq!(ping_line(200, "Customs"), "OK 200 (project \"Customs\" accessible)");
}

#[test]
fn only_a_positive_count_fetches_comments() {
    assert_eq!(comments_to_fetch(None), None);
    assert_eq!(comments_to_fetch(Some(0)), None);
    assert_eq!(comments_to_fetch(Some(5)), Some(5));
}

#[test]
fn task_report_appends_the_comments_section() {
    let plain = task_report(&item(), None).expect("renders");
    assert_eq!(
        plain,
        "#7  [Task]  State: New\nTitle:    Wire up the thing\nAssignee: Unassigned\n\nDescription:\n(none)",
    );
    let none: Vec<Comment> = Vec::new();
    let with = task_report(&item(), Some(&none)).expect("renders");
    assert_eq!(with, format!("{plain}\n\nComments: (none)"));
}

#[test]
fn exit_status_of_each_outcome() {
    assert_eq!(exit_status(&Ok(())), 0);
    assert_eq!(exit_status(&Err(AzdoError::PatMissing("X".to_owned()))), 2);
    assert_eq!(
        exit_status(&Err(AzdoError::Http { status: 503, url: String::new(), body: String::new() })),
        5,
    );
}

#[test]
fn item_and_comment_urls() {
    let c = client();
    assert_eq!(item_url(&c, 12345), "https://h/tfs/C/_apis/wit/workitems/12345?api-version=6.0");
    assert_eq!(
        comments_url(&c, 12345, 200),
        "https://h/tfs/C/P/_apis/wit/workItems/12345/comments?api-version=6.0-preview.3&$top=200",
    );
}

#[test]
fn comment_bodies_are_trimmed_and_never_blank() {
    assert_eq!(comment_body("  looks good \n").expect("body"), "looks good");
    match comment_body(" \n\t") {
        Err(AzdoError::Input(m)) => assert_eq!(m, "comment body is empty"),
        other => panic!("expected an input error, got {other:?}"),
    }
    assert_eq!(comment_posted_line(12345), "comment posted to #12345");
}

#[test]
fn state_and_browser_lines() {
    assert_eq!(
        state_set_line(12345, "Ready for Test"),
        "work item #12345 state set to \"Ready for Test\"",
    );
    assert_eq!(opening_line("https://h/x"), "opening https://h/x");
}

#[test]
fn open_comes_before_the_viewer() {
    assert_eq!(task_view(true, true), TaskView::Browser);
    assert_eq!(task_view(true, false), TaskView::Browser);
    assert_eq!(task_view(false, true), TaskView::Viewer);
    assert_eq!(task_view(false, false), TaskView::Text);
}

#[test]
fn params_split_at_the_first_equals_sign() {
    assert_eq!(parse_param("k=v").expect("pair"), ("k".to_owned(), "v".to_owned()));
    assert_eq!(parse_param("k=a=b").expect("pair"), ("k".to_owned(), "a=b".to_owned()));
    assert_eq!(parse_param("k=").expect("pair"), ("k".to_owned(), String::new()));
    match parse_param("=v") {
        Err(AzdoError::Input(m)) => assert_eq!(m, "`--param` has an empty key: =v"),
        other => panic!("expected an input error, got {other:?}"),
    }
    match parse_param("kv") {
        Err(AzdoError::Input(m)) => assert_eq!(m, "`--param` needs key=value: kv"),
        other => panic!("expected an input error, got {other:?}"),
    }
}

#[test]
fn build_arguments_fold_the_work_item_first() {
    let params = vec!["env=staging".to_owned(), "x=1".to_owned()];
    assert_eq!(
        build_args(Some(12345), &params).expect("args"),
        vec![
            ("WorkItemId".to_owned(), "12345".to_owned()),
            ("env".to_owned(), "staging".to_owned()),
            ("x".to_owned(), "1".to_owned()),
        ],
    );
    assert!(build_args(None, &Vec::new()).expect("args").is_empty());
    assert!(matches!(build_args(Some(1), &vec!["bad".to_owned()]), Err(AzdoError::Input(_))));
}

#[test]
fn build_args_reports_the_first_bad_param() {
    let params = vec!["a=1".to_owned(), "=x".to_owned(), "bad".to_owned()];
    match build_args(None, &params) {
        Err(AzdoError::Input(m)) => assert_eq!(m, "`--param` has an empty key: =x"),
        other => panic!("expected an input error, got {other:?}"),
    }
    let params = vec!["a=1".to_owned(), "bad".to_owned(), "=x".to_owned()];
    match build_args(Some(3), &params) {
        Err(AzdoError::Input(m)) => assert_eq!(m, "`--param` needs key=value: bad"),
        other => panic!("expected an input error, got {other:?}"),
    }
}

#[test]
fn build_report_lines() {
    assert_eq!(queued_line(9001, 42), "queued build #9001 (definition 42)");
    let b = Build {
        id: 9001,
        status: Some("completed".to_owned()),
        result: Some("succeeded".to_owned()),
        number: Some("20260517.1".to_owned()),
    };
    assert_eq!(build_done_line(&b), "build #9001 succeeded [20260517.1]");
    let bare = Build { id: 3, status: None, result: None, number: None };
    assert_eq!(build_done_line(&bare), "build #3 completed");
}

#[test]
fn workflow_targets_resolve() {
    assert_eq!(workflow_path(None, "daily.rhai", false).expect("path"), "daily.rhai");
    assert_eq!(workflow_path(None, "./scripts/x", false).expect("path"), "./scripts/x");
    assert_eq!(workflow_path(Some("/w"), "daily", false).expect("path"), "/w/daily.rhai");
    assert_eq!(workflow_path(Some("C:\\w"), "daily", true).expect("path"), "C:\\w\\daily.rhai");
    assert_eq!(workflow_path(Some("/w"), "a\\b", true).expect("path"), "a\\b");
    assert_eq!(workflow_path(Some("/w"), "a\\b", false).expect("path"), "/w/a\\b.rhai");
    match workflow_path(None, "daily", false) {
        Err(AzdoError::Config(m)) => assert_eq!(m, "no `[workflows]` dir configured for `daily`"),
        other => panic!("expected a config error, got {other:?}"),
    }
}

#[test]
fn workflow_listing_keeps_scripts_only() {
    let files = vec!["daily.rhai".to_owned(), "notes.txt".to_owned(), ".rhai".to_owned(), "send.rhai".to_owned()];
    assert_eq!(workflow_names(&files), vec!["daily".to_owned(), String::new(), "send".to_owned()]);
}
