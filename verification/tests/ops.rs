use std::cell::RefCell;

use azdo::error::AzdoError;
use azdo::ops::{
    dry_build_start_note, dry_comment_note, dry_set_state_note, dry_wiki_put_note, finish_run,
    BuildParams, BuildRef, DryRun, EscapeOps, HttpReq, HttpResp, OpsError, Outcome, ReadOps,
    ShOut, Task, WorkItemId, WriteOps,
};

/// Records every call as a string: reads and escape must reach it, writes
/// must not.
#[derive(Debug, Default)]
struct Recording {
    calls: RefCell<Vec<String>>,
}

impl Recording {
    fn log(&self, s: &str) {
        self.calls.borrow_mut().push(s.to_owned());
    }
    fn calls(&self) -> Vec<String> {
        self.calls.borrow().clone()
    }
}

impl ReadOps for Recording {
    fn task(&self, id: WorkItemId) -> Result<Task, OpsError> {
        self.log(&format!("task {}", id.0));
        Ok(Task {
            id,
            kind: "Bug".to_owned(),
            state: "Active".to_owned(),
            title: "t".to_owned(),
            description: String::new(),
            tags: vec![],
            assigned_to: None,
            url: "u".to_owned(),
        })
    }
    fn my_open(&self) -> Result<Vec<Task>, OpsError> {
        self.log("my_open");
        Ok(vec![])
    }
    fn wiki_get(&self, path: &str) -> Result<String, OpsError> {
        self.log(&format!("wiki_get {path}"));
        Ok(String::new())
    }
    fn wiki_list(&self, root: &str) -> Result<Vec<String>, OpsError> {
        self.log(&format!("wiki_list {root}"));
        Ok(vec![])
    }
    fn print(&self, msg: &str) {
        self.log(&format!("print {msg}"));
    }
    fn prompt(&self, _msg: &str) -> Result<String, OpsError> {
        self.log("prompt");
        Ok(String::new())
    }
    fn confirm(&self, _msg: &str) -> Result<bool, OpsError> {
        self.log("confirm");
        Ok(true)
    }
    fn pick_one(&self, _msg: &str, _opts: &[String]) -> Result<usize, OpsError> {
        self.log("choose");
        Ok(0)
    }
}

impl EscapeOps for Recording {
    fn http(&self, req: HttpReq) -> Result<HttpResp, OpsError> {
        self.log(&format!("http {} {}", req.method, req.url));
        Ok(HttpResp { status: 200, body: String::new() })
    }
    fn sh(&self, cmd: &str, _args: &[String]) -> Result<ShOut, OpsError> {
        self.log(&format!("sh {cmd}"));
        Ok(ShOut { code: 0, stdout: String::new(), stderr: String::new() })
    }
}

impl WriteOps for Recording {
    fn set_state(&self, id: WorkItemId, state: &str) -> Result<(), OpsError> {
        self.log(&format!("set_state {} {state}", id.0));
        Ok(())
    }
    fn comment(&self, id: WorkItemId, body: &str) -> Result<(), OpsError> {
        self.log(&format!("comment {} {body}", id.0));
        Ok(())
    }
    fn build_start(&self, def: &str, _params: BuildParams) -> Result<BuildRef, OpsError> {
        self.log(&format!("build_start {def}"));
        Ok(BuildRef { id: 1, url: "real".to_owned() })
    }
    fn wiki_put(&self, path: &str, _content: &str) -> Result<(), OpsError> {
        self.log(&format!("wiki_put {path}"));
        Ok(())
    }
}

#[test]
fn outcome_exit_codes() {
    assert_eq!(Outcome::Done.exit_code(), 0, "Done succeeds");
    assert_eq!(
        Outcome::Stop("x".to_owned()).exit_code(),
        0,
        "an informative Stop is not a failure",
    );
    assert_eq!(
        Outcome::Fail("x".to_owned()).exit_code(),
        6,
        "a workflow abort uses the dedicated code 6",
    );
}

#[test]
fn dry_run_passes_reads_and_escape_through_to_backend() {
    let dry = DryRun::new(Recording::default());
    dry.task(WorkItemId(7)).expect("read ok");
    drop(dry.my_open().expect("read ok"));
    drop(
        dry.http(HttpReq {
            method: "GET".to_owned(),
            url: "svc".to_owned(),
            headers: vec![],
            body: None,
        })
        .expect("escape ok"),
    );
    assert_eq!(
        dry.into_inner().calls(),
        vec![
            "task 7".to_owned(),
            "my_open".to_owned(),
            "http GET svc".to_owned(),
        ],
        "reads and escape reach the backend unchanged",
    );
}

#[test]
fn dry_run_stubs_writes_without_touching_backend() {
    let dry = DryRun::new(Recording::default());
    dry.set_state(WorkItemId(42), "Done").expect("stubbed");
    dry.comment(WorkItemId(42), "hi").expect("stubbed");
    drop(dry.build_start("Rel", BuildParams(vec![])).expect("stubbed"));
    dry.wiki_put("/p", "c").expect("stubbed");
    let logged = dry.into_inner().calls();
    assert!(
        logged.iter().all(|c| c.starts_with("print [dry-run] ")),
        "writes must only produce dry-run prints, got {logged:?}",
    );
    assert!(
        !logged.iter().any(|c| c.starts_with("set_state ")
            || c.starts_with("comment ")
            || c.starts_with("build_start ")
            || c.starts_with("wiki_put ")),
        "no real mutating call may reach the backend, got {logged:?}",
    );
}

#[test]
fn dry_run_notes_are_exact() {
    let dry = DryRun::new(Recording::default());
    dry.set_state(WorkItemId(42), "Done").expect("stubbed");
    dry.comment(WorkItemId(42), "hi").expect("stubbed");
    let b = dry.build_start("Rel", BuildParams(vec![("k".to_owned(), "v".to_owned())])).expect("stubbed");
    assert_eq!(b.id, 0);
    assert_eq!(b.url, "dry-run://build");
    dry.wiki_put("/p", "c").expect("stubbed");
    assert_eq!(
        dry.into_inner().calls(),
        vec![
            "print [dry-run] set_state #42 -> Done",
            "print [dry-run] comment #42",
            "print [dry-run] build_start Rel",
            "print [dry-run] wiki_put /p",
        ],
    );
    assert_eq!(dry_set_state_note(WorkItemId(1), "x"), "[dry-run] set_state #1 -> x");
    assert_eq!(dry_comment_note(WorkItemId(0)), "[dry-run] comment #0");
    assert_eq!(dry_build_start_note(""), "[dry-run] build_start ");
    assert_eq!(dry_wiki_put_note("/a/b"), "[dry-run] wiki_put /a/b");
}

#[test]
fn run_outcome_prefers_what_the_script_recorded() {
    assert_eq!(finish_run(None, None), Outcome::Done);
    assert_eq!(
        finish_run(Some(Outcome::Stop("s".to_owned())), Some("boom".to_owned())),
        Outcome::Stop("s".to_owned()),
    );
    assert_eq!(
        finish_run(None, Some("Syntax error".to_owned())),
        Outcome::Fail("script error: Syntax error".to_owned()),
    );
    match finish_run(None, Some("x".to_owned())) {
        Outcome::Fail(msg) => assert!(msg.starts_with("script error:")),
        other => panic!("expected Fail, got {other:?}"),
    }
}

#[test]
fn crate_errors_map_to_backend_errors() {
    assert!(matches!(
        OpsError::from_azdo(AzdoError::Http { status: 404, url: "u".to_owned(), body: "b".to_owned() }),
        OpsError::Http { status: 404, body } if body == "b"
    ));
    assert!(matches!(
        OpsError::from_azdo(AzdoError::Transport("t".to_owned())),
        OpsError::Network(m) if m == "t"
    ));
    assert!(matches!(OpsError::from_azdo(AzdoError::PatMissing("X".to_owned())), OpsError::Auth));
    assert!(matches!(
        OpsError::from_azdo(AzdoError::Render("r".to_owned())),
        OpsError::Io(m) if m == "render error: r"
    ));
}
