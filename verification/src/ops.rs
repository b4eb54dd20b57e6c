//! The seam between what a workflow wants done and how it is done against
//! Azure DevOps and the user, split by capability: reads and user I/O,
//! writes, and the unclassified escape hatch. The dry-run wrapper holds no
//! writer at all, so it cannot forward a write.

use vstd::prelude::*;

use crate::error::{error_text, AzdoError};
use crate::text::{dec, push_decimal, push_str};

verus! {

/// Numeric work item id.
#[derive(Debug, Clone, Copy, PartialEq, Eq, Structural)]
pub struct WorkItemId(pub u64);

/// A read-only view of a work item, the fields a workflow may observe.
#[derive(Debug, Clone)]
pub struct Task {
    pub id: WorkItemId,
    pub kind: String,
    pub state: String,
    pub title: String,
    pub description: String,
    pub tags: Vec<String>,
    pub assigned_to: Option<String>,
    pub url: String,
}

/// A request for the `http` escape hatch.
#[derive(Debug, Clone)]
pub struct HttpReq {
    pub method: String,
    pub url: String,
    pub headers: Vec<(String, String)>,
    pub body: Option<String>,
}

/// The outcome of an `http` call.
#[derive(Debug, Clone)]
pub struct HttpResp {
    pub status: u16,
    pub body: String,
}

/// The outcome of an `sh` call.
#[derive(Debug, Clone)]
pub struct ShOut {
    pub code: i32,
    pub stdout: String,
    pub stderr: String,
}

/// Build parameters passed through to a queued build, in order.
#[derive(Debug, Clone)]
pub struct BuildParams(pub Vec<(String, String)>);

/// A reference to a queued build.
#[derive(Debug, Clone)]
pub struct BuildRef {
    pub id: u64,
    pub url: String,
}

/// Errors any backend method may report.
#[derive(Debug)]
pub enum OpsError {
    Network(String),
    Http { status: u16, body: String },
    Auth,
    NotFound(WorkItemId),
    Spawn(String),
    Io(String),
}

/// The three ways a workflow can end. `Done` and `Stop` both succeed;
/// `Stop` carries a reason for the log.
#[derive(Debug, Clone, PartialEq, Eq)]
pub enum Outcome {
    Done,
    Stop(String),
    Fail(String),
}

impl Outcome {
    /// Process exit code: `Done`/`Stop` succeed, `Fail` uses the dedicated
    /// code 6, after the range of the other error codes.
    pub fn exit_code(&self) -> (r: u8)
        ensures
            r == (match *self {
                Outcome::Fail(_) => 6u8,
                _ => 0u8,
            }),
    {
        match self {
            Outcome::Done | Outcome::Stop(_) => 0,
            Outcome::Fail(_) => 6,
        }
    }
}

/// The outcome of a script run, from what the script recorded and the
/// engine's error, if any.
pub fn finish_run(recorded: Option<Outcome>, script_error: Option<String>) -> (r: Outcome)
    ensures
        recorded matches Some(o) ==> r == o,
        recorded is None && script_error is None ==> r == Outcome::Done,
        recorded is None ==> (script_error matches Some(m) ==> (r matches Outcome::Fail(f) && f@
            == "script error: "@ + m@)),
{
    match recorded {
        Some(o) => o,
        None => match script_error {
            None => Outcome::Done,
            Some(m) => {
                let mut f = String::from_str("script error: ");
                push_str(&mut f, m.as_str());
                Outcome::Fail(f)
            },
        },
    }
}

impl OpsError {
    /// The backend error for a crate error: HTTP errors keep status and
    /// body, transport errors become network errors, a missing token is an
    /// authentication error, anything else an I/O error with its message.
    pub fn from_azdo(e: AzdoError) -> (r: OpsError)
        ensures
            match e {
                AzdoError::Http { status, url, body } => r matches OpsError::Http {
                    status: s,
                    body: b,
                } && s == status && b@ == body@,
                AzdoError::Transport(t) => r matches OpsError::Network(m) && m@ == t@,
                AzdoError::PatMissing(_) => r matches OpsError::Auth,
                _ => r matches OpsError::Io(m) && m@ == error_text(e),
            },
    {
        let msg = e.message();
        match e {
            AzdoError::Http { status, url, body } => OpsError::Http { status, body },
            AzdoError::Transport(t) => OpsError::Network(t),
            AzdoError::PatMissing(_) => OpsError::Auth,
            _ => OpsError::Io(msg),
        }
    }
}

/// Pure reads and user I/O; never mutates Azure DevOps state, so it runs
/// as is under dry-run.
pub trait ReadOps {
    /// Fetch a single work item.
    fn task(&self, id: WorkItemId) -> Result<Task, OpsError>;

    /// The caller's open work items.
    fn my_open(&self) -> Result<Vec<Task>, OpsError>;

    /// Read a wiki page's content by path.
    fn wiki_get(&self, path: &str) -> Result<String, OpsError>;

    /// Every page path under `root`.
    fn wiki_list(&self, root: &str) -> Result<Vec<String>, OpsError>;

    /// Print a line to the user.
    fn print(&self, msg: &str);

    /// Ask the user for a line of text.
    fn prompt(&self, msg: &str) -> Result<String, OpsError>;

    /// Ask the user a yes/no question.
    fn confirm(&self, msg: &str) -> Result<bool, OpsError>;

    /// Ask the user to pick one of `opts`; returns the chosen index.
    fn pick_one(&self, msg: &str, opts: &[String]) -> Result<usize, OpsError>;
}

/// The only surface that mutates Azure DevOps state.
pub trait WriteOps {
    /// Set the work item state (a state name or a `[states]` alias).
    fn set_state(&self, id: WorkItemId, state: &str) -> Result<(), OpsError>;

    /// Post a comment to the work item.
    fn comment(&self, id: WorkItemId, body: &str) -> Result<(), OpsError>;

    /// Queue a build and return a reference to it.
    fn build_start(&self, def: &str, params: BuildParams) -> Result<BuildRef, OpsError>;

    /// Create or overwrite a wiki page.
    fn wiki_put(&self, path: &str, content: &str) -> Result<(), OpsError>;
}

/// Arbitrary HTTP and subprocess calls to other services; the host cannot
/// tell whether they read or write, so they run as is under dry-run.
pub trait EscapeOps {
    /// Perform an arbitrary HTTP request.
    fn http(&self, req: HttpReq) -> Result<HttpResp, OpsError>;

    /// Run a subprocess with explicit arguments.
    fn sh(&self, cmd: &str, args: &[String]) -> Result<ShOut, OpsError>;
}

/// The full backend surface a workflow engine holds.
pub trait Ops: ReadOps + WriteOps + EscapeOps {

}

impl<T: ReadOps + WriteOps + EscapeOps> Ops for T {

}

/// The line printed in place of `set_state` under dry-run.
pub fn dry_set_state_note(id: WorkItemId, state: &str) -> (r: String)
    ensures
        r@ == "[dry-run] set_state #"@ + dec(id.0 as nat) + " -> "@ + state@,
{
    let mut s = String::from_str("[dry-run] set_state #");
    push_decimal(&mut s, id.0);
    push_str(&mut s, " -> ");
    push_str(&mut s, state);
    s
}

/// The line printed in place of `comment` under dry-run.
pub fn dry_comment_note(id: WorkItemId) -> (r: String)
    ensures
        r@ == "[dry-run] comment #"@ + dec(id.0 as nat),
{
    let mut s = String::from_str("[dry-run] comment #");
    push_decimal(&mut s, id.0);
    s
}

/// The line printed in place of `build_start` under dry-run.
pub fn dry_build_start_note(def: &str) -> (r: String)
    ensures
        r@ == "[dry-run] build_start "@ + def@,
{
    let mut s = String::from_str("[dry-run] build_start ");
    push_str(&mut s, def);
    s
}

/// The line printed in place of `wiki_put` under dry-run.
pub fn dry_wiki_put_note(path: &str) -> (r: String)
    ensures
        r@ == "[dry-run] wiki_put "@ + path@,
{
    let mut s = String::from_str("[dry-run] wiki_put ");
    push_str(&mut s, path);
    s
}

/// Dry-run wrapper: reads, user I/O and the escape hatch are passed to the
/// wrapped backend; each write is replaced by a printed note and a fake
/// success. It is generic over reads and escape only, so it holds nothing
/// that could write.
#[derive(Debug)]
pub struct DryRun<R: ReadOps + EscapeOps> {
    inner: R,
}

impl<R: ReadOps + EscapeOps> DryRun<R> {
    /// The wrapped backend.
    pub closed spec fn backend(&self) -> R {
        self.inner
    }

    /// Wraps a backend.
    pub fn new(inner: R) -> (r: Self)
        ensures
            r.backend() == inner,
    {
        DryRun { inner }
    }

    /// Unwrap the dry-run shell, returning the wrapped backend.
    pub fn into_inner(self) -> (r: R)
        ensures
            r == self.backend(),
    {
        self.inner
    }
}

// Reads, user I/O and the escape hatch: each hands its arguments, unchanged,
// to the same method of the wrapped backend and returns what that method
// gives back (`call_ensures` of the backend's method on those arguments).
impl<R: ReadOps + EscapeOps> ReadOps for DryRun<R> {
    fn task(&self, id: WorkItemId) -> (r: Result<Task, OpsError>)
        ensures
            call_ensures(R::task, (&self.backend(), id), r),
    {
        self.inner.task(id)
    }

    fn my_open(&self) -> (r: Result<Vec<Task>, OpsError>)
        ensures
            call_ensures(R::my_open, (&self.backend(),), r),
    {
        self.inner.my_open()
    }

    fn wiki_get(&self, path: &str) -> (r: Result<String, OpsError>)
        ensures
            call_ensures(R::wiki_get, (&self.backend(), path), r),
    {
        self.inner.wiki_get(path)
    }

    fn wiki_list(&self, root: &str) -> (r: Result<Vec<String>, OpsError>)
        ensures
            call_ensures(R::wiki_list, (&self.backend(), root), r),
    {
        self.inner.wiki_list(root)
    }

    fn print(&self, msg: &str)
        ensures
            call_ensures(R::print, (&self.backend(), msg), ()),
    {
        self.inner.print(msg);
    }

    fn prompt(&self, msg: &str) -> (r: Result<String, OpsError>)
        ensures
            call_ensures(R::prompt, (&self.backend(), msg), r),
    {
        self.inner.prompt(msg)
    }

    fn confirm(&self, msg: &str) -> (r: Result<bool, OpsError>)
        ensures
            call_ensures(R::confirm, (&self.backend(), msg), r),
    {
        self.inner.confirm(msg)
    }

    fn pick_one(&self, msg: &str, opts: &[String]) -> (r: Result<usize, OpsError>)
        ensures
            call_ensures(R::pick_one, (&self.backend(), msg, opts), r),
    {
        self.inner.pick_one(msg, opts)
    }
}

impl<R: ReadOps + EscapeOps> EscapeOps for DryRun<R> {
    fn http(&self, req: HttpReq) -> (r: Result<HttpResp, OpsError>)
        ensures
            call_ensures(R::http, (&self.backend(), req), r),
    {
        self.inner.http(req)
    }

    fn sh(&self, cmd: &str, args: &[String]) -> (r: Result<ShOut, OpsError>)
        ensures
            call_ensures(R::sh, (&self.backend(), cmd, args), r),
    {
        self.inner.sh(cmd, args)
    }
}

// Writes: each hands the backend's `print` its `[dry-run]` note and
// succeeds without any call that could write.
impl<R: ReadOps + EscapeOps> WriteOps for DryRun<R> {
    fn set_state(&self, id: WorkItemId, state: &str) -> (r: Result<(), OpsError>)
        ensures
            exists|note: &str|
                note@ == "[dry-run] set_state #"@ + dec(id.0 as nat) + " -> "@ + state@
                    && #[trigger] call_ensures(R::print, (&self.backend(), note), ()),
            r is Ok,
    {
        let note = dry_set_state_note(id, state);
        let shown = note.as_str();
        self.inner.print(shown);
        assert(call_ensures(R::print, (&self.backend(), shown), ()));
        Ok(())
    }

    fn comment(&self, id: WorkItemId, body: &str) -> (r: Result<(), OpsError>)
        ensures
            exists|note: &str|
                note@ == "[dry-run] comment #"@ + dec(id.0 as nat)
                    && #[trigger] call_ensures(R::print, (&self.backend(), note), ()),
            r is Ok,
    {
        let note = dry_comment_note(id);
        let shown = note.as_str();
        self.inner.print(shown);
        assert(call_ensures(R::print, (&self.backend(), shown), ()));
        Ok(())
    }

    fn build_start(&self, def: &str, params: BuildParams) -> (r: Result<BuildRef, OpsError>)
        ensures
            exists|note: &str|
                note@ == "[dry-run] build_start "@ + def@
                    && #[trigger] call_ensures(R::print, (&self.backend(), note), ()),
            r matches Ok(b) && b.id == 0 && b.url@ == "dry-run://build"@,
    {
        let note = dry_build_start_note(def);
        let shown = note.as_str();
        self.inner.print(shown);
        assert(call_ensures(R::print, (&self.backend(), shown), ()));
        Ok(BuildRef { id: 0, url: String::from_str("dry-run://build") })
    }

    fn wiki_put(&self, path: &str, content: &str) -> (r: Result<(), OpsError>)
        ensures
            exists|note: &str|
                note@ == "[dry-run] wiki_put "@ + path@
                    && #[trigger] call_ensures(R::print, (&self.backend(), note), ()),
            r is Ok,
    {
        let note = dry_wiki_put_note(path);
        let shown = note.as_str();
        self.inner.print(shown);
        assert(call_ensures(R::print, (&self.backend(), shown), ()));
        Ok(())
    }
}

} // verus!
