//! What the command-line front end prints and decides: where the
//! configuration file is looked for, the report of each command, and the
//! process status. Reading, fetching and printing are the caller's.

use vstd::prelude::*;

use crate::client::AzdoClient;
use crate::error::{exit_code_of, exit_number, AzdoError};
use crate::backend::pair_texts;
use crate::builds::Build;
use vstd::slice::slice_subrange;

use crate::text::{
    chars_of, dec, ends_with, has_suffix, push_decimal, push_str, string_from_chars, texts, trim, trim_str,
};
use crate::workitem::{comments_outcome, render, render_comments, render_outcome, Comment, WorkItem};

verus! {

/// `base` joined with the relative component `part`, as `Path::join` does
/// it: a separator goes between them unless `base` is empty or already ends
/// with one (`/`, and also `\` on Windows).
pub open spec fn joined(base: Seq<char>, part: Seq<char>, windows: bool) -> Seq<char> {
    if base.len() == 0 || base.last() == '/' || (windows && base.last() == '\\') {
        base + part
    } else {
        base + (if windows {
            seq!['\\']
        } else {
            seq!['/']
        }) + part
    }
}

/// `Path::join` of a relative component.
fn join_path(base: &str, part: &str, windows: bool) -> (r: String)
    ensures
        r@ == joined(base@, part@, windows),
{
    let mut out = String::from_str(base);
    let n = base.unicode_len();
    let needs = if n == 0 {
        false
    } else {
        let last = base.get_char(n - 1);
        !(last == '/' || (windows && last == '\\'))
    };
    if needs {
        if windows {
            push_str(&mut out, "\\");
            proof {
                reveal_strlit("\\");
            }
        } else {
            push_str(&mut out, "/");
            proof {
                reveal_strlit("/");
            }
        }
    }
    push_str(&mut out, part);
    out
}

/// Where the configuration is looked for when no path is given: on
/// Windows `%APPDATA%\azdo\config.toml`; elsewhere
/// `$XDG_CONFIG_HOME/azdo/config.toml`, else `$HOME/.config/azdo/config.toml`.
/// `None` when the variables it needs are unset.
pub open spec fn config_path_text(
    appdata: Option<Seq<char>>,
    xdg: Option<Seq<char>>,
    home: Option<Seq<char>>,
    windows: bool,
) -> Option<Seq<char>> {
    if windows {
        match appdata {
            Some(a) => Some(joined(joined(a, "azdo"@, true), "config.toml"@, true)),
            None => None,
        }
    } else {
        match xdg {
            Some(x) => Some(joined(joined(x, "azdo"@, false), "config.toml"@, false)),
            None => match home {
                Some(h) => Some(
                    joined(joined(joined(h, ".config"@, false), "azdo"@, false), "config.toml"@, false),
                ),
                None => None,
            },
        }
    }
}

/// The text of an optional string.
pub open spec fn opt_text(o: Option<String>) -> Option<Seq<char>> {
    match o {
        Some(s) => Some(s@),
        None => None,
    }
}

/// The default configuration path, from the values of `APPDATA`,
/// `XDG_CONFIG_HOME` and `HOME`.
pub fn default_config_path(
    appdata: Option<String>,
    xdg: Option<String>,
    home: Option<String>,
    windows: bool,
) -> (r: Option<String>)
    ensures
        r matches Some(p) ==> config_path_text(
            opt_text(appdata),
            opt_text(xdg),
            opt_text(home),
            windows,
        ) == Some(p@),
        r is None <==> config_path_text(
            opt_text(appdata),
            opt_text(xdg),
            opt_text(home),
            windows,
        ) is None,
{
    if windows {
        match appdata {
            Some(a) => {
                let dir = join_path(a.as_str(), "azdo", true);
                Some(join_path(dir.as_str(), "config.toml", true))
            },
            None => None,
        }
    } else {
        match xdg {
            Some(x) => {
                let dir = join_path(x.as_str(), "azdo", false);
                Some(join_path(dir.as_str(), "config.toml", false))
            },
            None => match home {
                Some(h) => {
                    let c = join_path(h.as_str(), ".config", false);
                    let dir = join_path(c.as_str(), "azdo", false);
                    Some(join_path(dir.as_str(), "config.toml", false))
                },
                None => None,
            },
        }
    }
}

/// The error when no configuration directory can be determined.
pub fn no_config_dir() -> (r: AzdoError)
    ensures
        r matches AzdoError::Config(m) && m@ == "cannot resolve config directory"@,
{
    AzdoError::Config(String::from_str("cannot resolve config directory"))
}

/// The error when the configuration file at `path` does not exist.
pub fn config_not_found(path: &str) -> (r: AzdoError)
    ensures
        r matches AzdoError::Config(m) && m@ == "config file not found: "@ + path@,
{
    let mut m = String::from_str("config file not found: ");
    push_str(&mut m, path);
    AzdoError::Config(m)
}

/// The line `ping` prints on success.
pub fn ping_line(status: u16, project: &str) -> (r: String)
    ensures
        r@ == "OK "@ + dec(status as nat) + " (project \""@ + project@ + "\" accessible)"@,
{
    let mut out = String::from_str("OK ");
    push_decimal(&mut out, status as u64);
    push_str(&mut out, " (project \"");
    push_str(&mut out, project);
    push_str(&mut out, "\" accessible)");
    out
}

/// How many comments `task` fetches: none unless a positive number was
/// asked for.
pub fn comments_to_fetch(asked: Option<u32>) -> (r: Option<u32>)
    ensures
        r == (match asked {
            Some(n) => if n > 0 {
                Some(n)
            } else {
                None::<u32>
            },
            None => None,
        }),
{
    match asked {
        Some(n) => if n > 0 {
            Some(n)
        } else {
            None
        },
        None => None,
    }
}

/// What `task` prints: the rendered work item, then, when comments were
/// fetched, a blank line and the comments section.
pub open spec fn task_report_outcome(item: WorkItem, comments: Option<Seq<Comment>>) -> Result<Seq<char>, Seq<char>> {
    match render_outcome(item) {
        Err(m) => Err(m),
        Ok(block) => match comments {
            None => Ok(block),
            Some(cs) => match comments_outcome(cs) {
                Err(m) => Err(m),
                Ok(section) => Ok(block + "\n\n"@ + section),
            },
        },
    }
}

/// The text `task` prints.
pub fn task_report(item: &WorkItem, comments: Option<&[Comment]>) -> (r: Result<String, AzdoError>)
    ensures
        match task_report_outcome(
            *item,
            match comments {
                Some(c) => Some(c@),
                None => None,
            },
        ) {
            Ok(t) => r matches Ok(s) && s@ == t,
            Err(m) => r matches Err(e) && e matches AzdoError::Render(x) && x@ == m,
        },
{
    let mut out = match render(item) {
        Ok(t) => t,
        Err(e) => return Err(e),
    };
    match comments {
        None => Ok(out),
        Some(list) => {
            let section = match render_comments(list) {
                Ok(t) => t,
                Err(e) => return Err(e),
            };
            push_str(&mut out, "\n\n");
            push_str(&mut out, section.as_str());
            Ok(out)
        },
    }
}

/// The process status of a finished command: 0 on success, else the
/// error's exit code.
pub fn exit_status(outcome: &Result<(), AzdoError>) -> (r: u8)
    ensures
        r == (match outcome {
            Ok(_) => 0u8,
            Err(e) => exit_number(exit_code_of(*e)),
        }),
{
    match outcome {
        Ok(()) => 0,
        Err(e) => e.exit_code().code(),
    }
}

/// The URL a work item is fetched from.
pub fn item_url(client: &AzdoClient, id: u64) -> (r: String)
    ensures
        r@ == client.collection_url_text("/_apis/wit/workitems/"@ + dec(id as nat)) + "?api-version="@
            + client.api_version_text(),
{
    let mut path = String::from_str("/_apis/wit/workitems/");
    push_decimal(&mut path, id);
    client.collection_api_url(path.as_str())
}

/// The URL of the first `top` comments of work item `id` (the comments API
/// is a preview version).
pub fn comments_url(client: &AzdoClient, id: u64, top: u32) -> (r: String)
    ensures
        r@ == client.project_url_text("/_apis/wit/workItems/"@ + dec(id as nat) + "/comments"@)
            + "?api-version=6.0-preview.3&$top="@ + dec(top as nat),
{
    let mut path = String::from_str("/_apis/wit/workItems/");
    push_decimal(&mut path, id);
    push_str(&mut path, "/comments");
    let mut out = client.project_url(path.as_str());
    push_str(&mut out, "?api-version=6.0-preview.3&$top=");
    push_decimal(&mut out, top as u64);
    out
}


/// The URL a comment on work item `id` is posted to.
pub fn comment_post_url(client: &AzdoClient, id: u64) -> (r: String)
    ensures
        r@ == client.project_url_text("/_apis/wit/workItems/"@ + dec(id as nat) + "/comments"@)
            + "?api-version=6.0-preview.3"@,
{
    let mut path = String::from_str("/_apis/wit/workItems/");
    push_decimal(&mut path, id);
    push_str(&mut path, "/comments");
    let mut out = client.project_url(path.as_str());
    push_str(&mut out, "?api-version=6.0-preview.3");
    out
}


/// The body of a comment to post: the text with surrounding whitespace
/// trimmed; a blank text is refused, so a blank comment is never sent.
pub fn comment_body(raw: &str) -> (r: Result<String, AzdoError>)
    ensures
        trim(raw@).len() > 0 ==> (r matches Ok(b) && b@ == trim(raw@)),
        trim(raw@).len() == 0 ==> (r matches Err(e) && e matches AzdoError::Input(m) && m@
            == "comment body is empty"@),
{
    let body = trim_str(raw);
    if body.unicode_len() == 0 {
        Err(AzdoError::Input(String::from_str("comment body is empty")))
    } else {
        Ok(body)
    }
}

/// The confirmation printed after a comment was posted.
pub fn comment_posted_line(id: u64) -> (r: String)
    ensures
        r@ == "comment posted to #"@ + dec(id as nat),
{
    let mut out = String::from_str("comment posted to #");
    push_decimal(&mut out, id);
    out
}

/// The line printed after a state change, with the state the server
/// stored.
pub fn state_set_line(id: u64, state: &str) -> (r: String)
    ensures
        r@ == "work item #"@ + dec(id as nat) + " state set to \""@ + state@ + "\""@,
{
    let mut out = String::from_str("work item #");
    push_decimal(&mut out, id);
    push_str(&mut out, " state set to \"");
    push_str(&mut out, state);
    push_str(&mut out, "\"");
    out
}

/// The line printed before the browser is opened at `url`.
pub fn opening_line(url: &str) -> (r: String)
    ensures
        r@ == "opening "@ + url@,
{
    let mut out = String::from_str("opening ");
    push_str(&mut out, url);
    out
}

/// How `task` shows a work item.
#[derive(Debug, Clone, Copy, PartialEq, Eq, Structural)]
pub enum TaskView {
    /// Open it in the system browser; nothing is fetched.
    Browser,
    /// The interactive viewer.
    Viewer,
    /// The plain-text block.
    Text,
}

/// `--open` comes before `--tui`, which comes before plain text.
pub fn task_view(open: bool, tui: bool) -> (r: TaskView)
    ensures
        r == (if open {
            TaskView::Browser
        } else if tui {
            TaskView::Viewer
        } else {
            TaskView::Text
        }),
{
    if open {
        TaskView::Browser
    } else if tui {
        TaskView::Viewer
    } else {
        TaskView::Text
    }
}

/// The position of the first `=` in `s`, if any.
pub open spec fn first_eq(s: Seq<char>) -> Option<int> {
    if exists|i: int| 0 <= i < s.len() && s[i] == '=' {
        Some(choose|i: int| 0 <= i < s.len() && s[i] == '=' && forall|k: int| 0 <= k < i ==> s[k] != '=')
    } else {
        None
    }
}

/// The message for a `--param` argument that cannot be split: it has no
/// `=`, or nothing before its first `=`.
pub open spec fn param_error_text(arg: Seq<char>) -> Seq<char> {
    if first_eq(arg) is None {
        "`--param` needs key=value: "@ + arg
    } else {
        "`--param` has an empty key: "@ + arg
    }
}

/// A `--param key=value` argument, split at its first `=`; one without `=`
/// or with an empty key is refused.
pub fn parse_param(arg: &str) -> (r: Result<(String, String), AzdoError>)
    ensures
        match param_of(arg@) {
            Some(kv) => r matches Ok(p) && p.0@ == kv.0 && p.1@ == kv.1,
            None => r matches Err(e) && e matches AzdoError::Input(m) && m@ == param_error_text(arg@),
        },
{
    let v = chars_of(arg);
    let mut i: usize = 0;
    while i < v.len() && v[i] != '='
        invariant
            i <= v@.len(),
            v@ == arg@,
            forall|k: int| 0 <= k < i ==> v@[k] != '=',
        decreases v.len() - i,
    {
        i = i + 1;
    }
    if i == v.len() {
        assert(!exists|j: int| 0 <= j < arg@.len() && arg@[j] == '=');
        let mut m = String::from_str("`--param` needs key=value: ");
        push_str(&mut m, arg);
        return Err(AzdoError::Input(m));
    }
    assert(v@[i as int] == '=');
    let ghost w = choose|j: int| 0 <= j < arg@.len() && arg@[j] == '=' && forall|k: int| 0 <= k < j ==> arg@[k] != '=';
    assert(w == i) by {
        if w < i {
            assert(v@[w] != '=');
        }
        if i < w {
            assert(arg@[i as int] != '=');
        }
    }
    if i == 0 {
        let mut m = String::from_str("`--param` has an empty key: ");
        push_str(&mut m, arg);
        return Err(AzdoError::Input(m));
    }
    let key = string_from_chars(slice_subrange(v.as_slice(), 0, i));
    let value = string_from_chars(slice_subrange(v.as_slice(), i + 1, v.len()));
    Ok((key, value))
}

/// The `(key, value)` that a `--param` argument gives, if it gives one.
pub open spec fn param_of(s: Seq<char>) -> Option<(Seq<char>, Seq<char>)> {
    match first_eq(s) {
        Some(i) => if i > 0 {
            Some((s.subrange(0, i), s.subrange(i + 1, s.len() as int)))
        } else {
            None
        },
        None => None,
    }
}

/// The parameters of `build start`: the work item, when one is given, as
/// `WorkItemId`, then each `--param` in order.
pub open spec fn build_args_text(work_item: Option<u64>, params: Seq<String>) -> Seq<(Seq<char>, Seq<char>)> {
    (match work_item {
        Some(id) => seq![("WorkItemId"@, dec(id as nat))],
        None => Seq::empty(),
    }) + Seq::new(params.len(), |k: int| param_of(params[k]@)->0)
}

/// The parameters of `build start`; the first argument that cannot be
/// split is the error.
pub fn build_args(work_item: Option<u64>, params: &Vec<String>) -> (r: Result<Vec<(String, String)>, AzdoError>)
    ensures
        r is Ok <==> forall|k: int| 0 <= k < params@.len() ==> (#[trigger] param_of(params@[k]@)) is Some,
        r matches Ok(ps) ==> pair_texts(ps@) == build_args_text(work_item, params@),
        r matches Err(e) ==> exists|k: int|
            0 <= k < params@.len() && (forall|j: int| 0 <= j < k ==> (#[trigger] param_of(params@[j]@)) is Some)
                && param_of(params@[k]@) is None && (e matches AzdoError::Input(m) && m@
                == param_error_text(params@[k]@)),
{
    let mut out: Vec<(String, String)> = Vec::new();
    let ghost head: Seq<(Seq<char>, Seq<char>)> = match work_item {
        Some(id) => seq![("WorkItemId"@, dec(id as nat))],
        None => Seq::empty(),
    };
    match work_item {
        Some(id) => {
            let mut v = String::new();
            push_decimal(&mut v, id);
            out.push((String::from_str("WorkItemId"), v));
        },
        None => {},
    }
    assert(pair_texts(out@) =~= head + Seq::new(0, |k: int| param_of(params@[k]@)->0));
    let mut k: usize = 0;
    while k < params.len()
        invariant
            k <= params@.len(),
            head == (match work_item {
                Some(id) => seq![("WorkItemId"@, dec(id as nat))],
                None => Seq::<(Seq<char>, Seq<char>)>::empty(),
            }),
            pair_texts(out@) == head + Seq::new(k as nat, |j: int| param_of(params@[j]@)->0),
            forall|j: int| 0 <= j < k ==> (#[trigger] param_of(params@[j]@)) is Some,
        decreases params.len() - k,
    {
        match parse_param(params[k].as_str()) {
            Ok(kv) => {
                let ghost before = pair_texts(out@);
                out.push(kv);
                assert(pair_texts(out@) =~= before.push((kv.0@, kv.1@)));
                assert(pair_texts(out@) =~= head + Seq::new((k + 1) as nat, |j: int| param_of(params@[j]@)->0));
            },
            Err(e) => {
                assert(param_of(params@[k as int]@) is None);
                return Err(e);
            },
        }
        k = k + 1;
    }
    assert(build_args_text(work_item, params@) =~= head + Seq::new(params@.len(), |j: int| param_of(params@[j]@)->0));
    Ok(out)
}

/// The line printed once a build is queued.
pub fn queued_line(build_id: u64, definition: u32) -> (r: String)
    ensures
        r@ == "queued build #"@ + dec(build_id as nat) + " (definition "@ + dec(definition as nat) + ")"@,
{
    let mut out = String::from_str("queued build #");
    push_decimal(&mut out, build_id);
    push_str(&mut out, " (definition ");
    push_decimal(&mut out, definition as u64);
    push_str(&mut out, ")");
    out
}

/// The line printed when a waited-for build completes: its id, its result
/// (`completed` when the server gives none) and, when known, its number in
/// brackets.
pub fn build_done_line(b: &Build) -> (r: String)
    ensures
        r@ == "build #"@ + dec(b.id as nat) + " "@ + (match b.result {
            Some(x) => x@,
            None => "completed"@,
        }) + (match b.number {
            Some(n) => " ["@ + n@ + "]"@,
            None => Seq::<char>::empty(),
        }),
{
    let mut out = String::from_str("build #");
    push_decimal(&mut out, b.id);
    push_str(&mut out, " ");
    match &b.result {
        Some(x) => push_str(&mut out, x.as_str()),
        None => push_str(&mut out, "completed"),
    }
    match &b.number {
        Some(n) => {
            push_str(&mut out, " [");
            push_str(&mut out, n.as_str());
            push_str(&mut out, "]");
        },
        None => {},
    }
    out
}

/// `s` names a script directly: it has the `.rhai` extension or a path
/// separator (`/`, and also `\` on Windows).
pub open spec fn path_like(s: Seq<char>, windows: bool) -> bool {
    has_suffix(s, ".rhai"@) || s.contains('/') || (windows && s.contains('\\'))
}

/// The script that `run <target>` executes: a path-like target as it is,
/// else `<target>.rhai` in the configured workflows directory.
pub fn workflow_path(dir: Option<&str>, target: &str, windows: bool) -> (r: Result<String, AzdoError>)
    ensures
        path_like(target@, windows) ==> (r matches Ok(p) && p@ == target@),
        !path_like(target@, windows) ==> match dir {
            Some(d) => r matches Ok(p) && p@ == joined(d@, target@ + ".rhai"@, windows),
            None => r matches Err(e) && e matches AzdoError::Config(m) && m@
                == "no `[workflows]` dir configured for `"@ + target@ + "`"@,
        },
{
    let v = chars_of(target);
    let mut sep = false;
    let mut i: usize = 0;
    while i < v.len()
        invariant
            i <= v@.len(),
            v@ == target@,
            sep <==> exists|k: int| 0 <= k < i && (v@[k] == '/' || (windows && v@[k] == '\\')),
        decreases v.len() - i,
    {
        if v[i] == '/' || (windows && v[i] == '\\') {
            sep = true;
        }
        i = i + 1;
    }
    proof {
        reveal_strlit(".rhai");
        if target@.contains('/') {
            let k = choose|k: int| 0 <= k < target@.len() && target@[k] == '/';
            assert(v@[k] == '/');
        }
        if windows && target@.contains('\\') {
            let k = choose|k: int| 0 <= k < target@.len() && target@[k] == '\\';
            assert(v@[k] == '\\');
        }
    }
    if sep || ends_with(target, ".rhai") {
        return Ok(String::from_str(target));
    }
    match dir {
        Some(d) => {
            let mut file = String::from_str(target);
            push_str(&mut file, ".rhai");
            Ok(join_path(d, file.as_str(), windows))
        },
        None => {
            let mut m = String::from_str("no `[workflows]` dir configured for `");
            push_str(&mut m, target);
            push_str(&mut m, "`");
            Err(AzdoError::Config(m))
        },
    }
}


/// The workflow names among the file names `files`: those ending in
/// `.rhai`, with the extension dropped, in the given order.
pub open spec fn workflow_names_text(files: Seq<Seq<char>>) -> Seq<Seq<char>>
    decreases files.len(),
{
    if files.len() == 0 {
        Seq::empty()
    } else {
        let init = workflow_names_text(files.drop_last());
        let f = files.last();
        if has_suffix(f, ".rhai"@) {
            init.push(f.subrange(0, f.len() - 5))
        } else {
            init
        }
    }
}

/// What `run --list` shows for the file names of the workflows directory.
pub fn workflow_names(files: &Vec<String>) -> (r: Vec<String>)
    ensures
        texts(r@) == workflow_names_text(texts(files@)),
{
    proof {
        reveal_strlit(".rhai");
    }
    let mut out: Vec<String> = Vec::new();
    let mut i: usize = 0;
    assert(texts(files@).subrange(0, 0) =~= Seq::<Seq<char>>::empty());
    assert(texts(out@) =~= Seq::<Seq<char>>::empty());
    while i < files.len()
        invariant
            i <= files@.len(),
            ".rhai"@.len() == 5,
            texts(out@) == workflow_names_text(texts(files@).subrange(0, i as int)),
        decreases files.len() - i,
    {
        let ghost before = texts(out@);
        let ghost next = texts(files@).subrange(0, i + 1);
        assert(next.drop_last() =~= texts(files@).subrange(0, i as int));
        assert(next.last() == files@[i as int]@);
        if ends_with(files[i].as_str(), ".rhai") {
            let v = chars_of(files[i].as_str());
            let name = string_from_chars(slice_subrange(v.as_slice(), 0, v.len() - 5));
            out.push(name);
            assert(texts(out@) =~= before.push(files@[i as int]@.subrange(0, files@[i as int]@.len() - 5)));
        }
        i = i + 1;
    }
    assert(texts(files@).subrange(0, files@.len() as int) =~= texts(files@));
    out
}

} // verus!
