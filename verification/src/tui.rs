//! State of the interactive work item viewer and its response to keys.
//! Drawing and the terminal belong to the caller.

use vstd::prelude::*;

use crate::error::{error_text, AzdoError};
use crate::text::{chars_of, join, join_strings, pop_char, push_char, push_str, texts, trim, trim_str};
use crate::workitem::{
    comments_outcome, description_outcome, description_text, render_comments, summary_lines,
    summary_text, Comment, WorkItem,
};

verus! {

/// Prefix shown on the comment-entry line.
pub const PROMPT: &'static str = "comment> ";

/// Which pane the scroll keys act on.
#[derive(Debug, Clone, Copy, PartialEq, Eq, Structural)]
pub enum Pane {
    Description,
    Comments,
}

/// All view state. Text panes are pre-joined so drawing allocates nothing.
#[derive(Debug)]
pub struct App {
    pub header: String,
    pub meta: String,
    pub meta_lines: u16,
    pub description: String,
    pub description_lines: u16,
    pub comments: String,
    pub comments_lines: u16,
    pub url: String,
    pub pane: Pane,
    pub desc_scroll: u16,
    pub comments_scroll: u16,
    pub status: String,
    /// `Some` while the comment-entry line is active; holds the buffer.
    pub input: Option<String>,
}

/// The number of times `c` occurs in `s`.
pub open spec fn count_char(s: Seq<char>, c: char) -> nat
    decreases s.len(),
{
    if s.len() == 0 {
        0
    } else {
        count_char(s.drop_last(), c) + if s.last() == c { 1nat } else { 0nat }
    }
}

/// `c` occurs at most as often as `s` is long.
pub proof fn lemma_count_at_most(s: Seq<char>, c: char)
    ensures
        count_char(s, c) <= s.len(),
    decreases s.len(),
{
    if s.len() > 0 {
        lemma_count_at_most(s.drop_last(), c);
    }
}

/// The number of lines `str::lines` yields: one per line ending, plus one
/// for a last line without an ending.
pub open spec fn line_total(s: Seq<char>) -> nat {
    if s.len() == 0 {
        0
    } else {
        count_char(s, '\n') + if s.last() == '\n' { 0nat } else { 1nat }
    }
}

/// Saturating count cast for line totals.
pub fn line_count(text: &str) -> (r: u16)
    ensures
        r as nat == if line_total(text@) > u16::MAX { u16::MAX as nat } else { line_total(text@) },
{
    let v = chars_of(text);
    let mut n: usize = 0;
    let mut i: usize = 0;
    assert(v@.subrange(0, 0) =~= Seq::<char>::empty());
    while i < v.len()
        invariant
            i <= v@.len(),
            n as nat == count_char(v@.subrange(0, i as int), '\n'),
            n <= i,
        decreases v.len() - i,
    {
        assert(v@.subrange(0, i + 1).drop_last() == v@.subrange(0, i as int));
        if v[i] == '\n' {
            n = n + 1;
        }
        i = i + 1;
    }
    assert(v@.subrange(0, v.len() as int) == v@);
    if v.len() > 0 && v[v.len() - 1] != '\n' {
        proof {
            lemma_count_at_most(v@.drop_last(), '\n');
        }
    }
    let total: usize = if v.len() == 0 {
        0
    } else if v[v.len() - 1] == '\n' {
        n
    } else {
        n + 1
    };
    if total > 65535 {
        65535
    } else {
        total as u16
    }
}

/// Largest in-range scroll offset for `content` lines in a `viewport`.
pub fn max_scroll(content: u16, viewport: u16) -> (r: u16)
    ensures
        r == if content > viewport { (content - viewport) as u16 } else { 0u16 },
{
    content.saturating_sub(viewport)
}

/// The other pane.
pub open spec fn other_pane(p: Pane) -> Pane {
    match p {
        Pane::Description => Pane::Comments,
        Pane::Comments => Pane::Description,
    }
}

/// The content of the view (everything but pane, scroll offsets, status and
/// input) is the same in `a` and `b`.
pub open spec fn same_content(a: App, b: App) -> bool {
    &&& a.header == b.header
    &&& a.meta == b.meta
    &&& a.meta_lines == b.meta_lines
    &&& a.description == b.description
    &&& a.description_lines == b.description_lines
    &&& a.comments == b.comments
    &&& a.comments_lines == b.comments_lines
    &&& a.url == b.url
}

/// `a` and `b` differ at most in their status line.
pub open spec fn same_but_status(a: App, b: App) -> bool {
    &&& same_content(a, b)
    &&& a.pane == b.pane
    &&& a.desc_scroll == b.desc_scroll
    &&& a.comments_scroll == b.comments_scroll
    &&& a.input == b.input
}

/// `a` and `b` differ at most in their scroll offsets.
pub open spec fn same_but_scroll(a: App, b: App) -> bool {
    &&& same_content(a, b)
    &&& a.pane == b.pane
    &&& a.status == b.status
    &&& a.input == b.input
}

/// The footer line: the prompt and the buffer while a comment is typed,
/// otherwise the key hints and the status.
pub open spec fn footer_text(a: App) -> Seq<char> {
    match a.input {
        Some(buf) => "comment> "@ + buf@,
        None => "q quit  r refresh  c comment  o open  Tab switch  j/k scroll  |  "@ + a.status@,
    }
}

/// The title of a text pane: marked when active.
pub open spec fn pane_title_text(name: Seq<char>, active: bool) -> Seq<char> {
    if active {
        name + " [active]"@
    } else {
        name
    }
}

/// The title of a text pane.
pub fn pane_title(name: &str, active: bool) -> (r: String)
    ensures
        r@ == pane_title_text(name@, active),
{
    let mut s = String::from_str(name);
    if active {
        push_str(&mut s, " [active]");
    }
    s
}

/// The column of the cursor on the footer line at `x` of width `width`:
/// after the prompt and the typed characters, but not past the line.
pub fn footer_cursor_x(x: u16, width: u16, buf: &str) -> (r: u16)
    ensures
        ({
            let typed: int = if 9 + buf@.len() > u16::MAX { u16::MAX as int } else { 9 + buf@.len() as int };
            let right: int = if width > 0 { x + width - 1 } else { x as int };
            let max_x: int = if right > u16::MAX { u16::MAX as int } else { right };
            let at: int = if x + typed > u16::MAX { u16::MAX as int } else { x + typed };
            r as int == if at < max_x { at } else { max_x }
        }),
{
    let n = buf.unicode_len();
    let typed: u16 = if n > 65535 - 9 { 65535 } else { (n + 9) as u16 };
    let max_x = x.saturating_add(width.saturating_sub(1));
    let at = x.saturating_add(typed);
    if at < max_x {
        at
    } else {
        max_x
    }
}

/// Keys the viewer distinguishes.
#[derive(Debug, Clone, Copy, PartialEq, Eq, Structural)]
pub enum Key {
    Esc,
    Enter,
    Backspace,
    Tab,
    BackTab,
    Up,
    Down,
    Char(char),
    Other,
}

/// What the caller must do after a key.
#[derive(Debug, Clone, Copy, PartialEq, Eq, Structural)]
pub enum Action {
    /// Nothing beyond redrawing.
    Stay,
    /// Leave the viewer.
    Quit,
    /// Fetch the work item again.
    Refresh,
    /// Open the work item in the browser.
    OpenBrowser,
    /// Post the typed comment.
    SubmitComment,
}

/// `x` plus one, saturating at `u16::MAX`.
pub open spec fn inc_sat(x: u16) -> u16 {
    if x == u16::MAX {
        x
    } else {
        (x + 1) as u16
    }
}

/// `x` minus one, saturating at 0.
pub open spec fn dec_sat(x: u16) -> u16 {
    if x == 0 {
        x
    } else {
        (x - 1) as u16
    }
}

/// The largest offset at which a pane of `lines` lines, in an area of
/// `height` rows (two of them borders), still shows its last line.
pub open spec fn scroll_limit(lines: u16, height: u16) -> int {
    let v = if height > 2 { height - 2 } else { 0 };
    if lines > v { lines - v } else { 0 }
}

/// `n` is `o` with each scroll offset cut down to its pane's limit, for
/// areas of the given heights.
pub open spec fn clamped(n: App, o: App, desc_height: u16, comments_height: u16) -> bool {
    let dm = scroll_limit(o.description_lines, desc_height);
    let cm = scroll_limit(o.comments_lines, comments_height);
    &&& same_but_scroll(n, o)
    &&& n.desc_scroll == if o.desc_scroll < dm { o.desc_scroll as int } else { dm }
    &&& n.comments_scroll == if o.comments_scroll < cm { o.comments_scroll as int } else { cm }
}

/// `n` is `o` with the other pane active.
pub open spec fn toggled(n: App, o: App) -> bool {
    &&& n.pane == other_pane(o.pane)
    &&& same_content(n, o)
    &&& n.desc_scroll == o.desc_scroll
    &&& n.comments_scroll == o.comments_scroll
    &&& n.status == o.status
    &&& n.input == o.input
}

/// `n` is `o` with the active pane scrolled one line, down when `down`,
/// else up.
pub open spec fn scrolled(n: App, o: App, down: bool) -> bool {
    let step = |x: u16| if down { inc_sat(x) } else { dec_sat(x) };
    &&& same_but_scroll(n, o)
    &&& o.pane == Pane::Description ==> n.desc_scroll == step(o.desc_scroll)
        && n.comments_scroll == o.comments_scroll
    &&& o.pane == Pane::Comments ==> n.comments_scroll == step(o.comments_scroll)
        && n.desc_scroll == o.desc_scroll
}

/// `n` is `o` with its status set to `status` and the comment-entry line
/// set to `input`.
pub open spec fn restated(n: App, o: App, status: Seq<char>, input: Option<Seq<char>>) -> bool {
    &&& same_content(n, o)
    &&& n.pane == o.pane
    &&& n.desc_scroll == o.desc_scroll
    &&& n.comments_scroll == o.comments_scroll
    &&& n.status@ == status
    &&& match input {
        Some(t) => n.input matches Some(b) && b@ == t,
        None => n.input is None,
    }
}

/// `n` is `o` with `t` as the comment buffer, where one is open.
pub open spec fn edited(n: App, o: App, t: Seq<char>) -> bool {
    &&& same_content(n, o)
    &&& n.pane == o.pane
    &&& n.desc_scroll == o.desc_scroll
    &&& n.comments_scroll == o.comments_scroll
    &&& n.status == o.status
    &&& n.input matches Some(b) && b@ == t
}

/// What a key does to the view `o`, giving the view `n` and the action `act`
/// that the caller must then perform. While a comment is typed, Esc cancels
/// it, Enter sends it, Backspace and characters edit it. Otherwise `q` and
/// Esc quit, `c` opens the comment line, `r` refreshes, `o` opens the
/// browser, Tab switches panes, `j`/Down and `k`/Up scroll.
pub open spec fn key_effect(n: App, o: App, k: Key, act: Action) -> bool {
    match o.input {
        Some(buf) => match k {
            Key::Esc => restated(n, o, "comment cancelled"@, None) && act == Action::Stay,
            Key::Enter => n == o && act == Action::SubmitComment,
            Key::Backspace => edited(
                n,
                o,
                if buf@.len() == 0 {
                    buf@
                } else {
                    buf@.drop_last()
                },
            ) && act == Action::Stay,
            Key::Char(ch) => edited(n, o, buf@.push(ch)) && act == Action::Stay,
            _ => n == o && act == Action::Stay,
        },
        None => match k {
            Key::Esc => n == o && act == Action::Quit,
            Key::Char(ch) => if ch == 'q' {
                n == o && act == Action::Quit
            } else if ch == 'c' {
                restated(n, o, "comment: type, Enter to send, Esc to cancel"@, Some(Seq::empty()))
                    && act == Action::Stay
            } else if ch == 'r' {
                n == o && act == Action::Refresh
            } else if ch == 'o' {
                n == o && act == Action::OpenBrowser
            } else if ch == 'j' {
                scrolled(n, o, true) && act == Action::Stay
            } else if ch == 'k' {
                scrolled(n, o, false) && act == Action::Stay
            } else {
                n == o && act == Action::Stay
            },
            Key::Tab | Key::BackTab => toggled(n, o) && act == Action::Stay,
            Key::Down => scrolled(n, o, true) && act == Action::Stay,
            Key::Up => scrolled(n, o, false) && act == Action::Stay,
            _ => n == o && act == Action::Stay,
        },
    }
}

impl App {
    /// Tab: switch the active pane.
    pub fn toggle_pane(&mut self)
        ensures
            toggled(*final(self), *old(self)),
    {
        self.pane = match self.pane {
            Pane::Description => Pane::Comments,
            Pane::Comments => Pane::Description,
        };
    }

    /// Scroll the active pane down one line (saturating).
    pub fn scroll_down(&mut self)
        ensures
            scrolled(*final(self), *old(self), true),
    {
        match self.pane {
            Pane::Description => self.desc_scroll = self.desc_scroll.saturating_add(1),
            Pane::Comments => self.comments_scroll = self.comments_scroll.saturating_add(1),
        }
    }

    /// Scroll the active pane up one line (saturating at 0).
    pub fn scroll_up(&mut self)
        ensures
            scrolled(*final(self), *old(self), false),
    {
        match self.pane {
            Pane::Description => self.desc_scroll = self.desc_scroll.saturating_sub(1),
            Pane::Comments => self.comments_scroll = self.comments_scroll.saturating_sub(1),
        }
    }

    /// `c`: open the comment-entry line with an empty buffer.
    pub fn start_comment(&mut self)
        ensures
            restated(
                *final(self),
                *old(self),
                "comment: type, Enter to send, Esc to cancel"@,
                Some(Seq::empty()),
            ),
    {
        self.input = Some(String::new());
        self.status = String::from_str("comment: type, Enter to send, Esc to cancel");
    }

    /// A typed character, appended to the buffer while it is open.
    pub fn input_push(&mut self, ch: char)
        ensures
            match old(self).input {
                Some(b) => edited(*final(self), *old(self), b@.push(ch)),
                None => *final(self) == *old(self),
            },
    {
        if let Some(buf) = self.input.as_mut() {
            push_char(buf, ch);
        }
    }

    /// Backspace: drop the buffer's last character, if any.
    pub fn input_backspace(&mut self)
        ensures
            match old(self).input {
                Some(b) => edited(
                    *final(self),
                    *old(self),
                    if b@.len() == 0 {
                        b@
                    } else {
                        b@.drop_last()
                    },
                ),
                None => *final(self) == *old(self),
            },
    {
        if let Some(buf) = self.input.as_mut() {
            let _ = pop_char(buf);
        }
    }

    /// Esc while typing: close the entry line without sending.
    pub fn input_cancel(&mut self)
        ensures
            restated(*final(self), *old(self), "comment cancelled"@, None),
    {
        self.input = None;
        self.status = String::from_str("comment cancelled");
    }

    /// The footer line.
    pub fn footer(&self) -> (r: String)
        ensures
            r@ == footer_text(*self),
    {
        match &self.input {
            Some(buf) => {
                let mut s = String::from_str(PROMPT);
                proof {
                    reveal_strlit("comment> ");
                }
                push_str(&mut s, buf.as_str());
                s
            },
            None => {
                let mut s = String::from_str(
                    "q quit  r refresh  c comment  o open  Tab switch  j/k scroll  |  ",
                );
                push_str(&mut s, self.status.as_str());
                s
            },
        }
    }

    /// Keep each scroll offset inside its pane, given the heights of the
    /// description and comments areas (borders included).
    pub fn clamp_scrolls(&mut self, desc_height: u16, comments_height: u16)
        ensures
            clamped(*final(self), *old(self), desc_height, comments_height),
    {
        let dm = max_scroll(self.description_lines, desc_height.saturating_sub(2));
        if self.desc_scroll > dm {
            self.desc_scroll = dm;
        }
        let cm = max_scroll(self.comments_lines, comments_height.saturating_sub(2));
        if self.comments_scroll > cm {
            self.comments_scroll = cm;
        }
    }
}


/// A line total as the viewer keeps it: saturated at `u16::MAX`.
pub open spec fn capped_lines(s: Seq<char>) -> nat {
    if line_total(s) > u16::MAX {
        u16::MAX as nat
    } else {
        line_total(s)
    }
}

/// `a` is the view of `item` freshly opened: the first summary line as the
/// header, the other summary lines below it, the description `desc` and the
/// comments section `coms`, with the description pane active, nothing
/// scrolled, status `ready` and no comment being typed.
pub open spec fn fresh_app(a: App, item: WorkItem, url: Seq<char>, desc: Seq<char>, coms: Seq<char>) -> bool {
    let sum = summary_text(item);
    &&& a.header@ == sum[0]
    &&& a.meta@ == join(sum.drop_first(), "\n"@)
    &&& a.meta_lines as nat == capped_lines(a.meta@)
    &&& a.description@ == desc
    &&& a.description_lines as nat == capped_lines(desc)
    &&& a.comments@ == coms
    &&& a.comments_lines as nat == capped_lines(coms)
    &&& a.url@ == url
    &&& a.pane == Pane::Description
    &&& a.desc_scroll == 0
    &&& a.comments_scroll == 0
    &&& a.status@ == "ready"@
    &&& a.input is None
}

/// What `build_app` yields: a `Render` error when the description or the
/// comments cannot be flattened (the description is tried first), else
/// the fresh view.
pub open spec fn built_as(
    r: Result<App, AzdoError>,
    item: WorkItem,
    comments: Seq<Comment>,
    url: Seq<char>,
) -> bool {
    match description_outcome(item) {
        Err(m) => r matches Err(e) && e matches AzdoError::Render(x) && x@ == m,
        Ok(d) => match comments_outcome(comments) {
            Err(m) => r matches Err(e) && e matches AzdoError::Render(x) && x@ == m,
            Ok(c) => r matches Ok(a) && fresh_app(a, item, url, d, c),
        },
    }
}

/// Build the view of a work item and its comments.
pub fn build_app(item: &WorkItem, comments: &[Comment], url: String) -> (r: Result<App, AzdoError>)
    ensures
        built_as(r, *item, comments@, url@),
{
    let lines = summary_lines(item);
    let ghost sum = summary_text(*item);
    assert(texts(lines@).len() == lines@.len());
    assert(sum.len() >= 3);
    let header = lines[0].clone();
    assert(texts(lines@)[0] == lines@[0]@);
    let mut rest: Vec<String> = Vec::new();
    let mut i: usize = 1;
    while i < lines.len()
        invariant
            1 <= i <= lines@.len(),
            texts(lines@) == sum,
            texts(rest@) == sum.subrange(1, i as int),
        decreases lines.len() - i,
    {
        let line = lines[i].clone();
        let ghost before = rest@;
        rest.push(line);
        assert(rest@ == before.push(line));
        assert(texts(before).len() == before.len());
        assert(texts(lines@)[i as int] == lines@[i as int]@);
        assert(texts(rest@) =~= sum.subrange(1, i + 1));
        i = i + 1;
    }
    assert(sum.subrange(1, sum.len() as int) =~= sum.drop_first());
    let meta = join_strings(&rest, "\n");
    let description = match description_text(item) {
        Ok(d) => d,
        Err(e) => return Err(e),
    };
    let coms = match render_comments(comments) {
        Ok(c) => c,
        Err(e) => return Err(e),
    };
    let meta_lines = line_count(meta.as_str());
    let description_lines = line_count(description.as_str());
    let comments_lines = line_count(coms.as_str());
    Ok(App {
        header,
        meta,
        meta_lines,
        description,
        description_lines,
        comments: coms,
        comments_lines,
        url,
        pane: Pane::Description,
        desc_scroll: 0,
        comments_scroll: 0,
        status: String::from_str("ready"),
        input: None,
    })
}

/// The status line after trying to open `url` in the browser.
pub fn open_in_browser(url: &str, outcome: &Result<(), AzdoError>) -> (r: String)
    ensures
        r@ == (match outcome {
            Ok(_) => "opened in browser: "@ + url@,
            Err(e) => "could not open browser: "@ + error_text(*e),
        }),
{
    match outcome {
        Ok(()) => {
            let mut s = String::from_str("opened in browser: ");
            push_str(&mut s, url);
            s
        },
        Err(e) => {
            let mut s = String::from_str("could not open browser: ");
            let m = e.message();
            push_str(&mut s, m.as_str());
            s
        },
    }
}

impl App {
    /// Apply a key press; the caller performs the returned action.
    pub fn handle_key(&mut self, key: Key) -> (act: Action)
        ensures
            key_effect(*final(self), *old(self), key, act),
    {
        if self.input.is_some() {
            match key {
                Key::Esc => {
                    self.input_cancel();
                    Action::Stay
                },
                Key::Enter => Action::SubmitComment,
                Key::Backspace => {
                    self.input_backspace();
                    Action::Stay
                },
                Key::Char(ch) => {
                    self.input_push(ch);
                    Action::Stay
                },
                _ => Action::Stay,
            }
        } else {
            match key {
                Key::Esc => Action::Quit,
                Key::Char(ch) => if ch == 'q' {
                    Action::Quit
                } else if ch == 'c' {
                    self.start_comment();
                    Action::Stay
                } else if ch == 'r' {
                    Action::Refresh
                } else if ch == 'o' {
                    Action::OpenBrowser
                } else if ch == 'j' {
                    self.scroll_down();
                    Action::Stay
                } else if ch == 'k' {
                    self.scroll_up();
                    Action::Stay
                } else {
                    Action::Stay
                },
                Key::Tab | Key::BackTab => {
                    self.toggle_pane();
                    Action::Stay
                },
                Key::Down => {
                    self.scroll_down();
                    Action::Stay
                },
                Key::Up => {
                    self.scroll_up();
                    Action::Stay
                },
                _ => Action::Stay,
            }
        }
    }

    /// Enter while typing: close the entry line and hand back the trimmed
    /// comment to post, or `None` (with a status saying so) when it is blank.
    pub fn take_comment(&mut self) -> (r: Option<String>)
        ensures
            match old(self).input {
                None => r is None && *final(self) == *old(self),
                Some(b) => if trim(b@).len() == 0 {
                    r is None && restated(*final(self), *old(self), "empty comment, not sent"@, None)
                } else {
                    r matches Some(body) && body@ == trim(b@) && restated(
                        *final(self),
                        *old(self),
                        old(self).status@,
                        None,
                    )
                },
            },
    {
        let raw = match self.input.take() {
            Some(b) => b,
            None => return None,
        };
        let body = trim_str(raw.as_str());
        if body.unicode_len() == 0 {
            self.status = String::from_str("empty comment, not sent");
            None
        } else {
            Some(body)
        }
    }

    /// After a comment was posted (and the view refreshed).
    pub fn comment_posted(&mut self)
        ensures
            same_content(*final(self), *old(self)),
            final(self).status@ == "comment posted"@,
            final(self).input == old(self).input,
            final(self).pane == old(self).pane,
            final(self).desc_scroll == old(self).desc_scroll,
            final(self).comments_scroll == old(self).comments_scroll,
    {
        self.status = String::from_str("comment posted");
    }

    /// Posting the comment failed with `e`.
    pub fn post_failed(&mut self, e: &AzdoError)
        ensures
            final(self).status@ == "post failed: "@ + error_text(*e),
            same_but_status(*final(self), *old(self)),
    {
        let mut s = String::from_str("post failed: ");
        let m = e.message();
        push_str(&mut s, m.as_str());
        self.status = s;
    }

    /// The work item was fetched again as `fresh`: show it, keeping the
    /// active pane.
    pub fn refresh_with(&mut self, fresh: App)
        ensures
            same_content(*final(self), fresh),
            final(self).pane == old(self).pane,
            final(self).desc_scroll == fresh.desc_scroll,
            final(self).comments_scroll == fresh.comments_scroll,
            final(self).input == fresh.input,
            final(self).status@ == "refreshed"@,
    {
        let pane = self.pane;
        *self = fresh;
        self.pane = pane;
        self.status = String::from_str("refreshed");
    }

    /// Fetching the work item again failed with `e`.
    pub fn refresh_failed(&mut self, e: &AzdoError)
        ensures
            final(self).status@ == "refresh failed: "@ + error_text(*e),
            same_but_status(*final(self), *old(self)),
    {
        let mut s = String::from_str("refresh failed: ");
        let m = e.message();
        push_str(&mut s, m.as_str());
        self.status = s;
    }
}


/// Switching panes twice gives back the view one started from.
pub proof fn law_toggle_twice_is_identity(a: App, b: App, c: App)
    requires
        toggled(b, a),
        toggled(c, b),
    ensures
        c == a,
{
    assert(other_pane(other_pane(a.pane)) == a.pane);
}

/// Typing a character and deleting it again leaves the comment buffer and
/// the rest of the view as they were.
pub proof fn law_backspace_undoes_typing(a: App, b: App, c: App, buf: Seq<char>, ch: char)
    requires
        a.input matches Some(t) && t@ == buf,
        edited(b, a, buf.push(ch)),
        edited(c, b, buf.push(ch).drop_last()),
    ensures
        same_content(c, a),
        c.pane == a.pane,
        c.desc_scroll == a.desc_scroll,
        c.comments_scroll == a.comments_scroll,
        c.status == a.status,
        c.input matches Some(t) && t@ == buf,
{
    assert(buf.push(ch).drop_last() =~= buf);
}

/// Scrolling down and then up returns to the same offsets, unless the
/// offset was already at its maximum.
pub proof fn law_scroll_up_undoes_down(a: App, b: App, c: App)
    requires
        scrolled(b, a, true),
        scrolled(c, b, false),
        a.pane == Pane::Description ==> a.desc_scroll < u16::MAX,
        a.pane == Pane::Comments ==> a.comments_scroll < u16::MAX,
    ensures
        same_but_scroll(c, a),
        c.desc_scroll == a.desc_scroll,
        c.comments_scroll == a.comments_scroll,
{
}

/// Outside the comment line, `k` and Up scroll the active pane one line up,
/// stopping at 0, and `j` and Down one line down, stopping at the largest
/// offset; the other pane, the content, the status and the pane choice stay
/// as they were, and the viewer stays open.
pub proof fn law_scroll_keys(n: App, o: App, k: Key, act: Action)
    requires
        o.input is None,
        key_effect(n, o, k, act),
        k == Key::Up || k == Key::Char('k') || k == Key::Down || k == Key::Char('j'),
    ensures
        act == Action::Stay,
        same_content(n, o),
        n.pane == o.pane,
        n.status == o.status,
        n.input == o.input,
        (k == Key::Up || k == Key::Char('k')) && o.pane == Pane::Description ==> n.desc_scroll as int
            == (if o.desc_scroll > 0 { o.desc_scroll - 1 } else { 0 }) && n.comments_scroll
            == o.comments_scroll,
        (k == Key::Up || k == Key::Char('k')) && o.pane == Pane::Comments ==> n.comments_scroll as int
            == (if o.comments_scroll > 0 { o.comments_scroll - 1 } else { 0 }) && n.desc_scroll
            == o.desc_scroll,
        (k == Key::Down || k == Key::Char('j')) && o.pane == Pane::Description ==> n.desc_scroll as int
            == (if o.desc_scroll < 65535 { o.desc_scroll + 1 } else { 65535 }) && n.comments_scroll
            == o.comments_scroll,
        (k == Key::Down || k == Key::Char('j')) && o.pane == Pane::Comments ==> n.comments_scroll as int
            == (if o.comments_scroll < 65535 { o.comments_scroll + 1 } else { 65535 })
            && n.desc_scroll == o.desc_scroll,
{
}

/// Outside the comment line: `q` and Esc quit, `r` refreshes, `o` opens
/// the browser, each leaving the view as it is; `c` opens an empty comment
/// line and changes nothing else but the status; Tab and Shift-Tab make
/// the other pane active and change nothing else; any key without a
/// meaning leaves everything as it is.
pub proof fn law_view_keys(n: App, o: App, k: Key, act: Action)
    requires
        o.input is None,
        key_effect(n, o, k, act),
    ensures
        k == Key::Esc || k == Key::Char('q') ==> act == Action::Quit && n == o,
        k == Key::Char('r') ==> act == Action::Refresh && n == o,
        k == Key::Char('o') ==> act == Action::OpenBrowser && n == o,
        k == Key::Char('c') ==> act == Action::Stay && (n.input matches Some(b) && b@.len() == 0)
            && same_content(n, o) && n.pane == o.pane && n.desc_scroll == o.desc_scroll
            && n.comments_scroll == o.comments_scroll,
        k == Key::Tab || k == Key::BackTab ==> act == Action::Stay && n.pane != o.pane && same_content(
            n,
            o,
        ) && n.desc_scroll == o.desc_scroll && n.comments_scroll == o.comments_scroll && n.status
            == o.status && n.input == o.input,
        k == Key::Enter || k == Key::Backspace || k == Key::Other ==> act == Action::Stay && n == o,
        (k matches Key::Char(ch) && ch != 'q' && ch != 'r' && ch != 'o' && ch != 'c' && ch != 'j' && ch
            != 'k') ==> act == Action::Stay && n == o,
{
}

/// While a comment is typed: Esc closes the line with the status
/// `comment cancelled`; Enter asks for the comment to be sent and changes
/// nothing; a character is appended to the buffer; Backspace removes the
/// buffer's last character, if it has one.
pub proof fn law_comment_keys(n: App, o: App, k: Key, act: Action)
    requires
        o.input is Some,
        key_effect(n, o, k, act),
    ensures
        k == Key::Esc ==> act == Action::Stay && n.input is None && n.status@ == "comment cancelled"@,
        k == Key::Enter ==> act == Action::SubmitComment && n == o,
        k is Char ==> act == Action::Stay && n.input is Some && n.input->0@.len() == o.input->0@.len()
            + 1 && n.input->0@.last() == k->0 && n.input->0@.drop_last() == o.input->0@,
        k == Key::Backspace ==> act == Action::Stay && n.input is Some && (if o.input->0@.len() > 0 {
            n.input->0@.len() + 1 == o.input->0@.len() && o.input->0@ == n.input->0@.push(
                o.input->0@.last(),
            )
        } else {
            n.input->0@.len() == 0
        }),
{
    if let Some(buf) = o.input {
        if let Key::Char(ch) = k {
            if let Some(b) = n.input {
                assert(b@ == buf@.push(ch));
                assert(b@.drop_last() =~= buf@);
            }
        }
        if k == Key::Backspace && buf@.len() > 0 {
            assert(buf@.drop_last().push(buf@.last()) =~= buf@);
        }
    }
}

/// After clamping, no pane is scrolled further than puts its last line at
/// the bottom of its area (a pane that fits is not scrolled at all), and no
/// offset grew.
pub proof fn law_clamped_scroll_in_range(a: App, b: App, desc_height: u16, comments_height: u16)
    requires
        clamped(b, a, desc_height, comments_height),
    ensures
        b.desc_scroll + (if desc_height > 2 { desc_height - 2 } else { 0 }) <= a.description_lines
            || b.desc_scroll == 0,
        b.comments_scroll + (if comments_height > 2 { comments_height - 2 } else { 0 })
            <= a.comments_lines || b.comments_scroll == 0,
        b.desc_scroll <= a.desc_scroll,
        b.comments_scroll <= a.comments_scroll,
{
}


/// The list the open work items are picked from: which row is selected,
/// out of how many. The selection always points at a row when there are
/// rows.
#[derive(Debug, Clone, Copy, PartialEq, Eq, Structural)]
pub struct Picker {
    selected: usize,
    len: usize,
}

/// What the caller must do after a key in the picker.
#[derive(Debug, Clone, Copy, PartialEq, Eq, Structural)]
pub enum PickAction {
    /// Nothing beyond redrawing.
    Stay,
    /// Open the item at this row in the viewer.
    Open(usize),
    /// Leave the picker.
    Quit,
}

/// The row below `sel` among `len`, staying on the last one.
pub open spec fn row_down(sel: usize, len: usize) -> usize {
    if sel + 1 < len {
        (sel + 1) as usize
    } else {
        sel
    }
}

/// The row above `sel`, staying on the first one.
pub open spec fn row_up(sel: usize) -> usize {
    if sel > 0 {
        (sel - 1) as usize
    } else {
        0
    }
}

impl Picker {
    #[verifier::type_invariant]
    spec fn wf(self) -> bool {
        self.len == 0 || self.selected < self.len
    }

    /// The selected row.
    pub closed spec fn row(self) -> usize {
        self.selected
    }

    /// The number of rows.
    pub closed spec fn rows(self) -> usize {
        self.len
    }

    /// A picker over `len` rows, the first one selected.
    pub fn new(len: usize) -> (r: Picker)
        ensures
            r.row() == 0,
            r.rows() == len,
    {
        Picker { selected: 0, len }
    }

    /// The selected row.
    pub fn selected(&self) -> (r: usize)
        ensures
            r == self.row(),
            self.rows() == 0 || r < self.rows(),
    {
        proof {
            use_type_invariant(self);
        }
        self.selected
    }

    /// The first row to draw in a list area of `visible` rows: none
    /// skipped while the selection fits, else just enough that the
    /// selection is on the last row shown (rows past `u16::MAX` count as
    /// that row).
    pub fn scroll_offset(&self, visible: u16) -> (r: u16)
        ensures
            ({
                let s: int = if self.row() > u16::MAX { u16::MAX as int } else { self.row() as int };
                r == (if visible == 0 {
                    s
                } else if s + 1 > visible {
                    s + 1 - visible
                } else {
                    0
                })
            }),
    {
        let s: u16 = if self.selected > 65535 { 65535 } else { self.selected as u16 };
        if visible == 0 {
            s
        } else if s >= visible {
            s - visible + 1
        } else {
            0
        }
    }

    /// `j`/Down and `k`/Up move the selection, stopping at the ends; Enter
    /// opens the selected row (when there is one); `q`/Esc quit; other keys
    /// do nothing.
    pub fn handle_key(&mut self, key: Key) -> (act: PickAction)
        ensures
            final(self).rows() == old(self).rows(),
            match key {
                Key::Char(c) => if c == 'j' {
                    final(self).row() == row_down(old(self).row(), old(self).rows()) && act == PickAction::Stay
                } else if c == 'k' {
                    final(self).row() == row_up(old(self).row()) && act == PickAction::Stay
                } else if c == 'q' {
                    final(self).row() == old(self).row() && act == PickAction::Quit
                } else {
                    final(self).row() == old(self).row() && act == PickAction::Stay
                },
                Key::Down => final(self).row() == row_down(old(self).row(), old(self).rows()) && act
                    == PickAction::Stay,
                Key::Up => final(self).row() == row_up(old(self).row()) && act == PickAction::Stay,
                Key::Enter => final(self).row() == old(self).row() && act == (if old(self).rows() > 0 {
                    PickAction::Open(old(self).row())
                } else {
                    PickAction::Stay
                }),
                Key::Esc => final(self).row() == old(self).row() && act == PickAction::Quit,
                _ => final(self).row() == old(self).row() && act == PickAction::Stay,
            },
    {
        proof {
            use_type_invariant(&*self);
        }
        let down = match key {
            Key::Char(c) => c == 'j',
            Key::Down => true,
            _ => false,
        };
        let up = match key {
            Key::Char(c) => c == 'k',
            Key::Up => true,
            _ => false,
        };
        if down {
            if self.len > 0 && self.selected < self.len - 1 {
                self.selected = self.selected + 1;
            }
            return PickAction::Stay;
        }
        if up {
            if self.selected > 0 {
                self.selected = self.selected - 1;
            }
            return PickAction::Stay;
        }
        match key {
            Key::Enter => if self.len > 0 {
                PickAction::Open(self.selected)
            } else {
                PickAction::Stay
            },
            Key::Esc => PickAction::Quit,
            Key::Char(c) => if c == 'q' {
                PickAction::Quit
            } else {
                PickAction::Stay
            },
            _ => PickAction::Stay,
        }
    }
}


/// While a comment is typed the view keys are suppressed: no key quits,
/// refreshes, opens the browser, switches panes or scrolls; each either
/// edits the comment, sends it or cancels it.
pub proof fn law_typing_suppresses_view_keys(n: App, o: App, k: Key, act: Action)
    requires
        o.input is Some,
        key_effect(n, o, k, act),
    ensures
        act == Action::Stay || act == Action::SubmitComment,
        same_content(n, o),
        n.pane == o.pane,
        n.desc_scroll == o.desc_scroll,
        n.comments_scroll == o.comments_scroll,
{
}

} // verus!
