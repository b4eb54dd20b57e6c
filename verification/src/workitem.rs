//! Work items and their comments as the server returns them, and their
//! plain-text rendering.

use vstd::prelude::*;

use crate::error::AzdoError;
use crate::text::{
    chars_of, dec, is_blank, join, join_strings, push_decimal, push_str, split_chars, split_on,
    string_from_chars, texts, trim, trim_chars, trim_end, trim_end_str, trim_str, pieces,
    text_lt, str_less, lemma_text_lt_asymmetric, lemma_text_lt_total, lemma_text_lt_transitive,
};

verus! {

/// Column width used when flattening HTML to text.
pub const DESC_WIDTH: usize = 100;

/// An identity reference: modern servers send an object with a display
/// name, some older configurations a bare string.
#[derive(Debug)]
pub enum Identity {
    Ref { display_name: String },
    Raw(String),
}

/// The subset of `System.*` fields that is rendered.
#[derive(Debug)]
pub struct Fields {
    pub work_item_type: String,
    pub state: String,
    pub title: String,
    pub assigned_to: Option<Identity>,
    pub changed_date: Option<String>,
    pub tags: Option<String>,
    pub description: Option<String>,
}

/// A work item as returned by `GET /_apis/wit/workitems/{id}`.
#[derive(Debug)]
pub struct WorkItem {
    pub id: u64,
    pub fields: Fields,
}

/// A single work item comment.
#[derive(Debug)]
pub struct Comment {
    pub id: u64,
    pub text: String,
    pub created_by: Option<Identity>,
    pub created_date: Option<String>,
}

/// The name an identity carries, untrimmed.
pub open spec fn identity_text(i: Identity) -> Seq<char> {
    match i {
        Identity::Ref { display_name } => display_name@,
        Identity::Raw(s) => s@,
    }
}

impl Identity {
    /// The display name, trimmed.
    pub fn name(&self) -> (r: String)
        ensures
            r@ == trim(identity_text(*self)),
    {
        match self {
            Identity::Ref { display_name } => trim_str(display_name.as_str()),
            Identity::Raw(s) => trim_str(s.as_str()),
        }
    }
}

impl WorkItem {
    /// `System.WorkItemType`.
    pub fn work_item_type(&self) -> (r: &str)
        ensures
            r@ == self.fields.work_item_type@,
    {
        self.fields.work_item_type.as_str()
    }

    /// `System.State`.
    pub fn state(&self) -> (r: &str)
        ensures
            r@ == self.fields.state@,
    {
        self.fields.state.as_str()
    }

    /// `System.Title`.
    pub fn title(&self) -> (r: &str)
        ensures
            r@ == self.fields.title@,
    {
        self.fields.title.as_str()
    }
}

/// The trimmed name of `who`, or `fallback` when there is none or it is
/// blank.
pub open spec fn person_or(who: Option<Identity>, fallback: Seq<char>) -> Seq<char> {
    match who {
        Some(i) => if trim(identity_text(i)).len() > 0 {
            trim(identity_text(i))
        } else {
            fallback
        },
        None => fallback,
    }
}

/// The trimmed name of `who`, or `fallback`.
fn person_name(who: &Option<Identity>, fallback: &str) -> (r: String)
    ensures
        r@ == person_or(*who, fallback@),
{
    match who {
        Some(i) => {
            let n = i.name();
            if n.unicode_len() > 0 {
                n
            } else {
                String::from_str(fallback)
            }
        },
        None => String::from_str(fallback),
    }
}

/// The trimmed pieces that are not empty, in order.
pub open spec fn trimmed_nonempty(ps: Seq<Seq<char>>) -> Seq<Seq<char>>
    decreases ps.len(),
{
    if ps.len() == 0 {
        Seq::empty()
    } else {
        let init = trimmed_nonempty(ps.drop_last());
        if trim(ps.last()).len() > 0 {
            init.push(trim(ps.last()))
        } else {
            init
        }
    }
}

/// Tags as the server joins them with `"; "`, as a comma-separated list.
pub open spec fn tags_text(raw: Seq<char>) -> Seq<char> {
    join(trimmed_nonempty(split_on(raw, ';')), ", "@)
}

/// Azure DevOps joins tags with `"; "`. Normalise to a comma-separated list.
pub fn normalize_tags(raw: &str) -> (r: String)
    ensures
        r@ == tags_text(raw@),
{
    let v = chars_of(raw);
    let parts = split_chars(v.as_slice(), ';');
    let mut kept: Vec<String> = Vec::new();
    let mut i: usize = 0;
    while i < parts.len()
        invariant
            i <= parts.len(),
            pieces(parts@) == split_on(raw@, ';'),
            texts(kept@) == trimmed_nonempty(pieces(parts@).subrange(0, i as int)),
        decreases parts.len() - i,
    {
        let ghost pre = pieces(parts@).subrange(0, i as int);
        let ghost next = pieces(parts@).subrange(0, i + 1);
        assert(next.drop_last() == pre);
        assert(next.last() == parts@[i as int]@);
        let t = trim_chars(parts[i].as_slice());
        if t.len() > 0 {
            let ghost before = kept@;
            kept.push(string_from_chars(t.as_slice()));
            assert(texts(kept@) =~= texts(before).push(t@));
        }
        i = i + 1;
    }
    assert(pieces(parts@).subrange(0, parts.len() as int) == pieces(parts@));
    join_strings(&kept, ", ")
}

/// The header lines of a work item: id, type and state; title; assignee;
/// then the change date and the tags when they are present and not blank.
pub open spec fn summary_text(item: WorkItem) -> Seq<Seq<char>> {
    let f = item.fields;
    let head = seq![
        "#"@ + dec(item.id as nat) + "  ["@ + f.work_item_type@ + "]  State: "@ + f.state@,
        "Title:    "@ + f.title@,
        "Assignee: "@ + person_or(f.assigned_to, "Unassigned"@),
    ];
    let changed = match f.changed_date {
        Some(c) => if trim(c@).len() > 0 {
            seq!["Changed:  "@ + trim(c@)]
        } else {
            Seq::empty()
        },
        None => Seq::empty(),
    };
    let tags = match f.tags {
        Some(t) => if tags_text(t@).len() > 0 {
            seq!["Tags:     "@ + tags_text(t@)]
        } else {
            Seq::empty()
        },
        None => Seq::empty(),
    };
    head + changed + tags
}

/// The header of a work item is its id line, its title line and its
/// assignee line; then a `Changed:` line exactly when the change date is
/// present and not blank, whatever the tags; then a `Tags:` line, last,
/// exactly when the tags are present and not blank once normalised.
pub proof fn law_summary_lines_shape(item: WorkItem)
    ensures
        ({
            let s = summary_text(item);
            let f = item.fields;
            let has_changed = f.changed_date is Some && trim(f.changed_date->0@).len() > 0;
            let has_tags = f.tags is Some && tags_text(f.tags->0@).len() > 0;
            &&& s.len() == 3 + (if has_changed { 1int } else { 0int }) + (if has_tags { 1int } else { 0int })
            &&& s[0] == "#"@ + dec(item.id as nat) + "  ["@ + f.work_item_type@ + "]  State: "@ + f.state@
            &&& s[1] == "Title:    "@ + f.title@
            &&& s[2] == "Assignee: "@ + person_or(f.assigned_to, "Unassigned"@)
            &&& has_changed ==> s[3] == "Changed:  "@ + trim(f.changed_date->0@)
            &&& has_tags ==> s[s.len() - 1] == "Tags:     "@ + tags_text(f.tags->0@)
        }),
{
}

/// The header lines of a work item, as `render` prints them.
pub fn summary_lines(item: &WorkItem) -> (r: Vec<String>)
    ensures
        texts(r@) == summary_text(*item),
{
    let f = &item.fields;
    let mut first = String::from_str("#");
    push_decimal(&mut first, item.id);
    push_str(&mut first, "  [");
    push_str(&mut first, f.work_item_type.as_str());
    push_str(&mut first, "]  State: ");
    push_str(&mut first, f.state.as_str());
    let mut title = String::from_str("Title:    ");
    push_str(&mut title, f.title.as_str());
    let mut assignee = String::from_str("Assignee: ");
    let who = person_name(&f.assigned_to, "Unassigned");
    push_str(&mut assignee, who.as_str());
    let mut lines: Vec<String> = Vec::new();
    lines.push(first);
    lines.push(title);
    lines.push(assignee);
    let ghost head = texts(lines@);
    match &f.changed_date {
        Some(c) => {
            let t = trim_str(c.as_str());
            if t.unicode_len() > 0 {
                let mut line = String::from_str("Changed:  ");
                push_str(&mut line, t.as_str());
                lines.push(line);
            }
        },
        None => {},
    }
    let ghost with_changed = texts(lines@);
    match &f.tags {
        Some(raw) => {
            let t = normalize_tags(raw.as_str());
            if t.unicode_len() > 0 {
                let mut line = String::from_str("Tags:     ");
                push_str(&mut line, t.as_str());
                lines.push(line);
            }
        },
        None => {},
    }
    assert(texts(lines@) =~= summary_text(*item));
    lines
}

/// What HTML flattening yields for `html` at `width` columns: the text, or
/// the message of the error it reports.
pub uninterp spec fn html2text_output(html: Seq<char>, width: usize) -> Result<Seq<char>, Seq<char>>;

/// `html2text::from_read` over the UTF-8 bytes of `html`, wrapping at
/// `width` columns; an error becomes its `Display` message. The contract
/// ties the result to the input and width and claims nothing else.
#[verifier::external_body]
fn html2text_from_read(html: &str, width: usize) -> (r: Result<String, String>)
    ensures
        match r {
            Ok(t) => html2text_output(html@, width) == Ok::<Seq<char>, Seq<char>>(t@),
            Err(m) => html2text_output(html@, width) == Err::<Seq<char>, Seq<char>>(m@),
        },
{
    match html2text::from_read(html.as_bytes(), width) {
        Ok(t) => Ok(t),
        Err(e) => Err(e.to_string()),
    }
}

/// What `html_to_text` makes of `html`: the flattened text with trailing
/// whitespace removed, or the flattener's error message.
pub open spec fn html_outcome(html: Seq<char>) -> Result<Seq<char>, Seq<char>> {
    match html2text_output(html, DESC_WIDTH) {
        Ok(t) => Ok(trim_end(t)),
        Err(m) => Err(m),
    }
}

/// Whether `r` is the rendering outcome `o`: the text on success, a
/// `Render` error with the message on failure.
pub open spec fn rendered_as(r: Result<String, AzdoError>, o: Result<Seq<char>, Seq<char>>) -> bool {
    match o {
        Ok(t) => r matches Ok(s) && s@ == t,
        Err(m) => r matches Err(e) && e matches AzdoError::Render(x) && x@ == m,
    }
}

/// Flatten an HTML fragment to wrapped plain text, trailing whitespace
/// trimmed.
pub fn html_to_text(html: &str) -> (r: Result<String, AzdoError>)
    ensures
        rendered_as(r, html_outcome(html@)),
{
    match html2text_from_read(html, DESC_WIDTH) {
        Ok(t) => Ok(trim_end_str(t.as_str())),
        Err(m) => Err(AzdoError::Render(m)),
    }
}

/// What the description pane shows: the flattened description, or
/// `(none)` when it is absent or blank.
pub open spec fn description_outcome(item: WorkItem) -> Result<Seq<char>, Seq<char>> {
    match item.fields.description {
        Some(h) => if trim(h@).len() > 0 {
            html_outcome(h@)
        } else {
            Ok("(none)"@)
        },
        None => Ok("(none)"@),
    }
}

/// The description as plain text.
pub fn description_text(item: &WorkItem) -> (r: Result<String, AzdoError>)
    ensures
        rendered_as(r, description_outcome(*item)),
{
    match &item.fields.description {
        Some(html) => if !is_blank(html.as_str()) {
            html_to_text(html.as_str())
        } else {
            Ok(String::from_str("(none)"))
        },
        None => Ok(String::from_str("(none)")),
    }
}

/// The whole plain-text block of a work item whose description reads
/// `desc`.
pub open spec fn block_text(item: WorkItem, desc: Seq<char>) -> Seq<char> {
    join(summary_text(item) + seq![Seq::<char>::empty(), "Description:"@, desc], "\n"@)
}

/// What `render` yields for a work item.
pub open spec fn render_outcome(item: WorkItem) -> Result<Seq<char>, Seq<char>> {
    match description_outcome(item) {
        Ok(d) => Ok(block_text(item, d)),
        Err(m) => Err(m),
    }
}

/// The block of a work item whose description has been flattened to
/// `desc`.
pub fn render_block(item: &WorkItem, desc: String) -> (r: String)
    ensures
        r@ == block_text(*item, desc@),
{
    let mut lines = summary_lines(item);
    let ghost head = texts(lines@);
    lines.push(String::new());
    lines.push(String::from_str("Description:"));
    lines.push(desc);
    assert(texts(lines@) =~= summary_text(*item) + seq![Seq::<char>::empty(), "Description:"@, desc@]);
    join_strings(&lines, "\n")
}

/// Render a work item as a readable plain-text block (no trailing newline).
pub fn render(item: &WorkItem) -> (r: Result<String, AzdoError>)
    ensures
        rendered_as(r, render_outcome(*item)),
{
    match description_text(item) {
        Ok(d) => Ok(render_block(item, d)),
        Err(e) => Err(e),
    }
}


/// The date a comment was made, if the server sent one.
pub open spec fn date_of(c: Comment) -> Option<Seq<char>> {
    match c.created_date {
        Some(d) => Some(d@),
        None => None,
    }
}

/// The line above a comment: `[date] author`, or the author alone when the
/// date is absent or blank; a missing or blank author reads `Unknown`.
pub open spec fn comment_header_text(c: Comment) -> Seq<char> {
    let author = person_or(c.created_by, "Unknown"@);
    match c.created_date {
        Some(d) => if trim(d@).len() > 0 {
            "["@ + trim(d@) + "] "@ + author
        } else {
            author
        },
        None => author,
    }
}

/// What a comment's body renders as: `(empty)` when blank, otherwise the
/// flattened HTML.
pub open spec fn comment_body_outcome(c: Comment) -> Result<Seq<char>, Seq<char>> {
    if trim(c.text@).len() == 0 {
        Ok("(empty)"@)
    } else {
        html_outcome(c.text@)
    }
}

/// The lines of the comments in order (a blank line, the header, the body
/// for each), or the error of the first comment whose body fails to render.
pub open spec fn comment_lines(cs: Seq<Comment>) -> Result<Seq<Seq<char>>, Seq<char>>
    decreases cs.len(),
{
    if cs.len() == 0 {
        Ok(Seq::empty())
    } else {
        match comment_lines(cs.drop_last()) {
            Err(m) => Err(m),
            Ok(init) => match comment_body_outcome(cs.last()) {
                Err(m) => Err(m),
                Ok(b) => Ok(init + seq![Seq::<char>::empty(), comment_header_text(cs.last()), b]),
            },
        }
    }
}

/// What `render_comments` yields.
pub open spec fn comments_outcome(cs: Seq<Comment>) -> Result<Seq<char>, Seq<char>> {
    if cs.len() == 0 {
        Ok("Comments: (none)"@)
    } else {
        match comment_lines(cs) {
            Ok(ls) => Ok(join(seq!["Comments ("@ + dec(cs.len()) + "):"@] + ls, "\n"@)),
            Err(m) => Err(m),
        }
    }
}

/// The header line of one comment.
fn comment_header(c: &Comment) -> (r: String)
    ensures
        r@ == comment_header_text(*c),
{
    let author = person_name(&c.created_by, "Unknown");
    match &c.created_date {
        Some(d) => {
            let t = trim_str(d.as_str());
            if t.unicode_len() > 0 {
                let mut out = String::from_str("[");
                push_str(&mut out, t.as_str());
                push_str(&mut out, "] ");
                push_str(&mut out, author.as_str());
                out
            } else {
                author
            }
        },
        None => author,
    }
}

/// Render a comments section (no trailing newline).
pub fn render_comments(comments: &[Comment]) -> (r: Result<String, AzdoError>)
    ensures
        rendered_as(r, comments_outcome(comments@)),
{
    if comments.len() == 0 {
        return Ok(String::from_str("Comments: (none)"));
    }
    assert(comments_outcome(comments@) == match comment_lines(comments@) {
        Ok(ls) => Ok(join(seq!["Comments ("@ + dec(comments@.len()) + "):"@] + ls, "\n"@)),
        Err(m) => Err::<Seq<char>, Seq<char>>(m),
    });
    let mut first = String::from_str("Comments (");
    push_decimal(&mut first, comments.len() as u64);
    push_str(&mut first, "):");
    let mut lines: Vec<String> = Vec::new();
    lines.push(first);
    let mut i: usize = 0;
    assert(comments@.subrange(0, 0) =~= Seq::<Comment>::empty());
    assert(texts(lines@).drop_first() =~= Seq::<Seq<char>>::empty());
    while i < comments.len()
        invariant
            i <= comments.len(),
            texts(lines@).len() >= 1,
            texts(lines@)[0] == "Comments ("@ + dec(comments@.len()) + "):"@,
            comment_lines(comments@.subrange(0, i as int)) == Ok::<Seq<Seq<char>>, Seq<char>>(
                texts(lines@).drop_first(),
            ),
        decreases comments.len() - i,
    {
        let c = &comments[i];
        let ghost pre = comments@.subrange(0, i as int);
        let ghost next = comments@.subrange(0, i + 1);
        assert(next.drop_last() == pre);
        assert(next.last() == *c);
        let body = if is_blank(c.text.as_str()) {
            String::from_str("(empty)")
        } else {
            match html_to_text(c.text.as_str()) {
                Ok(t) => t,
                Err(e) => {
                    let ghost m = html_outcome(c.text@)->Err_0;
                    assert(comment_body_outcome(*c) == Err::<Seq<char>, Seq<char>>(m));
                    assert(comment_lines(next) == Err::<Seq<Seq<char>>, Seq<char>>(m));
                    proof {
                        lemma_comment_lines_error(comments@, i as int + 1);
                    }
                    assert(comments_outcome(comments@) == Err::<Seq<char>, Seq<char>>(m));
                    return Err(e);
                },
            }
        };
        let ghost before = texts(lines@);
        lines.push(String::new());
        lines.push(comment_header(c));
        lines.push(body);
        assert(texts(lines@) =~= before + seq![Seq::<char>::empty(), comment_header_text(*c), body@]);
        assert(texts(lines@).drop_first() =~= before.drop_first() + seq![
            Seq::<char>::empty(),
            comment_header_text(*c),
            body@,
        ]);
        i = i + 1;
    }
    assert(comments@.subrange(0, comments.len() as int) == comments@);
    assert(texts(lines@) =~= seq!["Comments ("@ + dec(comments@.len()) + "):"@] + texts(lines@).drop_first());
    Ok(join_strings(&lines, "\n"))
}

/// An error among the first `k` comments is the error of all of them.
proof fn lemma_comment_lines_error(cs: Seq<Comment>, k: int)
    requires
        0 <= k <= cs.len(),
        comment_lines(cs.subrange(0, k)) is Err,
    ensures
        comment_lines(cs) == comment_lines(cs.subrange(0, k)),
    decreases cs.len() - k,
{
    if k < cs.len() {
        let next = cs.subrange(0, k + 1);
        assert(next.drop_last() == cs.subrange(0, k));
        lemma_comment_lines_error(cs, k + 1);
    } else {
        assert(cs.subrange(0, k) == cs);
    }
}


/// Chronological order of comments: by creation date (absent first, then
/// by text, which for ISO 8601 timestamps is time order), ties broken by id.
pub open spec fn comment_lt(a: Comment, b: Comment) -> bool {
    match (date_of(a), date_of(b)) {
        (None, Some(_)) => true,
        (Some(x), Some(y)) => text_lt(x, y) || (x == y && a.id < b.id),
        (None, None) => a.id < b.id,
        (Some(_), None) => false,
    }
}

/// No comment comes after one that it should precede.
pub open spec fn chrono_sorted(s: Seq<Comment>) -> bool {
    forall|i: int, j: int| 0 <= i < j < s.len() ==> !comment_lt(#[trigger] s[j], #[trigger] s[i])
}

/// `comment_lt` is a strict weak order: asymmetric, and its negation is
/// transitive.
pub proof fn lemma_comment_order(x: Comment, y: Comment, z: Comment)
    ensures
        !(comment_lt(x, y) && comment_lt(y, x)),
        comment_lt(x, z) ==> comment_lt(x, y) || comment_lt(y, z),
{
    match (date_of(x), date_of(y), date_of(z)) {
        (Some(a), Some(b), Some(c)) => {
            lemma_text_lt_asymmetric(a, b);
            lemma_text_lt_total(a, b);
            lemma_text_lt_total(b, c);
            lemma_text_lt_total(a, c);
            lemma_text_lt_asymmetric(a, c);
            lemma_text_lt_asymmetric(b, c);
            if text_lt(a, b) && text_lt(b, c) {
                lemma_text_lt_transitive(a, b, c);
            }
            if text_lt(c, b) && text_lt(b, a) {
                lemma_text_lt_transitive(c, b, a);
            }
            if text_lt(b, a) && text_lt(a, c) {
                lemma_text_lt_transitive(b, a, c);
            }
            if text_lt(a, c) && text_lt(c, b) {
                lemma_text_lt_transitive(a, c, b);
            }
            if text_lt(c, a) && text_lt(a, b) {
                lemma_text_lt_transitive(c, a, b);
            }
            if text_lt(b, c) && text_lt(c, a) {
                lemma_text_lt_transitive(b, c, a);
            }
        },
        (Some(a), Some(b), None) => {
            lemma_text_lt_asymmetric(a, b);
        },
        (Some(a), None, Some(c)) => {
            lemma_text_lt_asymmetric(a, c);
        },
        (None, Some(b), Some(c)) => {
            lemma_text_lt_asymmetric(b, c);
        },
        _ => {},
    }
}

/// `comment_lt`.
fn comment_less(a: &Comment, b: &Comment) -> (r: bool)
    ensures
        r == comment_lt(*a, *b),
{
    match (&a.created_date, &b.created_date) {
        (None, Some(_)) => true,
        (Some(x), Some(y)) => str_less(x.as_str(), y.as_str()) || (x.eq(y) && a.id < b.id),
        (None, None) => a.id < b.id,
        (Some(_), None) => false,
    }
}

/// `x` and `c` sort as equals: the same date (or none) and the same id.
pub open spec fn same_key(x: Comment, c: Comment) -> bool {
    date_of(x) == date_of(c) && x.id == c.id
}

/// The comments of `s` that sort as equals of `c`, in their order in `s`.
pub open spec fn ties(s: Seq<Comment>, c: Comment) -> Seq<Comment> {
    s.filter(|x: Comment| same_key(x, c))
}

/// Inserting `c` in front of everything it does not follow puts it first
/// among its equals.
proof fn lemma_ties_after_insert(s: Seq<Comment>, p: int, c: Comment, d: Comment)
    requires
        0 <= p <= s.len(),
        forall|k: int| 0 <= k < p ==> comment_lt(#[trigger] s[k], c),
    ensures
        ties(s.insert(p, c), d) == (if same_key(c, d) {
            seq![c]
        } else {
            Seq::<Comment>::empty()
        }) + ties(s, d),
{
    let pred = |x: Comment| same_key(x, d);
    let front = s.subrange(0, p);
    let back = s.subrange(p, s.len() as int);
    assert(s.insert(p, c) =~= front + (seq![c] + back));
    assert(s =~= front + back);
    Seq::filter_distributes_over_add(front, seq![c] + back, pred);
    Seq::filter_distributes_over_add(front, back, pred);
    back.lemma_filter_prepend(c, pred);
    if same_key(c, d) {
        assert forall|k: int| 0 <= k < front.len() implies !pred(#[trigger] front[k]) by {
            let x = front[k];
            assert(comment_lt(s[k], c));
            if same_key(x, d) {
                match date_of(x) {
                    Some(t) => lemma_text_lt_asymmetric(t, t),
                    None => {},
                }
            }
        }
        front.lemma_all_neg_filter_empty(pred);
        assert(front.filter(pred) =~= Seq::<Comment>::empty());
    }
}

/// An empty comment, to hold a slot while its comment is elsewhere.
fn blank_comment() -> (r: Comment) {
    Comment { id: 0, text: String::new(), created_by: None, created_date: None }
}

/// Order comments oldest-first; ties broken by comment id. Comments with
/// the same date and id keep their order.
pub fn sort_chrono(comments: &mut [Comment])
    ensures
        final(comments)@.to_multiset() == old(comments)@.to_multiset(),
        chrono_sorted(final(comments)@),
        forall|c: Comment| #[trigger] ties(final(comments)@, c) == ties(old(comments)@, c),
{
    let ghost given = comments@;
    let n = comments.len();
    let mut held: Vec<Comment> = Vec::new();
    let mut i: usize = 0;
    while i < n
        invariant
            i <= n,
            n == comments@.len(),
            given.len() == n,
            held@ == given.subrange(0, i as int),
            forall|k: int| i <= k < n ==> comments@[k] == given[k],
        decreases n - i,
    {
        let mut slot = blank_comment();
        std::mem::swap(&mut comments[i], &mut slot);
        held.push(slot);
        assert(held@ =~= given.subrange(0, i + 1));
        i = i + 1;
    }
    assert(held@ =~= given);
    sort_held(&mut held);
    let ghost sorted = held@;
    assert(sorted.len() == n) by {
        broadcast use vstd::seq_lib::group_to_multiset_ensures;

        assert(sorted.to_multiset().len() == given.to_multiset().len());
    }
    let mut j: usize = 0;
    while j < n
        invariant
            j <= n,
            n == comments@.len(),
            held@.len() == n,
            sorted.len() == n,
            forall|k: int| j <= k < n ==> held@[k] == sorted[k],
            forall|k: int| 0 <= k < j ==> comments@[k] == sorted[k],
        decreases n - j,
    {
        std::mem::swap(&mut comments[j], &mut held[j]);
        j = j + 1;
    }
    assert(comments@ =~= sorted);
}

/// `sort_chrono` on the comments moved into a vector.
fn sort_held(comments: &mut Vec<Comment>)
    ensures
        final(comments)@.to_multiset() == old(comments)@.to_multiset(),
        chrono_sorted(final(comments)@),
        forall|c: Comment| #[trigger] ties(final(comments)@, c) == ties(old(comments)@, c),
{
    broadcast use vstd::seq_lib::group_to_multiset_ensures, vstd::multiset::group_multiset_axioms;

    let ghost given = comments@;
    let mut sorted: Vec<Comment> = Vec::new();
    assert(sorted@.to_multiset() =~= vstd::multiset::Multiset::empty());
    while comments.len() > 0
        invariant
            sorted@.to_multiset().add(comments@.to_multiset()) == given.to_multiset(),
            chrono_sorted(sorted@),
            comments@.len() <= given.len(),
            comments@ == given.subrange(0, comments@.len() as int),
            forall|d: Comment| #[trigger] ties(sorted@, d) == ties(
                given.subrange(comments@.len() as int, given.len() as int),
                d,
            ),
        decreases comments.len(),
    {
        let ghost before = comments@;
        let c = match comments.pop() {
            Some(c) => c,
            None => {
                assert(false);
                return;
            },
        };
        assert(before == comments@.push(c));
        let mut p: usize = 0;
        while p < sorted.len() && comment_less(&sorted[p], &c)
            invariant
                p <= sorted.len(),
                forall|k: int| 0 <= k < p ==> comment_lt(#[trigger] sorted@[k], c),
            decreases sorted.len() - p,
        {
            p = p + 1;
        }
        let ghost old_sorted = sorted@;
        assert(p < old_sorted.len() ==> !comment_lt(old_sorted[p as int], c));
        let ghost cv = c;
        assert(cv == c);
        sorted.insert(p, c);
        assert(sorted@ =~= old_sorted.insert(p as int, cv));
        proof {
            vstd::seq_lib::to_multiset_insert(old_sorted, p as int, cv);
            vstd::seq_lib::to_multiset_build(comments@, cv);
        }
        assert(before.to_multiset() == comments@.push(cv).to_multiset());
        assert(sorted@.to_multiset().add(comments@.to_multiset()) =~= old_sorted.to_multiset().add(
            before.to_multiset(),
        ));
        proof {
            let k = comments@.len() as int;
            assert(given[k] == cv) by {
                assert(before == given.subrange(0, k + 1));
                assert(before[k] == cv);
            }
            assert(comments@ =~= given.subrange(0, k));
            let suffix = given.subrange(k + 1, given.len() as int);
            assert(given.subrange(k, given.len() as int) =~= seq![cv] + suffix);
            assert forall|d: Comment| #[trigger] ties(sorted@, d) == ties(
                given.subrange(k, given.len() as int),
                d,
            ) by {
                lemma_ties_after_insert(old_sorted, p as int, cv, d);
                suffix.lemma_filter_prepend(cv, |x: Comment| same_key(x, d));
            }
        }
        assert(chrono_sorted(sorted@)) by {
            assert forall|i: int, j: int| 0 <= i < j < sorted@.len() implies !comment_lt(
                #[trigger] sorted@[j],
                #[trigger] sorted@[i],
            ) by {
                if i < p && j == p {
                    lemma_comment_order(old_sorted[i], c, c);
                } else if i == p && j > p {
                    lemma_comment_order(old_sorted[j - 1], old_sorted[p as int], c);
                } else if i < p && j > p {
                    assert(sorted@[j] == old_sorted[j - 1]);
                } else if j < p {
                } else {
                    assert(sorted@[i] == old_sorted[i - 1]);
                    assert(sorted@[j] == old_sorted[j - 1]);
                }
            }
        }
    }
    assert(given.subrange(0, given.len() as int) =~= given);
    *comments = sorted;
}

} // verus!
