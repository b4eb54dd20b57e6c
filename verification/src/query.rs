//! `azdo my`: the caller's open work items, fetched by WIQL and then in
//! batches, shown as an aligned table.

use vstd::prelude::*;

use crate::config::utf8_len;
use crate::text::{dec, join, join_strings, pad_right, push_padded_right, push_str, spaces, texts};
use crate::workitem::WorkItem;

verus! {

/// "Open" == assigned to the caller and not in a terminal state. `@Me` is
/// resolved server-side from the token's identity.
pub fn wiql_text() -> (r: String)
    ensures
        r@ == "SELECT [System.Id] FROM WorkItems WHERE [System.AssignedTo] = @Me AND [System.State] NOT IN ('Closed', 'Done', 'Removed') ORDER BY [System.ChangedDate] DESC"@,
{
    String::from_str(
        "SELECT [System.Id] FROM WorkItems WHERE [System.AssignedTo] = @Me AND [System.State] NOT IN ('Closed', 'Done', 'Removed') ORDER BY [System.ChangedDate] DESC",
    )
}

/// `workitemsbatch` rejects requests with more than 200 ids.
pub const BATCH_MAX: usize = 200;

/// The fields requested for the table.
pub fn batch_fields() -> (r: Vec<String>)
    ensures
        texts(r@) == seq!["System.Id"@, "System.WorkItemType"@, "System.State"@, "System.Title"@],
{
    let mut v: Vec<String> = Vec::new();
    v.push(String::from_str("System.Id"));
    v.push(String::from_str("System.WorkItemType"));
    v.push(String::from_str("System.State"));
    v.push(String::from_str("System.Title"));
    assert(texts(v@) =~= seq!["System.Id"@, "System.WorkItemType"@, "System.State"@, "System.Title"@]);
    v
}

/// Consecutive runs of `s` from index `i` on, each `k` long but the last.
pub open spec fn chunks_from(s: Seq<u64>, k: nat, i: int) -> Seq<Seq<u64>>
    decreases s.len() + k - i,
{
    if i >= s.len() || k == 0 || i < 0 {
        Seq::empty()
    } else {
        let end = if i + k < s.len() { i + k } else { s.len() as int };
        seq![s.subrange(i, end)] + chunks_from(s, k, i + k)
    }
}

/// `[u64]::chunks`: the ids split into requests of at most `BATCH_MAX`,
/// in order.
pub fn batch_chunks(ids: &[u64]) -> (r: Vec<Vec<u64>>)
    ensures
        r@.map_values(|c: Vec<u64>| c@) == chunks_from(ids@, BATCH_MAX as nat, 0),
{
    let mut out: Vec<Vec<u64>> = Vec::new();
    let mut i: usize = 0;
    while i < ids.len()
        invariant
            i <= ids.len(),
            out@.map_values(|c: Vec<u64>| c@) + chunks_from(ids@, 200, i as int) == chunks_from(
                ids@,
                200,
                0,
            ),
        decreases ids.len() - i,
    {
        let end = if ids.len() - i > BATCH_MAX { i + BATCH_MAX } else { ids.len() };
        let mut chunk: Vec<u64> = Vec::new();
        let mut j: usize = i;
        while j < end
            invariant
                i <= j <= end <= ids.len(),
                chunk@ == ids@.subrange(i as int, j as int),
            decreases end - j,
        {
            chunk.push(ids[j]);
            assert(ids@.subrange(i as int, j + 1) == ids@.subrange(i as int, j as int).push(
                ids@[j as int],
            ));
            j = j + 1;
        }
        let ghost before = out@.map_values(|c: Vec<u64>| c@);
        out.push(chunk);
        assert(out@.map_values(|c: Vec<u64>| c@) =~= before.push(ids@.subrange(i as int, end as int)));
        assert(chunks_from(ids@, 200, i + 200) == chunks_from(ids@, 200, end as int)) by {
            if end < i + 200 {
                assert(chunks_from(ids@, 200, i + 200) == Seq::<Seq<u64>>::empty());
                assert(chunks_from(ids@, 200, end as int) == Seq::<Seq<u64>>::empty());
            }
        }
        assert(chunks_from(ids@, 200, i as int) == seq![ids@.subrange(i as int, end as int)]
            + chunks_from(ids@, 200, end as int));
        assert(before + chunks_from(ids@, 200, i as int) =~= before.push(
            ids@.subrange(i as int, end as int),
        ) + chunks_from(ids@, 200, end as int));
        i = end;
    }
    assert(chunks_from(ids@, 200, i as int) == Seq::<Seq<u64>>::empty());
    assert(out@.map_values(|c: Vec<u64>| c@) =~= out@.map_values(|c: Vec<u64>| c@) + Seq::<
        Seq<u64>,
    >::empty());
    out
}

/// The widest of `base` and the lengths (in UTF-8 bytes) that `f` gives
/// the items.
pub open spec fn widest(items: Seq<WorkItem>, base: nat, f: spec_fn(WorkItem) -> nat) -> nat
    decreases items.len(),
{
    if items.len() == 0 {
        base
    } else {
        let w = widest(items.drop_last(), base, f);
        if f(items.last()) > w {
            f(items.last())
        } else {
            w
        }
    }
}

/// Length of an id column entry.
pub open spec fn id_len(it: WorkItem) -> nat {
    dec(it.id as nat).len()
}

/// Length of a type column entry.
pub open spec fn type_len(it: WorkItem) -> nat {
    utf8_len(it.fields.work_item_type@)
}

/// Length of a state column entry.
pub open spec fn state_len(it: WorkItem) -> nat {
    utf8_len(it.fields.state@)
}

/// Column widths (id, type, state), sized to the header and the data.
pub open spec fn widths_of(items: Seq<WorkItem>) -> (nat, nat, nat) {
    (
        widest(items, 2, |it: WorkItem| id_len(it)),
        widest(items, 4, |it: WorkItem| type_len(it)),
        widest(items, 5, |it: WorkItem| state_len(it)),
    )
}

/// Number of decimal digits of `n`.
fn decimal_len(n: u64) -> (r: usize)
    ensures
        r as nat == dec(n as nat).len(),
{
    let mut t = String::new();
    crate::text::push_decimal(&mut t, n);
    t.unicode_len()
}

/// Column widths (id, type, state) sized to the header and the data.
pub fn widths(items: &[WorkItem]) -> (r: (usize, usize, usize))
    ensures
        (r.0 as nat, r.1 as nat, r.2 as nat) == widths_of(items@),
{
    let mut id: usize = 2;
    let mut ty: usize = 4;
    let mut st: usize = 5;
    let mut i: usize = 0;
    assert(items@.subrange(0, 0) =~= Seq::<WorkItem>::empty());
    while i < items.len()
        invariant
            i <= items.len(),
            (id as nat, ty as nat, st as nat) == widths_of(items@.subrange(0, i as int)),
        decreases items.len() - i,
    {
        let it = &items[i];
        let ghost next = items@.subrange(0, i + 1);
        assert(next.drop_last() == items@.subrange(0, i as int));
        assert(next.last() == *it);
        let a = decimal_len(it.id);
        let b = it.fields.work_item_type.as_str().len();
        let c = it.fields.state.as_str().len();
        if a > id {
            id = a;
        }
        if b > ty {
            ty = b;
        }
        if c > st {
            st = c;
        }
        i = i + 1;
    }
    assert(items@.subrange(0, items.len() as int) == items@);
    (id, ty, st)
}

/// One table row: the id, type and state left-aligned in their columns,
/// two spaces between columns, then the title.
pub open spec fn row_text(it: WorkItem, w: (nat, nat, nat)) -> Seq<char> {
    pad_right(dec(it.id as nat), w.0) + "  "@ + pad_right(it.fields.work_item_type@, w.1) + "  "@
        + pad_right(it.fields.state@, w.2) + "  "@ + it.fields.title@
}

/// The table's header line.
pub open spec fn header_text(w: (nat, nat, nat)) -> Seq<char> {
    pad_right("ID"@, w.0) + "  "@ + pad_right("Type"@, w.1) + "  "@ + pad_right("State"@, w.2)
        + "  "@ + "Title"@
}

fn row(it: &WorkItem, w: (usize, usize, usize)) -> (r: String)
    ensures
        r@ == row_text(*it, (w.0 as nat, w.1 as nat, w.2 as nat)),
{
    let mut id = String::new();
    crate::text::push_decimal(&mut id, it.id);
    let mut out = String::new();
    push_padded_right(&mut out, id.as_str(), w.0);
    push_str(&mut out, "  ");
    push_padded_right(&mut out, it.fields.work_item_type.as_str(), w.1);
    push_str(&mut out, "  ");
    push_padded_right(&mut out, it.fields.state.as_str(), w.2);
    push_str(&mut out, "  ");
    push_str(&mut out, it.fields.title.as_str());
    out
}

/// Aligned data rows (no header); empty when there are no items.
pub fn rows(items: &[WorkItem]) -> (r: Vec<String>)
    ensures
        r@.len() == items@.len(),
        forall|k: int| 0 <= k < items@.len() ==> (#[trigger] r@[k])@ == row_text(items@[k], widths_of(items@)),
{
    let w = widths(items);
    let mut out: Vec<String> = Vec::new();
    let mut i: usize = 0;
    while i < items.len()
        invariant
            i <= items.len(),
            (w.0 as nat, w.1 as nat, w.2 as nat) == widths_of(items@),
            out@.len() == i,
            forall|k: int| 0 <= k < i ==> (#[trigger] out@[k])@ == row_text(items@[k], widths_of(items@)),
        decreases items.len() - i,
    {
        out.push(row(&items[i], w));
        i = i + 1;
    }
    out
}

/// The table as `render_table` prints it.
pub open spec fn table_text(items: Seq<WorkItem>) -> Seq<char> {
    if items.len() == 0 {
        "No open work items."@
    } else {
        join(
            seq![header_text(widths_of(items))] + Seq::new(
                items.len(),
                |k: int| row_text(items[k], widths_of(items)),
            ),
            "\n"@,
        )
    }
}

/// Render the items as an aligned plain-text table (header + rows), or a
/// friendly message when the list is empty.
pub fn render_table(items: &[WorkItem]) -> (r: String)
    ensures
        r@ == table_text(items@),
{
    if items.len() == 0 {
        return String::from_str("No open work items.");
    }
    let w = widths(items);
    let mut header = String::new();
    push_padded_right(&mut header, "ID", w.0);
    push_str(&mut header, "  ");
    push_padded_right(&mut header, "Type", w.1);
    push_str(&mut header, "  ");
    push_padded_right(&mut header, "State", w.2);
    push_str(&mut header, "  ");
    push_str(&mut header, "Title");
    let data = rows(items);
    let mut lines: Vec<String> = Vec::new();
    lines.push(header);
    let mut i: usize = 0;
    while i < data.len()
        invariant
            i <= data.len(),
            data@.len() == items@.len(),
            forall|k: int| 0 <= k < items@.len() ==> (#[trigger] data@[k])@ == row_text(items@[k], widths_of(items@)),
            texts(lines@) == seq![header_text(widths_of(items@))] + Seq::new(
                i as nat,
                |k: int| row_text(items@[k], widths_of(items@)),
            ),
        decreases data.len() - i,
    {
        let ghost before = texts(lines@);
        let line = data[i].clone();
        assert(line@ == row_text(items@[i as int], widths_of(items@)));
        lines.push(line);
        assert(texts(lines@) =~= before.push(row_text(items@[i as int], widths_of(items@))));
        assert(texts(lines@) =~= seq![header_text(widths_of(items@))] + Seq::new(
            (i + 1) as nat,
            |k: int| row_text(items@[k], widths_of(items@)),
        ));
        i = i + 1;
    }
    join_strings(&lines, "\n")
}


/// A string has at least as many UTF-8 bytes as characters.
proof fn lemma_chars_at_most_bytes(s: Seq<char>)
    ensures
        s.len() <= vstd::utf8::encode_utf8(s).len(),
    decreases s.len(),
{
    if s.len() > 0 {
        lemma_chars_at_most_bytes(s.drop_first());
    }
}

/// `widest` covers its base and every item's entry.
proof fn lemma_widest_covers(items: Seq<WorkItem>, base: nat, f: spec_fn(WorkItem) -> nat, k: int)
    requires
        0 <= k < items.len(),
    ensures
        widest(items, base, f) >= f(items[k]),
        widest(items, base, f) >= base,
    decreases items.len(),
{
    if k < items.len() - 1 {
        lemma_widest_covers(items.drop_last(), base, f, k);
        assert(items.drop_last()[k] == items[k]);
    } else if items.len() > 1 {
        lemma_widest_covers(items.drop_last(), base, f, 0);
    } else {
        assert(widest(items.drop_last(), base, f) == base);
    }
}

/// `pad_right` to a width the text fits in gives exactly that width.
proof fn lemma_pad_exact(t: Seq<char>, w: nat)
    requires
        t.len() <= w,
    ensures
        pad_right(t, w).len() == w,
        pad_right(t, w).subrange(0, t.len() as int) == t,
{
    if t.len() < w {
        assert((t + spaces((w - t.len()) as nat)).subrange(0, t.len() as int) =~= t);
    } else {
        assert(t.subrange(0, t.len() as int) =~= t);
    }
}

/// The table's columns line up: in the header and in every row the id,
/// type and state fill exactly their column widths (each entry left at
/// its start), so the title starts at the same column everywhere.
pub proof fn law_table_is_column_aligned(items: Seq<WorkItem>, k: int)
    requires
        0 <= k < items.len(),
        forall|j: int| 0 <= j < items.len() ==> vstd::utf8::encode_utf8((#[trigger] items[j]).fields.work_item_type@).len() <= usize::MAX
            && vstd::utf8::encode_utf8(items[j].fields.state@).len() <= usize::MAX,
    ensures
        ({
            let w = widths_of(items);
            let c = (w.0 + w.1 + w.2 + 6) as int;
            let row = row_text(items[k], w);
            let head = header_text(w);
            &&& row.subrange(c, row.len() as int) == items[k].fields.title@
            &&& head.subrange(c, head.len() as int) == "Title"@
            &&& row.subrange(0, dec(items[k].id as nat).len() as int) == dec(items[k].id as nat)
            &&& row.subrange(w.0 + 2int, (w.0 + 2 + items[k].fields.work_item_type@.len()) as int)
                == items[k].fields.work_item_type@
            &&& row.subrange(w.0 + w.1 + 4int, (w.0 + w.1 + 4 + items[k].fields.state@.len()) as int)
                == items[k].fields.state@
        }),
{
    let w = widths_of(items);
    let it = items[k];
    lemma_widest_covers(items, 2, |x: WorkItem| id_len(x), k);
    lemma_widest_covers(items, 4, |x: WorkItem| type_len(x), k);
    lemma_widest_covers(items, 5, |x: WorkItem| state_len(x), k);
    lemma_chars_at_most_bytes(it.fields.work_item_type@);
    lemma_chars_at_most_bytes(it.fields.state@);
    let id = dec(it.id as nat);
    let ty = it.fields.work_item_type@;
    let st = it.fields.state@;
    lemma_pad_exact(id, w.0);
    lemma_pad_exact(ty, w.1);
    lemma_pad_exact(st, w.2);
    reveal_strlit("ID");
    reveal_strlit("Type");
    reveal_strlit("State");
    reveal_strlit("  ");
    lemma_pad_exact("ID"@, w.0);
    lemma_pad_exact("Type"@, w.1);
    lemma_pad_exact("State"@, w.2);
    let a = pad_right(id, w.0);
    let b = pad_right(ty, w.1);
    let d = pad_right(st, w.2);
    let row = a + "  "@ + b + "  "@ + d + "  "@ + it.fields.title@;
    assert(row == row_text(it, w));
    assert(row.subrange((w.0 + w.1 + w.2 + 6) as int, row.len() as int) =~= it.fields.title@);
    assert(row.subrange(0, id.len() as int) =~= a.subrange(0, id.len() as int));
    assert(row.subrange(w.0 + 2int, (w.0 + 2 + ty.len()) as int) =~= b.subrange(0, ty.len() as int));
    assert(row.subrange(w.0 + w.1 + 4int, (w.0 + w.1 + 4 + st.len()) as int) =~= d.subrange(0, st.len() as int));
    let head = pad_right("ID"@, w.0) + "  "@ + pad_right("Type"@, w.1) + "  "@ + pad_right("State"@, w.2) + "  "@ + "Title"@;
    assert(head.subrange((w.0 + w.1 + w.2 + 6) as int, head.len() as int) =~= "Title"@);
}


/// The chunks of `cs`, one after another.
pub open spec fn concat(cs: Seq<Seq<u64>>) -> Seq<u64>
    decreases cs.len(),
{
    if cs.len() == 0 {
        Seq::empty()
    } else {
        cs[0] + concat(cs.drop_first())
    }
}

proof fn lemma_chunks_from(s: Seq<u64>, k: nat, i: int)
    requires
        k > 0,
        0 <= i <= s.len(),
    ensures
        concat(chunks_from(s, k, i)) == s.subrange(i, s.len() as int),
        forall|j: int| 0 <= j < chunks_from(s, k, i).len() ==> 0 < (#[trigger] chunks_from(s, k, i)[j]).len() <= k,
    decreases s.len() - i,
{
    if i < s.len() {
        let end = if i + k < s.len() { i + k } else { s.len() as int };
        lemma_chunks_from(s, k, end);
        let cs = chunks_from(s, k, i);
        if i + k >= s.len() {
            assert(chunks_from(s, k, i + k) == Seq::<Seq<u64>>::empty());
        }
        assert(cs.drop_first() =~= chunks_from(s, k, i + k));
        assert(concat(chunks_from(s, k, i + k)) == s.subrange(end, s.len() as int)) by {
            if i + k >= s.len() {
                assert(s.subrange(end, s.len() as int) =~= Seq::<u64>::empty());
            }
        }
        assert(s.subrange(i, end) + s.subrange(end, s.len() as int) =~= s.subrange(i, s.len() as int));
        assert forall|j: int| 0 <= j < cs.len() implies 0 < (#[trigger] cs[j]).len() <= k by {
            if j > 0 {
                assert(cs[j] == chunks_from(s, k, i + k)[j - 1]);
            }
        }
    } else {
        assert(s.subrange(i, s.len() as int) =~= Seq::<u64>::empty());
    }
}

/// Batching loses nothing and keeps the order: the batches, one after
/// another, are the ids as found, and each batch holds between one and
/// `BATCH_MAX` ids.
pub proof fn law_batches_keep_order(ids: Seq<u64>)
    ensures
        concat(chunks_from(ids, BATCH_MAX as nat, 0)) == ids,
        forall|j: int| 0 <= j < chunks_from(ids, BATCH_MAX as nat, 0).len() ==> 0 < (#[trigger] chunks_from(
            ids,
            BATCH_MAX as nat,
            0,
        )[j]).len() <= BATCH_MAX,
{
    lemma_chunks_from(ids, BATCH_MAX as nat, 0);
    assert(ids.subrange(0, ids.len() as int) =~= ids);
}

} // verus!
