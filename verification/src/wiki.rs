//! Wiki pages: where they are addressed and how a page tree is flattened
//! into the list of its paths.

use vstd::prelude::*;

use crate::backend::pair_texts;
use crate::client::AzdoClient;
use crate::text::{push_str, texts};

verus! {

/// A wiki page node from `Pages - Get`; `sub_pages` is filled when the tree
/// is fetched with `recursionLevel=full`.
#[derive(Debug)]
pub struct WikiPage {
    pub path: String,
    pub content: Option<String>,
    pub sub_pages: Vec<WikiPage>,
}

/// The paths of `node` and of its whole subtree in pre-order, leaving out
/// empty paths.
pub open spec fn flat(node: WikiPage) -> Seq<Seq<char>>
    decreases node, node.sub_pages@.len() + 1,
{
    (if node.path@.len() == 0 {
        Seq::<Seq<char>>::empty()
    } else {
        seq![node.path@]
    }) + flat_children(node, 0)
}

/// The flattened subtrees of the children of `node` from index `i` on.
pub open spec fn flat_children(node: WikiPage, i: int) -> Seq<Seq<char>>
    decreases node, node.sub_pages@.len() - i,
{
    if 0 <= i < node.sub_pages@.len() {
        flat(node.sub_pages@[i]) + flat_children(node, i + 1)
    } else {
        Seq::empty()
    }
}

/// The number of pages with a non-empty path in the tree under `node`.
pub open spec fn page_count(node: WikiPage) -> nat
    decreases node, node.sub_pages@.len() + 1,
{
    (if node.path@.len() == 0 {
        0nat
    } else {
        1nat
    }) + children_page_count(node, 0)
}

/// The number of pages with a non-empty path under the children of `node`
/// from index `i` on.
pub open spec fn children_page_count(node: WikiPage, i: int) -> nat
    decreases node, node.sub_pages@.len() - i,
{
    if 0 <= i < node.sub_pages@.len() {
        page_count(node.sub_pages@[i]) + children_page_count(node, i + 1)
    } else {
        0
    }
}

/// Where the paths of child `i` stand among those of the children from
/// index `j` on.
proof fn lemma_child_within_children(node: WikiPage, j: int, i: int) -> (a: int)
    requires
        0 <= j <= i < node.sub_pages@.len(),
    ensures
        0 <= a,
        a == flat_children(node, j).len() - flat_children(node, i).len(),
        a + flat(node.sub_pages@[i]).len() <= flat_children(node, j).len(),
        flat_children(node, j).subrange(a, a + flat(node.sub_pages@[i]).len()) == flat(
            node.sub_pages@[i],
        ),
    decreases i - j,
{
    let c = flat(node.sub_pages@[i]);
    assert(flat_children(node, i) == c + flat_children(node, i + 1));
    if j == i {
        assert(flat_children(node, j) == c + flat_children(node, j + 1));
        assert(flat_children(node, j).subrange(0, c.len() as int) =~= c);
        0
    } else {
        let b = lemma_child_within_children(node, j + 1, i);
        let h = flat(node.sub_pages@[j]);
        let rest = flat_children(node, j + 1);
        assert(flat_children(node, j) == h + rest);
        assert((h + rest).subrange(h.len() + b, h.len() + b + c.len()) =~= rest.subrange(
            b,
            b + c.len(),
        ));
        h.len() + b
    }
}

/// Every page path under `node` is there once: the flattened tree has as
/// many entries as the tree has pages with a non-empty path.
pub proof fn law_flat_counts_every_page(node: WikiPage)
    ensures
        flat(node).len() == page_count(node),
    decreases node, node.sub_pages@.len() + 1,
{
    lemma_flat_children_count(node, 0);
}

/// The children's part of the count, from index `i` on.
proof fn lemma_flat_children_count(node: WikiPage, i: int)
    ensures
        flat_children(node, i).len() == children_page_count(node, i),
    decreases node, node.sub_pages@.len() - i,
{
    if 0 <= i < node.sub_pages@.len() {
        law_flat_counts_every_page(node.sub_pages@[i]);
        lemma_flat_children_count(node, i + 1);
    }
}

/// The flattened tree starts with the page's own path, when it has one;
/// the flattened subtree of child `i` follows as one unbroken run, right
/// after the pages of the children before it (and of the page itself), so
/// the children's subtrees come in the children's order; no entry is
/// empty.
pub proof fn law_flat_holds_every_subtree(node: WikiPage, i: int)
    requires
        0 <= i < node.sub_pages@.len(),
    ensures
        node.path@.len() > 0 ==> flat(node)[0] == node.path@,
        ({
            let a = (if node.path@.len() == 0 { 0int } else { 1int }) + children_page_count(node, 0)
                - children_page_count(node, i);
            let c = flat(node.sub_pages@[i]);
            &&& c.len() == page_count(node.sub_pages@[i])
            &&& 0 <= a
            &&& a + c.len() <= flat(node).len()
            &&& flat(node).subrange(a, a + c.len()) == c
        }),
{
    let own = if node.path@.len() == 0 {
        Seq::<Seq<char>>::empty()
    } else {
        seq![node.path@]
    };
    let b = lemma_child_within_children(node, 0, i);
    lemma_flat_children_count(node, 0);
    lemma_flat_children_count(node, i);
    law_flat_counts_every_page(node.sub_pages@[i]);
    let c = flat(node.sub_pages@[i]);
    let rest = flat_children(node, 0);
    assert(flat(node) == own + rest);
    let a = own.len() + b;
    assert((own + rest).subrange(a, a + c.len()) =~= rest.subrange(b, b + c.len()));
    assert(flat(node).subrange(a, a + c.len()) == c);
}

/// No entry of the flattened tree is an empty path.
pub proof fn law_flat_paths_non_empty(node: WikiPage)
    ensures
        forall|k: int| 0 <= k < flat(node).len() ==> (#[trigger] flat(node)[k]).len() > 0,
    decreases node, node.sub_pages@.len() + 1,
{
    lemma_flat_children_non_empty(node, 0);
    let own = if node.path@.len() == 0 {
        Seq::<Seq<char>>::empty()
    } else {
        seq![node.path@]
    };
    let rest = flat_children(node, 0);
    assert(flat(node) == own + rest);
    assert forall|k: int| 0 <= k < flat(node).len() implies (#[trigger] flat(node)[k]).len() > 0 by {
        if k < own.len() {
            assert(flat(node)[k] == node.path@);
        } else {
            assert(flat(node)[k] == rest[k - own.len()]);
        }
    }
}

/// The children's part of the same.
proof fn lemma_flat_children_non_empty(node: WikiPage, i: int)
    ensures
        forall|k: int| 0 <= k < flat_children(node, i).len() ==> (#[trigger] flat_children(node, i)[k]).len() > 0,
    decreases node, node.sub_pages@.len() - i,
{
    if 0 <= i < node.sub_pages@.len() {
        law_flat_paths_non_empty(node.sub_pages@[i]);
        lemma_flat_children_non_empty(node, i + 1);
        let h = flat(node.sub_pages@[i]);
        let t = flat_children(node, i + 1);
        assert(flat_children(node, i) == h + t);
        assert forall|k: int| 0 <= k < flat_children(node, i).len() implies (#[trigger] flat_children(node, i)[k]).len() > 0 by {
            if k < h.len() {
                assert(flat_children(node, i)[k] == h[k]);
            } else {
                assert(flat_children(node, i)[k] == t[k - h.len()]);
            }
        }
    }
}

/// Appends the paths of `node`'s subtree, pre-order, skipping empty ones.
pub fn flatten(node: &WikiPage, out: &mut Vec<String>)
    ensures
        texts(final(out)@) == texts(old(out)@) + flat(*node),
    decreases node, node.sub_pages@.len() + 1,
{
    let ghost start = texts(out@);
    if node.path.unicode_len() != 0 {
        out.push(node.path.clone());
    }
    let ghost head = texts(out@);
    assert(head =~= start + (if node.path@.len() == 0 {
        Seq::<Seq<char>>::empty()
    } else {
        seq![node.path@]
    }));
    let mut i: usize = 0;
    while i < node.sub_pages.len()
        invariant
            i <= node.sub_pages@.len(),
            texts(out@) + flat_children(*node, i as int) == head + flat_children(*node, 0),
        decreases node.sub_pages@.len() - i,
    {
        let ghost before = texts(out@);
        flatten(&node.sub_pages[i], out);
        assert(flat_children(*node, i as int) == flat(node.sub_pages@[i as int]) + flat_children(
            *node,
            i + 1,
        ));
        assert(texts(out@) + flat_children(*node, i + 1) =~= before + flat_children(*node, i as int));
        i = i + 1;
    }
    assert(flat_children(*node, i as int) == Seq::<Seq<char>>::empty());
    assert(texts(out@) =~= texts(out@) + flat_children(*node, i as int));
}

/// Every page path of the tree under `root`, the root included, pre-order.
pub fn page_paths(root: &WikiPage) -> (r: Vec<String>)
    ensures
        texts(r@) == flat(*root),
{
    let mut out: Vec<String> = Vec::new();
    assert(texts(out@) =~= Seq::<Seq<char>>::empty());
    flatten(root, &mut out);
    assert(texts(out@) =~= flat(*root));
    out
}

/// A page's content; an absent body is empty.
pub fn page_content(page: WikiPage) -> (r: String)
    ensures
        r@ == (match page.content {
            Some(c) => c@,
            None => Seq::<char>::empty(),
        }),
{
    match page.content {
        Some(c) => c,
        None => String::new(),
    }
}

/// The pages endpoint of wiki `wiki_id` in the project.
pub fn pages_url(client: &AzdoClient, wiki_id: &str) -> (r: String)
    ensures
        r@ == client.project_url_text("/_apis/wiki/wikis/"@ + wiki_id@ + "/pages"@),
{
    let mut path = String::from_str("/_apis/wiki/wikis/");
    push_str(&mut path, wiki_id);
    push_str(&mut path, "/pages");
    client.project_url(path.as_str())
}


/// The query of a page read: the path, with its content.
pub fn page_get_query(path: &str, api_version: &str) -> (r: Vec<(String, String)>)
    ensures
        pair_texts(r@) == seq![("path"@, path@), ("includeContent"@, "true"@), ("api-version"@, api_version@)],
{
    let mut q: Vec<(String, String)> = Vec::new();
    q.push((String::from_str("path"), String::from_str(path)));
    q.push((String::from_str("includeContent"), String::from_str("true")));
    q.push((String::from_str("api-version"), String::from_str(api_version)));
    assert(pair_texts(q@) =~= seq![("path"@, path@), ("includeContent"@, "true"@), ("api-version"@, api_version@)]);
    q
}

/// The query of a subtree listing: the root, the whole tree below it.
pub fn page_list_query(root: &str, api_version: &str) -> (r: Vec<(String, String)>)
    ensures
        pair_texts(r@) == seq![("path"@, root@), ("recursionLevel"@, "full"@), ("api-version"@, api_version@)],
{
    let mut q: Vec<(String, String)> = Vec::new();
    q.push((String::from_str("path"), String::from_str(root)));
    q.push((String::from_str("recursionLevel"), String::from_str("full")));
    q.push((String::from_str("api-version"), String::from_str(api_version)));
    assert(pair_texts(q@) =~= seq![("path"@, root@), ("recursionLevel"@, "full"@), ("api-version"@, api_version@)]);
    q
}

/// The query of a page write: just the path.
pub fn page_put_query(path: &str, api_version: &str) -> (r: Vec<(String, String)>)
    ensures
        pair_texts(r@) == seq![("path"@, path@), ("api-version"@, api_version@)],
{
    let mut q: Vec<(String, String)> = Vec::new();
    q.push((String::from_str("path"), String::from_str(path)));
    q.push((String::from_str("api-version"), String::from_str(api_version)));
    assert(pair_texts(q@) =~= seq![("path"@, path@), ("api-version"@, api_version@)]);
    q
}

} // verus!
