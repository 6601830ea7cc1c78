//! The HTML front end: scraper parses the text as a fragment, and its tree,
//! from the root `html` element down, is handed on as a `MarkupTree`.
use vstd::prelude::*;
use ego_tree::iter::Edge;
use crate::markup::{tree_is, Attribute, ElementData, KindView, MarkupNode, MarkupTree, NodeKind};

verus! {

/// Relies on scraper::Html::parse_fragment, which never fails, and on the
/// document-order walk (ego_tree's traverse) from its root `html` element:
/// `true` where a node is opened, `false` where it is closed.
#[verifier::external_body]
fn html_shape(text: &str) -> (r: Vec<bool>)
    ensures
        r@ == html_doc_of(text@).0 && walk_ok(r@, html_doc_of(text@).1.len())
            && walk_state(r@).0.len() == html_doc_of(text@).1.len(),
{
    let html = scraper::Html::parse_fragment(text);
    html.root_element().traverse().map(|edge| match edge {
        Edge::Open(_) => true,
        Edge::Close(_) => false,
    }).collect()
}

/// Relies on scraper::Html::parse_fragment: each node under the root `html`
/// element (itself included), in document order, with its kind, its tag
/// name, its attributes and its classes. With scraper's `deterministic`
/// feature an element keeps its attributes in source order, each with its
/// namespace (empty for none); classes come sorted and without repeats.
#[verifier::external_body]
fn html_contents(text: &str) -> (r: Vec<NodeKind>)
    ensures
        r@.map_values(|k: NodeKind| k@) == html_doc_of(text@).1,
{
    let html = scraper::Html::parse_fragment(text);
    html.root_element().descendants().map(|n| match n.value() {
        scraper::Node::Element(e) => NodeKind::Element(ElementData {
            name: e.name().to_owned(),
            attributes: e.attrs.iter().map(|(k, v)| Attribute { namespace: k.ns.to_string(), name: k.local.to_string(), value: v.to_string() }).collect(),
            classes: e.classes().map(|c| c.to_owned()).collect(),
        }),
        scraper::Node::Text(t) => NodeKind::Text(t.text.to_string()),
        _ => NodeKind::Other,
    }).collect()
}

/// The tree that a document-order walk builds (`true` opens a node, `false`
/// closes the innermost open one): the children of each node opened so far,
/// and the stack of nodes still open.
pub open spec fn walk_state(w: Seq<bool>) -> (Seq<Seq<usize>>, Seq<usize>)
    decreases w.len(),
{
    if w.len() == 0 {
        (Seq::empty(), Seq::empty())
    } else {
        let p = walk_state(w.drop_last());
        if w.last() {
            let idx = p.0.len() as usize;
            let ch = if p.1.len() > 0 {
                p.0.update(p.1.last() as int, p.0[p.1.last() as int].push(idx))
            } else {
                p.0
            };
            (ch.push(Seq::empty()), p.1.push(idx))
        } else if p.1.len() > 0 {
            (p.0, p.1.drop_last())
        } else {
            p
        }
    }
}

/// Step `i` of the walk can be taken with `n` kinds: an open has a kind left,
/// a close has a node to close.
pub open spec fn step_ok(w: Seq<bool>, i: int, n: nat) -> bool {
    if w[i] {
        walk_state(w.take(i)).0.len() < n
    } else {
        walk_state(w.take(i)).1.len() > 0
    }
}

/// Every step can be taken, and at least one node is opened.
pub open spec fn walk_ok(w: Seq<bool>, n: nat) -> bool {
    &&& forall|i: int| 0 <= i < w.len() ==> #[trigger] step_ok(w, i, n)
    &&& walk_state(w).0.len() > 0
}

/// The walk, the node kinds and the parse errors that scraper gives for the
/// text, parsed as a fragment, from its root `html` element on.
pub uninterp spec fn html_doc_of(text: Seq<char>) -> (Seq<bool>, Seq<KindView>, Seq<Seq<char>>);

/// Whether `t` is the tree that scraper reads from the text.
pub open spec fn html_tree_is(t: MarkupTree, text: Seq<char>) -> bool {
    tree_is(t, walk_state(html_doc_of(text).0).0, html_doc_of(text).1)
}

/// Relies on scraper::Html::parse_fragment: the parse errors it records, in
/// order.
#[verifier::external_body]
pub(crate) fn html_errors(text: &str) -> (r: Vec<String>)
    ensures
        r@.map_values(|e: String| e@) == html_doc_of(text@).2,
{
    scraper::Html::parse_fragment(text).errors.iter().map(|e| e.to_string()).collect()
}

/// Builds a tree from a document-order walk (`true` opens a node, `false`
/// closes one) and the kinds of the nodes in the order they are opened: each
/// opened node becomes the next node of the arena, a child of the innermost
/// node still open.
pub fn tree_from_walk(walk: Vec<bool>, kinds: Vec<NodeKind>) -> (r: Option<MarkupTree>)
    ensures
        r is Some <==> walk_ok(walk@, kinds@.len()),
        r matches Some(t) ==> t.wf() && t.len() > 0 && tree_is(
            t,
            walk_state(walk@).0,
            kinds@.map_values(|k: NodeKind| k@).take(walk_state(walk@).0.len() as int),
        ),
{
    let ghost k0 = kinds@;
    let ghost w0 = walk@;
    let ghost n = k0.len();
    let mut rest = walk;
    let mut left = kinds;
    let mut nodes: Vec<MarkupNode> = Vec::new();
    let mut stack: Vec<usize> = Vec::new();
    let ghost mut i: int = 0;
    assert(w0.take(0) =~= Seq::<bool>::empty());
    while rest.len() > 0
        invariant
            0 <= i <= w0.len(),
            w0 == walk@,
            k0 == kinds@,
            rest@ == w0.subrange(i, w0.len() as int),
            n == k0.len(),
            (MarkupTree { nodes }).wf(),
            forall|k: int| 0 <= k < stack@.len() ==> #[trigger] stack@[k] < nodes@.len(),
            nodes@.len() + left@.len() == k0.len(),
            left@ == k0.subrange(nodes@.len() as int, k0.len() as int),
            forall|j: int| 0 <= j < nodes@.len() ==> #[trigger] nodes@[j].kind == k0[j],
            walk_state(w0.take(i)).0.len() == nodes@.len(),
            walk_state(w0.take(i)).1 == stack@,
            forall|j: int| 0 <= j < nodes@.len() ==> #[trigger] nodes@[j].children@ == walk_state(w0.take(i)).0[j],
            forall|j: int| 0 <= j < i ==> #[trigger] step_ok(w0, j, n),
        decreases rest@.len(),
    {
        let ghost st = walk_state(w0.take(i));
        assert(w0.take(i + 1).drop_last() =~= w0.take(i));
        assert(w0.take(i + 1).last() == w0[i]);
        let open = rest.remove(0);
        assert(open == w0[i]);
        match open {
            true => {
                if left.len() == 0 {
                    assert(!step_ok(w0, i, n));
                    assert(!walk_ok(w0, n));
                    return None;
                }
                let kind = left.remove(0);
                let idx = nodes.len();
                if stack.len() > 0 {
                    let top = stack[stack.len() - 1];
                    let ghost pre = nodes@;
                    nodes[top].children.push(idx);
                    assert forall|a: int, j: int|
                        0 <= a < nodes@.len() && 0 <= j < nodes@[a].children@.len() implies a
                            < #[trigger] nodes@[a].children@[j] <= nodes@.len() by {
                        if a != top {
                            assert(nodes@[a] == pre[a]);
                        } else if j < pre[a].children@.len() {
                            assert(nodes@[a].children@[j] == pre[a].children@[j]);
                        }
                    }
                    assert forall|a: int| 0 <= a < nodes@.len() implies #[trigger] nodes@[a].kind
                        == k0[a] && nodes@[a].children@ == st.0.update(top as int, st.0[top as int].push(idx))[a] by {
                        if a != top {
                            assert(nodes@[a] == pre[a]);
                        }
                    }
                }
                nodes.push(MarkupNode { kind, children: Vec::new() });
                stack.push(idx);
                proof {
                    assert(step_ok(w0, i, n));
                    i = i + 1;
                    assert forall|j: int| 0 <= j < nodes@.len() implies #[trigger] nodes@[j].children@
                        == walk_state(w0.take(i)).0[j] by {}
                }
            },
            false => {
                if stack.len() == 0 {
                    assert(!step_ok(w0, i, n));
                    assert(!walk_ok(w0, n));
                    return None;
                }
                stack.pop();
                proof {
                    assert(step_ok(w0, i, n));
                    i = i + 1;
                }
            },
        }
    }
    assert(i == w0.len());
    assert(w0.take(i) =~= w0);
    if nodes.len() == 0 {
        return None;
    }
    let t = MarkupTree { nodes };
    assert(tree_is(t, walk_state(w0).0, k0.map_values(|k: NodeKind| k@).take(walk_state(w0).0.len() as int)));
    Some(t)
}

/// Parses HTML text, leniently, into a tree rooted at its `html` element.
pub fn parse_html(text: &str) -> (r: Option<MarkupTree>)
    ensures
        r is Some,
        r matches Some(t) ==> t.wf() && t.len() > 0 && html_tree_is(t, text@),
{
    let walk = html_shape(text);
    let kinds = html_contents(text);
    let ghost d = html_doc_of(text@);
    assert(kinds@.map_values(|k: NodeKind| k@).take(d.1.len() as int) =~= d.1);
    tree_from_walk(walk, kinds)
}

} // verus!
