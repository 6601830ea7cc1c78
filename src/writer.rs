//! Writing an element back out as a markup tree, in document order, so that
//! reading the tree yields the element again.
use vstd::prelude::*;
use crate::bxml::{
    any_yields, bxml_ok, children_ok, elem_ok, lemma_special_names, lemma_template_never_a_child,
    tags_unique, template_map, templates_in, templates_of, yields, Bxml, Element, Template,
};
use crate::markup::{attr_in, attr_of, lemma_trim_idempotent, tag_of, trim, Attribute, ElementData, MarkupNode, MarkupTree, NodeKind};

verus! {

/// The number of nodes that an element takes in a tree.
pub open spec fn size(e: Element) -> nat
    decreases e,
{
    match e {
        Element::Bundle(b) => 1 + sizes(b.children@),
        Element::Instance(i) => 1 + sizes(i.children@),
        _ => 1,
    }
}

pub open spec fn sizes(es: Seq<Element>) -> nat
    decreases es,
{
    if es.len() == 0 {
        0
    } else {
        sizes(es.drop_last()) + size(es.last())
    }
}

pub open spec fn is_special(tag: Seq<char>) -> bool {
    tag == "StyleSheet"@ || tag == "Bundle"@ || tag == "Component"@ || tag == "Template"@
}

/// Whether an element is one that reading can give: text is trimmed and not
/// empty, a bundle is not empty, an instance's tag is neither empty nor
/// special.
pub open spec fn valid(e: Element) -> bool
    decreases e,
{
    match e {
        Element::Text(s) => s@.len() > 0 && trim(s@) == s@,
        Element::Bundle(b) => b.children@.len() > 0 && valid_all(b.children@),
        Element::Instance(i) => i.tag@.len() > 0 && !is_special(i.tag@) && valid_all(i.children@),
        _ => true,
    }
}

pub open spec fn valid_all(es: Seq<Element>) -> bool
    decreases es,
{
    if es.len() == 0 {
        true
    } else {
        valid_all(es.drop_last()) && valid(es.last())
    }
}

/// Whether node `id` of `t` holds `e`, written in document order: the node
/// itself, then each child's subtree in turn.
pub open spec fn laid_out(t: MarkupTree, id: int, e: Element) -> bool
    decreases e,
{
    0 <= id < t.len() && {
        let n = t.node(id);
        match e {
            Element::Text(s) => n.kind is Text && n.kind->Text_0@ == s@ && t.child_ids(id).len()
                == 0,
            Element::StyleSheet(x) => !(n.kind is Text) && tag_of(n) == "StyleSheet"@ && attr_of(
                n,
                "src"@,
            ) == Some(x.src@) && t.child_ids(id).len() == 0,
            Element::Component(x) => !(n.kind is Text) && tag_of(n) == "Component"@ && attr_of(
                n,
                "type"@,
            ) == Some(x.ty@) && t.child_ids(id).len() == 0,
            Element::Bundle(b) => !(n.kind is Text) && tag_of(n) == "Bundle"@ && laid_out_all(
                t,
                id + 1,
                b.children@,
                t.child_ids(id),
            ),
            Element::Instance(i) => !(n.kind is Text) && tag_of(n) == i.tag@ && laid_out_all(
                t,
                id + 1,
                i.children@,
                t.child_ids(id),
            ),
        }
    }
}

/// Whether the nodes `ids` hold the elements `es`, one after the other from
/// node `start` on.
pub open spec fn laid_out_all(t: MarkupTree, start: int, es: Seq<Element>, ids: Seq<usize>) -> bool
    decreases es,
{
    if es.len() == 0 {
        ids.len() == 0
    } else {
        &&& ids.len() == es.len()
        &&& ids.last() == start + sizes(es.drop_last())
        &&& laid_out(t, ids.last() as int, es.last())
        &&& laid_out_all(t, start, es.drop_last(), ids.drop_last())
    }
}

/// A tree whose nodes agree with `t` from `lo` up to `hi`.
pub open spec fn agrees(t: MarkupTree, u: MarkupTree, lo: int, hi: int) -> bool {
    &&& hi <= t.len()
    &&& hi <= u.len()
    &&& forall|k: int| lo <= k < hi ==> #[trigger] u.nodes@[k] == t.nodes@[k]
}

proof fn lemma_frame(t: MarkupTree, u: MarkupTree, id: int, e: Element)
    requires
        laid_out(t, id, e),
        agrees(t, u, id, id + size(e)),
    ensures
        laid_out(u, id, e),
    decreases e,
{
    match e {
        Element::Bundle(b) => {
            lemma_frame_all(t, u, id + 1, b.children@, t.child_ids(id));
        },
        Element::Instance(i) => {
            lemma_frame_all(t, u, id + 1, i.children@, t.child_ids(id));
        },
        _ => {},
    }
}

proof fn lemma_frame_all(t: MarkupTree, u: MarkupTree, start: int, es: Seq<Element>, ids: Seq<usize>)
    requires
        laid_out_all(t, start, es, ids),
        agrees(t, u, start, start + sizes(es)),
    ensures
        laid_out_all(u, start, es, ids),
    decreases es,
{
    if es.len() > 0 {
        lemma_frame(t, u, ids.last() as int, es.last());
        lemma_frame_all(t, u, start, es.drop_last(), ids.drop_last());
    }
}

/// Reading back what was written: a valid element laid out in a well-formed
/// tree is exactly what its node yields.
pub proof fn lemma_read_back(t: MarkupTree, id: int, e: Element)
    requires
        t.wf(),
        valid(e),
        laid_out(t, id, e),
    ensures
        yields(t, id),
        elem_ok(t, id, e),
    decreases e,
{
    lemma_special_names();
    match e {
        Element::Bundle(b) => {
            lemma_read_back_all(t, id, b.children@, t.child_ids(id));
        },
        Element::Instance(i) => {
            lemma_read_back_all(t, id, i.children@, t.child_ids(id));
        },
        _ => {},
    }
}

proof fn lemma_read_back_all(t: MarkupTree, parent: int, es: Seq<Element>, ids: Seq<usize>)
    requires
        t.wf(),
        valid_all(es),
        laid_out_all(t, parent + 1, es, ids),
        forall|k: int| 0 <= k < ids.len() ==> parent < #[trigger] ids[k] < t.len(),
    ensures
        children_ok(t, parent, ids, es),
        any_yields(t, parent, ids) <==> es.len() > 0,
    decreases es,
{
    if es.len() > 0 {
        assert(parent < ids[ids.len() - 1] < t.len());
        lemma_read_back(t, ids.last() as int, es.last());
        lemma_read_back_all(t, parent, es.drop_last(), ids.drop_last());
    }
}

/// Every element that reading yields is valid, at any depth: no element
/// comes from a `Template` node, no bundle is empty, and every text is
/// trimmed and not empty.
pub proof fn lemma_read_is_valid(t: MarkupTree, id: int, e: Element)
    requires
        t.wf(),
        elem_ok(t, id, e),
    ensures
        valid(e),
    decreases e,
{
    lemma_special_names();
    match e {
        Element::Text(x) => {
            let n = t.node(id);
            lemma_trim_idempotent(n.kind->Text_0@);
        },
        Element::Bundle(b) => {
            lemma_read_is_valid_all(t, id, t.child_ids(id), b.children@);
        },
        Element::Instance(i) => {
            lemma_read_is_valid_all(t, id, t.child_ids(id), i.children@);
        },
        _ => {},
    }
}

/// Every element among the children that reading yields is valid.
pub proof fn lemma_read_is_valid_all(t: MarkupTree, parent: int, ids: Seq<usize>, es: Seq<Element>)
    requires
        t.wf(),
        children_ok(t, parent, ids, es),
    ensures
        valid_all(es),
    decreases es, ids.len(),
{
    if ids.len() == 0 {
        assert(es.len() == 0);
    } else {
        let c = ids.last() as int;
        if parent < c < t.len() && yields(t, c) {
            lemma_read_is_valid(t, c, es.last());
            lemma_read_is_valid_all(t, parent, ids.drop_last(), es.drop_last());
        } else {
            lemma_read_is_valid_all(t, parent, ids.drop_last(), es);
        }
    }
}

/// Every document that reading yields is valid: its template tags are
/// unique and all its elements, at any depth, are valid.
pub proof fn lemma_read_doc_is_valid(t: MarkupTree, id: int, b: Bxml)
    requires
        t.wf(),
        bxml_ok(t, id, b),
    ensures
        valid_doc(b),
{
    lemma_read_is_valid_all(t, id, t.child_ids(id), b.children@);
}

/// Two elements are the same: same kind, same strings, same children in
/// order.
pub open spec fn same(a: Element, b: Element) -> bool
    decreases a,
{
    match a {
        Element::Text(x) => b is Text && b->Text_0@ == x@,
        Element::StyleSheet(x) => b is StyleSheet && b->StyleSheet_0.src@ == x.src@,
        Element::Component(x) => b is Component && b->Component_0.ty@ == x.ty@,
        Element::Bundle(x) => b is Bundle && same_all(x.children@, b->Bundle_0.children@),
        Element::Instance(x) => b is Instance && b->Instance_0.tag@ == x.tag@ && same_all(
            x.children@,
            b->Instance_0.children@,
        ),
    }
}

pub open spec fn same_all(a: Seq<Element>, b: Seq<Element>) -> bool
    decreases a,
{
    a.len() == b.len() && (a.len() == 0 || (same(a.last(), b.last()) && same_all(
        a.drop_last(),
        b.drop_last(),
    )))
}

/// A node yields at most one element.
pub proof fn lemma_read_unique(t: MarkupTree, id: int, a: Element, b: Element)
    requires
        t.wf(),
        elem_ok(t, id, a),
        elem_ok(t, id, b),
    ensures
        same(a, b),
    decreases a, 0nat,
{
    match a {
        Element::Bundle(x) => {
            lemma_read_unique_all(t, id, t.child_ids(id), x.children@, b->Bundle_0.children@);
        },
        Element::Instance(x) => {
            lemma_read_unique_all(t, id, t.child_ids(id), x.children@, b->Instance_0.children@);
        },
        _ => {},
    }
}

/// Children yield at most one sequence of elements.
pub proof fn lemma_read_unique_all(t: MarkupTree, parent: int, ids: Seq<usize>, a: Seq<Element>, b: Seq<Element>)
    requires
        t.wf(),
        children_ok(t, parent, ids, a),
        children_ok(t, parent, ids, b),
    ensures
        same_all(a, b),
    decreases a, ids.len(),
{
    if ids.len() == 0 {
    } else {
        let c = ids.last() as int;
        if parent < c < t.len() && yields(t, c) {
            lemma_read_unique(t, c, a.last(), b.last());
            lemma_read_unique_all(t, parent, ids.drop_last(), a.drop_last(), b.drop_last());
        } else {
            lemma_read_unique_all(t, parent, ids.drop_last(), a, b);
        }
    }
}

/// Writing a valid document and reading it back gives the same document:
/// the same templates by tag and the same elements, in order, at any depth.
pub proof fn lemma_round_trip(t: MarkupTree, written: Bxml, read: Bxml)
    requires
        t.wf(),
        valid_doc(written),
        bxml_ok(t, 0, written),
        bxml_ok(t, 0, read),
    ensures
        template_map(read.templates@) == template_map(written.templates@),
        same_all(read.children@, written.children@),
{
    lemma_read_unique_all(t, 0, t.child_ids(0), read.children@, written.children@);
}

proof fn lemma_sizes_push(es: Seq<Element>, k: int)
    requires
        0 <= k < es.len(),
    ensures
        sizes(es.take(k + 1)) == sizes(es.take(k)) + size(es[k]),
{
    assert(es.take(k + 1).drop_last() =~= es.take(k));
}

fn element_node(name: &str, attributes: Vec<Attribute>) -> (r: MarkupNode)
    ensures
        !(r.kind is Text),
        tag_of(r) == name@,
        r.kind matches NodeKind::Element(d) && d.attributes@ == attributes@,
        r.children@.len() == 0,
{
    MarkupNode {
        kind: NodeKind::Element(ElementData { name: name.to_owned(), attributes, classes: Vec::new() }),
        children: Vec::new(),
    }
}

fn one_attribute(name: &str, value: &String) -> (r: Vec<Attribute>)
    ensures
        attr_in(r@, name@) == Some(value@),
{
    let a = Attribute { namespace: String::new(), name: name.to_owned(), value: value.clone() };
    let mut r: Vec<Attribute> = Vec::new();
    r.push(a);
    r
}

/// Appends the nodes of `e` to `nodes`, the first of them at index `id`.
fn write_element(e: &Element, nodes: &mut Vec<MarkupNode>) -> (id: usize)
    requires
        old(nodes)@.len() + size(*e) < usize::MAX,
        forall|j: int, c: int|
            0 <= j < old(nodes)@.len() && 0 <= c < old(nodes)@[j].children@.len() ==> j
                < #[trigger] old(nodes)@[j].children@[c] < old(nodes)@.len(),
    ensures
        id == old(nodes)@.len(),
        final(nodes)@.len() == old(nodes)@.len() + size(*e),
        forall|k: int| 0 <= k < old(nodes)@.len() ==> #[trigger] final(nodes)@[k] == old(nodes)@[k],
        laid_out(MarkupTree { nodes: *final(nodes) }, id as int, *e),
        forall|j: int, c: int|
            0 <= j < final(nodes)@.len() && 0 <= c < final(nodes)@[j].children@.len() ==> j
                < #[trigger] final(nodes)@[j].children@[c] < final(nodes)@.len(),
    decreases e,
{
    let id = nodes.len();
    match e {
        Element::Text(s) => {
            nodes.push(MarkupNode { kind: NodeKind::Text(s.clone()), children: Vec::new() });
        },
        Element::StyleSheet(x) => {
            nodes.push(element_node("StyleSheet", one_attribute("src", &x.src)));
        },
        Element::Component(x) => {
            nodes.push(element_node("Component", one_attribute("type", &x.ty)));
        },
        Element::Bundle(b) => {
            nodes.push(element_node("Bundle", Vec::new()));
            write_children(&b.children, nodes, id);
            assert(nodes@[id as int].children@.subrange(0, nodes@[id as int].children@.len() as int)
                =~= nodes@[id as int].children@);
        },
        Element::Instance(i) => {
            nodes.push(element_node(i.tag.as_str(), Vec::new()));
            write_children(&i.children, nodes, id);
            assert(nodes@[id as int].children@.subrange(0, nodes@[id as int].children@.len() as int)
                =~= nodes@[id as int].children@);
        },
    }
    id
}

/// Appends the subtrees of `es` at the end of `nodes`, and makes them the
/// next children of node `id`.
fn write_children(es: &Vec<Element>, nodes: &mut Vec<MarkupNode>, id: usize)
    requires
        id < old(nodes)@.len(),
        old(nodes)@.len() + sizes(es@) < usize::MAX,
        forall|j: int, c: int|
            0 <= j < old(nodes)@.len() && 0 <= c < old(nodes)@[j].children@.len() ==> j
                < #[trigger] old(nodes)@[j].children@[c] < old(nodes)@.len(),
    ensures
        final(nodes)@.len() == old(nodes)@.len() + sizes(es@),
        forall|k: int|
            0 <= k < old(nodes)@.len() && k != id ==> #[trigger] final(nodes)@[k] == old(nodes)@[k],
        final(nodes)@[id as int].kind == old(nodes)@[id as int].kind,
        final(nodes)@[id as int].children@.len() == old(nodes)@[id as int].children@.len() + es@.len(),
        final(nodes)@[id as int].children@.subrange(0, old(nodes)@[id as int].children@.len() as int)
            == old(nodes)@[id as int].children@,
        laid_out_all(
            MarkupTree { nodes: *final(nodes) },
            old(nodes)@.len() as int,
            es@,
            final(nodes)@[id as int].children@.subrange(
                old(nodes)@[id as int].children@.len() as int,
                final(nodes)@[id as int].children@.len() as int,
            ),
        ),
        forall|j: int, c: int|
            0 <= j < final(nodes)@.len() && 0 <= c < final(nodes)@[j].children@.len() ==> j
                < #[trigger] final(nodes)@[j].children@[c] < final(nodes)@.len(),
    decreases es,
{
    let ghost base = nodes@;
    let ghost start = base.len() as int;
    let ghost p = base[id as int].children@.len() as int;
    let mut k: usize = 0;
    assert(es@.take(0) =~= Seq::<Element>::empty());
    assert(nodes@[id as int].children@.subrange(p, p) =~= Seq::<usize>::empty());
    assert(nodes@[id as int].children@.subrange(0, p) =~= base[id as int].children@);
    while k < es.len()
        invariant
            k <= es@.len(),
            id < base.len(),
            start == base.len(),
            p == base[id as int].children@.len(),
            base.len() + sizes(es@) < usize::MAX,
            nodes@.len() == base.len() + sizes(es@.take(k as int)),
            forall|j: int| 0 <= j < base.len() && j != id ==> #[trigger] nodes@[j] == base[j],
            nodes@[id as int].kind == base[id as int].kind,
            nodes@[id as int].children@.len() == p + k,
            nodes@[id as int].children@.subrange(0, p) == base[id as int].children@,
            laid_out_all(
                MarkupTree { nodes: *nodes },
                start,
                es@.take(k as int),
                nodes@[id as int].children@.subrange(p, p + k),
            ),
            forall|j: int, c: int|
                0 <= j < nodes@.len() && 0 <= c < nodes@[j].children@.len() ==> j
                    < #[trigger] nodes@[j].children@[c] < nodes@.len(),
        decreases es@.len() - k,
    {
        proof {
            vstd::std_specs::vec::axiom_vec_index_decreases(*es, k as int);
            lemma_sizes_push(es@, k as int);
            lemma_sizes_bound(es@, k as int);
        }
        let ghost before = *nodes;
        let ghost t0 = MarkupTree { nodes: before };
        let ghost done = before@[id as int].children@.subrange(p, p + k);
        let c = write_element(&es[k], nodes);
        let ghost t1 = MarkupTree { nodes: *nodes };
        proof {
            lemma_frame_all(t0, t1, start, es@.take(k as int), done);
        }
        let ghost pre = *nodes;
        nodes[id].children.push(c);
        let ghost t2 = MarkupTree { nodes: *nodes };
        proof {
            assert(agrees(t1, t2, start, start + sizes(es@.take(k as int))));
            lemma_frame_all(t1, t2, start, es@.take(k as int), done);
            assert(agrees(t1, t2, c as int, c + size(es@[k as int])));
            lemma_frame(t1, t2, c as int, es@[k as int]);
            assert(es@.take(k + 1).drop_last() =~= es@.take(k as int));
            assert(nodes@[id as int].children@.subrange(p, p + k + 1).drop_last() =~= done);
            assert(nodes@[id as int].children@.subrange(0, p) =~= base[id as int].children@);
            assert forall|j: int, cc: int|
                0 <= j < nodes@.len() && 0 <= cc < nodes@[j].children@.len() implies j
                    < #[trigger] nodes@[j].children@[cc] < nodes@.len() by {
                if j != id {
                    assert(nodes@[j] == pre@[j]);
                } else if cc < pre@[j].children@.len() {
                    assert(nodes@[j].children@[cc] == pre@[j].children@[cc]);
                }
            }
        }
        k = k + 1;
    }
    assert(es@.take(es@.len() as int) =~= es@);
}

proof fn lemma_sizes_bound(es: Seq<Element>, k: int)
    requires
        0 <= k < es.len(),
    ensures
        sizes(es.take(k + 1)) <= sizes(es),
    decreases es.len(),
{
    if k + 1 < es.len() {
        lemma_sizes_bound(es.drop_last(), k);
        assert(es.drop_last().take(k + 1) =~= es.take(k + 1));
    } else {
        assert(es.take(k + 1) =~= es);
    }
}

impl Element {
    /// Writes the element out as a markup tree rooted at node `0`. Reading
    /// that node back yields the element again.
    pub fn to_markup(&self) -> (r: MarkupTree)
        requires
            valid(*self),
            size(*self) < usize::MAX,
        ensures
            r.wf(),
            r.len() == size(*self),
            yields(r, 0),
            elem_ok(r, 0, *self),
    {
        let mut nodes: Vec<MarkupNode> = Vec::new();
        write_element(self, &mut nodes);
        let t = MarkupTree { nodes };
        proof {
            lemma_read_back(t, 0, *self);
        }
        t
    }
}


// ---------------------------------------------------------------------------
// Whole documents
// ---------------------------------------------------------------------------

/// Whether a document is one that reading can give: its template tags are
/// unique and its elements valid.
pub open spec fn valid_doc(b: Bxml) -> bool {
    tags_unique(b.templates@) && valid_all(b.children@)
}

/// Whether node `id` is a childless `Template` node that declares `x`.
pub open spec fn template_node(t: MarkupTree, id: int, x: Template) -> bool {
    &&& 0 <= id < t.len()
    &&& !(t.node(id).kind is Text)
    &&& tag_of(t.node(id)) == "Template"@
    &&& attr_of(t.node(id), "src"@) == Some(x.src@)
    &&& attr_of(t.node(id), "tag"@) == Some(x.tag@)
    &&& t.child_ids(id).len() == 0
}

/// A valid element's subtree declares no template.
proof fn lemma_no_templates(t: MarkupTree, id: int, e: Element)
    requires
        t.wf(),
        valid(e),
        laid_out(t, id, e),
    ensures
        templates_of(t, id) == Map::<Seq<char>, Seq<char>>::empty(),
    decreases e,
{
    lemma_special_names();
    match e {
        Element::Bundle(b) => {
            assert(laid_out_all(t, id + 1, b.children@, t.child_ids(id)));
            lemma_no_templates_all(t, id, Seq::empty(), b.children@, t.child_ids(id), Map::empty());
            assert(Seq::<usize>::empty() + t.child_ids(id) =~= t.child_ids(id));
        },
        Element::Instance(i) => {
            assert(laid_out_all(t, id + 1, i.children@, t.child_ids(id)));
            lemma_no_templates_all(t, id, Seq::empty(), i.children@, t.child_ids(id), Map::empty());
            assert(Seq::<usize>::empty() + t.child_ids(id) =~= t.child_ids(id));
        },
        _ => {},
    }
}

/// Valid elements after the nodes `pre` add no template to what `pre`
/// declares.
proof fn lemma_no_templates_all(
    t: MarkupTree,
    parent: int,
    pre: Seq<usize>,
    es: Seq<Element>,
    ids: Seq<usize>,
    base: Map<Seq<char>, Seq<char>>,
)
    requires
        t.wf(),
        valid_all(es),
        exists|start: int| laid_out_all(t, start, es, ids),
        forall|k: int| 0 <= k < ids.len() ==> parent < #[trigger] ids[k] < t.len(),
    ensures
        templates_in(t, parent, pre + ids, base) == templates_in(t, parent, pre, base),
    decreases es,
{
    let start = choose|start: int| laid_out_all(t, start, es, ids);
    if es.len() == 0 {
        assert(pre + ids =~= pre);
    } else {
        assert(parent < ids[ids.len() - 1] < t.len());
        assert((pre + ids).drop_last() =~= pre + ids.drop_last());
        assert((pre + ids).last() == ids.last());
        lemma_no_templates(t, ids.last() as int, es.last());
        assert(laid_out_all(t, start, es.drop_last(), ids.drop_last()));
        lemma_no_templates_all(t, parent, pre, es.drop_last(), ids.drop_last(), base);
        assert(templates_in(t, parent, pre + ids, base) =~= templates_in(
            t,
            parent,
            pre + ids.drop_last(),
            base,
        ));
    }
}

/// The elements after the nodes `pre`, none of which yields one, are read
/// back in order.
proof fn lemma_read_back_after(t: MarkupTree, parent: int, pre: Seq<usize>, es: Seq<Element>, ids: Seq<usize>)
    requires
        t.wf(),
        valid_all(es),
        laid_out_all(t, parent + 1 + pre.len(), es, ids),
        children_ok(t, parent, pre, Seq::empty()),
        forall|k: int| 0 <= k < ids.len() ==> parent < #[trigger] ids[k] < t.len(),
    ensures
        children_ok(t, parent, pre + ids, es),
    decreases es,
{
    if es.len() == 0 {
        assert(pre + ids =~= pre);
        assert(es =~= Seq::<Element>::empty());
    } else {
        assert(parent < ids[ids.len() - 1] < t.len());
        assert((pre + ids).drop_last() =~= pre + ids.drop_last());
        assert((pre + ids).last() == ids.last());
        lemma_read_back(t, ids.last() as int, es.last());
        lemma_read_back_after(t, parent, pre, es.drop_last(), ids.drop_last());
        let c = ids.last() as int;
        assert(yields(t, c));
        assert(elem_ok(t, c, es.last()));
        assert(children_ok(t, parent, (pre + ids).drop_last(), es.drop_last()));
    }
}

/// Template nodes yield no element, and declare the templates they hold.
proof fn lemma_template_nodes(t: MarkupTree, parent: int, v: Seq<Template>, ids: Seq<usize>)
    requires
        ids.len() == v.len(),
        forall|k: int| 0 <= k < ids.len() ==> parent < #[trigger] ids[k] < t.len(),
        forall|k: int| 0 <= k < ids.len() ==> #[trigger] template_node(t, ids[k] as int, v[k]),
    ensures
        children_ok(t, parent, ids, Seq::empty()),
        templates_in(t, parent, ids, Map::empty()) == template_map(v),
    decreases v.len(),
{
    if v.len() > 0 {
        let last = ids.len() - 1;
        assert(parent < ids[last] < t.len());
        assert(template_node(t, ids[last] as int, v[last]));
        lemma_template_never_a_child(t, ids[last] as int);
        lemma_template_nodes(t, parent, v.drop_last(), ids.drop_last());
        let c = ids[last] as int;
        assert(templates_in(t, c, t.child_ids(c), map![v[last].tag@ => v[last].src@]) == map![v[last].tag@ => v[last].src@]);
        assert(templates_of(t, c) == map![v[last].tag@ => v[last].src@]);
        assert(templates_in(t, parent, ids, Map::empty()) =~= template_map(v));
    }
}

fn template_attributes(x: &Template) -> (r: Vec<Attribute>)
    ensures
        attr_in(r@, "src"@) == Some(x.src@),
        attr_in(r@, "tag"@) == Some(x.tag@),
{
    proof {
        reveal_strlit("src");
        reveal_strlit("tag");
        assert("src"@[0] != "tag"@[0]);
    }
    let mut r: Vec<Attribute> = Vec::new();
    r.push(Attribute { namespace: String::new(), name: "src".to_owned(), value: x.src.clone() });
    r.push(Attribute { namespace: String::new(), name: "tag".to_owned(), value: x.tag.clone() });
    assert(r@.drop_first()[0] == r@[1]);
    assert(attr_in(r@.drop_first(), "tag"@) == Some(x.tag@));
    r
}

impl Bxml {
    /// Writes the document out as a markup tree rooted at node `0`: a `BXML`
    /// element whose children are its templates, then its elements. Reading
    /// that node back gives the document again.
    pub fn to_markup(&self) -> (r: MarkupTree)
        requires
            valid_doc(*self),
            1 + self.templates@.len() + sizes(self.children@) < usize::MAX,
        ensures
            r.wf(),
            r.len() == 1 + self.templates@.len() + sizes(self.children@),
            bxml_ok(r, 0, *self),
    {
        let mut nodes: Vec<MarkupNode> = Vec::new();
        nodes.push(element_node("BXML", Vec::new()));
        let mut k: usize = 0;
        while k < self.templates.len()
            invariant
                k <= self.templates@.len(),
                1 + self.templates@.len() + sizes(self.children@) < usize::MAX,
                nodes@.len() == k + 1,
                !(nodes@[0].kind is Text),
                tag_of(nodes@[0]) == "BXML"@,
                nodes@[0].children@.len() == k,
                forall|j: int| 0 <= j < k ==> #[trigger] nodes@[0].children@[j] == j + 1,
                forall|j: int|
                    0 <= j < k ==> #[trigger] template_node(
                        MarkupTree { nodes },
                        j + 1,
                        self.templates@[j],
                    ),
                forall|j: int, c: int|
                    0 <= j < nodes@.len() && 0 <= c < nodes@[j].children@.len() ==> j
                        < #[trigger] nodes@[j].children@[c] < nodes@.len(),
            decreases self.templates@.len() - k,
        {
            let x = &self.templates[k];
            let idx = nodes.len();
            let ghost pre = nodes@;
            let ghost pre_t = MarkupTree { nodes };
            nodes.push(element_node("Template", template_attributes(x)));
            let ghost mid = nodes@;
            nodes[0].children.push(idx);
            proof {
                assert forall|j: int| 0 <= j < k + 1 implies #[trigger] template_node(
                    MarkupTree { nodes },
                    j + 1,
                    self.templates@[j],
                ) by {
                    assert(nodes@[j + 1] == mid[j + 1]);
                    if j < k {
                        assert(mid[j + 1] == pre[j + 1]);
                        assert(template_node(pre_t, j + 1, self.templates@[j]));
                    }
                }
                assert forall|j: int, c: int|
                    0 <= j < nodes@.len() && 0 <= c < nodes@[j].children@.len() implies j
                        < #[trigger] nodes@[j].children@[c] < nodes@.len() by {
                    if j != 0 {
                        assert(nodes@[j] == mid[j]);
                        if j < pre.len() {
                            assert(mid[j] == pre[j]);
                        }
                    } else if c < mid[0].children@.len() {
                        assert(nodes@[0].children@[c] == mid[0].children@[c]);
                    }
                }
            }
            k = k + 1;
        }
        let ghost before_t = MarkupTree { nodes };
        let ghost before = nodes@;
        let ghost tids = before[0].children@;
        write_children(&self.children, &mut nodes, 0);
        let t = MarkupTree { nodes };
        proof {
            let m = before.len() as int;
            let eids = t.child_ids(0).subrange(tids.len() as int, t.child_ids(0).len() as int);
            assert(t.child_ids(0) =~= tids + eids);
            assert forall|j: int| 0 <= j < tids.len() implies #[trigger] template_node(
                t,
                tids[j] as int,
                self.templates@[j],
            ) by {
                assert(t.nodes@[j + 1] == before[j + 1]);
                assert(template_node(before_t, j + 1, self.templates@[j]));
            }
            assert forall|j: int| 0 <= j < tids.len() implies 0 < #[trigger] tids[j] < t.len() by {
                assert(tids[j] == j + 1);
            }
            lemma_template_nodes(t, 0, self.templates@, tids);
            assert forall|j: int| 0 <= j < eids.len() implies 0 < #[trigger] eids[j] < t.len() by {
                assert(eids[j] == t.child_ids(0)[tids.len() + j]);
            }
            assert(m == 1 + tids.len());
            lemma_read_back_after(t, 0, tids, self.children@, eids);
            lemma_no_templates_all(t, 0, tids, self.children@, eids, Map::empty());
            reveal_strlit("BXML");
            reveal_strlit("Template");
            assert("BXML"@[0] != "Template"@[0]);
            assert(templates_of(t, 0) == templates_in(t, 0, t.child_ids(0), Map::empty()));
        }
        t
    }
}

} // verus!
