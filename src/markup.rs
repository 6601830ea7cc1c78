//! A plain tree of markup nodes, stored as an arena.
//!
//! Both front ends (BXML and HTML) turn their input into a `MarkupTree`; the
//! rest of the library reads only this tree. Node `0` is the document node and
//! every child of a node is stored after it, which gives the recursive walks
//! over the tree a measure that decreases.
use vstd::prelude::*;

verus! {

/// An attribute of an element. An empty `namespace` means that the attribute
/// has no namespace.
#[derive(Debug)]
pub struct Attribute {
    pub namespace: String,
    pub name: String,
    pub value: String,
}

/// What an element node carries.
#[derive(Debug)]
pub struct ElementData {
    /// The local tag name.
    pub name: String,
    pub attributes: Vec<Attribute>,
    /// Class names, as the HTML front end reports them; empty for XML.
    pub classes: Vec<String>,
}

#[derive(Debug)]
pub enum NodeKind {
    Element(ElementData),
    Text(String),
    /// The document node, comments, processing instructions, doctypes.
    Other,
}

#[derive(Debug)]
pub struct MarkupNode {
    pub kind: NodeKind,
    /// Indices of the children, in document order.
    pub children: Vec<usize>,
}

#[derive(Debug)]
pub struct MarkupTree {
    pub nodes: Vec<MarkupNode>,
}

/// A node kind as plain values: an element's name, its attributes as
/// (namespace, name, value) and its classes; a text; anything else.
pub ghost enum KindView {
    Element(Seq<char>, Seq<(Seq<char>, Seq<char>, Seq<char>)>, Seq<Seq<char>>),
    Text(Seq<char>),
    Other,
}

impl View for NodeKind {
    type V = KindView;

    open spec fn view(&self) -> KindView {
        match self {
            NodeKind::Element(d) => KindView::Element(
                d.name@,
                d.attributes@.map_values(|a: Attribute| (a.namespace@, a.name@, a.value@)),
                d.classes@.map_values(|c: String| c@),
            ),
            NodeKind::Text(s) => KindView::Text(s@),
            NodeKind::Other => KindView::Other,
        }
    }
}

/// Whether `t` has, node by node, these children and these kinds.
pub open spec fn tree_is(t: MarkupTree, children: Seq<Seq<usize>>, kinds: Seq<KindView>) -> bool {
    &&& t.nodes@.len() == children.len()
    &&& t.nodes@.len() == kinds.len()
    &&& forall|i: int|
        0 <= i < t.nodes@.len() ==> #[trigger] t.nodes@[i].children@ == children[i]
            && t.nodes@[i].kind@ == kinds[i]
}

impl MarkupTree {
    /// Every child index points past its parent and into the arena.
    pub open spec fn wf(&self) -> bool {
        forall|i: int, j: int|
            0 <= i < self.nodes@.len() && 0 <= j < self.nodes@[i].children@.len() ==> i
                < #[trigger] self.nodes@[i].children@[j] < self.nodes@.len()
    }

    pub open spec fn len(&self) -> nat {
        self.nodes@.len()
    }

    pub open spec fn node(&self, id: int) -> MarkupNode {
        self.nodes@[id]
    }

    pub open spec fn child_ids(&self, id: int) -> Seq<usize> {
        self.nodes@[id].children@
    }

    /// Builds the arena from nodes listed in document order beside their own
    /// indices, as the XML front end reports them. `None` when an index is out
    /// of place or a child does not come after its parent.
    pub fn from_indexed(ids: &Vec<usize>, nodes: Vec<MarkupNode>) -> (r: Option<MarkupTree>)
        ensures
            r is Some <==> ids@.len() == nodes@.len() && (forall|i: int|
                0 <= i < ids@.len() ==> #[trigger] ids@[i] == i) && (MarkupTree {
                nodes,
            }).wf(),
            r matches Some(t) ==> t.nodes@ == nodes@,
    {
        if ids.len() != nodes.len() {
            return None;
        }
        let n = nodes.len();
        let mut k: usize = 0;
        while k < n
            invariant
                k <= n,
                n == nodes@.len(),
                n == ids@.len(),
                forall|i: int| 0 <= i < k ==> #[trigger] ids@[i] == i,
                forall|i: int, j: int|
                    0 <= i < k && 0 <= j < nodes@[i].children@.len() ==> i
                        < #[trigger] nodes@[i].children@[j] < n,
            decreases n - k,
        {
            if ids[k] != k {
                return None;
            }
            let mut j: usize = 0;
            while j < nodes[k].children.len()
                invariant
                    k < n,
                    n == nodes@.len(),
                    0 <= j <= nodes@[k as int].children@.len(),
                    forall|m: int| 0 <= m < j ==> k < #[trigger] nodes@[k as int].children@[m] < n,
                decreases nodes@[k as int].children@.len() - j,
            {
                let c = nodes[k].children[j];
                if c <= k || c >= n {
                    return None;
                }
                j = j + 1;
            }
            k = k + 1;
        }
        Some(MarkupTree { nodes })
    }
}

} // verus!

verus! {

/// Pairs each kind with the children at the same position. `None` when the
/// two lists differ in length.
pub fn zip_nodes(kinds: Vec<NodeKind>, children: Vec<Vec<usize>>) -> (r: Option<Vec<MarkupNode>>)
    ensures
        r is Some <==> kinds@.len() == children@.len(),
        r matches Some(v) ==> v@.len() == kinds@.len() && forall|i: int|
            0 <= i < v@.len() ==> #[trigger] v@[i].kind == kinds@[i] && v@[i].children
                == children@[i],
{
    if kinds.len() != children.len() {
        return None;
    }
    let ghost k0 = kinds@;
    let ghost c0 = children@;
    let n = kinds.len();
    let mut kinds = kinds;
    let mut children = children;
    let mut v: Vec<MarkupNode> = Vec::new();
    while kinds.len() > 0
        invariant
            n == k0.len(),
            n == c0.len(),
            v@.len() + kinds@.len() == n,
            kinds@.len() == children@.len(),
            kinds@ == k0.subrange(v@.len() as int, n as int),
            children@ == c0.subrange(v@.len() as int, n as int),
            forall|i: int|
                0 <= i < v@.len() ==> #[trigger] v@[i].kind == k0[i] && v@[i].children == c0[i],
        decreases kinds@.len(),
    {
        let kind = kinds.remove(0);
        let ch = children.remove(0);
        v.push(MarkupNode { kind, children: ch });
    }
    Some(v)
}

/// Whether `c` is a Unicode `White_Space` character.
pub open spec fn is_white_space(c: char) -> bool {
    let u = c as u32;
    (0x09 <= u <= 0x0d) || u == 0x20 || u == 0x85 || u == 0xa0 || u == 0x1680 || (0x2000 <= u
        <= 0x200a) || u == 0x2028 || u == 0x2029 || u == 0x202f || u == 0x205f || u == 0x3000
}

pub open spec fn trim_start(s: Seq<char>) -> Seq<char>
    decreases s.len(),
{
    if s.len() > 0 && is_white_space(s[0]) {
        trim_start(s.drop_first())
    } else {
        s
    }
}

pub open spec fn trim_end(s: Seq<char>) -> Seq<char>
    decreases s.len(),
{
    if s.len() > 0 && is_white_space(s.last()) {
        trim_end(s.drop_last())
    } else {
        s
    }
}

/// `s` without its leading and trailing white space.
pub open spec fn trim(s: Seq<char>) -> Seq<char> {
    trim_end(trim_start(s))
}

proof fn lemma_trim_start_head(s: Seq<char>)
    ensures
        trim_start(s).len() > 0 ==> !is_white_space(trim_start(s)[0]),
    decreases s.len(),
{
    if s.len() > 0 && is_white_space(s[0]) {
        lemma_trim_start_head(s.drop_first());
    }
}

proof fn lemma_trim_end_prefix(s: Seq<char>)
    ensures
        trim_end(s).len() <= s.len(),
        forall|i: int| 0 <= i < trim_end(s).len() ==> #[trigger] trim_end(s)[i] == s[i],
        trim_end(s).len() > 0 ==> !is_white_space(trim_end(s).last()),
    decreases s.len(),
{
    if s.len() > 0 && is_white_space(s.last()) {
        lemma_trim_end_prefix(s.drop_last());
    }
}

/// Trimming twice is trimming once.
pub proof fn lemma_trim_idempotent(s: Seq<char>)
    ensures
        trim(trim(s)) == trim(s),
{
    let a = trim_start(s);
    let b = trim_end(a);
    lemma_trim_start_head(s);
    lemma_trim_end_prefix(a);
    if b.len() > 0 {
        assert(b[0] == a[0]);
        assert(trim_start(b) == b);
        assert(trim_end(b) == b);
    }
}

/// Relies on str::trim, which removes leading and trailing characters with
/// the Unicode `White_Space` property.
#[verifier::external_body]
pub(crate) fn trim_text(s: &str) -> (r: &str)
    ensures
        r@ == trim(s@),
{
    s.trim()
}

/// The tag name of a node; empty for a node that is not an element.
pub open spec fn tag_of(n: MarkupNode) -> Seq<char> {
    match n.kind {
        NodeKind::Element(d) => d.name@,
        _ => Seq::empty(),
    }
}

/// The value of the first attribute without a namespace named `key`.
pub open spec fn attr_in(attrs: Seq<Attribute>, key: Seq<char>) -> Option<Seq<char>>
    decreases attrs.len(),
{
    if attrs.len() == 0 {
        None
    } else if attrs[0].namespace@.len() == 0 && attrs[0].name@ == key {
        Some(attrs[0].value@)
    } else {
        attr_in(attrs.drop_first(), key)
    }
}

/// The value of attribute `key` of a node; `None` for a node that is not an
/// element.
pub open spec fn attr_of(n: MarkupNode, key: Seq<char>) -> Option<Seq<char>> {
    match n.kind {
        NodeKind::Element(d) => attr_in(d.attributes@, key),
        _ => None,
    }
}

/// Whether the string holds exactly the characters of `lit`.
pub fn str_is(s: &String, lit: &str) -> (r: bool)
    ensures
        r == (s@ == lit@),
{
    let l = lit.to_owned();
    *s == l
}

impl MarkupNode {
    /// The tag name; empty for a node that is not an element.
    pub fn tag_name(&self) -> (r: String)
        ensures
            r@ == tag_of(*self),
    {
        match &self.kind {
            NodeKind::Element(d) => d.name.clone(),
            _ => String::new(),
        }
    }

    /// The value of the first attribute without a namespace named `key`.
    pub fn attribute(&self, key: &str) -> (r: Option<String>)
        ensures
            r is Some <==> attr_of(*self, key@) is Some,
            r matches Some(v) ==> attr_of(*self, key@) == Some(v@),
    {
        match &self.kind {
            NodeKind::Element(d) => {
                let attrs = &d.attributes;
                let mut i: usize = 0;
                assert(attrs@.subrange(0, attrs@.len() as int) =~= attrs@);
                while i < attrs.len()
                    invariant
                        i <= attrs@.len(),
                        attr_of(*self, key@) == attr_in(attrs@, key@),
                        attr_in(attrs@, key@) == attr_in(attrs@.subrange(i as int, attrs@.len() as int), key@),
                    decreases attrs@.len() - i,
                {
                    assert(attrs@.subrange(i as int, attrs@.len() as int).drop_first() =~= attrs@.subrange(
                        i + 1,
                        attrs@.len() as int,
                    ));
                    let a = &attrs[i];
                    assert(attrs@.subrange(i as int, attrs@.len() as int)[0] == *a);
                    if a.namespace.as_str().is_empty() && str_is(&a.name, key) {
                        let ghost sub = attrs@.subrange(i as int, attrs@.len() as int);
                        assert(sub.len() > 0);
                        assert(attr_in(sub, key@) == Some(a.value@));
                        return Some(a.value.clone());
                    }
                    i = i + 1;
                }
                None
            },
            _ => None,
        }
    }
}

} // verus!
