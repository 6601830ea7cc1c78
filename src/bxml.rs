//! BXML: an XML dialect for UI documents, and its intermediate representation.
//!
//! Four tag names are special, case-sensitively: `StyleSheet` (needs `src`),
//! `Bundle` (needs at least one child that yields an element), `Component`
//! (needs `type`) and `Template` (needs `src` and `tag`; it is collected into
//! the template map and never appears among the children). Any other element
//! is an `Instance` of the widget its tag names. Text is trimmed; text that is
//! only white space yields nothing.
use vstd::prelude::*;
use vstd::string::StringSliceAdditionalSpecFns;
use crate::markup::{attr_of, tag_of, trim, trim_text, str_is, MarkupNode, MarkupTree, NodeKind};
use crate::xml::{parse_xml, xml_accepts, xml_doc_of, xml_tree_is, MarkupError};

verus! {

/// A reusable subtree declared elsewhere, under a tag of its own.
#[derive(Debug, PartialEq)]
pub struct Template {
    pub src: String,
    pub tag: String,
}

#[derive(Debug, PartialEq)]
pub enum Element {
    StyleSheet(StyleSheet),
    Bundle(Bundle),
    Component(Component),
    Instance(Instance),
    Text(String),
}

#[derive(Debug, PartialEq)]
pub struct StyleSheet {
    pub src: String,
}

/// A grouping node: its children belong to its parent.
#[derive(Debug, PartialEq)]
pub struct Bundle {
    pub children: Vec<Element>,
}

#[derive(Debug, PartialEq)]
pub struct Component {
    pub ty: String,
}

#[derive(Debug, PartialEq)]
pub struct Instance {
    pub tag: String,
    pub children: Vec<Element>,
}

/// A parsed document: its templates, one per tag, and its top-level elements.
#[derive(Debug, PartialEq)]
pub struct Bxml {
    pub templates: Vec<Template>,
    pub children: Vec<Element>,
}

// ---------------------------------------------------------------------------
// What a node yields
// ---------------------------------------------------------------------------

/// Whether node `id` yields an element.
pub open spec fn yields(t: MarkupTree, id: int) -> bool
    decreases t.len() - id, t.child_ids(id).len() + 1,
{
    if 0 <= id < t.len() {
        let n = t.node(id);
        match n.kind {
            NodeKind::Text(s) => trim(s@).len() > 0,
            _ => {
                let tag = tag_of(n);
                if tag == "StyleSheet"@ {
                    attr_of(n, "src"@) is Some
                } else if tag == "Bundle"@ {
                    any_yields(t, id, t.child_ids(id))
                } else if tag == "Component"@ {
                    attr_of(n, "type"@) is Some
                } else if tag == "Template"@ {
                    false
                } else {
                    tag.len() > 0
                }
            },
        }
    } else {
        false
    }
}

/// Whether one of the nodes `ids`, children of `parent`, yields an element.
pub open spec fn any_yields(t: MarkupTree, parent: int, ids: Seq<usize>) -> bool
    decreases t.len() - parent, ids.len(),
{
    if ids.len() == 0 {
        false
    } else {
        let c = ids.last() as int;
        (parent < c < t.len() && yields(t, c)) || any_yields(t, parent, ids.drop_last())
    }
}

/// Whether `e` is the element that node `id` yields.
pub open spec fn elem_ok(t: MarkupTree, id: int, e: Element) -> bool
    decreases t.len() - id, t.child_ids(id).len() + 1,
{
    if 0 <= id < t.len() {
        let n = t.node(id);
        match n.kind {
            NodeKind::Text(s) => trim(s@).len() > 0 && e is Text && e->Text_0@ == trim(s@),
            _ => {
                let tag = tag_of(n);
                if tag == "StyleSheet"@ {
                    attr_of(n, "src"@) is Some && e is StyleSheet && attr_of(n, "src"@) == Some(
                        e->StyleSheet_0.src@,
                    )
                } else if tag == "Bundle"@ {
                    e is Bundle && e->Bundle_0.children@.len() > 0 && children_ok(
                        t,
                        id,
                        t.child_ids(id),
                        e->Bundle_0.children@,
                    )
                } else if tag == "Component"@ {
                    attr_of(n, "type"@) is Some && e is Component && attr_of(n, "type"@) == Some(
                        e->Component_0.ty@,
                    )
                } else if tag == "Template"@ {
                    false
                } else {
                    tag.len() > 0 && e is Instance && e->Instance_0.tag@ == tag && children_ok(
                        t,
                        id,
                        t.child_ids(id),
                        e->Instance_0.children@,
                    )
                }
            },
        }
    } else {
        false
    }
}

/// Whether `es` are the elements that the nodes `ids`, children of `parent`,
/// yield, in order: one for each node that yields one.
pub open spec fn children_ok(t: MarkupTree, parent: int, ids: Seq<usize>, es: Seq<Element>) -> bool
    decreases t.len() - parent, ids.len(),
{
    if ids.len() == 0 {
        es.len() == 0
    } else {
        let c = ids.last() as int;
        if parent < c < t.len() && yields(t, c) {
            es.len() > 0 && elem_ok(t, c, es.last()) && children_ok(
                t,
                parent,
                ids.drop_last(),
                es.drop_last(),
            )
        } else {
            children_ok(t, parent, ids.drop_last(), es)
        }
    }
}

// ---------------------------------------------------------------------------
// Templates
// ---------------------------------------------------------------------------

/// The template that node `id` declares, as (tag, src).
pub open spec fn template_decl(n: MarkupNode) -> Option<(Seq<char>, Seq<char>)> {
    if tag_of(n) == "Template"@ && attr_of(n, "src"@) is Some && attr_of(n, "tag"@) is Some {
        Some((attr_of(n, "tag"@)->Some_0, attr_of(n, "src"@)->Some_0))
    } else {
        None
    }
}

/// The templates declared in the subtree of `id`, from tag to src; of two
/// declarations of one tag the later in document order counts.
pub open spec fn templates_of(t: MarkupTree, id: int) -> Map<Seq<char>, Seq<char>>
    decreases t.len() - id, t.child_ids(id).len() + 1,
{
    if 0 <= id < t.len() {
        let own = match template_decl(t.node(id)) {
            Some(d) => map![d.0 => d.1],
            None => Map::empty(),
        };
        templates_in(t, id, t.child_ids(id), own)
    } else {
        Map::empty()
    }
}

/// `base`, then the templates of the subtrees of `ids`, in order.
pub open spec fn templates_in(
    t: MarkupTree,
    parent: int,
    ids: Seq<usize>,
    base: Map<Seq<char>, Seq<char>>,
) -> Map<Seq<char>, Seq<char>>
    decreases t.len() - parent, ids.len(),
{
    if ids.len() == 0 {
        base
    } else {
        let c = ids.last() as int;
        let m = templates_in(t, parent, ids.drop_last(), base);
        if parent < c < t.len() {
            m.union_prefer_right(templates_of(t, c))
        } else {
            m
        }
    }
}

/// The map from tag to src that a list of templates stands for.
pub open spec fn template_map(v: Seq<Template>) -> Map<Seq<char>, Seq<char>>
    decreases v.len(),
{
    if v.len() == 0 {
        Map::empty()
    } else {
        template_map(v.drop_last()).insert(v.last().tag@, v.last().src@)
    }
}

pub open spec fn tags_unique(v: Seq<Template>) -> bool {
    forall|i: int, j: int| 0 <= i < j < v.len() ==> v[i].tag@ != v[j].tag@
}

proof fn lemma_template_map_update(v: Seq<Template>, j: int, x: Template)
    requires
        tags_unique(v),
        0 <= j < v.len(),
        x.tag@ == v[j].tag@,
    ensures
        template_map(v.update(j, x)) == template_map(v).insert(x.tag@, x.src@),
    decreases v.len(),
{
    let w = v.update(j, x);
    if j == v.len() - 1 {
        assert(w.drop_last() =~= v.drop_last());
        assert(template_map(w) =~= template_map(v).insert(x.tag@, x.src@));
    } else {
        assert(w.drop_last() =~= v.drop_last().update(j, x));
        lemma_template_map_update(v.drop_last(), j, x);
        assert(v.last().tag@ != x.tag@);
        assert(template_map(w) =~= template_map(v).insert(x.tag@, x.src@));
    }
}

/// Adds a template to a list with unique tags, replacing the one with the
/// same tag.
fn insert_template(v: &mut Vec<Template>, x: Template)
    requires
        tags_unique(old(v)@),
    ensures
        tags_unique(final(v)@),
        template_map(final(v)@) == template_map(old(v)@).insert(x.tag@, x.src@),
{
    let mut i: usize = 0;
    while i < v.len()
        invariant
            i <= v@.len(),
            v@ == old(v)@,
            tags_unique(v@),
            forall|k: int| 0 <= k < i ==> v@[k].tag@ != x.tag@,
        decreases v@.len() - i,
    {
        if str_is(&v[i].tag, x.tag.as_str()) {
            proof {
                lemma_template_map_update(v@, i as int, x);
            }
            let ghost pre = v@;
            v.set(i, x);
            assert(v@ == pre.update(i as int, x));
            return;
        }
        i = i + 1;
    }
    let ghost pre = v@;
    v.push(x);
    assert(v@.drop_last() =~= pre);
    assert(forall|k: int| 0 <= k < pre.len() ==> v@[k] == pre[k]);
}

impl Template {
    /// The template that a node declares: `None` without `src` or `tag`.
    pub fn from_node(t: &MarkupTree, id: usize) -> (r: Option<Template>)
        requires
            id < t.len(),
        ensures
            r is Some <==> attr_of(t.node(id as int), "src"@) is Some && attr_of(
                t.node(id as int),
                "tag"@,
            ) is Some,
            r matches Some(x) ==> attr_of(t.node(id as int), "src"@) == Some(x.src@) && attr_of(
                t.node(id as int),
                "tag"@,
            ) == Some(x.tag@),
    {
        let node = &t.nodes[id];
        let src = match node.attribute("src") {
            Some(s) => s,
            None => {
                return None;
            },
        };
        let tag = match node.attribute("tag") {
            Some(s) => s,
            None => {
                return None;
            },
        };
        Some(Template { src, tag })
    }
}

/// Collects the templates of the subtree of `id` into `acc`.
fn gather_templates(t: &MarkupTree, id: usize, acc: &mut Vec<Template>)
    requires
        t.wf(),
        id < t.len(),
        tags_unique(old(acc)@),
    ensures
        tags_unique(final(acc)@),
        template_map(final(acc)@) == template_map(old(acc)@).union_prefer_right(
            templates_of(*t, id as int),
        ),
    decreases t.len() - id,
{
    let node = &t.nodes[id];
    let ghost start = template_map(acc@);
    let tag = node.tag_name();
    let ghost own = match template_decl(t.node(id as int)) {
        Some(d) => map![d.0 => d.1],
        None => Map::<Seq<char>, Seq<char>>::empty(),
    };
    if str_is(&tag, "Template") {
        match Template::from_node(t, id) {
            Some(x) => {
                insert_template(acc, x);
            },
            None => {},
        }
    }
    assert(template_map(acc@) =~= start.union_prefer_right(own));
    let ids = &node.children;
    let mut i: usize = 0;
    assert(ids@.take(0) =~= Seq::<usize>::empty());
    while i < ids.len()
        invariant
            t.wf(),
            id < t.len(),
            ids@ == t.child_ids(id as int),
            i <= ids@.len(),
            tags_unique(acc@),
            template_map(acc@) == start.union_prefer_right(
                templates_in(*t, id as int, ids@.take(i as int), own),
            ),
        decreases ids@.len() - i,
    {
        let c = ids[i];
        assert(id < c < t.len());
        gather_templates(t, c, acc);
        assert(ids@.take(i + 1).drop_last() =~= ids@.take(i as int));
        assert(template_map(acc@) =~= start.union_prefer_right(
            templates_in(*t, id as int, ids@.take(i + 1), own),
        ));
        i = i + 1;
    }
    assert(ids@.take(ids@.len() as int) =~= ids@);
}

// ---------------------------------------------------------------------------
// Elements
// ---------------------------------------------------------------------------

/// The special tag names are pairwise distinct and not empty.
pub proof fn lemma_special_names()
    ensures
        "Template"@.len() > 0,
        "Template"@ != "StyleSheet"@,
        "Template"@ != "Bundle"@,
        "Template"@ != "Component"@,
        "Bundle"@ != "StyleSheet"@,
        "Component"@ != "StyleSheet"@,
        "Component"@ != "Bundle"@,
{
    reveal_strlit("Template");
    reveal_strlit("StyleSheet");
    reveal_strlit("Bundle");
    reveal_strlit("Component");
    assert("Template"@[0] != "StyleSheet"@[0]);
    assert("Template"@[0] != "Bundle"@[0]);
    assert("Template"@[0] != "Component"@[0]);
    assert("Bundle"@[0] != "StyleSheet"@[0]);
    assert("Component"@[0] != "StyleSheet"@[0]);
    assert("Component"@[0] != "Bundle"@[0]);
}

impl StyleSheet {
    /// A style sheet reference: `None` without `src`.
    pub fn from_node(t: &MarkupTree, id: usize) -> (r: Option<StyleSheet>)
        requires
            id < t.len(),
        ensures
            r is Some <==> attr_of(t.node(id as int), "src"@) is Some,
            r matches Some(x) ==> attr_of(t.node(id as int), "src"@) == Some(x.src@),
    {
        match t.nodes[id].attribute("src") {
            Some(src) => Some(StyleSheet { src }),
            None => None,
        }
    }
}

impl Component {
    /// A component directive: `None` without `type`.
    pub fn from_node(t: &MarkupTree, id: usize) -> (r: Option<Component>)
        requires
            id < t.len(),
        ensures
            r is Some <==> attr_of(t.node(id as int), "type"@) is Some,
            r matches Some(x) ==> attr_of(t.node(id as int), "type"@) == Some(x.ty@),
    {
        match t.nodes[id].attribute("type") {
            Some(ty) => Some(Component { ty }),
            None => None,
        }
    }
}

impl Bundle {
    /// A bundle of the elements that the children yield: `None` when they
    /// yield none.
    pub fn from_node(t: &MarkupTree, id: usize) -> (r: Option<Bundle>)
        requires
            t.wf(),
            id < t.len(),
        ensures
            r is Some <==> any_yields(*t, id as int, t.child_ids(id as int)),
            r matches Some(b) ==> b.children@.len() > 0 && children_ok(
                *t,
                id as int,
                t.child_ids(id as int),
                b.children@,
            ),
        decreases t.len() - id, 2nat,
    {
        let children = gather_elements(t, id);
        if children.len() == 0 {
            return None;
        }
        Some(Bundle { children })
    }
}

impl Instance {
    /// An instance of the widget that the tag names, with the elements that
    /// the children yield: `None` when the tag is empty.
    pub fn from_node(t: &MarkupTree, id: usize) -> (r: Option<Instance>)
        requires
            t.wf(),
            id < t.len(),
        ensures
            r is Some <==> tag_of(t.node(id as int)).len() > 0,
            r matches Some(x) ==> x.tag@ == tag_of(t.node(id as int)) && children_ok(
                *t,
                id as int,
                t.child_ids(id as int),
                x.children@,
            ),
        decreases t.len() - id, 2nat,
    {
        let tag = t.nodes[id].tag_name();
        if tag.as_str().is_empty() {
            return None;
        }
        let children = gather_elements(t, id);
        Some(Instance { tag, children })
    }
}

impl Element {
    /// The element that node `id` yields, if any. A `Template` node never
    /// yields one.
    pub fn from_node(t: &MarkupTree, id: usize) -> (r: Option<Element>)
        requires
            t.wf(),
            id < t.len(),
        ensures
            r is Some <==> yields(*t, id as int),
            r matches Some(e) ==> elem_ok(*t, id as int, e),
            tag_of(t.node(id as int)) == "Template"@ ==> r is None,
        decreases t.len() - id, 3nat,
    {
        proof {
            lemma_special_names();
        }
        let node = &t.nodes[id];
        match &node.kind {
            NodeKind::Text(s) => {
                let text = trim_text(s.as_str());
                if text.is_empty() {
                    None
                } else {
                    Some(Element::Text(text.to_owned()))
                }
            },
            _ => {
                let tag = node.tag_name();
                if str_is(&tag, "StyleSheet") {
                    match StyleSheet::from_node(t, id) {
                        Some(x) => Some(Element::StyleSheet(x)),
                        None => None,
                    }
                } else if str_is(&tag, "Bundle") {
                    match Bundle::from_node(t, id) {
                        Some(x) => Some(Element::Bundle(x)),
                        None => None,
                    }
                } else if str_is(&tag, "Component") {
                    match Component::from_node(t, id) {
                        Some(x) => Some(Element::Component(x)),
                        None => None,
                    }
                } else if str_is(&tag, "Template") {
                    None
                } else {
                    match Instance::from_node(t, id) {
                        Some(x) => Some(Element::Instance(x)),
                        None => None,
                    }
                }
            },
        }
    }
}

/// The elements that the children of `id` yield, in order.
fn gather_elements(t: &MarkupTree, id: usize) -> (r: Vec<Element>)
    requires
        t.wf(),
        id < t.len(),
    ensures
        children_ok(*t, id as int, t.child_ids(id as int), r@),
        r@.len() > 0 <==> any_yields(*t, id as int, t.child_ids(id as int)),
    decreases t.len() - id, 1nat,
{
    let ids = &t.nodes[id].children;
    let mut r: Vec<Element> = Vec::new();
    let mut i: usize = 0;
    assert(ids@.take(0) =~= Seq::<usize>::empty());
    while i < ids.len()
        invariant
            t.wf(),
            id < t.len(),
            ids@ == t.child_ids(id as int),
            i <= ids@.len(),
            children_ok(*t, id as int, ids@.take(i as int), r@),
            r@.len() > 0 <==> any_yields(*t, id as int, ids@.take(i as int)),
        decreases ids@.len() - i,
    {
        let c = ids[i];
        assert(id < c < t.len());
        assert(ids@.take(i + 1).drop_last() =~= ids@.take(i as int));
        assert(ids@.take(i + 1).last() == c);
        match Element::from_node(t, c) {
            Some(e) => {
                let ghost pre = r@;
                r.push(e);
                assert(r@.drop_last() =~= pre);
            },
            None => {},
        }
        i = i + 1;
    }
    assert(ids@.take(ids@.len() as int) =~= ids@);
    r
}

} // verus!

verus! {

/// Relies on std::str::from_utf8: it succeeds exactly on valid UTF-8, and
/// the text it returns has the given bytes.
#[verifier::external_body]
pub(crate) fn decode_utf8(bytes: &[u8]) -> (r: Option<&str>)
    ensures
        r is Some <==> vstd::utf8::valid_utf8(bytes@),
        r matches Some(s) ==> s.spec_bytes() == bytes@ && s@ == vstd::utf8::decode_utf8(bytes@),
{
    std::str::from_utf8(bytes).ok()
}

pub open spec fn is_element(n: MarkupNode) -> bool {
    n.kind is Element
}

/// The first element child of node `0`, the document node.
pub fn root_element(t: &MarkupTree) -> (r: Option<usize>)
    requires
        t.wf(),
        t.len() > 0,
    ensures
        r matches Some(i) ==> 0 < i < t.len(),
        r is None <==> forall|k: int|
            0 <= k < t.child_ids(0).len() ==> !is_element(#[trigger] t.node(t.child_ids(0)[k] as int)),
        r matches Some(i) ==> exists|k: int|
            0 <= k < t.child_ids(0).len() && t.child_ids(0)[k] == i && i < t.len() && is_element(
                t.node(i as int),
            ) && forall|m: int|
                0 <= m < k ==> !is_element(#[trigger] t.node(t.child_ids(0)[m] as int)),
{
    let ids = &t.nodes[0].children;
    let mut k: usize = 0;
    while k < ids.len()
        invariant
            t.wf(),
            t.len() > 0,
            ids@ == t.child_ids(0),
            k <= ids@.len(),
            forall|m: int| 0 <= m < k ==> !is_element(#[trigger] t.node(ids@[m] as int)),
        decreases ids@.len() - k,
    {
        let c = ids[k];
        assert(0 < c < t.len());
        if let NodeKind::Element(_) = &t.nodes[c].kind {
            assert(is_element(t.node(t.child_ids(0)[k as int] as int)));
            return Some(c);
        }
        k = k + 1;
    }
    None
}

/// Whether `b` is the document that node `id` stands for.
pub open spec fn bxml_ok(t: MarkupTree, id: int, b: Bxml) -> bool {
    &&& tags_unique(b.templates@)
    &&& template_map(b.templates@) == templates_of(t, id)
    &&& children_ok(t, id, t.child_ids(id), b.children@)
}

/// Whether node `id` is the first element child of the document node.
pub open spec fn root_is(t: MarkupTree, id: int) -> bool {
    exists|k: int|
        0 <= k < t.child_ids(0).len() && t.child_ids(0)[k] == id && 0 < id < t.len() && is_element(
            t.node(id),
        ) && forall|m: int| 0 <= m < k ==> !is_element(#[trigger] t.node(t.child_ids(0)[m] as int))
}

/// Whether `b` is the document under the root element `id` of `t`.
pub open spec fn read_from(t: MarkupTree, id: int, b: Bxml) -> bool {
    root_is(t, id) && bxml_ok(t, id, b)
}

/// Whether `b` is the document under the root element `id` of `t`, and
/// `ps` the problems of the nodes of `t`.
pub open spec fn found_in(t: MarkupTree, id: int, b: Bxml, ps: Seq<(usize, ParseProblem)>) -> bool {
    read_from(t, id, b) && ps == problems_before(t, t.len() as int)
}

/// Whether `b` and `ps` are the document and the problems of the tree that
/// roxmltree reads from the text.
pub open spec fn read_with_problems(text: Seq<char>, b: Bxml, ps: Seq<(usize, ParseProblem)>) -> bool {
    exists|t: MarkupTree, id: int| #[trigger] found_in(t, id, b, ps) && t.wf() && xml_tree_is(t, text)
}

/// What reading BXML text gives: a document exactly when roxmltree accepts
/// the text, and then the one under the root element of the tree it reads.
pub open spec fn bxml_read(text: Seq<char>, r: Result<Bxml, MarkupError>) -> bool {
    &&& (r is Ok <==> xml_accepts(text))
    &&& (!xml_accepts(text) <==> r matches Err(MarkupError::Xml(_)))
    &&& (r matches Ok(b) ==> exists|t: MarkupTree, id: int|
        t.wf() && xml_tree_is(t, text) && #[trigger] read_from(t, id, b))
}

impl Bxml {
    /// The document under node `id`: the templates declared anywhere in its
    /// subtree (the node itself included) and the elements its children yield.
    pub fn from_node(t: &MarkupTree, id: usize) -> (r: Bxml)
        requires
            t.wf(),
            id < t.len(),
        ensures
            bxml_ok(*t, id as int, r),
    {
        let mut templates: Vec<Template> = Vec::new();
        gather_templates(t, id, &mut templates);
        assert(template_map(templates@) =~= templates_of(*t, id as int));
        let children = gather_elements(t, id);
        Bxml { templates, children }
    }

    /// Parses BXML text, and reports the problems of its nodes: the document
    /// is the root element, the problems are those of every node of the tree
    /// that roxmltree reads, in document order.
    pub fn read(text: &str) -> (r: Result<(Bxml, Vec<(usize, ParseProblem)>), MarkupError>)
        ensures
            r is Ok <==> xml_accepts(text@),
            !xml_accepts(text@) <==> r matches Err(MarkupError::Xml(_)),
            !(r matches Err(MarkupError::Utf8)),
            r matches Ok(p) ==> read_with_problems(text@, p.0, p.1@),
    {
        let t = match parse_xml(text) {
            Ok(t) => t,
            Err(e) => {
                return Err(e);
            },
        };
        match root_element(&t) {
            Some(id) => {
                let b = Bxml::from_node(&t, id);
                let ps = problems(&t);
                assert(read_from(t, id as int, b));
                assert(xml_tree_is(t, text@));
                assert(found_in(t, id as int, b, ps@));
                assert(read_with_problems(text@, b, ps@));
                Ok((b, ps))
            },
            None => {
                proof {
                    let d = xml_doc_of(text@)->Some_0;
                    let j = choose|j: int|
                        0 <= j < d.1[0].len() && #[trigger] d.2[d.1[0][j] as int] is Element;
                    let c = d.1[0][j] as int;
                    assert(t.nodes@[0].children@ == d.1[0]);
                    assert(t.wf());
                    assert(0 <= j < t.nodes@[0].children@.len());
                    assert(t.nodes@[0].children@[j] == c);
                    assert(0 < c < t.len());
                    assert(t.nodes@[c].children@ == d.1[c]);
                    assert(t.nodes@[c].kind@ == d.2[c]);
                    assert(t.nodes@[c].kind is Element);
                    assert(is_element(t.node(t.child_ids(0)[j] as int)));
                }
                Err(MarkupError::Structure)
            },
        }
    }

    /// Parses BXML text; the document is the root element.
    pub fn from_str(text: &str) -> (r: Result<Bxml, MarkupError>)
        ensures
            bxml_read(text@, r),
            !(r matches Err(MarkupError::Utf8)),
    {
        match Bxml::read(text) {
            Ok((b, ps)) => {
                proof {
                    let (t, id) = choose|t: MarkupTree, id: int| #[trigger] found_in(t, id, b, ps@)
                        && t.wf() && xml_tree_is(t, text@);
                    assert(read_from(t, id, b));
                    assert(exists|t2: MarkupTree, i2: int|
                        t2.wf() && xml_tree_is(t2, text@) && #[trigger] read_from(t2, i2, b));
                }
                let r: Result<Bxml, MarkupError> = Ok(b);
                assert(r->Ok_0 == b);
                assert(bxml_read(text@, r));
                r
            },
            Err(e) => Err(e),
        }
    }

    /// Parses BXML bytes, which must be UTF-8, and reports the problems of
    /// its nodes.
    pub fn read_bytes(bytes: &[u8]) -> (r: Result<(Bxml, Vec<(usize, ParseProblem)>), MarkupError>)
        ensures
            !vstd::utf8::valid_utf8(bytes@) <==> r matches Err(MarkupError::Utf8),
            vstd::utf8::valid_utf8(bytes@) ==> (r is Ok <==> xml_accepts(vstd::utf8::decode_utf8(bytes@))),
            r matches Ok(p) ==> read_with_problems(vstd::utf8::decode_utf8(bytes@), p.0, p.1@),
    {
        match decode_utf8(bytes) {
            Some(text) => Bxml::read(text),
            None => Err(MarkupError::Utf8),
        }
    }

    /// Parses BXML bytes: they must be UTF-8.
    pub fn from_bytes(bytes: &[u8]) -> (r: Result<Bxml, MarkupError>)
        ensures
            !vstd::utf8::valid_utf8(bytes@) <==> r matches Err(MarkupError::Utf8),
            vstd::utf8::valid_utf8(bytes@) ==> bxml_read(vstd::utf8::decode_utf8(bytes@), r),
    {
        match decode_utf8(bytes) {
            Some(text) => Bxml::from_str(text),
            None => Err(MarkupError::Utf8),
        }
    }
}

} // verus!

verus! {

/// A `Template` node yields no element, whatever it holds and wherever it
/// stands: it never appears in the children of its parent.
pub proof fn lemma_template_never_a_child(t: MarkupTree, id: int)
    requires
        0 <= id < t.len(),
        tag_of(t.node(id)) == "Template"@,
    ensures
        !yields(t, id),
        forall|e: Element| !elem_ok(t, id, e),
{
    lemma_special_names();
}

/// A `Bundle` none of whose children yields an element yields nothing.
pub proof fn lemma_empty_bundle_rejected(t: MarkupTree, id: int)
    requires
        0 <= id < t.len(),
        !(t.node(id).kind is Text),
        tag_of(t.node(id)) == "Bundle"@,
        !any_yields(t, id, t.child_ids(id)),
    ensures
        !yields(t, id),
{
    reveal_strlit("Bundle");
    reveal_strlit("StyleSheet");
    assert("Bundle"@[0] != "StyleSheet"@[0]);
}

/// Text that is only white space yields nothing; other text yields itself,
/// trimmed.
pub proof fn lemma_text_trimmed(t: MarkupTree, id: int, e: Element)
    requires
        0 <= id < t.len(),
        t.node(id).kind is Text,
    ensures
        yields(t, id) <==> trim(t.node(id).kind->Text_0@).len() > 0,
        elem_ok(t, id, e) <==> yields(t, id) && e is Text && e->Text_0@ == trim(
            t.node(id).kind->Text_0@,
        ),
{
}

} // verus!

verus! {

/// Why a node that should yield an element yields none.
#[derive(Debug, PartialEq, Eq, Clone, Copy)]
pub enum ParseProblem {
    StyleSheetWithoutSrc,
    BundleWithoutChildren,
    ComponentWithoutType,
    TemplateWithoutSrc,
    TemplateWithoutTag,
}

/// The problem with node `id`, if any.
pub open spec fn problem_of(t: MarkupTree, id: int) -> Option<ParseProblem> {
    let n = t.node(id);
    if n.kind is Element {
        let tag = tag_of(n);
        if tag == "StyleSheet"@ && attr_of(n, "src"@) is None {
            Some(ParseProblem::StyleSheetWithoutSrc)
        } else if tag == "Bundle"@ && !any_yields(t, id, t.child_ids(id)) {
            Some(ParseProblem::BundleWithoutChildren)
        } else if tag == "Component"@ && attr_of(n, "type"@) is None {
            Some(ParseProblem::ComponentWithoutType)
        } else if tag == "Template"@ && attr_of(n, "src"@) is None {
            Some(ParseProblem::TemplateWithoutSrc)
        } else if tag == "Template"@ && attr_of(n, "tag"@) is None {
            Some(ParseProblem::TemplateWithoutTag)
        } else {
            None
        }
    } else {
        None
    }
}

/// The problems of the nodes before `n`, with their node, in order.
pub open spec fn problems_before(t: MarkupTree, n: int) -> Seq<(usize, ParseProblem)>
    decreases n,
{
    if n <= 0 {
        Seq::empty()
    } else {
        match problem_of(t, n - 1) {
            Some(p) => problems_before(t, n - 1).push(((n - 1) as usize, p)),
            None => problems_before(t, n - 1),
        }
    }
}

/// The problems of a document: each element node that lacks what its tag
/// requires (a style sheet's `src`, a component's `type`, a template's `src`
/// or `tag`) or a bundle left without elements, in document order.
pub fn problems(t: &MarkupTree) -> (r: Vec<(usize, ParseProblem)>)
    requires
        t.wf(),
    ensures
        r@ == problems_before(*t, t.len() as int),
{
    let mut r: Vec<(usize, ParseProblem)> = Vec::new();
    let mut i: usize = 0;
    while i < t.nodes.len()
        invariant
            t.wf(),
            i <= t.len(),
            r@ == problems_before(*t, i as int),
        decreases t.len() - i,
    {
        proof {
            lemma_special_names();
        }
        let node = &t.nodes[i];
        let ghost before = r@;
        if let NodeKind::Element(_) = &node.kind {
            let tag = node.tag_name();
            assert(tag@ == tag_of(t.node(i as int)));
            if str_is(&tag, "StyleSheet") {
                if StyleSheet::from_node(t, i).is_none() {
                    assert(problem_of(*t, i as int) == Some(ParseProblem::StyleSheetWithoutSrc));
                    r.push((i, ParseProblem::StyleSheetWithoutSrc));
                } else {
                    assert(problem_of(*t, i as int) is None);
                }
            } else if str_is(&tag, "Bundle") {
                if Bundle::from_node(t, i).is_none() {
                    assert(problem_of(*t, i as int) == Some(ParseProblem::BundleWithoutChildren));
                    r.push((i, ParseProblem::BundleWithoutChildren));
                } else {
                    assert(problem_of(*t, i as int) is None);
                }
            } else if str_is(&tag, "Component") {
                if Component::from_node(t, i).is_none() {
                    assert(problem_of(*t, i as int) == Some(ParseProblem::ComponentWithoutType));
                    r.push((i, ParseProblem::ComponentWithoutType));
                } else {
                    assert(problem_of(*t, i as int) is None);
                }
            } else if str_is(&tag, "Template") {
                if node.attribute("src").is_none() {
                    r.push((i, ParseProblem::TemplateWithoutSrc));
                } else if node.attribute("tag").is_none() {
                    r.push((i, ParseProblem::TemplateWithoutTag));
                }
            }
        }
        assert(r@ == match problem_of(*t, i as int) {
            Some(p) => before.push((i, p)),
            None => before,
        });
        i = i + 1;
    }
    r
}

} // verus!
