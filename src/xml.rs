//! The XML front end: roxmltree reads the text, and its document is handed
//! on as a `MarkupTree`.
use vstd::prelude::*;
use roxmltree::NodeType;
use crate::markup::{tree_is, zip_nodes, Attribute, ElementData, KindView, MarkupTree, NodeKind};

verus! {

/// roxmltree's parse error, carried in `MarkupError::Xml`.
#[verifier::external_type_specification]
#[verifier::external_body]
pub struct ExXmlError(roxmltree::Error);

/// The document that roxmltree reads from the text, if it accepts it: for
/// each node in document order, its index, its children's indices and its
/// kind.
pub uninterp spec fn xml_doc_of(text: Seq<char>) -> Option<(Seq<usize>, Seq<Seq<usize>>, Seq<KindView>)>;

/// Whether roxmltree accepts the text as an XML document.
pub open spec fn xml_accepts(text: Seq<char>) -> bool {
    xml_doc_of(text) is Some
}

/// roxmltree's arena: one entry per node, each index in its place, each child
/// after its parent, and the document node first, with the root element
/// among its children.
pub open spec fn arena_ok(d: (Seq<usize>, Seq<Seq<usize>>, Seq<KindView>)) -> bool {
    &&& d.0.len() == d.1.len()
    &&& d.2.len() == d.1.len()
    &&& d.0.len() > 0
    &&& forall|i: int| 0 <= i < d.0.len() ==> #[trigger] d.0[i] == i
    &&& forall|i: int, j: int|
        0 <= i < d.1.len() && 0 <= j < d.1[i].len() ==> i < #[trigger] d.1[i][j] < d.1.len()
    &&& exists|j: int| 0 <= j < d.1[0].len() && #[trigger] d.2[d.1[0][j] as int] is Element
}

/// Whether `t` is the tree that roxmltree reads from the text.
pub open spec fn xml_tree_is(t: MarkupTree, text: Seq<char>) -> bool {
    xml_doc_of(text) matches Some(d) && arena_ok(d) && tree_is(t, d.1, d.2)
}

/// Relies on roxmltree::Document::parse, which fails exactly on text that is
/// not a well-formed document, and on its node arena: each node, in document
/// order, is given with its index and the indices of its children.
#[verifier::external_body]
fn xml_shape(text: &str) -> (r: Result<(Vec<usize>, Vec<Vec<usize>>), roxmltree::Error>)
    ensures
        r is Ok <==> xml_doc_of(text@) is Some,
        r matches Ok(p) ==> xml_doc_of(text@) matches Some(d) && p.0@ == d.0 && p.1@.map_values(
            |c: Vec<usize>| c@,
        ) == d.1 && arena_ok(d),
{
    let doc = roxmltree::Document::parse(text)?;
    let ids = doc.descendants().map(|n| n.id().get_usize()).collect();
    let children = doc.descendants().map(|n| n.children().map(|c| c.id().get_usize()).collect()).collect();
    Ok((ids, children))
}

/// Relies on roxmltree::Document::parse: each node of the document, in
/// document order, with its kind, its tag name and its attributes; nothing
/// for text that it refuses.
#[verifier::external_body]
fn xml_contents(text: &str) -> (r: Vec<NodeKind>)
    ensures
        xml_doc_of(text@) matches Some(d) ==> r@.map_values(|k: NodeKind| k@) == d.2,
{
    let doc = roxmltree::Document::parse(text).ok();
    doc.iter().flat_map(|d| d.descendants()).map(|n| match n.node_type() {
        NodeType::Element => NodeKind::Element(ElementData {
            name: n.tag_name().name().to_owned(),
            attributes: n.attributes().map(|a| Attribute { namespace: a.namespace().unwrap_or_default().to_owned(), name: a.name().to_owned(), value: a.value().to_owned() }).collect(),
            classes: Vec::new(),
        }),
        NodeType::Text => NodeKind::Text(n.text().unwrap_or_default().to_owned()),
        _ => NodeKind::Other,
    }).collect()
}

/// What can go wrong when reading a markup document.
#[derive(Debug)]
pub enum MarkupError {
    /// The bytes are not UTF-8.
    Utf8,
    /// The XML parser refused the text.
    Xml(roxmltree::Error),
    /// The parser reported a node arena that is not a tree in document order.
    Structure,
}

/// Parses XML text into a markup tree.
pub fn parse_xml(text: &str) -> (r: Result<MarkupTree, MarkupError>)
    ensures
        !xml_accepts(text@) <==> r matches Err(MarkupError::Xml(_)),
        !(r matches Err(MarkupError::Utf8)),
        r is Ok <==> xml_accepts(text@),
        r matches Ok(t) ==> t.wf() && t.len() > 0 && xml_tree_is(t, text@),
{
    match xml_shape(text) {
        Err(e) => Err(MarkupError::Xml(e)),
        Ok((ids, children)) => {
            let ghost d = xml_doc_of(text@)->Some_0;
            let ghost cv = children@;
            let kinds = xml_contents(text);
            assert(kinds@.len() == d.2.len() && cv.len() == d.1.len());
            let nodes = match zip_nodes(kinds, children) {
                Some(nodes) => nodes,
                None => {
                    return Err(MarkupError::Structure);
                },
            };
            if nodes.len() == 0 {
                return Err(MarkupError::Structure);
            }
            let ghost nv = nodes@;
            proof {
                assert forall|i: int| 0 <= i < nv.len() implies #[trigger] nv[i].children@ == d.1[i]
                    && nv[i].kind@ == d.2[i] by {
                    assert(cv.map_values(|c: Vec<usize>| c@)[i] == cv[i]@);
                    assert(kinds@.map_values(|k: NodeKind| k@)[i] == kinds@[i]@);
                }
                assert forall|i: int, j: int|
                    0 <= i < nv.len() && 0 <= j < nv[i].children@.len() implies i
                        < #[trigger] nv[i].children@[j] < nv.len() by {
                    assert(d.1[i][j] == nv[i].children@[j]);
                }
                assert((MarkupTree { nodes }).wf());
            }
            match MarkupTree::from_indexed(&ids, nodes) {
                Some(t) => {
                    assert(tree_is(t, d.1, d.2));
                    Ok(t)
                },
                None => Err(MarkupError::Structure),
            }
        }
    }
}

} // verus!
