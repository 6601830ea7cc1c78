//! Loading an HTML document into a scene.
//!
//! Every element is looked up by its tag name, whatever its case, in the
//! widget registry. A known one becomes a child entity of its parent, named
//! after its `id` and tagged with its classes, and its children are loaded
//! under it; an unknown one is reported and its subtree skipped. A
//! `link rel="stylesheet"` attaches the style sheet at `href` to its parent
//! and records it as a dependency. Text becomes its parent's text, as it
//! stands, unless it is only white space. Other nodes are ignored.
use vstd::prelude::*;
use crate::bxml::decode_utf8;
use crate::html::{html_doc_of, html_errors, html_tree_is, parse_html};
use crate::markup::{attr_of, str_is, tag_of, trim, trim_text, MarkupNode, MarkupTree, NodeKind};
use crate::scene::{root_scene, strings_view, LoadWarning, Scene, SceneView, WarningView};
use crate::widget_registry::{lower_of, WidgetRegistry};

verus! {

#[derive(Debug, PartialEq)]
pub enum HtmlError {
    /// The bytes are not UTF-8.
    Utf8Error,
    /// The parser handed back no tree.
    Structure,
}

/// The scene after loading the `link` element `n` under entity `parent`.
pub open spec fn link_spec(s: SceneView, parent: usize, n: MarkupNode) -> SceneView {
    match attr_of(n, "rel"@) {
        None => s.warn(WarningView::LinkWithoutRel),
        Some(rel) => if rel == "stylesheet"@ {
            match attr_of(n, "href"@) {
                None => s.warn(WarningView::LinkWithoutHref),
                Some(href) => s.attach(parent, href),
            }
        } else {
            s.warn(WarningView::UnsupportedRel(rel))
        },
    }
}

/// The scene after loading node `id` of `t` under entity `parent`, given the
/// registry's table from lowercased name to type identifier.
pub open spec fn node_spec(
    s: SceneView,
    parent: usize,
    t: MarkupTree,
    id: int,
    ids: Map<Seq<char>, u64>,
) -> SceneView
    decreases t.len() - id, t.child_ids(id).len() + 1,
{
    if 0 <= id < t.len() {
        let n = t.node(id);
        match n.kind {
            NodeKind::Element(d) => if d.name@ == "link"@ {
                link_spec(s, parent, n)
            } else {
                let key = lower_of(d.name@);
                if ids.contains_key(key) {
                    let e = s.len() as usize;
                    let s1 = s.spawn(parent, ids[key]);
                    let s2 = match attr_of(n, "id"@) {
                        Some(name) => s1.set_name(e, name),
                        None => s1,
                    };
                    let s3 = s2.set_classes(e, strings_view(d.classes));
                    nodes_spec(s3, e, t, id, t.child_ids(id), ids)
                } else {
                    s.warn(WarningView::UnknownWidget(d.name@))
                }
            },
            NodeKind::Text(x) => if trim(x@).len() > 0 {
                s.set_text(parent, x@)
            } else {
                s
            },
            _ => s,
        }
    } else {
        s
    }
}

/// The scene after loading the nodes `cids`, children of node `pid`, in
/// order, under entity `parent`.
pub open spec fn nodes_spec(
    s: SceneView,
    parent: usize,
    t: MarkupTree,
    pid: int,
    cids: Seq<usize>,
    ids: Map<Seq<char>, u64>,
) -> SceneView
    decreases t.len() - pid, cids.len(),
{
    if cids.len() == 0 {
        s
    } else {
        let c = cids.last() as int;
        let s1 = nodes_spec(s, parent, t, pid, cids.drop_last(), ids);
        if pid < c < t.len() {
            node_spec(s1, parent, t, c, ids)
        } else {
            s1
        }
    }
}

fn load_link(scene: &mut Scene, parent: usize, node: &MarkupNode)
    ensures
        final(scene)@ == link_spec(old(scene)@, parent, *node),
{
    let rel = match node.attribute("rel") {
        Some(rel) => rel,
        None => {
            scene.warn(LoadWarning::LinkWithoutRel);
            return;
        },
    };
    if str_is(&rel, "stylesheet") {
        match node.attribute("href") {
            Some(href) => scene.attach(parent, href),
            None => scene.warn(LoadWarning::LinkWithoutHref),
        }
    } else {
        scene.warn(LoadWarning::UnsupportedRel(rel));
    }
}

fn load_node<W>(scene: &mut Scene, parent: usize, t: &MarkupTree, id: usize, registry: &WidgetRegistry<W>)
    requires
        old(scene)@.wf(),
        parent < old(scene)@.len(),
        t.wf(),
        id < t.len(),
        registry.wf(),
    ensures
        final(scene)@ == node_spec(old(scene)@, parent, *t, id as int, registry.names()),
        final(scene)@.wf(),
        final(scene)@.len() >= old(scene)@.len(),
    decreases t.len() - id, 1nat,
{
    let node = &t.nodes[id];
    match &node.kind {
        NodeKind::Element(d) => {
            if str_is(&d.name, "link") {
                load_link(scene, parent, node);
                return;
            }
            match registry.get_with_name(d.name.as_str()) {
                Some(registration) => {
                    let entity = scene.spawn(parent, registration.type_id);
                    match node.attribute("id") {
                        Some(name) => scene.set_name(entity, name),
                        None => {},
                    }
                    scene.set_classes(entity, clone_strings(&d.classes));
                    load_children(scene, entity, t, id, registry);
                },
                None => scene.warn(LoadWarning::UnknownWidget(d.name.clone())),
            }
        },
        NodeKind::Text(x) => {
            if !trim_text(x.as_str()).is_empty() {
                scene.set_text(parent, x.clone());
            }
        },
        _ => {},
    }
}

fn load_children<W>(scene: &mut Scene, parent: usize, t: &MarkupTree, id: usize, registry: &WidgetRegistry<W>)
    requires
        old(scene)@.wf(),
        parent < old(scene)@.len(),
        t.wf(),
        id < t.len(),
        registry.wf(),
    ensures
        final(scene)@ == nodes_spec(old(scene)@, parent, *t, id as int, t.child_ids(id as int), registry.names()),
        final(scene)@.wf(),
        final(scene)@.len() >= old(scene)@.len(),
    decreases t.len() - id, 0nat,
{
    let ids = &t.nodes[id].children;
    let mut i: usize = 0;
    assert(ids@.take(0) =~= Seq::<usize>::empty());
    while i < ids.len()
        invariant
            t.wf(),
            id < t.len(),
            ids@ == t.child_ids(id as int),
            i <= ids@.len(),
            registry.wf(),
            scene@.wf(),
            parent < scene@.len(),
            scene@.len() >= old(scene)@.len(),
            scene@ == nodes_spec(old(scene)@, parent, *t, id as int, ids@.take(i as int), registry.names()),
        decreases ids@.len() - i,
    {
        let c = ids[i];
        assert(id < c < t.len());
        assert(ids@.take(i + 1).drop_last() =~= ids@.take(i as int));
        assert(ids@.take(i + 1).last() == c);
        load_node(scene, parent, t, c, registry);
        i = i + 1;
    }
    assert(ids@.take(ids@.len() as int) =~= ids@);
}

fn clone_strings(v: &Vec<String>) -> (r: Vec<String>)
    ensures
        strings_view(*v) == strings_view(r),
{
    let mut r: Vec<String> = Vec::new();
    let mut i: usize = 0;
    while i < v.len()
        invariant
            i <= v@.len(),
            strings_view(r) == v@.take(i as int).map_values(|s: String| s@),
        decreases v@.len() - i,
    {
        r.push(v[i].clone());
        assert(v@.take(i + 1).map_values(|s: String| s@) =~= v@.take(i as int).map_values(|s: String| s@).push(v@[i as int]@));
        assert(strings_view(r) =~= v@.take(i as int).map_values(|s: String| s@).push(v@[i as int]@));
        i = i + 1;
    }
    assert(v@.take(v@.len() as int) =~= v@);
    r
}

/// Loads a parsed HTML tree: the children of its root element, under the
/// root container.
pub fn load_html_tree<W>(t: &MarkupTree, registry: &WidgetRegistry<W>) -> (r: Scene)
    requires
        t.wf(),
        t.len() > 0,
        registry.wf(),
    ensures
        r@ == nodes_spec(root_scene(), 0, *t, 0, t.child_ids(0), registry.names()),
{
    let mut scene = Scene::new();
    load_children(&mut scene, 0, t, 0, registry);
    scene
}

/// The root container alone, with the parser's errors as warnings.
pub open spec fn root_scene_after(errors: Seq<Seq<char>>) -> SceneView {
    SceneView {
        warnings: errors.map_values(|e: Seq<char>| WarningView::Markup(e)),
        ..root_scene()
    }
}

/// Whether `s` is the scene of tree `t`, after the parser's errors.
pub open spec fn scene_of(t: MarkupTree, errors: Seq<Seq<char>>, s: SceneView, ids: Map<Seq<char>, u64>) -> bool {
    nodes_spec(root_scene_after(errors), 0, t, 0, t.child_ids(0), ids) == s
}

/// What loading HTML text gives: the parser's errors as warnings, then the
/// scene of the tree scraper reads from it.
pub open spec fn html_scene(text: Seq<char>, s: SceneView, ids: Map<Seq<char>, u64>) -> bool {
    exists|t: MarkupTree|
        t.wf() && t.len() > 0 && html_tree_is(t, text) && #[trigger] scene_of(
            t,
            html_doc_of(text).2,
            s,
            ids,
        )
}

/// Loads an HTML document: the bytes must be UTF-8; the markup itself is read
/// leniently.
pub fn load_html<W>(bytes: &[u8], registry: &WidgetRegistry<W>) -> (r: Result<Scene, HtmlError>)
    requires
        registry.wf(),
    ensures
        !vstd::utf8::valid_utf8(bytes@) <==> r matches Err(HtmlError::Utf8Error),
        vstd::utf8::valid_utf8(bytes@) ==> r is Ok,
        r matches Ok(s) ==> html_scene(vstd::utf8::decode_utf8(bytes@), s@, registry.names()),
{
    let text = match decode_utf8(bytes) {
        Some(text) => text,
        None => {
            return Err(HtmlError::Utf8Error);
        },
    };
    match parse_html(text) {
        Some(t) => {
            let errors = html_errors(text);
            let mut s = Scene::new();
            let mut i: usize = 0;
            assert(errors@.take(0).map_values(|e: String| e@) =~= Seq::<Seq<char>>::empty());
            assert(root_scene_after(Seq::empty()).warnings =~= Seq::<WarningView>::empty());
            assert(s@ =~= root_scene_after(errors@.take(0).map_values(|e: String| e@)));
            while i < errors.len()
                invariant
                    i <= errors@.len(),
                    s@ == root_scene_after(errors@.take(i as int).map_values(|e: String| e@)),
                decreases errors@.len() - i,
            {
                let ghost pre = s@;
                s.warn(LoadWarning::Markup(errors[i].clone()));
                assert(errors@.take(i + 1).map_values(|e: String| e@) =~= errors@.take(i as int).map_values(
                    |e: String| e@,
                ).push(errors@[i as int]@));
                assert(s@.warnings =~= root_scene_after(errors@.take(i + 1).map_values(|e: String| e@)).warnings);
                i = i + 1;
            }
            assert(errors@.take(errors@.len() as int) =~= errors@);
            assert(s@.wf());
            load_children(&mut s, 0, &t, 0, registry);
            assert(scene_of(t, html_doc_of(text@).2, s@, registry.names()));
            assert(html_scene(text@, s@, registry.names()));
            Ok(s)
        },
        None => Err(HtmlError::Structure),
    }
}

} // verus!

verus! {

/// An element other than `link` whose tag no registered widget has adds no
/// entity, no style sheet and no dependency: its whole subtree is skipped,
/// and exactly one warning names the tag.
pub proof fn lemma_unknown_tag_skipped(
    s: SceneView,
    parent: usize,
    t: MarkupTree,
    id: int,
    ids: Map<Seq<char>, u64>,
)
    requires
        0 <= id < t.len(),
        t.node(id).kind is Element,
        tag_of(t.node(id)) != "link"@,
        !ids.contains_key(lower_of(tag_of(t.node(id)))),
    ensures
        node_spec(s, parent, t, id, ids) == s.warn(WarningView::UnknownWidget(tag_of(t.node(id)))),
{
}

} // verus!
