//! The scene builder: walks a parsed document, resolves each tag against the
//! widget registry, and builds a detached scene together with the assets it
//! depends on.
//!
//! A scene is stored by columns: entity `i` has `parents[i]`, `widgets[i]`,
//! `names[i]`, `classes[i]` and `texts[i]`. Entity `0` is the root, the
//! full-width container; it has no parent and no widget of the registry.
use vstd::prelude::*;
use crate::bxml::Element;
use crate::widget_registry::{lower_of, WidgetRegistry};

verus! {

#[derive(Debug, PartialEq)]
pub enum LoadWarning {
    /// A tag that no registered widget has; its subtree was skipped.
    UnknownWidget(String),
    /// A `link` without `rel`.
    LinkWithoutRel,
    /// A style sheet `link` without `href`.
    LinkWithoutHref,
    /// A `link` whose `rel` is not `stylesheet`.
    UnsupportedRel(String),
    /// An error that the HTML parser recovered from.
    Markup(String),
}

pub ghost enum WarningView {
    UnknownWidget(Seq<char>),
    LinkWithoutRel,
    LinkWithoutHref,
    UnsupportedRel(Seq<char>),
    Markup(Seq<char>),
}

impl View for LoadWarning {
    type V = WarningView;

    open spec fn view(&self) -> WarningView {
        match self {
            LoadWarning::UnknownWidget(s) => WarningView::UnknownWidget(s@),
            LoadWarning::LinkWithoutRel => WarningView::LinkWithoutRel,
            LoadWarning::LinkWithoutHref => WarningView::LinkWithoutHref,
            LoadWarning::UnsupportedRel(s) => WarningView::UnsupportedRel(s@),
            LoadWarning::Markup(s) => WarningView::Markup(s@),
        }
    }
}

#[derive(Debug, PartialEq)]
pub struct Scene {
    pub parents: Vec<Option<usize>>,
    /// The type identifier of the widget that spawned the entity.
    pub widgets: Vec<Option<u64>>,
    pub names: Vec<Option<String>>,
    pub classes: Vec<Vec<String>>,
    pub texts: Vec<Option<String>>,
    /// Style sheets attached to entities, as (entity, path), in order.
    pub style_sheets: Vec<(usize, String)>,
    /// The asset paths the scene depends on, in order.
    pub dependencies: Vec<String>,
    pub warnings: Vec<LoadWarning>,
}

pub ghost struct SceneView {
    pub parents: Seq<Option<usize>>,
    pub widgets: Seq<Option<u64>>,
    pub names: Seq<Option<Seq<char>>>,
    pub classes: Seq<Seq<Seq<char>>>,
    pub texts: Seq<Option<Seq<char>>>,
    pub style_sheets: Seq<(usize, Seq<char>)>,
    pub dependencies: Seq<Seq<char>>,
    pub warnings: Seq<WarningView>,
}

pub open spec fn opt_view(o: Option<String>) -> Option<Seq<char>> {
    match o {
        Some(s) => Some(s@),
        None => None,
    }
}

pub open spec fn strings_view(v: Vec<String>) -> Seq<Seq<char>> {
    v@.map_values(|s: String| s@)
}

impl View for Scene {
    type V = SceneView;

    open spec fn view(&self) -> SceneView {
        SceneView {
            parents: self.parents@,
            widgets: self.widgets@,
            names: self.names@.map_values(|o: Option<String>| opt_view(o)),
            classes: self.classes@.map_values(|v: Vec<String>| strings_view(v)),
            texts: self.texts@.map_values(|o: Option<String>| opt_view(o)),
            style_sheets: self.style_sheets@.map_values(|p: (usize, String)| (p.0, p.1@)),
            dependencies: strings_view(self.dependencies),
            warnings: self.warnings@.map_values(|w: LoadWarning| w@),
        }
    }
}

impl SceneView {
    pub open spec fn len(self) -> nat {
        self.parents.len()
    }

    /// All entity columns have one entry per entity.
    pub open spec fn wf(self) -> bool {
        &&& self.widgets.len() == self.len()
        &&& self.names.len() == self.len()
        &&& self.classes.len() == self.len()
        &&& self.texts.len() == self.len()
    }

    /// A new child of `parent`, spawned by widget `widget`, with no name,
    /// class or text.
    pub open spec fn spawn(self, parent: usize, widget: u64) -> SceneView {
        SceneView {
            parents: self.parents.push(Some(parent)),
            widgets: self.widgets.push(Some(widget)),
            names: self.names.push(None),
            classes: self.classes.push(Seq::empty()),
            texts: self.texts.push(None),
            ..self
        }
    }

    pub open spec fn set_text(self, e: usize, text: Seq<char>) -> SceneView {
        SceneView { texts: self.texts.update(e as int, Some(text)), ..self }
    }

    pub open spec fn set_name(self, e: usize, name: Seq<char>) -> SceneView {
        SceneView { names: self.names.update(e as int, Some(name)), ..self }
    }

    pub open spec fn set_classes(self, e: usize, classes: Seq<Seq<char>>) -> SceneView {
        SceneView { classes: self.classes.update(e as int, classes), ..self }
    }

    /// Style sheet `src` attached to entity `e`, and recorded as a dependency.
    pub open spec fn attach(self, e: usize, src: Seq<char>) -> SceneView {
        SceneView {
            style_sheets: self.style_sheets.push((e, src)),
            dependencies: self.dependencies.push(src),
            ..self
        }
    }

    pub open spec fn warn(self, w: WarningView) -> SceneView {
        SceneView { warnings: self.warnings.push(w), ..self }
    }
}

/// The scene before any markup is loaded: the root container alone.
pub open spec fn root_scene() -> SceneView {
    SceneView {
        parents: seq![None],
        widgets: seq![None],
        names: seq![None],
        classes: seq![Seq::empty()],
        texts: seq![None],
        style_sheets: Seq::empty(),
        dependencies: Seq::empty(),
        warnings: Seq::empty(),
    }
}

impl Scene {
    /// The root container alone.
    pub fn new() -> (r: Scene)
        ensures
            r@ == root_scene(),
    {
        let mut parents: Vec<Option<usize>> = Vec::new();
        parents.push(None);
        let mut widgets: Vec<Option<u64>> = Vec::new();
        widgets.push(None);
        let mut names: Vec<Option<String>> = Vec::new();
        names.push(None);
        let mut classes: Vec<Vec<String>> = Vec::new();
        let none: Vec<String> = Vec::new();
        assert(strings_view(none) =~= Seq::<Seq<char>>::empty());
        classes.push(none);
        let mut texts: Vec<Option<String>> = Vec::new();
        texts.push(None);
        let r = Scene {
            parents,
            widgets,
            names,
            classes,
            texts,
            style_sheets: Vec::new(),
            dependencies: Vec::new(),
            warnings: Vec::new(),
        };
        assert(r@.names =~= seq![None]);
        assert(r@.texts =~= seq![None]);
        assert(r@.classes =~= seq![Seq::<Seq<char>>::empty()]);
        assert(r@.style_sheets =~= Seq::empty());
        assert(r@.dependencies =~= Seq::empty());
        assert(r@.warnings =~= Seq::empty());
        r
    }

    pub(crate) fn spawn(&mut self, parent: usize, widget: u64) -> (r: usize)
        requires
            old(self)@.wf(),
        ensures
            final(self)@ == old(self)@.spawn(parent, widget),
            r == old(self)@.len(),
            final(self)@.wf(),
    {
        let r = self.parents.len();
        self.parents.push(Some(parent));
        self.widgets.push(Some(widget));
        self.names.push(None);
        let none: Vec<String> = Vec::new();
        assert(strings_view(none) =~= Seq::<Seq<char>>::empty());
        self.classes.push(none);
        self.texts.push(None);
        assert(self@.names =~= old(self)@.names.push(None));
        assert(self@.texts =~= old(self)@.texts.push(None));
        assert(self@.classes =~= old(self)@.classes.push(Seq::empty()));
        r
    }

    pub(crate) fn set_text(&mut self, e: usize, text: String)
        requires
            old(self)@.wf(),
            e < old(self)@.len(),
        ensures
            final(self)@ == old(self)@.set_text(e, text@),
    {
        self.texts.set(e, Some(text));
        assert(self@.texts =~= old(self)@.texts.update(e as int, Some(text@)));
    }

    pub(crate) fn set_name(&mut self, e: usize, name: String)
        requires
            old(self)@.wf(),
            e < old(self)@.len(),
        ensures
            final(self)@ == old(self)@.set_name(e, name@),
    {
        self.names.set(e, Some(name));
        assert(self@.names =~= old(self)@.names.update(e as int, Some(name@)));
    }

    pub(crate) fn set_classes(&mut self, e: usize, classes: Vec<String>)
        requires
            old(self)@.wf(),
            e < old(self)@.len(),
        ensures
            final(self)@ == old(self)@.set_classes(e, strings_view(classes)),
    {
        self.classes.set(e, classes);
        assert(self@.classes =~= old(self)@.classes.update(e as int, strings_view(classes)));
    }

    pub(crate) fn attach(&mut self, e: usize, src: String)
        ensures
            final(self)@ == old(self)@.attach(e, src@),
    {
        let dep = src.clone();
        self.style_sheets.push((e, src));
        self.dependencies.push(dep);
        assert(self@.style_sheets =~= old(self)@.style_sheets.push((e, src@)));
        assert(self@.dependencies =~= old(self)@.dependencies.push(src@));
    }

    pub(crate) fn warn(&mut self, w: LoadWarning)
        ensures
            final(self)@ == old(self)@.warn(w@),
    {
        self.warnings.push(w);
        assert(self@.warnings =~= old(self)@.warnings.push(w@));
    }
}

// ---------------------------------------------------------------------------
// The BXML walk
// ---------------------------------------------------------------------------

/// The scene after loading element `e` under entity `parent`, given the
/// registry's table from lowercased name to type identifier.
pub open spec fn load_elem(s: SceneView, parent: usize, e: Element, ids: Map<Seq<char>, u64>) -> SceneView
    decreases e,
{
    match e {
        Element::StyleSheet(x) => s.attach(parent, x.src@),
        Element::Bundle(b) => load_elems(s, parent, b.children@, ids),
        Element::Component(_) => s,
        Element::Instance(i) => {
            let key = lower_of(i.tag@);
            if ids.contains_key(key) {
                load_elems(s.spawn(parent, ids[key]), s.len() as usize, i.children@, ids)
            } else {
                s.warn(WarningView::UnknownWidget(i.tag@))
            }
        },
        Element::Text(t) => s.set_text(parent, t@),
    }
}

/// The scene after loading elements `es`, in order, under entity `parent`.
pub open spec fn load_elems(s: SceneView, parent: usize, es: Seq<Element>, ids: Map<Seq<char>, u64>) -> SceneView
    decreases es,
{
    if es.len() == 0 {
        s
    } else {
        load_elem(load_elems(s, parent, es.drop_last(), ids), parent, es.last(), ids)
    }
}

} // verus!

verus! {

fn load_element<W>(scene: &mut Scene, parent: usize, e: &Element, registry: &WidgetRegistry<W>)
    requires
        old(scene)@.wf(),
        parent < old(scene)@.len(),
        registry.wf(),
    ensures
        final(scene)@ == load_elem(old(scene)@, parent, *e, registry.names()),
        final(scene)@.wf(),
        final(scene)@.len() >= old(scene)@.len(),
    decreases e,
{
    match e {
        Element::StyleSheet(x) => scene.attach(parent, x.src.clone()),
        Element::Bundle(b) => load_elements(scene, parent, &b.children, registry),
        Element::Component(_) => {},
        Element::Instance(i) => match registry.get_with_name(i.tag.as_str()) {
            Some(registration) => {
                let entity = scene.spawn(parent, registration.type_id);
                load_elements(scene, entity, &i.children, registry);
            },
            None => scene.warn(LoadWarning::UnknownWidget(i.tag.clone())),
        },
        Element::Text(t) => scene.set_text(parent, t.clone()),
    }
}

fn load_elements<W>(scene: &mut Scene, parent: usize, es: &Vec<Element>, registry: &WidgetRegistry<W>)
    requires
        old(scene)@.wf(),
        parent < old(scene)@.len(),
        registry.wf(),
    ensures
        final(scene)@ == load_elems(old(scene)@, parent, es@, registry.names()),
        final(scene)@.wf(),
        final(scene)@.len() >= old(scene)@.len(),
    decreases es,
{
    let mut i: usize = 0;
    assert(es@.take(0) =~= Seq::<Element>::empty());
    while i < es.len()
        invariant
            i <= es@.len(),
            registry.wf(),
            scene@.wf(),
            parent < scene@.len(),
            scene@.len() >= old(scene)@.len(),
            scene@ == load_elems(old(scene)@, parent, es@.take(i as int), registry.names()),
        decreases es@.len() - i,
    {
        proof {
            vstd::std_specs::vec::axiom_vec_index_decreases(*es, i as int);
        }
        assert(es@.take(i + 1).drop_last() =~= es@.take(i as int));
        assert(es@.take(i + 1).last() == es@[i as int]);
        load_element(scene, parent, &es[i], registry);
        i = i + 1;
    }
    assert(es@.take(es@.len() as int) =~= es@);
}

/// Builds the scene of a BXML document: under the root container, each
/// instance whose tag a registered widget has (in any case) becomes an entity
/// of that widget; a bundle's elements go to the bundle's parent; a style
/// sheet is attached to its parent and recorded as a dependency; text sets its
/// parent's text; an unknown tag is reported and its subtree skipped.
pub fn load_bxml<W>(bxml: &crate::bxml::Bxml, registry: &WidgetRegistry<W>) -> (r: Scene)
    requires
        registry.wf(),
    ensures
        r@ == load_elems(root_scene(), 0, bxml.children@, registry.names()),
{
    let mut scene = Scene::new();
    load_elements(&mut scene, 0, &bxml.children, registry);
    scene
}

} // verus!

verus! {

/// An instance whose tag no registered widget has adds no entity, no style
/// sheet and no dependency: its whole subtree is skipped, and exactly one
/// warning names the tag.
pub proof fn lemma_unknown_instance_skipped(
    s: SceneView,
    parent: usize,
    i: crate::bxml::Instance,
    ids: Map<Seq<char>, u64>,
)
    requires
        !ids.contains_key(lower_of(i.tag@)),
    ensures
        load_elem(s, parent, Element::Instance(i), ids) == s.warn(WarningView::UnknownWidget(i.tag@)),
{
}

} // verus!
