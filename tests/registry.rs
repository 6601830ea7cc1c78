use bevy_markup_ui::widget_registry::{WidgetRegistration, WidgetRegistry};

fn reg(name: &str, id: u64, widget: &'static str) -> WidgetRegistration<&'static str> {
    WidgetRegistration::of(name.to_string(), id, widget)
}

#[test]
fn new_holds_the_container() {
    let r = WidgetRegistry::new(reg("Node", 1, "node"));
    assert_eq!(r.get(1).map(|x| *x.widget()), Some("node"));
    assert_eq!(r.get_with_name("node").map(|x| x.type_id()), Some(1));
    assert!(r.get(2).is_none());
}

#[test]
fn empty_registry_finds_nothing() {
    let r: WidgetRegistry<&'static str> = WidgetRegistry::empty();
    assert!(r.get_with_name("Node").is_none());
    assert!(r.get(1).is_none());
}

#[test]
fn lookup_ignores_case() {
    let mut r = WidgetRegistry::new(reg("Node", 1, "node"));
    r.register(reg("Button", 2, "button"));
    let upper = r.get_with_name(&"Button".to_uppercase()).map(|x| x.type_id());
    let lower = r.get_with_name(&"Button".to_lowercase()).map(|x| x.type_id());
    assert_eq!(upper, Some(2));
    assert_eq!(lower, Some(2));
    assert_eq!(r.get_with_name("bUtToN").map(|x| *x.widget()), Some("button"));
    assert_eq!(r.get_with_name("Button").map(|x| x.name().clone()), Some("Button".to_string()));
}

#[test]
fn unknown_name_finds_nothing() {
    let r = WidgetRegistry::new(reg("Node", 1, "node"));
    assert!(r.get_with_name("a").is_none());
}

#[test]
fn colliding_names_last_wins() {
    let mut r = WidgetRegistry::new(reg("Node", 1, "node"));
    r.register(reg("Label", 2, "first"));
    r.register(reg("LABEL", 3, "second"));
    assert_eq!(r.get_with_name("label").map(|x| *x.widget()), Some("second"));
    assert_eq!(r.get(2).map(|x| *x.widget()), Some("first"));
    assert_eq!(r.get(3).map(|x| *x.widget()), Some("second"));
}

#[test]
fn registering_a_type_again_replaces_it() {
    let mut r = WidgetRegistry::new(reg("Node", 1, "node"));
    r.register(reg("Node", 1, "other"));
    assert_eq!(r.get(1).map(|x| *x.widget()), Some("other"));
    assert_eq!(r.get_with_name("NODE").map(|x| *x.widget()), Some("other"));
}
