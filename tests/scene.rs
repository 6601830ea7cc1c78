use bevy_markup_ui::bxml::Bxml;
use bevy_markup_ui::loader::{load_html, HtmlError};
use bevy_markup_ui::scene::{load_bxml, LoadWarning};
use bevy_markup_ui::widget_registry::{WidgetRegistration, WidgetRegistry};

fn registry() -> WidgetRegistry<()> {
    let mut r = WidgetRegistry::new(WidgetRegistration::of("Node".to_string(), 1, ()));
    r.register(WidgetRegistration::of("Button".to_string(), 2, ()));
    r.register(WidgetRegistration::of("Text".to_string(), 3, ()));
    r
}

#[test]
fn bxml_button_with_component() {
    let b = Bxml::from_str(r#"<BXML><Button><Component type="Node"/></Button></BXML>"#).unwrap();
    let s = load_bxml(&b, &registry());
    assert_eq!(s.parents, vec![None, Some(0)]);
    assert_eq!(s.widgets, vec![None, Some(2)]);
    assert_eq!(s.names, vec![None, None]);
    assert!(s.classes.iter().all(|c| c.is_empty()));
    assert!(s.warnings.is_empty());
    assert!(s.dependencies.is_empty());
}

#[test]
fn bxml_unknown_tag_is_skipped() {
    let b = Bxml::from_str(r#"<BXML><a><Button /></a><Button /></BXML>"#).unwrap();
    let s = load_bxml(&b, &registry());
    assert_eq!(s.parents, vec![None, Some(0)]);
    assert_eq!(s.widgets, vec![None, Some(2)]);
    assert_eq!(s.warnings, vec![LoadWarning::UnknownWidget("a".to_string())]);
}

#[test]
fn bxml_bundle_style_sheet_and_text() {
    let b = Bxml::from_str(
        r#"<BXML><Node><Bundle><StyleSheet src="a.css"/><Text>Hi</Text></Bundle></Node></BXML>"#,
    )
    .unwrap();
    let s = load_bxml(&b, &registry());
    assert_eq!(s.parents, vec![None, Some(0), Some(1)]);
    assert_eq!(s.widgets, vec![None, Some(1), Some(3)]);
    assert_eq!(s.style_sheets, vec![(1, "a.css".to_string())]);
    assert_eq!(s.dependencies, vec!["a.css".to_string()]);
    assert_eq!(s.texts, vec![None, None, Some("Hi".to_string())]);
}

#[test]
fn html_unknown_tag_skipped_siblings_load() {
    let s = load_html(b"<a><button></button></a><button></button>", &registry()).unwrap();
    assert_eq!(s.parents, vec![None, Some(0)]);
    assert_eq!(s.widgets, vec![None, Some(2)]);
    assert_eq!(s.warnings, vec![LoadWarning::UnknownWidget("a".to_string())]);
}

#[test]
fn html_names_classes_and_style_sheets() {
    let s = load_html(
        br#"<link rel="stylesheet" href="style.css"><button id="ok" class="big red"><text></text></button>"#,
        &registry(),
    )
    .unwrap();
    assert_eq!(s.parents, vec![None, Some(0), Some(1)]);
    assert_eq!(s.widgets, vec![None, Some(2), Some(3)]);
    assert_eq!(s.names, vec![None, Some("ok".to_string()), None]);
    assert_eq!(s.classes[1], vec!["big".to_string(), "red".to_string()]);
    assert_eq!(s.style_sheets, vec![(0, "style.css".to_string())]);
    assert_eq!(s.dependencies, vec!["style.css".to_string()]);
    assert!(s.warnings.is_empty());
}

#[test]
fn html_link_warnings() {
    let s = load_html(
        br#"<link href="a.css"><link rel="stylesheet"><link rel="icon" href="i.png">"#,
        &registry(),
    )
    .unwrap();
    assert_eq!(
        s.warnings,
        vec![
            LoadWarning::LinkWithoutRel,
            LoadWarning::LinkWithoutHref,
            LoadWarning::UnsupportedRel("icon".to_string()),
        ]
    );
    assert!(s.dependencies.is_empty());
    assert_eq!(s.parents.len(), 1);
}

#[test]
fn html_invalid_utf8() {
    assert_eq!(load_html(&[0xc3, 0x28], &registry()).err(), Some(HtmlError::Utf8Error));
}

#[test]
fn html_text_sets_parent_text() {
    let s = load_html(b"<button>  Press me </button><text>   </text>", &registry()).unwrap();
    assert_eq!(s.widgets, vec![None, Some(2), Some(3)]);
    assert_eq!(s.texts, vec![None, Some("  Press me ".to_string()), None]);
}

#[test]
fn html_malformed_still_loads() {
    let s = load_html(b"<button><div></span></button>", &registry()).unwrap();
    assert_eq!(s.widgets[1], Some(2));
    assert!(matches!(s.warnings.first(), Some(LoadWarning::Markup(_))));
    assert_eq!(s.warnings.last(), Some(&LoadWarning::UnknownWidget("div".to_string())));
}

#[test]
fn html_attributes_keep_their_values() {
    let s = load_html(br#"<button class="b a" id="x" title="t"></button>"#, &registry()).unwrap();
    assert_eq!(s.names, vec![None, Some("x".to_string())]);
    assert_eq!(s.classes[1], vec!["a".to_string(), "b".to_string()]);
}
