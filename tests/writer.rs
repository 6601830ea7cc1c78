use bevy_markup_ui::bxml::{Bundle, Component, Element, Instance, StyleSheet};

fn sample() -> Element {
    Element::Instance(Instance {
        tag: "Panel".to_string(),
        children: vec![
            Element::Text("Just some text.".to_string()),
            Element::Bundle(Bundle {
                children: vec![Element::StyleSheet(StyleSheet { src: "a.css".to_string() })],
            }),
            Element::Component(Component { ty: "Node".to_string() }),
            Element::Instance(Instance { tag: "Button".to_string(), children: Vec::new() }),
        ],
    })
}

#[test]
fn written_element_reads_back() {
    let t = sample().to_markup();
    assert_eq!(t.nodes.len(), 6);
    assert_eq!(Element::from_node(&t, 0), Some(sample()));
}

#[test]
fn written_text_reads_back() {
    let e = Element::Text("a b".to_string());
    let t = e.to_markup();
    assert_eq!(Element::from_node(&t, 0), Some(Element::Text("a b".to_string())));
}

fn sample_doc() -> bevy_markup_ui::bxml::Bxml {
    bevy_markup_ui::bxml::Bxml {
        templates: vec![
            bevy_markup_ui::bxml::Template { src: "some/path".to_string(), tag: "Foo".to_string() },
            bevy_markup_ui::bxml::Template { src: "other/path".to_string(), tag: "Bar".to_string() },
        ],
        children: vec![sample(), Element::Text("end".to_string())],
    }
}

#[test]
fn written_document_reads_back() {
    let t = sample_doc().to_markup();
    assert_eq!(t.nodes.len(), 10);
    assert_eq!(bevy_markup_ui::bxml::Bxml::from_node(&t, 0), sample_doc());
}
