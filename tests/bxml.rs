use bevy_markup_ui::bxml::{problems, root_element, ParseProblem, Bundle, Bxml, Component, Element, Instance, StyleSheet, Template};
use bevy_markup_ui::markup::MarkupTree;
use bevy_markup_ui::xml::{parse_xml, MarkupError};

fn doc_parse(text: &str) -> MarkupTree {
    parse_xml(text).unwrap()
}

fn root(doc: &MarkupTree) -> usize {
    root_element(doc).unwrap()
}

fn first_child(doc: &MarkupTree, id: usize) -> usize {
    doc.nodes[id].children[0]
}

#[test]
fn test_bxml() {
    let text = r#"<BXML>
    <Template src="some/path" tag="Foo" />
    <Foo />
    <Bundle>
        <Template src="some/path" tag="Bar" />
        <Component type="Node" />
        <StyleSheet src="some/path" />
    </Bundle>
</BXML>"#;
    let templates = vec![
        Template {
            src: "some/path".to_string(),
            tag: "Foo".to_string(),
        },
        Template {
            src: "some/path".to_string(),
            tag: "Bar".to_string(),
        },
    ];
    let children = vec![
        Element::Instance(Instance {
            tag: "Foo".to_string(),
            children: Vec::new(),
        }),
        Element::Bundle(Bundle {
            children: vec![
                Element::Component(Component {
                    ty: "Node".to_string(),
                }),
                Element::StyleSheet(StyleSheet {
                    src: "some/path".to_string(),
                }),
            ],
        }),
    ];
    assert_eq!(
        Bxml::from_str(text).unwrap(),
        Bxml {
            templates,
            children,
        }
    )
}

#[test]
fn test_template_from_node() {
    let doc = doc_parse(r#"<Template src="some/path" tag="Foo" />"#);
    assert_eq!(
        Template::from_node(&doc, root(&doc)),
        Some(Template {
            src: "some/path".to_string(),
            tag: "Foo".to_string(),
        }),
    );
}

#[test]
fn test_style_sheet_from_node() {
    let doc = doc_parse(r#"<StyleSheet src="some/path" />"#);
    assert_eq!(
        StyleSheet::from_node(&doc, root(&doc)),
        Some(StyleSheet {
            src: "some/path".to_string()
        }),
    );
}

#[test]
fn test_bundle_from_node() {
    let doc = doc_parse(r#"<Bundle><Component type="Node" /><Button /></Bundle>"#);
    assert_eq!(
        Bundle::from_node(&doc, root(&doc)),
        Some(Bundle {
            children: vec![
                Element::Component(Component {
                    ty: "Node".to_string(),
                }),
                Element::Instance(Instance {
                    tag: "Button".to_string(),
                    children: Vec::new()
                })
            ],
        }),
    );
}

#[test]
fn test_component_from_node() {
    let doc = doc_parse(r#"<Component type="Node" />"#);
    assert_eq!(
        Component::from_node(&doc, root(&doc)),
        Some(Component {
            ty: "Node".to_string(),
        }),
    );
}

#[test]
fn test_instance_from_node() {
    let doc = doc_parse(r#"<Button><Component type="Node" /></Button>"#);
    assert_eq!(
        Instance::from_node(&doc, root(&doc)),
        Some(Instance {
            tag: "Button".to_string(),
            children: vec![Element::Component(Component {
                ty: "Node".to_string()
            })],
        }),
    );
}

#[test]
fn test_text_from_node() {
    let doc = doc_parse(r#"<BXML>Just some text.</BXML>"#);
    let r = root(&doc);
    assert_eq!(
        Element::from_node(&doc, first_child(&doc, r)),
        Some(Element::Text("Just some text.".to_string())),
    );

    let doc = doc_parse(
        r#"<BXML>
             
                </BXML>"#,
    );
    let r = root(&doc);
    assert_eq!(Element::from_node(&doc, first_child(&doc, r)), None,);
}

#[test]
fn text_is_trimmed() {
    let doc = doc_parse("<BXML>\n   Hello there \t\n</BXML>");
    let r = root(&doc);
    assert_eq!(
        Element::from_node(&doc, first_child(&doc, r)),
        Some(Element::Text("Hello there".to_string())),
    );
}

#[test]
fn empty_bundle_yields_nothing() {
    let doc = doc_parse("<Bundle></Bundle>");
    assert_eq!(Bundle::from_node(&doc, root(&doc)), None);
    assert_eq!(Element::from_node(&doc, root(&doc)), None);
}

#[test]
fn bundle_of_templates_only_yields_nothing() {
    let doc = doc_parse(r#"<Bundle><Template src="a" tag="T" />   </Bundle>"#);
    assert_eq!(Element::from_node(&doc, root(&doc)), None);
}

#[test]
fn component_without_type_yields_nothing() {
    let doc = doc_parse(r#"<Component ty="Node" />"#);
    assert_eq!(Component::from_node(&doc, root(&doc)), None);
    assert_eq!(Element::from_node(&doc, root(&doc)), None);
}

#[test]
fn component_with_type() {
    let doc = doc_parse(r#"<Component type="Node" />"#);
    assert_eq!(
        Element::from_node(&doc, root(&doc)),
        Some(Element::Component(Component { ty: "Node".to_string() })),
    );
}

#[test]
fn style_sheet_without_src_yields_nothing() {
    let doc = doc_parse(r#"<StyleSheet href="a.css" />"#);
    assert_eq!(Element::from_node(&doc, root(&doc)), None);
}

#[test]
fn style_sheet_inside_bundle() {
    let doc = doc_parse(r#"<Bundle><StyleSheet src="a.css"/></Bundle>"#);
    assert_eq!(
        Element::from_node(&doc, root(&doc)),
        Some(Element::Bundle(Bundle {
            children: vec![Element::StyleSheet(StyleSheet { src: "a.css".to_string() })],
        })),
    );
}

#[test]
fn template_without_tag_is_not_collected() {
    let doc = doc_parse(r#"<Template src="some/path" />"#);
    assert_eq!(Template::from_node(&doc, root(&doc)), None);
    let b = Bxml::from_str(r#"<BXML><Template src="a" /><Foo /></BXML>"#).unwrap();
    assert!(b.templates.is_empty());
}

#[test]
fn nested_templates_never_children() {
    let b = Bxml::from_str(
        r#"<BXML><Panel><Bundle><Template src="x" tag="T" /><Label /></Bundle><Template src="y" tag="U" /></Panel></BXML>"#,
    )
    .unwrap();
    assert_eq!(
        b.children,
        vec![Element::Instance(Instance {
            tag: "Panel".to_string(),
            children: vec![Element::Bundle(Bundle {
                children: vec![Element::Instance(Instance {
                    tag: "Label".to_string(),
                    children: Vec::new(),
                })],
            })],
        })],
    );
    assert_eq!(b.templates.len(), 2);
}

#[test]
fn later_template_of_a_tag_wins() {
    let b = Bxml::from_str(r#"<BXML><Template src="a" tag="T" /><X><Template src="b" tag="T" /></X></BXML>"#)
        .unwrap();
    assert_eq!(
        b.templates,
        vec![Template { src: "b".to_string(), tag: "T".to_string() }]
    );
}

#[test]
fn case_of_special_tags_matters() {
    let b = Bxml::from_str(r#"<BXML><bundle /><stylesheet src="a" /></BXML>"#).unwrap();
    assert_eq!(
        b.children,
        vec![
            Element::Instance(Instance { tag: "bundle".to_string(), children: Vec::new() }),
            Element::Instance(Instance { tag: "stylesheet".to_string(), children: Vec::new() }),
        ],
    );
}

#[test]
fn comments_yield_nothing() {
    let b = Bxml::from_str(r#"<BXML><!-- note --><Foo /></BXML>"#).unwrap();
    assert_eq!(
        b.children,
        vec![Element::Instance(Instance { tag: "Foo".to_string(), children: Vec::new() })],
    );
}

#[test]
fn malformed_xml_is_an_error() {
    assert!(matches!(Bxml::from_str("<BXML><Foo></BXML>"), Err(MarkupError::Xml(_))));
}

#[test]
fn invalid_utf8_is_an_error() {
    assert!(matches!(Bxml::from_bytes(&[0x3c, 0xff, 0x3e]), Err(MarkupError::Utf8)));
}

#[test]
fn from_bytes_parses_utf8() {
    let b = Bxml::from_bytes("<BXML><Caf\u{e9} /></BXML>".as_bytes()).unwrap();
    assert_eq!(
        b.children,
        vec![Element::Instance(Instance { tag: "Caf\u{e9}".to_string(), children: Vec::new() })],
    );
}

#[test]
fn problems_are_reported() {
    let doc = doc_parse(
        r#"<BXML><StyleSheet/><Bundle></Bundle><Component/><Template tag="x"/><Template src="y"/><Foo/></BXML>"#,
    );
    assert_eq!(
        problems(&doc),
        vec![
            (2, ParseProblem::StyleSheetWithoutSrc),
            (3, ParseProblem::BundleWithoutChildren),
            (4, ParseProblem::ComponentWithoutType),
            (5, ParseProblem::TemplateWithoutSrc),
            (6, ParseProblem::TemplateWithoutTag),
        ]
    );
}

#[test]
fn read_reports_problems_with_the_document() {
    let (b, ps) = Bxml::read(r#"<BXML><Bundle> <Template src="p" tag="T"/> </Bundle><Foo/></BXML>"#).unwrap();
    assert_eq!(b.templates, vec![Template { src: "p".to_string(), tag: "T".to_string() }]);
    assert_eq!(
        b.children,
        vec![Element::Instance(Instance { tag: "Foo".to_string(), children: Vec::new() })]
    );
    assert_eq!(ps, vec![(2, ParseProblem::BundleWithoutChildren)]);
}

#[test]
fn read_bytes_rejects_invalid_utf8() {
    assert!(matches!(Bxml::read_bytes(&[0xff]), Err(MarkupError::Utf8)));
}
