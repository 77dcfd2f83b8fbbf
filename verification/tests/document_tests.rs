use mpdf::document::Document;
use mpdf::primitive_value::PrimitiveValue;
use mpdf::style::{can_be_inherited, ElementStyleProperties};

#[test]
fn new_document_has_a_root() {
    let doc = Document::new();
    assert_eq!(doc.get_root_index(), 0);
    assert_eq!(doc.get_elements().len(), 1);
    assert_eq!(doc.get_root().tag, "root");
}

#[test]
fn create_and_link_elements() {
    let mut doc = Document::new();
    let a = doc.create_element("div");
    let b = doc.create_element("div");
    doc.add_element_to_root(a);
    doc.add_element(b, a);
    assert_eq!(doc.get_element(0).children, vec![a]);
    assert_eq!(doc.get_element(a).children, vec![b]);
    assert!(doc.get_element(b).has_parent);
    assert_eq!(doc.get_element(b).parent, a);
}

#[test]
fn duplicate_link_is_a_no_op() {
    let mut doc = Document::new();
    let a = doc.create_element("div");
    doc.add_element_to_root(a);
    doc.add_element_to_root(a);
    assert_eq!(doc.get_element(0).children, vec![a]);
}

#[test]
fn text_elements_carry_their_text() {
    let mut doc = Document::new();
    let t = doc.create_text_element("hello");
    assert!(doc.get_element(t).is_text_node());
    assert_eq!(doc.get_element(t).text, "hello");
}

#[test]
fn div_gets_default_styles() {
    let mut doc = Document::new();
    let a = doc.create_element("div");
    let display = doc.get_element(a).get_style_property("display").unwrap();
    assert_eq!(display.as_string(), "block");
    let color = doc.get_element(a).get_style_property("color").unwrap();
    let c = color.as_color();
    assert_eq!((c.red, c.green, c.blue, c.alpha), (0, 0, 0, 255));
}

#[test]
fn cascade_inherits_authored_color() {
    let mut doc = Document::new();
    let attrs = vec![(String::from("style"), String::from("color: red;"))];
    let parent = doc.visit_element_node("div", &attrs);
    let child = doc.visit_element_node("div", &Vec::new());
    doc.add_element_to_root(parent);
    doc.add_element(child, parent);
    doc.cascade_element_styles(0);
    let resolved = doc.get_element(child).get_style_property("color").unwrap();
    let c = resolved.as_color();
    assert_eq!((c.red, c.green, c.blue, c.alpha), (255, 0, 0, 255));
}

#[test]
fn cascade_does_not_inherit_width() {
    let mut doc = Document::new();
    let attrs = vec![(String::from("style"), String::from("width: 64px;"))];
    let parent = doc.visit_element_node("div", &attrs);
    let child = doc.visit_element_node("div", &Vec::new());
    doc.add_element_to_root(parent);
    doc.add_element(child, parent);
    doc.cascade_element_styles(0);
    let child_width = doc.get_element(child).get_style_property("width");
    assert!(child_width.is_none());
    assert!(doc.get_element(parent).get_style_property("width").is_some());
}

#[test]
fn ancestor_lookup_walks_up() {
    let mut doc = Document::new();
    let attrs = vec![(String::from("style"), String::from("color: green;"))];
    let parent = doc.visit_element_node("div", &attrs);
    let child = doc.visit_element_node("span", &Vec::new());
    doc.add_element_to_root(parent);
    doc.add_element(child, parent);
    // no cascade: the child itself has no color, the walk finds the parent's
    let found = doc.get_element_style_property(child, "color").unwrap();
    let c = found.as_color();
    assert_eq!((c.red, c.green, c.blue), (0, 255, 0));
    assert!(doc.get_element_style_property(child, "width").is_none());
}

#[test]
fn visit_element_node_stores_plain_attributes() {
    let mut doc = Document::new();
    let attrs = vec![
        (String::from("id"), String::from("main")),
        (String::from("bad name"), String::from("x")),
    ];
    let e = doc.visit_element_node("div", &attrs);
    assert_eq!(doc.get_element(e).get_attribute("id").unwrap(), "main");
    assert!(!doc.get_element(e).has_attribute("bad name"));
}

#[test]
fn element_attributes_round_trip() {
    let mut doc = Document::new();
    let e = doc.visit_element_node(
        "div",
        &vec![(String::from("class"), String::from("box"))],
    );
    assert!(doc.get_element(e).has_attribute("class"));
    assert_eq!(doc.get_element(e).get_attribute("class").unwrap(), "box");
    assert!(doc.get_element(e).get_attribute("missing").is_none());
}

#[test]
fn merge_precedence_tiers() {
    // child authored wins over everything
    let mut child = ElementStyleProperties::new();
    child.set("color", PrimitiveValue::from_identifier(&String::from("child-auth")));
    child.set_default("color", PrimitiveValue::from_identifier(&String::from("child-dflt")));
    let mut parent = ElementStyleProperties::new();
    parent.set("color", PrimitiveValue::from_identifier(&String::from("parent-auth")));
    parent.set_default("color", PrimitiveValue::from_identifier(&String::from("parent-dflt")));
    let merged = ElementStyleProperties::merge(&child, &parent);
    assert_eq!(merged.get("color").unwrap().as_string(), "child-auth");

    // without a child authored value, the parent's authored one wins
    let mut child2 = ElementStyleProperties::new();
    child2.set_default("color", PrimitiveValue::from_identifier(&String::from("child-dflt")));
    let merged2 = ElementStyleProperties::merge(&child2, &parent);
    assert_eq!(merged2.get("color").unwrap().as_string(), "parent-auth");

    // then the parent's default
    let mut parent3 = ElementStyleProperties::new();
    parent3.set_default("color", PrimitiveValue::from_identifier(&String::from("parent-dflt")));
    let merged3 = ElementStyleProperties::merge(&child2, &parent3);
    assert_eq!(merged3.get("color").unwrap().as_string(), "parent-dflt");

    // and finally the child's own default
    let merged4 = ElementStyleProperties::merge(&child2, &ElementStyleProperties::new());
    assert_eq!(merged4.get("color").unwrap().as_string(), "child-dflt");

    // a non-inheritable parent property never lands on the child
    let mut parent5 = ElementStyleProperties::new();
    parent5.set("width", PrimitiveValue::from_identifier(&String::from("w")));
    let merged5 = ElementStyleProperties::merge(&ElementStyleProperties::new(), &parent5);
    assert!(merged5.get("width").is_none());
}

#[test]
fn inheritable_property_list() {
    assert!(can_be_inherited(&String::from("color")));
    assert!(can_be_inherited(&String::from("font")));
    assert!(can_be_inherited(&String::from("text-ident")));
    assert!(!can_be_inherited(&String::from("width")));
    assert!(!can_be_inherited(&String::from("background-color")));
}

#[test]
fn style_store_layers() {
    let mut s = ElementStyleProperties::new();
    s.set_default("display", PrimitiveValue::from_identifier(&String::from("block")));
    assert!(!s.has("display"));
    assert!(s.has_default("display"));
    assert_eq!(s.get("display").unwrap().as_string(), "block");
    s.set("display", PrimitiveValue::from_identifier(&String::from("inline")));
    assert!(s.has("display"));
    assert_eq!(s.get("display").unwrap().as_string(), "inline");
    assert_eq!(s.get_default("display").unwrap().as_string(), "block");
    assert_eq!(s.get_entries().len(), 1);
    assert_eq!(s.get_default_entries().len(), 1);
}

#[test]
fn cascade_inherits_across_two_levels() {
    let mut doc = Document::new();
    let attrs = vec![(String::from("style"), String::from("color: blue;"))];
    let grandparent = doc.visit_element_node("div", &attrs);
    let parent = doc.visit_element_node("div", &Vec::new());
    let child = doc.visit_element_node("div", &Vec::new());
    doc.add_element_to_root(grandparent);
    doc.add_element(parent, grandparent);
    doc.add_element(child, parent);
    doc.cascade_element_styles(0);
    let resolved = doc.get_element(child).get_style_property("color").unwrap();
    let c = resolved.as_color();
    assert_eq!((c.red, c.green, c.blue, c.alpha), (0, 0, 255, 255));
}

#[test]
fn authored_value_beats_inherited_value() {
    let mut doc = Document::new();
    let parent = doc.visit_element_node(
        "div",
        &vec![(String::from("style"), String::from("color: red;"))],
    );
    let child = doc.visit_element_node(
        "div",
        &vec![(String::from("style"), String::from("color: green;"))],
    );
    doc.add_element_to_root(parent);
    doc.add_element(child, parent);
    doc.cascade_element_styles(0);
    let resolved = doc.get_element(child).get_style_property("color").unwrap();
    let c = resolved.as_color();
    assert_eq!((c.red, c.green, c.blue), (0, 255, 0));
}
