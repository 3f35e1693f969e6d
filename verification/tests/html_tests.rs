use toybrowser::ParseError;
use toybrowser::dom::{self, AttrMap, Node, NodeType};
use toybrowser::html_parser;

fn tag_of(node: &Node) -> &str {
    match &node.node_type {
        NodeType::Element(ed) => ed.tag_name.as_str(),
        NodeType::Text(_) => panic!("expected an element"),
    }
}

fn text_of(node: &Node) -> &str {
    match &node.node_type {
        NodeType::Text(t) => t.as_str(),
        NodeType::Element(_) => panic!("expected a text node"),
    }
}

#[test]
fn single_element_is_the_root() {
    let root = html_parser::parse("<t>hello</t>".to_string()).unwrap();
    assert_eq!(tag_of(&root), "t");
    assert_eq!(root.children.len(), 1);
    assert_eq!(text_of(&root.children[0]), "hello");
}

#[test]
fn two_top_level_nodes_get_a_synthetic_html_root() {
    let root = html_parser::parse("<a></a><b></b>".to_string()).unwrap();
    assert_eq!(tag_of(&root), "html");
    assert_eq!(root.children.len(), 2);
    assert_eq!(tag_of(&root.children[0]), "a");
    assert_eq!(tag_of(&root.children[1]), "b");
    match &root.node_type {
        NodeType::Element(ed) => assert!(ed.attributes.pairs.is_empty()),
        _ => unreachable!(),
    }
}

#[test]
fn whitespace_separated_siblings_keep_their_order() {
    let root = html_parser::parse("  <a></a>\n\t<b></b> <c></c>  ".to_string()).unwrap();
    assert_eq!(tag_of(&root), "html");
    assert_eq!(root.children.len(), 3);
    assert_eq!(tag_of(&root.children[0]), "a");
    assert_eq!(tag_of(&root.children[1]), "b");
    assert_eq!(tag_of(&root.children[2]), "c");
}

#[test]
fn nested_markup_preserves_attributes_and_child_order() {
    let root =
        html_parser::parse("<a id=\"x\" class=\"y z\"><b></b><c></c></a>".to_string()).unwrap();
    assert_eq!(tag_of(&root), "a");
    match &root.node_type {
        NodeType::Element(ed) => {
            assert_eq!(ed.attributes.get(&"id".to_string()).unwrap().as_str(), "x");
            assert_eq!(ed.attributes.get(&"class".to_string()).unwrap().as_str(), "y z");
            assert!(ed.attributes.get(&"missing".to_string()).is_none());
        },
        _ => unreachable!(),
    }
    assert_eq!(root.children.len(), 2);
    assert_eq!(tag_of(&root.children[0]), "b");
    assert_eq!(tag_of(&root.children[1]), "c");
}

#[test]
fn mismatched_closing_tag_fails() {
    let r = html_parser::parse("<a></b>".to_string());
    assert_eq!(r.unwrap_err(), ParseError::MismatchedTag);
}

#[test]
fn unterminated_element_fails() {
    let r = html_parser::parse("<a>".to_string());
    assert_eq!(r.unwrap_err(), ParseError::UnexpectedEndOfInput);
}

#[test]
fn missing_attribute_equals_sign_fails() {
    let r = html_parser::parse("<a b></a>".to_string());
    assert_eq!(r.unwrap_err(), ParseError::UnexpectedCharacter);
}

#[test]
fn unterminated_attribute_value_fails() {
    let r = html_parser::parse("<a b=\"c></a>".to_string());
    assert_eq!(r.unwrap_err(), ParseError::UnexpectedEndOfInput);
}

#[test]
fn slash_also_opens_an_attribute_value() {
    // a deliberately preserved looseness of this grammar: `/` may stand
    // for the opening and closing quote
    let root = html_parser::parse("<a href=/foo/></a>".to_string()).unwrap();
    match &root.node_type {
        NodeType::Element(ed) => {
            assert_eq!(ed.attributes.get(&"href".to_string()).unwrap().as_str(), "foo");
        },
        _ => unreachable!(),
    }
}

#[test]
fn later_duplicate_attribute_wins() {
    let root = html_parser::parse("<a id=\"1\" id=\"2\"></a>".to_string()).unwrap();
    match &root.node_type {
        NodeType::Element(ed) => {
            assert_eq!(ed.attributes.get(&"id".to_string()).unwrap().as_str(), "2");
        },
        _ => unreachable!(),
    }
}

#[test]
fn bare_text_is_a_single_text_root() {
    let root = html_parser::parse("hello".to_string()).unwrap();
    assert_eq!(text_of(&root), "hello");
    assert!(root.children.is_empty());
}

#[test]
fn empty_input_gives_an_empty_html_root() {
    let root = html_parser::parse(String::new()).unwrap();
    assert_eq!(tag_of(&root), "html");
    assert!(root.children.is_empty());
}

#[test]
fn multi_byte_characters_survive_in_text_and_values() {
    let root = html_parser::parse("<p title=\"\u{e9}t\u{e9}\">h\u{e9}llo</p>".to_string())
        .unwrap();
    assert_eq!(tag_of(&root), "p");
    match &root.node_type {
        NodeType::Element(ed) => {
            assert_eq!(
                ed.attributes.get(&"title".to_string()).unwrap().as_str(),
                "\u{e9}t\u{e9}"
            );
        },
        _ => unreachable!(),
    }
    assert_eq!(text_of(&root.children[0]), "h\u{e9}llo");
}

#[test]
fn input_after_a_stray_closing_tag_is_ignored() {
    // the top level stops at a closing tag it never opened, as the
    // grammar says: the single parsed node is the root
    let root = html_parser::parse("<a></a></b>".to_string()).unwrap();
    assert_eq!(tag_of(&root), "a");
}

#[test]
fn constructors_build_text_and_element_nodes() {
    let t = dom::text("data".to_string());
    assert_eq!(text_of(&t), "data");
    let mut attrs = AttrMap::new();
    attrs.insert("k".to_string(), "v1".to_string());
    attrs.insert("k".to_string(), "v2".to_string());
    let e = dom::elem("div".to_string(), attrs, vec![t]);
    assert_eq!(tag_of(&e), "div");
    match &e.node_type {
        NodeType::Element(ed) => {
            assert_eq!(ed.attributes.get(&"k".to_string()).unwrap().as_str(), "v2");
        },
        _ => unreachable!(),
    }
    assert_eq!(e.children.len(), 1);
}
