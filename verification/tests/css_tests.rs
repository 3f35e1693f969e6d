use toybrowser::ParseError;
use toybrowser::css_parser::{self, Selector, SimpleSelector, Unit, Value};

fn simple(sel: &Selector) -> &SimpleSelector {
    let Selector::Simple(ss) = sel;
    ss
}

#[test]
fn selectors_come_sorted_by_specificity() {
    let sheet = css_parser::parse("#x, .y, div { color: red; }".to_string()).unwrap();
    assert_eq!(sheet.rules.len(), 1);
    let sels = &sheet.rules[0].selectors;
    assert_eq!(sels.len(), 3);
    assert_eq!(simple(&sels[0]).id.as_deref(), Some("x"));
    assert_eq!(simple(&sels[1]).class[0].as_str(), "y");
    assert_eq!(simple(&sels[2]).tag_name.as_deref(), Some("div"));
    assert_eq!(sels[0].specificity(), (1, 0, 0));
    assert_eq!(sels[1].specificity(), (0, 1, 0));
    assert_eq!(sels[2].specificity(), (0, 0, 1));
}

#[test]
fn mixed_selector_order_is_by_specificity_not_source() {
    let sheet = css_parser::parse("div, #x, .y {}".to_string()).unwrap();
    let sels = &sheet.rules[0].selectors;
    assert_eq!(simple(&sels[0]).id.as_deref(), Some("x"));
    assert_eq!(simple(&sels[1]).class[0].as_str(), "y");
    assert_eq!(simple(&sels[2]).tag_name.as_deref(), Some("div"));
}

#[test]
fn equal_specificity_keeps_source_order() {
    let sheet = css_parser::parse("a, b, c {}".to_string()).unwrap();
    let sels = &sheet.rules[0].selectors;
    assert_eq!(simple(&sels[0]).tag_name.as_deref(), Some("a"));
    assert_eq!(simple(&sels[1]).tag_name.as_deref(), Some("b"));
    assert_eq!(simple(&sels[2]).tag_name.as_deref(), Some("c"));
}

#[test]
fn hex_color_parses_to_rgba_channels() {
    let sheet = css_parser::parse("a { color: #ff0000; }".to_string()).unwrap();
    let decls = &sheet.rules[0].declarations;
    assert_eq!(decls.len(), 1);
    assert_eq!(decls[0].name.as_str(), "color");
    match &decls[0].value {
        Value::ColorValue(c) => {
            assert_eq!(c.r, 255);
            assert_eq!(c.g, 0);
            assert_eq!(c.b, 0);
            assert_eq!(c.a, 255);
        },
        _ => panic!("expected a color"),
    }
}

#[test]
fn mixed_case_hex_digits_parse() {
    let sheet = css_parser::parse("a { color: #A1b2C3; }".to_string()).unwrap();
    match &sheet.rules[0].declarations[0].value {
        Value::ColorValue(c) => {
            assert_eq!(c.r, 0xA1);
            assert_eq!(c.g, 0xB2);
            assert_eq!(c.b, 0xC3);
            assert_eq!(c.a, 255);
        },
        _ => panic!("expected a color"),
    }
}

#[test]
fn pixel_length_parses_and_converts_to_ten() {
    let sheet = css_parser::parse("a { width: 10px; }".to_string()).unwrap();
    match &sheet.rules[0].declarations[0].value {
        Value::Length(lit, Unit::Px) => {
            assert_eq!(lit.as_str(), "10");
            assert_eq!(lit.parse::<f32>().unwrap(), 10.0);
        },
        _ => panic!("expected a length"),
    }
}

#[test]
fn decimal_length_and_upper_case_unit_parse() {
    let sheet = css_parser::parse("a { width: 1.5PX; }".to_string()).unwrap();
    match &sheet.rules[0].declarations[0].value {
        Value::Length(lit, Unit::Px) => {
            assert_eq!(lit.parse::<f32>().unwrap(), 1.5);
        },
        _ => panic!("expected a length"),
    }
}

#[test]
fn unknown_unit_fails() {
    let r = css_parser::parse("a { width: 10em; }".to_string());
    assert_eq!(r.unwrap_err(), ParseError::UnrecognizedUnit);
}

#[test]
fn two_dots_make_an_invalid_number() {
    let r = css_parser::parse("a { width: 1.2.3px; }".to_string());
    assert_eq!(r.unwrap_err(), ParseError::InvalidNumericLiteral);
}

#[test]
fn malformed_hex_fails() {
    let r = css_parser::parse("a { color: #zzxxyy; }".to_string());
    assert_eq!(r.unwrap_err(), ParseError::InvalidNumericLiteral);
}

#[test]
fn truncated_color_fails() {
    let r = css_parser::parse("a { color: #f".to_string());
    assert_eq!(r.unwrap_err(), ParseError::UnexpectedEndOfInput);
}

#[test]
fn empty_declaration_block_gives_zero_declarations() {
    let sheet = css_parser::parse("sel {}".to_string()).unwrap();
    assert_eq!(sheet.rules.len(), 1);
    assert_eq!(simple(&sheet.rules[0].selectors[0]).tag_name.as_deref(), Some("sel"));
    assert!(sheet.rules[0].declarations.is_empty());
}

#[test]
fn unterminated_block_fails() {
    let r = css_parser::parse("sel { color: red;".to_string());
    assert_eq!(r.unwrap_err(), ParseError::UnexpectedEndOfInput);
}

#[test]
fn stray_character_in_selector_list_fails() {
    let r = css_parser::parse("a ! {}".to_string());
    assert_eq!(r.unwrap_err(), ParseError::UnexpectedCharacter);
}

#[test]
fn keyword_value_parses() {
    let sheet = css_parser::parse("a { display: block; }".to_string()).unwrap();
    match &sheet.rules[0].declarations[0].value {
        Value::Keyword(k) => assert_eq!(k.as_str(), "block"),
        _ => panic!("expected a keyword"),
    }
}

#[test]
fn rules_keep_their_source_order() {
    let sheet = css_parser::parse("a { }\nb { }".to_string()).unwrap();
    assert_eq!(sheet.rules.len(), 2);
    assert_eq!(simple(&sheet.rules[0].selectors[0]).tag_name.as_deref(), Some("a"));
    assert_eq!(simple(&sheet.rules[1].selectors[0]).tag_name.as_deref(), Some("b"));
}

#[test]
fn duplicate_declarations_are_kept_in_order() {
    let sheet = css_parser::parse("a { color: red; color: blue; }".to_string()).unwrap();
    let decls = &sheet.rules[0].declarations;
    assert_eq!(decls.len(), 2);
    match (&decls[0].value, &decls[1].value) {
        (Value::Keyword(k0), Value::Keyword(k1)) => {
            assert_eq!(k0.as_str(), "red");
            assert_eq!(k1.as_str(), "blue");
        },
        _ => panic!("expected keywords"),
    }
}

#[test]
fn compound_simple_selector_counts_all_parts() {
    let sheet = css_parser::parse("div#i.c1.c2 {}".to_string()).unwrap();
    let sel = &sheet.rules[0].selectors[0];
    let ss = simple(sel);
    assert_eq!(ss.tag_name.as_deref(), Some("div"));
    assert_eq!(ss.id.as_deref(), Some("i"));
    assert_eq!(ss.class.len(), 2);
    assert_eq!(ss.class[0].as_str(), "c1");
    assert_eq!(ss.class[1].as_str(), "c2");
    assert_eq!(sel.specificity(), (1, 2, 1));
}

#[test]
fn universal_selector_contributes_nothing() {
    let sheet = css_parser::parse("* {}".to_string()).unwrap();
    let ss = simple(&sheet.rules[0].selectors[0]);
    assert!(ss.tag_name.is_none());
    assert!(ss.id.is_none());
    assert!(ss.class.is_empty());
    assert_eq!(sheet.rules[0].selectors[0].specificity(), (0, 0, 0));
}

#[test]
fn empty_stylesheet_has_no_rules() {
    let sheet = css_parser::parse("  \n\t ".to_string()).unwrap();
    assert!(sheet.rules.is_empty());
}

#[test]
fn an_id_beats_any_number_of_classes() {
    let sheet = css_parser::parse(".a.b.c.d, #x {}".to_string()).unwrap();
    let sels = &sheet.rules[0].selectors;
    assert_eq!(simple(&sels[0]).id.as_deref(), Some("x"));
    assert_eq!(simple(&sels[1]).class.len(), 4);
}
