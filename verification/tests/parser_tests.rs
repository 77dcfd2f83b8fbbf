use mpdf::color::{code_to_color, get_default_color_code, get_predefined_colors, Color};
use mpdf::fixed::{clamp, parse_px, sat_add, sat_sub};
use mpdf::parser::{parse_inline, Parser};
use mpdf::primitive_value::PrimitiveValue;
use mpdf::property::PropertyDeclaration;
use mpdf::token_buffer::ParserTokenBuffer;
use mpdf::tokenizer::{tokenize, TokenKind};

#[test]
fn single_width_declaration() {
    let decls = parse_inline("width: 10px;");
    assert_eq!(decls.len(), 1);
    assert_eq!(decls[0].name, "width");
    assert!(decls[0].value.is_dimension_value());
    assert_eq!(decls[0].value.as_dimension_value().value, 10_000);
    assert_eq!(decls[0].value.as_dimension_value().dimension, "px");
}

#[test]
fn unknown_property_is_dropped_and_parsing_recovers() {
    let decls = parse_inline("unknown: 1; width: 5px;");
    assert_eq!(decls.len(), 1);
    assert_eq!(decls[0].name, "width");
    assert_eq!(decls[0].value.as_dimension_value().value, 5_000);
}

#[test]
fn hex_color_declaration() {
    let decls = parse_inline("color: #ff0000;");
    assert_eq!(decls.len(), 1);
    assert_eq!(decls[0].name, "color");
    assert!(decls[0].value.is_color());
    let c = decls[0].value.as_color();
    assert_eq!((c.red, c.green, c.blue, c.alpha), (255, 0, 0, 255));
}

#[test]
fn malformed_hex_color_declaration_is_opaque_black() {
    let decls = parse_inline("color: #zzzzzz;");
    assert_eq!(decls.len(), 1);
    assert!(decls[0].value.is_color());
    let c = decls[0].value.as_color();
    assert_eq!((c.red, c.green, c.blue, c.alpha), (0, 0, 0, 255));
}

#[test]
fn named_color_declaration() {
    let decls = parse_inline("background-color: blue;");
    assert_eq!(decls.len(), 1);
    let c = decls[0].value.as_color();
    assert_eq!((c.red, c.green, c.blue, c.alpha), (0, 0, 255, 255));
}

#[test]
fn display_declaration() {
    let decls = parse_inline("display: block;");
    assert_eq!(decls.len(), 1);
    assert!(decls[0].value.is_identifier());
    assert_eq!(decls[0].value.as_string(), "block");
}

#[test]
fn malformed_value_is_dropped() {
    let decls = parse_inline("width: red; height: 4px;");
    assert_eq!(decls.len(), 1);
    assert_eq!(decls[0].name, "height");
}

#[test]
fn several_declarations_in_order() {
    let decls = parse_inline("width: 1px; min-height: 2px; left: 3px; top: 4px;");
    let names: Vec<&str> = decls.iter().map(|d| d.name.as_str()).collect();
    assert_eq!(names, vec!["width", "min-height", "left", "top"]);
}

#[test]
fn fractional_dimension_parses_to_milli_pixels() {
    let decls = parse_inline("width: 10.5px;");
    assert_eq!(decls[0].value.as_dimension_value().value, 10_500);
}

#[test]
fn parser_struct_parses_its_input() {
    let mut parser = Parser::new(String::from("height: 3px;"));
    let decls = parser.parse_inline();
    assert_eq!(decls.len(), 1);
    assert_eq!(decls[0].name, "height");
}

#[test]
fn empty_input_parses_to_nothing() {
    assert_eq!(parse_inline("").len(), 0);
}

#[test]
fn parse_px_cases() {
    assert_eq!(parse_px("12"), Some(12_000));
    assert_eq!(parse_px("10.5"), Some(10_500));
    assert_eq!(parse_px("10."), Some(10_000));
    assert_eq!(parse_px("-2.25"), Some(-2_250));
    assert_eq!(parse_px("+3"), Some(3_000));
    assert_eq!(parse_px("0.1234"), Some(123));
    assert_eq!(parse_px("+"), None);
    assert_eq!(parse_px("-"), None);
    assert_eq!(parse_px(""), None);
    assert_eq!(parse_px("1x"), None);
}

#[test]
fn saturating_helpers() {
    assert_eq!(sat_add(1, 2), 3);
    assert_eq!(sat_add(i64::MAX, 1), i64::MAX);
    assert_eq!(sat_sub(i64::MIN, 1), i64::MIN);
    assert_eq!(clamp(7, 0, 5), 5);
    assert_eq!(clamp(-1, 0, 5), 0);
    assert_eq!(clamp(3, 0, 5), 3);
    assert_eq!(clamp(9, 10, 5), 5);
}

#[test]
fn predefined_color_table() {
    let table = get_predefined_colors();
    assert_eq!(table.len(), 6);
    assert_eq!(table[0].0, "black");
    assert_eq!(table[5].0, "transparent");
    assert_eq!(table[5].1.alpha, 0);
    assert_eq!(get_default_color_code(), "black");
}

#[test]
fn color_resolution() {
    let red = code_to_color("#ff0000");
    assert_eq!((red.red, red.green, red.blue, red.alpha), (255, 0, 0, 255));
    let white = code_to_color("white");
    assert_eq!((white.red, white.green, white.blue), (255, 255, 255));
    let unknown = code_to_color("no-such-color");
    assert_eq!((unknown.red, unknown.green, unknown.blue, unknown.alpha), (0, 0, 0, 255));
    let transparent = code_to_color("transparent");
    assert_eq!(transparent.alpha, 0);
    // a malformed hex literal is unresolved, so it is opaque black too
    let short = code_to_color("#ff00");
    assert_eq!((short.red, short.green, short.blue, short.alpha), (0, 0, 0, 255));
    let garbled = code_to_color("#zzzzzz");
    assert_eq!((garbled.red, garbled.green, garbled.blue, garbled.alpha), (0, 0, 0, 255));
}

#[test]
fn from_hex_cases() {
    let c = Color::from_hex("#00ff00");
    assert_eq!((c.red, c.green, c.blue, c.alpha), (0, 255, 0, 255));
    let bare = Color::from_hex("0000ff");
    assert_eq!((bare.red, bare.green, bare.blue, bare.alpha), (0, 0, 255, 255));
    let bad = Color::from_hex("#zzzzzz");
    assert_eq!((bad.red, bad.green, bad.blue, bad.alpha), (0, 0, 0, 0));
    let short = Color::from_hex("#123");
    assert_eq!((short.red, short.green, short.blue, short.alpha), (0, 0, 0, 0));
}

#[test]
fn from_rgb_is_opaque() {
    let c = Color::from_rgb(1, 2, 3);
    assert_eq!((c.red, c.green, c.blue, c.alpha), (1, 2, 3, 255));
}

#[test]
fn token_buffer_walks_and_recovers() {
    let mut buffer = ParserTokenBuffer::new(tokenize("a: 1; b"));
    assert!(!buffer.is_out_of_bounds());
    let first = buffer.next();
    assert!(first.kind == TokenKind::Identifier);
    assert_eq!(buffer.current().value, "a");
    buffer.skip_until(TokenKind::Semicolon);
    let semi = buffer.expect(TokenKind::Semicolon);
    assert!(semi.is_some());
    let b = buffer.next();
    assert_eq!(b.value, "b");
}

#[test]
fn token_buffer_default_is_empty() {
    let buffer = ParserTokenBuffer::default();
    assert!(buffer.is_out_of_bounds());
}

#[test]
fn primitive_value_predicates() {
    let none = PrimitiveValue::default();
    assert!(none.is_none());
    assert!(!none.has_value());
    let ident = PrimitiveValue::from_identifier(&String::from("block"));
    assert!(ident.is_identifier());
    assert!(ident.has_value());
    let s = PrimitiveValue::from_string(&String::from("x"));
    assert!(s.is_string());
    let c = PrimitiveValue::from_color(&String::from("red"), Color::from_rgb(255, 0, 0));
    assert!(c.is_color());
    let d = PrimitiveValue::from_dimension_value(&String::from("2px"), 2_000, &String::from("px"));
    assert!(d.is_dimension_value());
    assert!(!d.is_color());
}

#[test]
fn property_declaration_starts_valueless() {
    let d = PropertyDeclaration::new(String::from("width"));
    assert_eq!(d.name, "width");
    assert!(d.value.is_none());
}

#[test]
fn missing_colon_consumes_the_value_token() {
    // the expected colon position swallows the dimension, so the
    // declaration has no value left and is dropped
    let decls = parse_inline("width 10px");
    assert_eq!(decls.len(), 0);
}

#[test]
fn expect_reports_a_mismatch_without_stopping() {
    let mut buffer = ParserTokenBuffer::new(tokenize("a b"));
    buffer.next();
    let got = buffer.expect(TokenKind::Colon).unwrap();
    assert!(got.kind == TokenKind::Identifier);
    assert_eq!(got.value, "b");
}
