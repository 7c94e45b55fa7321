use search::indexer::{parse_config, Config, DIR_PATH, FILE_PATH, MISSING_MODE};
use search::parser::{append_event_text, is_allowed_type, parse_xml_text, XmlTextError};

#[test]
fn xml_text_is_one_line_per_text_event() {
    let doc = b"<?xml version=\"1.0\"?>\n<html>\n  <body>\n    <p> Hello &amp; world </p>\n    <!-- note -->\n    <p>Second&#33;</p>\n  </body>\n</html>\n";
    let text = parse_xml_text(doc).unwrap();
    assert_eq!(text.content, "Hello & world\nSecond!\n");
    assert!(text.errors.is_empty());
}

#[test]
fn xml_text_of_empty_input() {
    let text = parse_xml_text(b"").unwrap();
    assert_eq!(text.content, "");
}

#[test]
fn xml_text_reports_bad_references() {
    assert_eq!(parse_xml_text(b"<p>a &bogus; b</p>").err(), Some(XmlTextError::InvalidEscape));
}

#[test]
fn xml_text_records_parse_errors() {
    let doc = b"<p>kept</p><unclosed";
    let text = parse_xml_text(doc).unwrap();
    assert_eq!(text.content, "kept\n");
    assert_eq!(text.errors.len(), 1);
    let (position, message) = &text.errors[0];
    assert!(*position > "<p>kept</p>".len() && *position <= doc.len());
    assert!(!message.is_empty());
}

#[test]
fn append_event_text_decodes_and_unescapes() {
    let mut content = String::from("x\n");
    assert_eq!(append_event_text(&mut content, b"a &lt; b"), Ok(()));
    assert_eq!(content, "x\na < b\n");
    assert_eq!(append_event_text(&mut content, &[0xff, 0xfe]), Err(XmlTextError::NonDecodable));
    assert_eq!(append_event_text(&mut content, b"&nope;"), Err(XmlTextError::InvalidEscape));
    assert_eq!(content, "x\na < b\n");
}

#[test]
fn allowed_types() {
    assert!(is_allowed_type("html"));
    assert!(is_allowed_type("xhtml"));
    assert!(is_allowed_type("xml"));
    assert!(!is_allowed_type("txt"));
    assert!(!is_allowed_type("HTML"));
    assert!(!is_allowed_type(""));
}

#[test]
fn config_modes() {
    assert!(matches!(parse_config(Some("build".to_string())), Ok(Config::Build(p)) if p == DIR_PATH));
    assert!(matches!(parse_config(Some("load".to_string())), Ok(Config::Load(p)) if p == FILE_PATH));
    assert!(matches!(parse_config(Some("serve".to_string())), Err(m) if m == MISSING_MODE));
    assert!(matches!(parse_config(None), Err(m) if m == MISSING_MODE));
    assert_eq!(DIR_PATH, "docs/");
    assert_eq!(FILE_PATH, "inverted_index.json");
    assert_eq!(MISSING_MODE, "Missing arguments (build or load)");
}
