use config_exchanger::{
    extract, extract_records, find_replacement, is_ignored, line_terminator_of, rewrite,
    rewrite_tokens, tokenize,
    ElementEnd, ExchangeError, PathTracker, Record, Token,
};

fn some(s: &str) -> Option<String> {
    Some(s.to_string())
}

fn pairs(records: &[Record]) -> Vec<(String, String)> {
    records.iter().map(|r| (r.path.clone(), r.value.clone())).collect()
}

fn record(path: &str, value: &str) -> Record {
    Record { path: path.to_string(), value: value.to_string() }
}

#[test]
fn round_trip_scenario() {
    let source = r#"<root><item name="x" value="10"/><item name="y" value="20"/></root>"#;
    let records = extract(source, &some("name"), &some("value"), &Vec::new()).unwrap();
    assert_eq!(
        pairs(&records),
        vec![
            ("::root::item::x".to_string(), "10".to_string()),
            ("::root::item::y".to_string(), "20".to_string()),
        ]
    );
    let destination = r#"<root><item name="x" value="0"/><item name="y" value="0"/></root>"#;
    let out = rewrite(destination, &some("name"), &some("value"), &records).unwrap();
    assert_eq!(
        out,
        r#"<root><item name="x" value="10" /><item name="y" value="20" /></root>"#
    );
}

#[test]
fn first_match_substitution() {
    let records = vec![record("::root::item::A", "1"), record("::root::item", "2")];
    assert_eq!(find_replacement(&records, "::root::item::A", "0"), "1");
}

#[test]
fn first_match_is_not_most_specific() {
    let records = vec![record("::root::item", "2"), record("::root::item::A", "1")];
    assert_eq!(find_replacement(&records, "::root::item::A", "0"), "2");
}

#[test]
fn missing_match_keeps_original() {
    let records = vec![record("::other", "1"), record("::root::thing", "2")];
    assert_eq!(find_replacement(&records, "::root::item::A", "orig"), "orig");
    assert_eq!(find_replacement(&Vec::new(), "::root", "orig"), "orig");
}

#[test]
fn missing_match_in_document_keeps_value() {
    let records = vec![record("::root::item::z", "99")];
    let destination = r#"<root><item name="x" value="7"/></root>"#;
    let out = rewrite(destination, &some("name"), &some("value"), &records).unwrap();
    assert_eq!(out, r#"<root><item name="x" value="7" /></root>"#);
}

#[test]
fn ignore_suppression() {
    let source = &[
        r#"<config><group name="directories"><param name="a" value="1"/></group>"#,
        r#"<group name="files"><param name="b" value="2"/></group></config>"#
    ].concat();
    let rules = vec!["group::directories".to_string()];
    let records = extract(source, &some("name"), &some("value"), &rules).unwrap();
    assert_eq!(
        pairs(&records),
        vec![("::config::group::files::param::b".to_string(), "2".to_string())]
    );
}

#[test]
fn ignore_rule_matching() {
    let rules = vec!["param::interOptWithCT".to_string(), "group::directories".to_string()];
    assert!(is_ignored("::a::group::directories::x", &rules));
    assert!(!is_ignored("::a::group::files", &rules));
    assert!(!is_ignored("::a", &Vec::new()));
    assert!(is_ignored("::a", &vec![String::new()]));
}

#[test]
fn no_op_idempotence() {
    let doc = &[
        "<?xml version=\"1.0\" encoding=\"utf-8\"?>\r\n",
        "<root>\n  <!-- settings -->\n  <item name=\"x\" value=\"10\"/>\n",
        "  <item name=\"y\" value=\"20\" other=\"q\"/>\n</root>"
    ].concat();
    let records = extract(doc, &some("name"), &some("value"), &Vec::new()).unwrap();
    let out = rewrite(doc, &some("name"), &some("value"), &records).unwrap();
    let plain = rewrite(doc, &some("name"), &some("value"), &Vec::new()).unwrap();
    assert_eq!(out, plain);
    assert_eq!(
        out,
        [
            "<?xml version=\"1.0\" encoding=\"utf-8\"?>\r\n",
            "<root>\n  <!--  settings  -->\n  <item name=\"x\" value=\"10\" />\n",
            "  <item name=\"y\" value=\"20\" other=\"q\" />\n</root>"
        ].concat()
    );
}

#[test]
fn depth_after_close_and_empty() {
    let sort = some("name");
    let value = some("value");
    let mut a = PathTracker::new();
    a.open("root");
    a.open("item");
    a.note_attribute(&"name".to_string(), "x", &sort, &value);
    a.close(&ElementEnd::Empty);
    let mut b = PathTracker::new();
    b.open("root");
    b.open("item");
    b.note_attribute(&"name".to_string(), "x", &sort, &value);
    b.close(&ElementEnd::Open);
    b.close(&ElementEnd::Close { name: "item".to_string() });
    assert_eq!(a.depth(), 1);
    assert_eq!(b.depth(), 1);
    assert_eq!(a.path(), "::root");
    assert_eq!(b.path(), "::root");
}

#[test]
fn nested_close_tags_keep_depth() {
    let source = &[
        r#"<root><item name="x" value="1"></item>"#,
        r#"<item name="y"><sub value="2"></sub></item><leaf value="3"/></root>"#
    ].concat();
    let records = extract(source, &some("name"), &some("value"), &Vec::new()).unwrap();
    assert_eq!(
        pairs(&records),
        vec![
            ("::root::item::x".to_string(), "1".to_string()),
            ("::root::item::y::sub".to_string(), "2".to_string()),
            ("::root::leaf".to_string(), "3".to_string()),
        ]
    );
}

#[test]
fn tracker_paths_and_detached_value() {
    let sort = some("name");
    let value = some("value");
    let mut t = PathTracker::new();
    assert_eq!(t.path(), "");
    t.open("a");
    t.note_attribute(&"value".to_string(), "5", &sort, &value);
    t.note_attribute(&"name".to_string(), "n", &sort, &value);
    assert_eq!(t.path(), "::a::n");
    assert_eq!(t.marked_path(), "::a::n??5");
    assert_eq!(t.close(&ElementEnd::Open), None);
    assert_eq!(t.depth(), 1);
    assert_eq!(t.close(&ElementEnd::Close { name: "a".to_string() }), Some("5".to_string()));
    assert_eq!(t.depth(), 0);
    assert_eq!(t.close(&ElementEnd::Empty), None);
}

#[test]
fn without_sort_field() {
    let source = r#"<root><item name="x" value="10"/></root>"#;
    let records = extract(source, &None, &some("value"), &Vec::new()).unwrap();
    assert_eq!(pairs(&records), vec![("::root::item".to_string(), "10".to_string())]);
    let none = extract(source, &None, &None, &Vec::new()).unwrap();
    assert!(none.is_empty());
}

#[test]
fn malformed_source_is_an_error() {
    let r = extract("<root><item value=></item></root>", &some("name"), &some("value"), &Vec::new());
    assert!(matches!(r, Err(ExchangeError::MalformedInput { .. })));
    let w = rewrite("<root attr=>", &some("name"), &some("value"), &Vec::new());
    assert!(matches!(w, Err(ExchangeError::MalformedInput { .. })));
}

#[test]
fn tokens_are_converted() {
    let tokens = tokenize("<a k=\"v\"><!--c--><![CDATA[x]]>t</a>").unwrap();
    assert_eq!(tokens.len(), 7);
    assert!(matches!(&tokens[0], Token::ElementStart { name } if name == "a"));
    assert!(matches!(&tokens[1], Token::Attribute { key, value } if key == "k" && value == "v"));
    assert!(matches!(&tokens[2], Token::ElementEnd { end: ElementEnd::Open }));
    assert!(matches!(&tokens[3], Token::Comment { text } if text == "c"));
    assert!(matches!(&tokens[4], Token::Other { text } if text == "<![CDATA[x]]>"));
    assert!(matches!(&tokens[5], Token::Text { text } if text == "t"));
    assert!(
        matches!(&tokens[6], Token::ElementEnd { end: ElementEnd::Close { name } } if name == "a")
    );
}

#[test]
fn rewrite_writes_every_kind() {
    let tokens = vec![
        Token::Declaration { version: "1.0".to_string(), encoding: None },
        Token::ElementStart { name: "r".to_string() },
        Token::Attribute { key: "value".to_string(), value: "0".to_string() },
        Token::ElementEnd { end: ElementEnd::Open },
        Token::Comment { text: "c".to_string() },
        Token::Text { text: " t ".to_string() },
        Token::Other { text: "<?pi x?>".to_string() },
        Token::ElementEnd { end: ElementEnd::Close { name: "r".to_string() } },
    ];
    let records = vec![record("::r", "9")];
    let out = rewrite_tokens(&tokens, &None, &some("value"), &records, "\r\n");
    assert_eq!(out, "<?xml version=\"1.0\"?>\r\n<r value=\"9\"><!-- c --> t <?pi x?></r>");
    let recs = extract_records(&tokens, &None, &some("value"), &Vec::new());
    assert_eq!(pairs(&recs), vec![("::r".to_string(), "0".to_string())]);
}

#[test]
fn confusable_paths_take_first_record() {
    let source = r#"<root><item name="x" value="1"/><item name="xy" value="2"/></root>"#;
    let records = extract(source, &some("name"), &some("value"), &Vec::new()).unwrap();
    let out = rewrite(source, &some("name"), &some("value"), &records).unwrap();
    assert_eq!(
        out,
        r#"<root><item name="x" value="1" /><item name="xy" value="1" /></root>"#
    );
}

#[test]
fn declaration_keeps_document_line_ending() {
    let unix = "<?xml version=\"1.0\"?>\n<r a=\"1\"/>\n";
    let out = rewrite(unix, &None, &some("a"), &Vec::new()).unwrap();
    // the tokenizer yields no token for white space after the root element
    assert_eq!(out, "<?xml version=\"1.0\"?>\n<r a=\"1\" />");
    let one_line = "<?xml version=\"1.0\" encoding=\"UTF-8\"?><r/>";
    let out = rewrite(one_line, &None, &some("a"), &Vec::new()).unwrap();
    assert_eq!(out, "<?xml version=\"1.0\" encoding=\"UTF-8\"?><r />");
}

#[test]
fn line_terminator_detection() {
    assert_eq!(line_terminator_of("a\r\nb\nc"), "\r\n");
    assert_eq!(line_terminator_of("a\nb"), "\n");
    assert_eq!(line_terminator_of("ab"), "");
}
