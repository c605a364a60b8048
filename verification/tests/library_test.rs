use blocktree::{
    convert_to_json, convert_to_value, escape_xml_text, fragment_xml, AttrValue, Error,
    FragmentNode, JsonValue, Mark, MarkValue, RunInsert, Style, TextRun,
};

fn mk_str(v: &str) -> JsonValue {
    JsonValue::Str(v.to_string())
}

fn lookup<'a>(o: &'a JsonValue, key: &str) -> Option<&'a JsonValue> {
    if let JsonValue::Object(es) = o {
        es.iter().find(|(k, _)| k == key).map(|(_, v)| v)
    } else {
        None
    }
}

fn first_block(v: &JsonValue) -> &JsonValue {
    if let JsonValue::Array(blocks) = v {
        &blocks[0]
    } else {
        panic!("expected an array of blocks");
    }
}

/// Compare two objects as key-value maps, ignoring entry order.
fn same_object(a: &JsonValue, b: &JsonValue) -> bool {
    match (a, b) {
        (JsonValue::Object(ea), JsonValue::Object(eb)) => {
            ea.iter().all(|(k, v)| lookup(b, k) == Some(v))
                && eb.iter().all(|(k, v)| lookup(a, k) == Some(v))
        }
        _ => false,
    }
}

#[test]
fn test_end_to_end_example() {
    let input = r#"<blockgroup><blockcontainer id="A"><paragraph textAlignment="left">Hi</paragraph></blockcontainer></blockgroup>"#;
    let result = convert_to_value(input.to_string()).unwrap();
    let block = first_block(&result);
    assert_eq!(lookup(block, "id"), Some(&mk_str("A")));
    assert_eq!(lookup(block, "type"), Some(&mk_str("paragraph")));
    assert_eq!(
        lookup(block, "props"),
        Some(&JsonValue::Object(vec![(
            "textAlignment".to_string(),
            mk_str("left")
        )]))
    );
    assert_eq!(
        lookup(block, "content"),
        Some(&JsonValue::Array(vec![JsonValue::Object(vec![
            ("type".to_string(), mk_str("text")),
            ("styles".to_string(), JsonValue::Object(vec![])),
            ("text".to_string(), mk_str("Hi")),
        ])]))
    );
    assert_eq!(lookup(block, "children"), Some(&JsonValue::Array(vec![])));
}

#[test]
fn test_convert_to_json_string() {
    let input = r#"<blockgroup><blockcontainer id="A"><paragraph textAlignment="left">Hi</paragraph></blockcontainer></blockgroup>"#;
    let result = convert_to_json(input.to_string()).unwrap();
    assert_eq!(
        result,
        r#"[{"children":[],"content":[{"styles":{},"text":"Hi","type":"text"}],"id":"A","props":{"textAlignment":"left"},"type":"paragraph"}]"#
    );
}

#[test]
fn test_nested_styles_order_insensitive() {
    let bold_outside = r#"<blockgroup><blockcontainer id="A"><paragraph><bold><italic>x</italic></bold></paragraph></blockcontainer></blockgroup>"#;
    let italic_outside = r#"<blockgroup><blockcontainer id="A"><paragraph><italic><bold>x</bold></italic></paragraph></blockcontainer></blockgroup>"#;
    let r1 = convert_to_value(bold_outside.to_string()).unwrap();
    let r2 = convert_to_value(italic_outside.to_string()).unwrap();
    let styles1 = clone_json(lookup(&first_content(&r1), "styles").unwrap());
    let styles2 = clone_json(lookup(&first_content(&r2), "styles").unwrap());
    let expected = JsonValue::Object(vec![
        ("bold".to_string(), JsonValue::Bool(true)),
        ("italic".to_string(), JsonValue::Bool(true)),
    ]);
    assert!(same_object(&styles1, &expected));
    assert!(same_object(&styles2, &expected));
    assert!(same_object(&styles1, &styles2));
    // The wrapper produces a single text node, not two.
    if let JsonValue::Array(content) = lookup(first_block(&r1), "content").unwrap() {
        assert_eq!(content.len(), 1);
    } else {
        panic!("expected basic content");
    }
    assert_eq!(
        lookup(&first_content(&r1), "text"),
        Some(&mk_str("x"))
    );
}

fn first_content(v: &JsonValue) -> JsonValue {
    let block = first_block(v);
    if let Some(JsonValue::Array(content)) = lookup(block, "content") {
        clone_json(&content[0])
    } else {
        panic!("expected basic content");
    }
}

fn clone_json(v: &JsonValue) -> JsonValue {
    match v {
        JsonValue::Null => JsonValue::Null,
        JsonValue::Bool(b) => JsonValue::Bool(*b),
        JsonValue::Num(n) => JsonValue::Num(*n),
        JsonValue::Str(s) => JsonValue::Str(s.clone()),
        JsonValue::Array(a) => JsonValue::Array(a.iter().map(clone_json).collect()),
        JsonValue::Object(o) => {
            JsonValue::Object(o.iter().map(|(k, x)| (k.clone(), clone_json(x))).collect())
        }
    }
}

#[test]
fn test_empty_paragraph_yields_empty_array() {
    let input = r#"<blockgroup><blockcontainer id="A"><paragraph></paragraph></blockcontainer></blockgroup>"#;
    let result = convert_to_value(input.to_string()).unwrap();
    assert_eq!(
        lookup(first_block(&result), "content"),
        Some(&JsonValue::Array(vec![]))
    );
}

#[test]
fn test_container_without_children_is_fatal() {
    let input = r#"<blockgroup><blockcontainer id="A"></blockcontainer></blockgroup>"#;
    match convert_to_value(input.to_string()) {
        Err(Error::MalformedDocument(msg, _)) => {
            assert_eq!(msg, "blockcontainer with no children");
        }
        other => panic!("expected a malformed-document error, got {:?}", other),
    }
}

#[test]
fn test_unparsable_level_is_dropped() {
    let input = r#"<blockgroup><blockcontainer id="A"><heading level="undefined">H</heading></blockcontainer></blockgroup>"#;
    let result = convert_to_value(input.to_string()).unwrap();
    let props = lookup(first_block(&result), "props").unwrap();
    assert!(lookup(props, "level").is_none());
}

#[test]
fn test_heading_level_coerced_to_number() {
    let input = r#"<blockgroup><blockcontainer id="A"><heading level="2">H</heading></blockcontainer></blockgroup>"#;
    let result = convert_to_value(input.to_string()).unwrap();
    let props = lookup(first_block(&result), "props").unwrap();
    assert_eq!(lookup(props, "level"), Some(&JsonValue::Num(2)));
}

#[test]
fn test_checked_coerced_to_bool() {
    let input = r#"<blockgroup><blockcontainer id="A"><checkListItem checked="true">t</checkListItem></blockcontainer></blockgroup>"#;
    let result = convert_to_value(input.to_string()).unwrap();
    let props = lookup(first_block(&result), "props").unwrap();
    assert_eq!(lookup(props, "checked"), Some(&JsonValue::Bool(true)));
}

#[test]
fn test_parse_error_on_bad_xml() {
    match convert_to_value("<blockgroup".to_string()) {
        Err(Error::ParseError(_)) => {}
        other => panic!("expected a parse error, got {:?}", other),
    }
}

#[test]
fn test_style_tag_without_children_is_fatal() {
    let input = r#"<blockgroup><blockcontainer id="A"><paragraph><bold></bold></paragraph></blockcontainer></blockgroup>"#;
    match convert_to_value(input.to_string()) {
        Err(Error::MalformedDocument(msg, _)) => {
            assert_eq!(msg, "style tag with no children");
        }
        other => panic!("expected a malformed-document error, got {:?}", other),
    }
}

#[test]
fn test_style_tag_with_two_children_is_fatal() {
    let input = r#"<blockgroup><blockcontainer id="A"><paragraph><bold><italic>a</italic><italic>b</italic></bold></paragraph></blockcontainer></blockgroup>"#;
    match convert_to_value(input.to_string()) {
        Err(Error::MalformedDocument(msg, _)) => {
            assert_eq!(msg, "style tag with more than one child");
        }
        other => panic!("expected a malformed-document error, got {:?}", other),
    }
}

#[test]
fn test_comment_in_content_is_fatal() {
    let input = r#"<blockgroup><blockcontainer id="A"><paragraph><!-- note --></paragraph></blockcontainer></blockgroup>"#;
    match convert_to_value(input.to_string()) {
        Err(Error::MalformedDocument(msg, _)) => {
            assert_eq!(msg, "Unsupported node type in content position");
        }
        other => panic!("expected a malformed-document error, got {:?}", other),
    }
}

#[test]
fn test_cell_with_bad_colspan_is_fatal() {
    let input = r#"<blockGroup><blockContainer id="A"><table><tableRow><tableCell colspan="x" rowspan="1"><tableParagraph>c</tableParagraph></tableCell></tableRow></table></blockContainer></blockGroup>"#;
    match convert_to_value(input.to_string()) {
        Err(Error::MalformedDocument(msg, _)) => {
            assert_eq!(msg, "Invalid colspan");
        }
        other => panic!("expected a malformed-document error, got {:?}", other),
    }
}

#[test]
fn test_cell_with_missing_rowspan_is_fatal() {
    let input = r#"<blockGroup><blockContainer id="A"><table><tableRow><tableCell colspan="1"><tableParagraph>c</tableParagraph></tableCell></tableRow></table></blockContainer></blockGroup>"#;
    match convert_to_value(input.to_string()) {
        Err(Error::MalformedDocument(msg, _)) => {
            assert_eq!(msg, "Invalid rowspan");
        }
        other => panic!("expected a malformed-document error, got {:?}", other),
    }
}

#[test]
fn test_cell_with_bad_colwidth_is_fatal() {
    let input = r#"<blockGroup><blockContainer id="A"><table><tableRow><tableCell colspan="1" rowspan="1" colwidth="[x]"><tableParagraph>c</tableParagraph></tableCell></tableRow></table></blockContainer></blockGroup>"#;
    match convert_to_value(input.to_string()) {
        Err(Error::MalformedDocument(msg, _)) => {
            assert_eq!(msg, "Invalid colwidth");
        }
        other => panic!("expected a malformed-document error, got {:?}", other),
    }
}

#[test]
fn test_cell_without_paragraph_is_fatal() {
    let input = r#"<blockGroup><blockContainer id="A"><table><tableRow><tableCell colspan="1" rowspan="1"></tableCell></tableRow></table></blockContainer></blockGroup>"#;
    match convert_to_value(input.to_string()) {
        Err(Error::MalformedDocument(msg, _)) => {
            assert_eq!(msg, "table cell with no table paragraph");
        }
        other => panic!("expected a malformed-document error, got {:?}", other),
    }
}

#[test]
fn test_column_widths_come_from_first_row_only() {
    let input = r#"<blockGroup><blockContainer id="A"><table>
        <tableRow>
          <tableCell colspan="1" rowspan="1"><tableParagraph>a</tableParagraph></tableCell>
          <tableCell colspan="1" rowspan="1" colwidth="[335]"><tableParagraph>b</tableParagraph></tableCell>
          <tableCell colspan="1" rowspan="1"><tableParagraph>c</tableParagraph></tableCell>
        </tableRow>
        <tableRow>
          <tableCell colspan="1" rowspan="1" colwidth="[99]"><tableParagraph>d</tableParagraph></tableCell>
          <tableCell colspan="1" rowspan="1"><tableParagraph>e</tableParagraph></tableCell>
          <tableCell colspan="1" rowspan="1" colwidth="[7]"><tableParagraph>f</tableParagraph></tableCell>
        </tableRow>
      </table></blockContainer></blockGroup>"#;
    let result = convert_to_value(input.to_string()).unwrap();
    let content = lookup(first_block(&result), "content").unwrap();
    assert_eq!(
        lookup(content, "columnWidths"),
        Some(&JsonValue::Array(vec![
            JsonValue::Null,
            JsonValue::Num(335),
            JsonValue::Null
        ]))
    );
}

#[test]
fn test_legacy_type_names_normalized() {
    for (legacy, canonical) in [
        ("bulletlistitem", "bulletListItem"),
        ("checklistitem", "checkListItem"),
        ("numberedlistitem", "numberedListItem"),
    ] {
        let input = format!(
            r#"<blockgroup><blockcontainer id="A"><{} index="3">t</{}></blockcontainer></blockgroup>"#,
            legacy, legacy
        );
        let result = convert_to_value(input).unwrap();
        let block = first_block(&result);
        assert_eq!(lookup(block, "type"), Some(&mk_str(canonical)));
        let props = lookup(block, "props").unwrap();
        assert!(lookup(props, "index").is_none());
    }
}

#[test]
fn test_canonical_type_names_kept() {
    let input = r#"<blockgroup><blockcontainer id="A"><bulletListItem>t</bulletListItem></blockcontainer></blockgroup>"#;
    let result = convert_to_value(input.to_string()).unwrap();
    assert_eq!(
        lookup(first_block(&result), "type"),
        Some(&mk_str("bulletListItem"))
    );
}

#[test]
fn test_text_color_reads_string_value() {
    let input = r#"<blockgroup><blockcontainer id="A"><paragraph><textColor stringValue="red">x</textColor></paragraph></blockcontainer></blockgroup>"#;
    let result = convert_to_value(input.to_string()).unwrap();
    let styles = clone_json(lookup(&first_content(&result), "styles").unwrap());
    assert!(same_object(
        &styles,
        &JsonValue::Object(vec![("textColor".to_string(), JsonValue::Bool(true))])
    ));
}

#[test]
fn test_style_name() {
    assert_eq!(Style::Bold.name(), "bold");
    assert_eq!(Style::Italic.name(), "italic");
    assert_eq!(Style::Underline.name(), "underline");
    assert_eq!(Style::Strike.name(), "strike");
    assert_eq!(Style::Code.name(), "code");
    assert_eq!(Style::TextColor("red".to_string()).name(), "textColor");
    assert_eq!(Style::BackgroundColor("blue".to_string()).name(), "backgroundColor");
}

#[test]
fn test_escape_xml_text() {
    assert_eq!(escape_xml_text("a<b>c&d\"e'f"), "a&lt;b&gt;c&amp;d&quot;e&apos;f");
    assert_eq!(escape_xml_text("line1\nline2\rtab\t."), "line1&#10;line2&#13;tab&#9;.");
    assert_eq!(escape_xml_text("plain"), "plain");
    assert_eq!(escape_xml_text(""), "");
}

#[test]
fn test_serialize_marked_run() {
    let nodes = vec![FragmentNode::Text {
        runs: vec![TextRun {
            insert: RunInsert::Str("a&b<c>d".to_string()),
            marks: vec![
                Mark { name: "bold".to_string(), value: MarkValue::Plain },
                Mark {
                    name: "link".to_string(),
                    value: MarkValue::Attrs(vec![(
                        "href".to_string(),
                        AttrValue::Str("u".to_string()),
                    )]),
                },
            ],
        }],
    }];
    assert_eq!(
        fragment_xml(&nodes),
        r#"<bold><link href="u">a&amp;b&lt;c&gt;d</link></bold>"#
    );
}

#[test]
fn test_serialize_element_and_fragment() {
    let nodes = vec![FragmentNode::Element {
        tag: "paragraph".to_string(),
        attrs: vec![("textAlignment".to_string(), "le\"ft".to_string())],
        children: vec![FragmentNode::Fragment {
            children: vec![FragmentNode::Text {
                runs: vec![
                    TextRun { insert: RunInsert::Str("hi".to_string()), marks: vec![] },
                    TextRun { insert: RunInsert::Other, marks: vec![] },
                ],
            }],
        }],
    }];
    assert_eq!(
        fragment_xml(&nodes),
        r#"<paragraph textAlignment="le&quot;ft">hi</paragraph>"#
    );
}

#[test]
fn test_serialize_mark_attr_values() {
    let nodes = vec![FragmentNode::Text {
        runs: vec![TextRun {
            insert: RunInsert::Str("x".to_string()),
            marks: vec![Mark {
                name: "link".to_string(),
                value: MarkValue::Attrs(vec![
                    ("a".to_string(), AttrValue::Null),
                    ("b".to_string(), AttrValue::Other),
                    ("c".to_string(), AttrValue::Str("v".to_string())),
                ]),
            }],
        }],
    }];
    assert_eq!(fragment_xml(&nodes), r#"<link a="" c="v">x</link>"#);
}

#[test]
fn test_heading_level_with_plus_sign() {
    let input = r#"<blockgroup><blockcontainer id="A"><heading level="+3">H</heading></blockcontainer></blockgroup>"#;
    let result = convert_to_value(input.to_string()).unwrap();
    let props = lookup(first_block(&result), "props").unwrap();
    assert_eq!(lookup(props, "level"), Some(&JsonValue::Num(3)));
}

#[test]
fn test_heading_level_overflow_dropped() {
    let input = r#"<blockgroup><blockcontainer id="A"><heading level="18446744073709551616">H</heading></blockcontainer></blockgroup>"#;
    let result = convert_to_value(input.to_string()).unwrap();
    let props = lookup(first_block(&result), "props").unwrap();
    assert!(lookup(props, "level").is_none());
}

#[test]
fn test_colwidth_strips_repeated_brackets() {
    let input = r#"<blockGroup><blockContainer id="A"><table><tableRow><tableCell colspan="1" rowspan="1" colwidth="[[335]]"><tableParagraph>c</tableParagraph></tableCell></tableRow></table></blockContainer></blockGroup>"#;
    let result = convert_to_value(input.to_string()).unwrap();
    let content = lookup(first_block(&result), "content").unwrap();
    assert_eq!(
        lookup(content, "columnWidths"),
        Some(&JsonValue::Array(vec![JsonValue::Num(335)]))
    );
}
