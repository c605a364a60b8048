use blocktree::{convert_to_value, JsonValue};

fn s(v: &str) -> JsonValue {
    JsonValue::Str(v.to_string())
}

fn obj(entries: Vec<(&str, JsonValue)>) -> JsonValue {
    JsonValue::Object(entries.into_iter().map(|(k, v)| (k.to_string(), v)).collect())
}

fn arr(items: Vec<JsonValue>) -> JsonValue {
    JsonValue::Array(items)
}

fn get<'a>(o: &'a JsonValue, key: &str) -> Option<&'a JsonValue> {
    if let JsonValue::Object(es) = o {
        es.iter().find(|(k, _)| k == key).map(|(_, v)| v)
    } else {
        None
    }
}

/// Whether every entry of `expected` is present (recursively) in `actual`:
/// objects by key, arrays index by index, everything else by equality.
fn includes(expected: &JsonValue, actual: &JsonValue) -> bool {
    match (expected, actual) {
        (JsonValue::Object(eo), _) => eo
            .iter()
            .all(|(k, v)| matches!(get(actual, k), Some(av) if includes(v, av))),
        (JsonValue::Array(ea), JsonValue::Array(aa)) => {
            ea.len() <= aa.len() && ea.iter().zip(aa.iter()).all(|(e, a)| includes(e, a))
        }
        _ => expected == actual,
    }
}

fn assert_json_incl(expected: &JsonValue, actual: &JsonValue) {
    assert!(
        includes(expected, actual),
        "expected {:?} to be included in {:?}",
        expected,
        actual
    );
}

fn text_node(text: &str, styles: Vec<(&str, JsonValue)>) -> JsonValue {
    obj(vec![("type", s("text")), ("text", s(text)), ("styles", obj(styles))])
}

#[test]
fn test_convert_basic_block() {
    let input = r#"
    <blockgroup>
      <blockcontainer backgroundColor="default" id="f6596d68-4414-48f3-b502-eb54c9a00b17" textColor="default">
        <paragraph textAlignment="left">Some text</paragraph>
      </blockcontainer>
    </blockgroup>
    "#;

    let expected = arr(vec![obj(vec![
        ("id", s("f6596d68-4414-48f3-b502-eb54c9a00b17")),
        ("type", s("paragraph")),
        (
            "props",
            obj(vec![
                ("textColor", s("default")),
                ("backgroundColor", s("default")),
                ("textAlignment", s("left")),
            ]),
        ),
        ("content", arr(vec![text_node("Some text", vec![])])),
        ("children", arr(vec![])),
    ])]);

    let result = convert_to_value(input.to_string()).unwrap();

    assert_json_incl(&expected, &result);
}

#[test]
fn test_convert_http_block() {
    let input = r#"
    <blockgroup>
      <blockcontainer backgroundColor="default" id="6eb44f4d-36b9-4dbe-9fad-1278774ddd14" textColor="default">
        <http body="" headers="{}" name="HTTP" url="http://google.com/testing things and stuff!!!" verb="PUT"></http>
      </blockcontainer>
    </blockgroup>
    "#;

    let expected = arr(vec![obj(vec![
        ("id", s("6eb44f4d-36b9-4dbe-9fad-1278774ddd14")),
        ("type", s("http")),
        (
            "props",
            obj(vec![
                ("backgroundColor", s("default")),
                ("textColor", s("default")),
                ("name", s("HTTP")),
                ("url", s("http://google.com/testing things and stuff!!!")),
                ("verb", s("PUT")),
                ("body", s("")),
                ("headers", s("{}")),
            ]),
        ),
        ("children", arr(vec![])),
        ("content", arr(vec![])),
    ])]);

    let result = convert_to_value(input.to_string()).unwrap();

    assert_json_incl(&expected, &result);
}

#[test]
fn test_convert_formatted_content() {
    let input = r#"
    <blockgroup>
      <blockcontainer backgroundColor="default" id="350b5292-78b5-4a3a-9ad0-193b208f3411" textColor="default">
        <paragraph textAlignment="left">Here is <bold>some </bold><bold><italic>text</italic></bold>, including <link class="null" href="https://google.com" rel="noopener noreferrer nofollow" target="_blank">a link</link>!</paragraph>
      </blockcontainer>
    </blockgroup>
    "#;

    let expected = arr(vec![obj(vec![
        ("id", s("350b5292-78b5-4a3a-9ad0-193b208f3411")),
        ("type", s("paragraph")),
        (
            "props",
            obj(vec![
                ("textColor", s("default")),
                ("backgroundColor", s("default")),
                ("textAlignment", s("left")),
            ]),
        ),
        (
            "content",
            arr(vec![
                text_node("Here is ", vec![]),
                text_node("some ", vec![("bold", JsonValue::Bool(true))]),
                text_node(
                    "text",
                    vec![
                        ("bold", JsonValue::Bool(true)),
                        ("italic", JsonValue::Bool(true)),
                    ],
                ),
                text_node(", including ", vec![]),
                obj(vec![
                    ("type", s("link")),
                    ("href", s("https://google.com")),
                    ("rel", s("noopener noreferrer nofollow")),
                    ("target", s("_blank")),
                    ("styles", obj(vec![])),
                    ("class", s("null")),
                    ("content", arr(vec![text_node("a link", vec![])])),
                ]),
                text_node("!", vec![]),
            ]),
        ),
        ("children", arr(vec![])),
    ])]);

    let result = convert_to_value(input.to_string()).unwrap();

    assert_json_incl(&expected, &result);
}

fn bullet_item(id: &str, text: &str, children: Vec<JsonValue>) -> JsonValue {
    obj(vec![
        ("id", s(id)),
        ("type", s("bulletListItem")),
        (
            "props",
            obj(vec![
                ("textColor", s("default")),
                ("backgroundColor", s("default")),
                ("textAlignment", s("left")),
            ]),
        ),
        ("content", arr(vec![text_node(text, vec![])])),
        ("children", arr(children)),
    ])
}

#[test]
fn test_convert_nested_block() {
    let input = r#"
    <blockgroup>
      <blockcontainer backgroundColor="default" id="f6596d68-4414-48f3-b502-eb54c9a00b17" textColor="default">
        <bulletlistitem textAlignment="left">One</bulletlistitem>
      </blockcontainer>
      <blockcontainer backgroundColor="default" id="2447823e-192b-4781-8d9e-860de53dab00" textColor="default">
        <bulletlistitem textAlignment="left">Two</bulletlistitem>
        <blockgroup>
          <blockcontainer backgroundColor="default" id="3615c0ef-0de3-495b-96b4-0bb7c488bdd3" textColor="default">
            <bulletlistitem textAlignment="left">Nested</bulletlistitem>
          </blockcontainer>
          <blockcontainer backgroundColor="default" id="63096453-0847-4203-8efa-11cbfc1486b6" textColor="default">
            <bulletlistitem textAlignment="left">Again</bulletlistitem>
          </blockcontainer>
        </blockgroup>
      </blockcontainer>
      <blockcontainer backgroundColor="default" id="526b8f4a-c60b-47a0-9ebd-54c84657b209" textColor="default">
        <bulletlistitem textAlignment="left">Three</bulletlistitem>
      </blockcontainer>
      <blockcontainer backgroundColor="default" id="30bd3f34-0288-43fe-9045-c58b71305e9d" textColor="default">
        <paragraph textAlignment="left"></paragraph>
      </blockcontainer>
    </blockgroup>
    "#;

    let expected = arr(vec![
        bullet_item("f6596d68-4414-48f3-b502-eb54c9a00b17", "One", vec![]),
        bullet_item(
            "2447823e-192b-4781-8d9e-860de53dab00",
            "Two",
            vec![
                bullet_item("3615c0ef-0de3-495b-96b4-0bb7c488bdd3", "Nested", vec![]),
                bullet_item("63096453-0847-4203-8efa-11cbfc1486b6", "Again", vec![]),
            ],
        ),
        bullet_item("526b8f4a-c60b-47a0-9ebd-54c84657b209", "Three", vec![]),
        obj(vec![
            ("id", s("30bd3f34-0288-43fe-9045-c58b71305e9d")),
            ("type", s("paragraph")),
            (
                "props",
                obj(vec![
                    ("textColor", s("default")),
                    ("backgroundColor", s("default")),
                    ("textAlignment", s("left")),
                ]),
            ),
            ("content", arr(vec![])),
            ("children", arr(vec![])),
        ]),
    ]);

    let result = convert_to_value(input.to_string()).unwrap();

    assert_json_incl(&expected, &result);
}

fn numbered_item(id: &str, text: &str, children: Vec<JsonValue>) -> JsonValue {
    // The index attribute is recognized and dropped: the position in the list,
    // not a stored prop, determines the number.
    obj(vec![
        ("id", s(id)),
        ("type", s("numberedListItem")),
        (
            "props",
            obj(vec![
                ("textColor", s("default")),
                ("backgroundColor", s("default")),
                ("textAlignment", s("left")),
            ]),
        ),
        ("content", arr(vec![text_node(text, vec![])])),
        ("children", arr(children)),
    ])
}

#[test]
fn test_convert_list() {
    let input = r#"
    <blockgroup>
      <blockcontainer backgroundColor="default" id="a3f0e2c9-be18-40bc-8d29-8e26b14c2f7c" textColor="default">
        <numberedlistitem index="1" textAlignment="left">Numbered</numberedlistitem>
        <blockgroup>
          <blockcontainer backgroundColor="default" id="4fd5efc1-f05e-4e70-8ee6-9c75aa218281" textColor="default">
            <numberedlistitem index="1" textAlignment="left">Nested</numberedlistitem>
          </blockcontainer>
          <blockcontainer backgroundColor="default" id="3bd78d63-ce31-4297-9ee3-ef186be02772" textColor="default">
            <numberedlistitem index="2" textAlignment="left">added 2</numberedlistitem>
          </blockcontainer>
          <blockcontainer backgroundColor="default" id="defb2607-7adf-4aff-8ec9-8f31a27e5d70" textColor="default">
            <numberedlistitem index="3" textAlignment="left">List</numberedlistitem>
          </blockcontainer>
          <blockcontainer backgroundColor="default" id="f25cfc0d-11e1-4232-b1af-31a2ab84e0dd" textColor="default">
            <numberedlistitem index="4" textAlignment="left">added 3</numberedlistitem>
          </blockcontainer>
        </blockgroup>
      </blockcontainer>
    </blockgroup>
    "#;

    let expected = arr(vec![numbered_item(
        "a3f0e2c9-be18-40bc-8d29-8e26b14c2f7c",
        "Numbered",
        vec![
            numbered_item("4fd5efc1-f05e-4e70-8ee6-9c75aa218281", "Nested", vec![]),
            numbered_item("3bd78d63-ce31-4297-9ee3-ef186be02772", "added 2", vec![]),
            numbered_item("defb2607-7adf-4aff-8ec9-8f31a27e5d70", "List", vec![]),
            numbered_item("f25cfc0d-11e1-4232-b1af-31a2ab84e0dd", "added 3", vec![]),
        ],
    )]);

    let result = convert_to_value(input.to_string()).unwrap();

    assert_json_incl(&expected, &result);

    // The index attribute must never survive into props.
    if let JsonValue::Array(blocks) = &result {
        let props = get(&blocks[0], "props").unwrap();
        assert!(get(props, "index").is_none());
    } else {
        panic!("expected an array of blocks");
    }
}

#[test]
fn test_convert_table() {
    let input = r#"
    <blockGroup>
      <blockContainer id="f6596d68-4414-48f3-b502-eb54c9a00b17" textColor="default" backgroundColor="default">
        <table>
          <tableRow>
            <tableCell rowspan="1" colspan="1">
              <tableParagraph>one</tableParagraph>
            </tableCell>
            <tableCell colspan="1" rowspan="1" colwidth="[335]">
              <tableParagraph>two</tableParagraph>
            </tableCell>
            <tableCell rowspan="1" colspan="1">
              <tableParagraph><italic>three</italic></tableParagraph>
            </tableCell>
          </tableRow>
          <tableRow>
            <tableCell colspan="1" rowspan="1">
              <tableParagraph><bold>four</bold></tableParagraph>
            </tableCell>
            <tableCell rowspan="1" colspan="1" colwidth="[335]">
              <tableParagraph>f<bold>iv</bold>e</tableParagraph>
            </tableCell>
            <tableCell rowspan="1" colspan="1">
              <tableParagraph><bold><italic><strike>six</strike></italic></bold></tableParagraph>
            </tableCell>
          </tableRow>
        </table>
      </blockContainer>
    </blockGroup>
    "#;

    let expected = arr(vec![obj(vec![
        ("id", s("f6596d68-4414-48f3-b502-eb54c9a00b17")),
        ("type", s("table")),
        ("props", obj(vec![("textColor", s("default"))])),
        (
            "content",
            obj(vec![
                ("type", s("tableContent")),
                (
                    "columnWidths",
                    arr(vec![JsonValue::Null, JsonValue::Num(335), JsonValue::Null]),
                ),
                (
                    "rows",
                    arr(vec![
                        obj(vec![(
                            "cells",
                            arr(vec![
                                arr(vec![text_node("one", vec![])]),
                                arr(vec![text_node("two", vec![])]),
                                arr(vec![text_node(
                                    "three",
                                    vec![("italic", JsonValue::Bool(true))],
                                )]),
                            ]),
                        )]),
                        obj(vec![(
                            "cells",
                            arr(vec![
                                arr(vec![text_node(
                                    "four",
                                    vec![("bold", JsonValue::Bool(true))],
                                )]),
                                arr(vec![
                                    text_node("f", vec![]),
                                    text_node("iv", vec![("bold", JsonValue::Bool(true))]),
                                    text_node("e", vec![]),
                                ]),
                                arr(vec![text_node(
                                    "six",
                                    vec![
                                        ("bold", JsonValue::Bool(true)),
                                        ("italic", JsonValue::Bool(true)),
                                        ("strike", JsonValue::Bool(true)),
                                    ],
                                )]),
                            ]),
                        )]),
                    ]),
                ),
            ]),
        ),
        ("children", arr(vec![])),
    ])]);

    let result = convert_to_value(input.to_string()).unwrap();

    assert_json_incl(&expected, &result);
}
