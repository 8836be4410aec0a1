use herdr::adf::RichLine;
use herdr::adf_render::{render, text_to_adf};
use herdr::json::Json;

fn s(text: &str) -> Json {
    Json::Text(text.into())
}

fn n(text: &str) -> Json {
    Json::Number(text.into())
}

fn obj(entries: Vec<(&str, Json)>) -> Json {
    Json::Object(entries.into_iter().map(|(k, v)| (k.to_string(), v)).collect())
}

fn arr(items: Vec<Json>) -> Json {
    Json::Array(items)
}

fn text_node(text: &str) -> Json {
    obj(vec![("type", s("text")), ("text", s(text))])
}

fn node(kind: &str, content: Vec<Json>) -> Json {
    obj(vec![("type", s(kind)), ("content", arr(content))])
}

fn texts(doc: &Json) -> Vec<String> {
    render(doc).iter().map(RichLine::text).collect()
}

fn item(text: &str) -> Json {
    node("listItem", vec![node("paragraph", vec![text_node(text)])])
}

fn json_eq(a: &Json, b: &Json) -> bool {
    match (a, b) {
        (Json::Null, Json::Null) => true,
        (Json::Bool(x), Json::Bool(y)) => x == y,
        (Json::Number(x), Json::Number(y)) => x == y,
        (Json::Text(x), Json::Text(y)) => x == y,
        (Json::Array(x), Json::Array(y)) => {
            x.len() == y.len() && x.iter().zip(y.iter()).all(|(p, q)| json_eq(p, q))
        }
        (Json::Object(x), Json::Object(y)) => {
            x.len() == y.len()
                && x.iter().zip(y.iter()).all(|(p, q)| p.0 == q.0 && json_eq(&p.1, &q.1))
        }
        _ => false,
    }
}

#[test]
fn paragraphs_and_headings_are_separated_by_blank_lines() {
    let doc = node(
        "doc",
        vec![
            obj(vec![
                ("type", s("heading")),
                ("attrs", obj(vec![("level", n("2"))])),
                ("content", arr(vec![text_node("Título")])),
            ]),
            node(
                "paragraph",
                vec![
                    text_node("um "),
                    obj(vec![
                        ("type", s("text")),
                        ("text", s("negrito")),
                        ("marks", arr(vec![obj(vec![("type", s("strong"))])])),
                    ]),
                ],
            ),
        ],
    );

    let lines = render(&doc);

    assert_eq!(texts(&doc), ["Título", "", "um negrito"]);
    assert!(lines[0].spans[0].style.heading);
    assert!(lines[2].spans[1].style.bold);
}

#[test]
fn lists_are_numbered_and_nested() {
    let doc = node(
        "doc",
        vec![obj(vec![
            ("type", s("orderedList")),
            ("attrs", obj(vec![("order", n("3"))])),
            (
                "content",
                arr(vec![
                    item("a"),
                    node(
                        "listItem",
                        vec![
                            node("paragraph", vec![text_node("b")]),
                            node("bulletList", vec![item("b1")]),
                        ],
                    ),
                ]),
            ),
        ])],
    );

    assert_eq!(texts(&doc), ["3. a", "4. b", "  • b1"]);
}

#[test]
fn code_blocks_marks_links_and_mentions() {
    let doc = node(
        "doc",
        vec![
            node("codeBlock", vec![text_node("let x = 1;\nlet y = 2;")]),
            node(
                "paragraph",
                vec![
                    obj(vec![
                        ("type", s("text")),
                        ("text", s("PR")),
                        (
                            "marks",
                            arr(vec![obj(vec![
                                ("type", s("link")),
                                ("attrs", obj(vec![("href", s("https://github.com/x/1"))])),
                            ])]),
                        ),
                    ]),
                    text_node(" por "),
                    obj(vec![("type", s("mention")), ("attrs", obj(vec![("text", s("@Ana"))]))]),
                    text_node(" "),
                    obj(vec![
                        ("type", s("text")),
                        ("text", s("cmd")),
                        ("marks", arr(vec![obj(vec![("type", s("code"))])])),
                    ]),
                    obj(vec![("type", s("hardBreak"))]),
                    text_node("depois"),
                ],
            ),
        ],
    );

    let lines = render(&doc);

    assert_eq!(
        lines.iter().map(RichLine::text).collect::<Vec<_>>(),
        ["  let x = 1;", "  let y = 2;", "", "PR por @Ana cmd", "depois"]
    );
    assert!(lines[0].spans[0].style.code);
    assert_eq!(lines[3].spans[0].link.as_deref(), Some("https://github.com/x/1"));
    assert!(lines[3].spans[2].style.mention);
    assert!(lines[3].spans[4].style.code);
}

#[test]
fn tables_quotes_panels_rules_and_media() {
    let cell = |kind: &str, text: &str| node(kind, vec![node("paragraph", vec![text_node(text)])]);
    let doc = node(
        "doc",
        vec![
            node(
                "table",
                vec![
                    node("tableRow", vec![cell("tableHeader", "col"), cell("tableHeader", "val")]),
                    node("tableRow", vec![cell("tableCell", "a"), cell("tableCell", "1")]),
                ],
            ),
            node("blockquote", vec![node("paragraph", vec![text_node("citação")])]),
            obj(vec![
                ("type", s("panel")),
                ("attrs", obj(vec![("panelType", s("warning"))])),
                ("content", arr(vec![node("paragraph", vec![text_node("cuidado")])])),
            ]),
            obj(vec![("type", s("rule"))]),
            node("mediaSingle", vec![obj(vec![("type", s("media"))])]),
        ],
    );

    let lines = render(&doc);
    let text: Vec<_> = lines.iter().map(RichLine::text).collect();

    assert_eq!(text[0], "col │ val");
    assert_eq!(text[1], "a │ 1");
    assert!(text.contains(&"│ citação".to_owned()));
    assert!(text.contains(&"[warning] cuidado".to_owned()));
    assert!(text.contains(&"────────".to_owned()));
    assert!(text.contains(&"[mídia]".to_owned()));
    assert!(lines[0].spans[0].style.bold);
}

#[test]
fn unknown_nodes_fall_back_to_their_text() {
    let doc = node(
        "doc",
        vec![
            node("expand", vec![node("paragraph", vec![text_node("dentro")])]),
            obj(vec![("type", s("weirdLeaf")), ("text", s("folha"))]),
            node(
                "paragraph",
                vec![
                    obj(vec![("type", s("status")), ("attrs", obj(vec![("text", s("FEITO"))]))]),
                    obj(vec![
                        ("type", s("date")),
                        ("attrs", obj(vec![("timestamp", s("1758585600000"))])),
                    ]),
                ],
            ),
        ],
    );

    assert_eq!(texts(&doc), ["dentro", "", "folha", "", "[FEITO]2025-09-23"]);
}

#[test]
fn text_to_adf_builds_one_paragraph_per_line() {
    let doc = text_to_adf("oi\n\ntchau\n");

    let expected = obj(vec![
        ("type", s("doc")),
        ("version", n("1")),
        (
            "content",
            arr(vec![
                node("paragraph", vec![text_node("oi")]),
                node("paragraph", vec![]),
                node("paragraph", vec![text_node("tchau")]),
            ]),
        ),
    ]);
    assert!(json_eq(&doc, &expected));
}

#[test]
fn quotes_mark_every_line_with_text() {
    let doc = node(
        "doc",
        vec![node(
            "blockquote",
            vec![
                node("paragraph", vec![text_node("um")]),
                node("paragraph", vec![text_node("dois")]),
            ],
        )],
    );
    let lines = render(&doc);
    let text: Vec<_> = lines.iter().map(RichLine::text).collect();
    assert_eq!(text, ["│ um", "", "│ dois"]);
    assert!(lines[0].spans[0].style.quote);
    assert!(lines[1].spans.is_empty());
}

#[test]
fn panels_default_to_info() {
    let doc = node("doc", vec![node("panel", vec![node("paragraph", vec![text_node("nota")])])]);
    assert_eq!(texts(&doc), ["[info] nota"]);
}

#[test]
fn empty_items_show_their_marker_and_unordered_lists_use_bullets() {
    let doc = node(
        "doc",
        vec![node("bulletList", vec![node("listItem", vec![]), item("x")])],
    );
    assert_eq!(texts(&doc), ["• ", "• x"]);
}

#[test]
fn second_paragraphs_of_an_item_align_under_the_marker() {
    let doc = node(
        "doc",
        vec![node(
            "orderedList",
            vec![node(
                "listItem",
                vec![
                    node("paragraph", vec![text_node("a")]),
                    node("paragraph", vec![text_node("b")]),
                ],
            )],
        )],
    );
    assert_eq!(texts(&doc), ["1. a", "   b"]);
}

#[test]
fn text_with_line_breaks_continues_under_the_prefix() {
    let doc = node(
        "doc",
        vec![node(
            "bulletList",
            vec![node("listItem", vec![node("paragraph", vec![text_node("um\ndois")])])],
        )],
    );
    assert_eq!(texts(&doc), ["• um", "  dois"]);
}

#[test]
fn inline_cards_emoji_and_bare_mentions() {
    let doc = node(
        "doc",
        vec![node(
            "paragraph",
            vec![
                obj(vec![("type", s("inlineCard")), ("attrs", obj(vec![("url", s("https://x"))]))]),
                text_node(" "),
                obj(vec![("type", s("emoji")), ("attrs", obj(vec![("shortName", s(":ok:"))]))]),
                text_node(" "),
                obj(vec![("type", s("mention")), ("attrs", obj(vec![("text", s("Ana"))]))]),
                text_node(" "),
                obj(vec![("type", s("mention"))]),
            ],
        )],
    );
    let lines = render(&doc);
    assert_eq!(lines[0].text(), "https://x :ok: @Ana @alguém");
    assert_eq!(lines[0].spans[0].link.as_deref(), Some("https://x"));
    assert!(lines[0].spans[0].style.underline);
}

#[test]
fn dates_that_do_not_parse_are_empty() {
    let doc = node(
        "doc",
        vec![node(
            "paragraph",
            vec![
                text_node("d:"),
                obj(vec![("type", s("date")), ("attrs", obj(vec![("timestamp", s("abc"))]))]),
            ],
        )],
    );
    assert_eq!(texts(&doc), ["d:"]);
}

#[test]
fn empty_document_has_no_lines() {
    assert!(render(&node("doc", vec![])).is_empty());
    assert!(render(&node("doc", vec![node("paragraph", vec![])])).is_empty());
}

#[test]
fn text_to_adf_of_whitespace_is_one_empty_paragraph() {
    let doc = text_to_adf("  \n ");
    let expected = obj(vec![
        ("type", s("doc")),
        ("version", n("1")),
        ("content", arr(vec![node("paragraph", vec![])])),
    ]);
    assert!(json_eq(&doc, &expected));
}

fn date_line(timestamp: &str) -> Vec<String> {
    let doc = node(
        "doc",
        vec![node(
            "paragraph",
            vec![text_node("d:"), obj(vec![("type", s("date")), ("attrs", obj(vec![("timestamp", s(timestamp))]))])],
        )],
    );
    texts(&doc)
}

#[test]
fn dates_are_utc_calendar_days() {
    assert_eq!(date_line("951868799000"), ["d:2000-02-29"]);
    assert_eq!(date_line("951868800000"), ["d:2000-03-01"]);
    assert_eq!(date_line("-3600000"), ["d:1969-12-31"]);
    assert_eq!(date_line("0"), ["d:1970-01-01"]);
    assert_eq!(date_line("253402300799000"), ["d:9999-12-31"]);
    assert_eq!(date_line("253402300800000"), ["d:"]);
}
