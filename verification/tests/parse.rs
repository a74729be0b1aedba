use htmlparse::ast::{Attribute, Document, Element, Node, Text};
use htmlparse::parser::{parse_html, parse_html_with_options, ParseError, ParseOptions};

fn el(name: &str, attributes: Vec<Attribute>, children: Vec<Node>) -> Node {
    Node::Element(Element::new(name.to_string(), attributes, children))
}

fn txt(value: &str) -> Node {
    Node::Text(Text::new(value.to_string()))
}

fn attr(name: &str, value: &str) -> Attribute {
    Attribute::new(name.to_string(), value.to_string())
}

fn doc(children: Vec<Node>) -> Document {
    Document::new(children)
}

#[test]
fn basic_test_cases() {
    assert_eq!(
        parse_html("<html></html>").unwrap(),
        doc(vec![el("html", vec![], vec![])])
    );

    assert_eq!(
        parse_html(
            "<html>
        <head>
        </head>
        <body>
        </body>
    </html>"
        )
        .unwrap(),
        doc(vec![el(
            "html",
            vec![],
            vec![el("head", vec![], vec![]), el("body", vec![], vec![])]
        )])
    );

    assert_eq!(
        parse_html(
            "<html>
        <head>
            <meta charset=\"utf-8\" />
        </head>
        <body>
            <h1>Hello world</h1>
        </body>
    </html>"
        )
        .unwrap(),
        doc(vec![el(
            "html",
            vec![],
            vec![
                el(
                    "head",
                    vec![],
                    vec![el("meta", vec![attr("charset", "utf-8")], vec![])]
                ),
                el(
                    "body",
                    vec![],
                    vec![el("h1", vec![], vec![txt("Hello world")])]
                ),
            ]
        )])
    );

    assert_eq!(
        parse_html(
            "<script>
        function a() {};
        console.log(a);
    </script>"
        )
        .unwrap(),
        doc(vec![el(
            "script",
            vec![],
            vec![txt("function a() {};\n        console.log(a);\n    ")]
        )])
    );

    assert_eq!(
        parse_html(
            "<style>
        .red {
            background-color: \"red\";
        }
    </style>"
        )
        .unwrap(),
        doc(vec![el(
            "style",
            vec![],
            vec![txt(
                ".red {\n            background-color: \"red\";\n        }\n    "
            )]
        )])
    );
}

#[test]
fn empty_input_yields_empty_root_without_error() {
    assert_eq!(parse_html("").unwrap(), doc(vec![]));
}

#[test]
fn bare_text_yields_single_text_child() {
    assert_eq!(parse_html("abc").unwrap(), doc(vec![txt("abc")]));
}

#[test]
fn self_closing_element_has_no_children() {
    assert_eq!(
        parse_html("<div />").unwrap(),
        doc(vec![el("div", vec![], vec![])])
    );
}

#[test]
fn start_and_end_tag_yield_empty_element() {
    assert_eq!(
        parse_html("<div></div>").unwrap(),
        doc(vec![el("div", vec![], vec![])])
    );
}

#[test]
fn tag_names_are_folded_to_lowercase() {
    assert_eq!(
        parse_html("<DIV>x</DIV>").unwrap(),
        doc(vec![el("div", vec![], vec![txt("x")])])
    );
}

#[test]
fn sibling_nesting_keeps_source_order_and_depth() {
    assert_eq!(
        parse_html("<div><div></div></div><div><div></div></div>").unwrap(),
        doc(vec![
            el("div", vec![], vec![el("div", vec![], vec![])]),
            el("div", vec![], vec![el("div", vec![], vec![])]),
        ])
    );
}

#[test]
fn unclosed_element_is_kept_without_error() {
    assert_eq!(
        parse_html("<div>").unwrap(),
        doc(vec![el("div", vec![], vec![])])
    );
}

#[test]
fn digit_as_first_tag_name_character_is_a_lexical_error() {
    let r = parse_html("<1div>");
    assert!(matches!(
        r,
        Err(ParseError::Lexical(e))
            if e.kind == htmlparse::lexer::LexErrorKind::InvalidFirstCharacterOfTagName
    ));
}

#[test]
fn script_payload_is_extracted_verbatim() {
    let options = ParseOptions {
        extract_payloads: true,
        strict_end_tags: false,
    };
    let out = parse_html_with_options("<script>function a(){}</script>", options).unwrap();
    assert_eq!(out.document, doc(vec![]));
    assert_eq!(out.scripts.len(), 1);
    assert_eq!(out.scripts[0].source, "function a(){}");
    assert_eq!(out.scripts[0].attributes, vec![]);
    assert_eq!(out.styles.len(), 0);
}

#[test]
fn style_payload_is_extracted_and_whitespace_is_kept() {
    let options = ParseOptions {
        extract_payloads: true,
        strict_end_tags: false,
    };
    let out = parse_html_with_options("<style> .red { } </style>", options).unwrap();
    assert_eq!(out.document, doc(vec![]));
    assert_eq!(out.styles.len(), 1);
    assert_eq!(out.styles[0].source, " .red { } ");
    assert_eq!(out.scripts.len(), 0);
}

#[test]
fn payload_attributes_come_from_the_closing_boundary_tag() {
    let options = ParseOptions {
        extract_payloads: true,
        strict_end_tags: false,
    };
    let out =
        parse_html_with_options("<script a=\"1\">body</script b=\"2\">", options).unwrap();
    assert_eq!(out.scripts.len(), 1);
    assert_eq!(out.scripts[0].source, "body");
    assert_eq!(out.scripts[0].attributes, vec![attr("b", "2")]);
}

#[test]
fn round_trip_of_serialized_tree_is_structurally_equal() {
    // A lossless serialization of the tree parsed from this input is the
    // input itself: re-parsing it yields a structurally equal tree.
    let source = "<div id=\"a\"><p>hi</p><br />tail</div>";
    let first = parse_html(source).unwrap();
    let serialized = "<div id=\"a\"><p>hi</p><br />tail</div>";
    let second = parse_html(serialized).unwrap();
    assert_eq!(first, second);
    assert_eq!(
        first,
        doc(vec![el(
            "div",
            vec![attr("id", "a")],
            vec![
                el("p", vec![], vec![txt("hi")]),
                el("br", vec![], vec![]),
                txt("tail"),
            ]
        )])
    );
}

#[test]
fn attributes_keep_order_case_and_duplicates() {
    assert_eq!(
        parse_html("<div a=\"1\" b='2' c=3 d a=\"dup\" ABC=\"x\"></div>").unwrap(),
        doc(vec![el(
            "div",
            vec![
                attr("a", "1"),
                attr("b", "2"),
                attr("c", "3"),
                attr("d", ""),
                attr("a", "dup"),
                attr("ABC", "x"),
            ],
            vec![]
        )])
    );
}

#[test]
fn intertag_whitespace_is_skipped_but_inner_whitespace_is_kept() {
    assert_eq!(
        parse_html("  <div>  a b  </div>  ").unwrap(),
        doc(vec![el("div", vec![], vec![txt("a b  ")])])
    );
}

#[test]
fn text_run_absorbs_whitespace_until_next_tag() {
    assert_eq!(
        parse_html("x y<div></div>").unwrap(),
        doc(vec![txt("x y"), el("div", vec![], vec![])])
    );
}

#[test]
fn legacy_mode_pops_without_checking_the_end_tag_name() {
    assert_eq!(
        parse_html("<div></p>").unwrap(),
        doc(vec![el("div", vec![], vec![])])
    );
}

#[test]
fn strict_mode_accepts_matching_end_tags() {
    let options = ParseOptions {
        extract_payloads: false,
        strict_end_tags: true,
    };
    let out = parse_html_with_options("<div><p>x</p></div>", options).unwrap();
    assert_eq!(
        out.document,
        doc(vec![el(
            "div",
            vec![],
            vec![el("p", vec![], vec![txt("x")])]
        )])
    );
}

#[test]
fn strict_mode_rejects_a_mismatched_end_tag() {
    let options = ParseOptions {
        extract_payloads: false,
        strict_end_tags: true,
    };
    assert_eq!(
        parse_html_with_options("<div></p>", options),
        Err(ParseError::MismatchedEndTag)
    );
}

#[test]
fn strict_mode_rejects_a_stray_end_tag() {
    let options = ParseOptions {
        extract_payloads: false,
        strict_end_tags: true,
    };
    assert_eq!(
        parse_html_with_options("</div>", options),
        Err(ParseError::StrayEndTag)
    );
}

#[test]
fn extra_end_tag_then_content_has_no_open_node() {
    assert_eq!(parse_html("</div><p>x</p>"), Err(ParseError::NoOpenNode));
    assert_eq!(parse_html("</div>x"), Err(ParseError::NoOpenNode));
}

#[test]
fn extra_end_tag_alone_is_not_an_error_in_legacy_mode() {
    assert_eq!(parse_html("</div>").unwrap(), doc(vec![]));
    assert_eq!(parse_html("</div></div>").unwrap(), doc(vec![]));
}

#[test]
fn capture_left_open_at_end_of_input_still_yields_a_payload() {
    let options = ParseOptions {
        extract_payloads: true,
        strict_end_tags: false,
    };
    let out = parse_html_with_options("<script>abc", options).unwrap();
    assert_eq!(out.document, doc(vec![]));
    assert_eq!(out.scripts.len(), 1);
    assert_eq!(out.scripts[0].source, "abc");
    assert_eq!(out.scripts[0].attributes, vec![]);
}

#[test]
fn any_tag_token_terminates_a_capture() {
    let options = ParseOptions {
        extract_payloads: true,
        strict_end_tags: false,
    };
    let out = parse_html_with_options("<script>x<div>y</div>", options).unwrap();
    // The <div> start tag is the capture's boundary token and is consumed
    // with it; the following text lands under the root.
    assert_eq!(out.scripts.len(), 1);
    assert_eq!(out.scripts[0].source, "x");
    assert_eq!(out.document, doc(vec![txt("y")]));
}

#[test]
fn whitespace_only_input_yields_an_empty_root() {
    assert_eq!(parse_html("  \n\t ").unwrap(), doc(vec![]));
}

#[test]
fn folded_end_tag_matches_in_strict_mode() {
    let options = ParseOptions {
        extract_payloads: false,
        strict_end_tags: true,
    };
    let out = parse_html_with_options("<DIV></div>", options).unwrap();
    assert_eq!(out.document, doc(vec![el("div", vec![], vec![])]));
}

#[test]
fn self_closing_element_then_text_are_siblings() {
    assert_eq!(
        parse_html("<br />x").unwrap(),
        doc(vec![el("br", vec![], vec![]), txt("x")])
    );
}
