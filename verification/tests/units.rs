use htmlparse::ast;
use htmlparse::lexer::{HtmlLexer, LexErrorKind};
use htmlparse::parser::{parse_html, ParseError};
use htmlparse::token::{Attribute, Token};

fn lexical_kind(source: &str) -> LexErrorKind {
    match parse_html(source) {
        Err(ParseError::Lexical(e)) => e.kind,
        other => panic!("expected a lexical error, got {:?}", other),
    }
}

#[test]
fn lexer_emits_tag_character_and_eof_tokens() {
    let mut lexer = HtmlLexer::new("<div id=\"x\"/>a");
    assert_eq!(
        lexer.next().unwrap(),
        Token::Tag {
            tag_name: "div".to_string(),
            self_closing: true,
            attributes: vec![Attribute::from_name_value("id".to_string(), "x".to_string())],
            is_end_tag: false,
        }
    );
    assert_eq!(lexer.next().unwrap(), Token::Character('a'));
    assert_eq!(lexer.next().unwrap(), Token::EOF);
}

#[test]
fn lexer_folds_tag_names_but_not_attributes() {
    let mut lexer = HtmlLexer::new("<DIV Id='Y'></DIV>");
    assert_eq!(
        lexer.next().unwrap(),
        Token::Tag {
            tag_name: "div".to_string(),
            self_closing: false,
            attributes: vec![Attribute::from_name_value("Id".to_string(), "Y".to_string())],
            is_end_tag: false,
        }
    );
    assert_eq!(
        lexer.next().unwrap(),
        Token::Tag {
            tag_name: "div".to_string(),
            self_closing: false,
            attributes: vec![],
            is_end_tag: true,
        }
    );
    assert_eq!(lexer.next().unwrap(), Token::EOF);
}

#[test]
fn lexer_reports_each_error_class() {
    assert_eq!(lexical_kind("<!doctype html>"), LexErrorKind::UnsupportedMarkupDeclaration);
    assert_eq!(lexical_kind("<?xml?>"), LexErrorKind::UnsupportedProcessingInstruction);
    assert_eq!(lexical_kind("<div a=\"&\">"), LexErrorKind::UnsupportedCharacterReference);
    assert_eq!(lexical_kind("<1div>"), LexErrorKind::InvalidFirstCharacterOfTagName);
    assert_eq!(lexical_kind("</>"), LexErrorKind::MissingEndTagName);
    assert_eq!(lexical_kind("<"), LexErrorKind::EofBeforeTagName);
    assert_eq!(lexical_kind("<div"), LexErrorKind::EofInTag);
    assert_eq!(lexical_kind("<div a"), LexErrorKind::EofInTag);
    assert_eq!(
        lexical_kind("<div =a>"),
        LexErrorKind::UnexpectedEqualsSignBeforeAttributeName
    );
    assert_eq!(
        lexical_kind("<div a\"b>"),
        LexErrorKind::UnexpectedCharacterInAttributeName
    );
    assert_eq!(lexical_kind("<div a=>"), LexErrorKind::MissingAttributeValue);
    assert_eq!(
        lexical_kind("<div a=`x>"),
        LexErrorKind::UnexpectedCharacterInUnquotedAttributeValue
    );
    assert_eq!(lexical_kind("<div /x>"), LexErrorKind::UnexpectedSolidusInTag);
    assert_eq!(
        lexical_kind("<div a=\"1\"b>"),
        LexErrorKind::MissingWhitespaceBetweenAttributes
    );
}

#[test]
fn lexical_errors_carry_the_offset_where_they_were_detected() {
    match parse_html("<") {
        Err(ParseError::Lexical(e)) => {
            assert_eq!(e.kind, LexErrorKind::EofBeforeTagName);
            assert_eq!(e.position, 1);
        }
        other => panic!("expected a lexical error, got {:?}", other),
    }
    match parse_html("ab<1>") {
        Err(ParseError::Lexical(e)) => {
            assert_eq!(e.kind, LexErrorKind::InvalidFirstCharacterOfTagName);
            assert_eq!(e.position, 4);
        }
        other => panic!("expected a lexical error, got {:?}", other),
    }
}

#[test]
fn token_constructors_and_accessors() {
    let mut t = Token::new_start_tag();
    assert!(t.is_tag());
    assert!(t.is_start_tag());
    assert!(!t.is_end_tag());
    assert_eq!(t.tag_name(), "");
    assert_eq!(t.attributes().len(), 0);
    assert!(!t.self_closing());
    t.set_tag_name("span");
    assert_eq!(t.tag_name(), "span");

    let e = Token::new_end_tag();
    assert!(e.is_tag());
    assert!(!e.is_start_tag());
    assert!(e.is_end_tag());

    let c = Token::Character('q');
    assert!(!c.is_tag());
    assert!(!c.is_start_tag());
    assert!(!c.is_end_tag());
    assert_eq!(c.character(), 'q');

    let a = Attribute::new();
    assert_eq!(a.name, "");
    assert_eq!(a.value, "");
    let b = Attribute::from_name_value("k".to_string(), "v".to_string());
    assert_eq!(b.name, "k");
    assert_eq!(b.value, "v");
}

#[test]
fn tree_nodes_can_be_built_and_grown_by_hand() {
    let mut element = ast::Element::new("div".to_string(), Vec::new(), Vec::new());
    element.append_attribute(ast::Attribute::new("id".to_string(), "a".to_string()));

    let mut text = ast::Text::new("h".to_string());
    text.push('i');
    text.push_str("gh");
    element.append_child(ast::Node::Text(text));

    let mut node = ast::Node::Element(element);
    node.append_child(ast::Node::Element(ast::Element::new(
        "br".to_string(),
        Vec::new(),
        Vec::new(),
    )));
    node.append_child(ast::Node::Text(ast::Text::new("tail".to_string())));

    let mut root = ast::Node::Document(ast::Document::new(Vec::new()));
    root.append_child(node);

    match root {
        ast::Node::Document(document) => {
            assert_eq!(
                document,
                parse_html("<div id=\"a\">high<br />tail</div>").unwrap()
            );
        }
        _ => unreachable!(),
    }
}

#[test]
fn attribute_accessors_return_name_and_value() {
    let a = ast::Attribute::new("name".to_string(), "value".to_string());
    assert_eq!(a.name(), "name");
    assert_eq!(a.value(), "value");
}

#[test]
fn real_nul_character_is_ordinary_text() {
    // The end-of-input sentinel is distinct from any real character: a NUL
    // in the input is character data like any other.
    let d = parse_html("a\u{0}b").unwrap();
    let expected = {
        let mut document = ast::Document::new(Vec::new());
        document.append_child(ast::Node::Text(ast::Text::new("a\u{0}b".to_string())));
        document
    };
    assert_eq!(d, expected);
}
