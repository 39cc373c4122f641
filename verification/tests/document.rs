use markdown_ast::elems::{BasicItem, Tittle};
use markdown_ast::parse::MarkdownParser;

#[test]
fn test_attr() {
    let document = "
---
key1: value1
key2: value2
---
";

    let mut parser = MarkdownParser::default();

    parser.parse_markdown(document).unwrap();

    let doc = parser.document();

    assert_eq!(doc.attrs[0].0, "key1");
    assert_eq!(doc.attrs[0].1, "value1");
    assert_eq!(doc.attrs[1].0, "key2");
    assert_eq!(doc.attrs[1].1, "value2");
}

#[test]
fn parse_test_tittle() {
    let document = "### Header 3";

    let mut parser = MarkdownParser::default();
    parser.parse_markdown(document).unwrap();

    let doc = parser.document();

    let expect = BasicItem::Tittle(Tittle {
        level: 3,
        tittle: "Header 3".into(),
    });

    assert_eq!(doc.items[0], expect);
}

#[test]
fn one_tittle_line_is_one_item() {
    let mut parser = MarkdownParser::default();
    parser.parse_markdown("### Header 3").unwrap();
    let doc = parser.document();
    assert!(doc.attrs.is_empty());
    assert_eq!(doc.items, vec![BasicItem::Tittle(Tittle { level: 3, tittle: "Header 3".into() })]);
}

#[test]
fn front_matter_alone_has_no_items() {
    let mut parser = MarkdownParser::default();
    parser.parse_markdown("---\nkey1: value1\nkey2: value2\n---\n").unwrap();
    let doc = parser.document();
    assert_eq!(doc.attrs.len(), 2);
    assert_eq!(doc.attrs[0], ("key1".to_string(), "value1".to_string()));
    assert_eq!(doc.attrs[1], ("key2".to_string(), "value2".to_string()));
    assert_eq!(doc.items.len(), 0);
}
