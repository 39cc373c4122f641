use markdown_ast::elems::{BasicItem, Code, Content, Document, ListItem, Paragraph, QouteItem};
use markdown_ast::elems::{Table, TableRow, Tittle};
use markdown_ast::error::ParseError;
use markdown_ast::parse::{is_tittle, parse_tittle, MarkdownParser};

fn parse(text: &str) -> Result<Document, ParseError> {
    let mut parser = MarkdownParser::default();
    parser.parse_markdown(text)?;
    Ok(parser.document())
}

fn items(text: &str) -> Vec<BasicItem> {
    let doc = parse(text).unwrap();
    assert!(doc.attrs.is_empty());
    doc.items
}

fn tittle(level: usize, text: &str) -> BasicItem {
    BasicItem::Tittle(Tittle { level, tittle: text.into() })
}

fn paragraph(lines: Vec<Content>) -> BasicItem {
    BasicItem::Paragraph(Paragraph { lines })
}

fn text(s: &str) -> Content {
    Content::Text(s.into())
}

fn strings(cells: &[&str]) -> Vec<String> {
    cells.iter().map(|c| c.to_string()).collect()
}

#[test]
fn empty_text_is_an_empty_document() {
    let doc = parse("").unwrap();
    assert!(doc.attrs.is_empty());
    assert!(doc.items.is_empty());
    assert!(items("\n\n   \n").is_empty());
}

#[test]
fn front_matter_gives_the_attributes() {
    let doc = parse("---\nkey1: value1\nkey2: value2\n---\n").unwrap();
    assert_eq!(
        doc.attrs,
        vec![("key1".to_string(), "value1".to_string()), ("key2".to_string(), "value2".to_string())]
    );
    assert!(doc.items.is_empty());
}

#[test]
fn last_write_wins_for_a_key() {
    let doc = parse("---\na: 1\nb: 2\na: 3\n---\n").unwrap();
    assert_eq!(
        doc.attrs,
        vec![("a".to_string(), "3".to_string()), ("b".to_string(), "2".to_string())]
    );
}

#[test]
fn attribute_is_split_at_the_first_colon() {
    let doc = parse("---\n  url :  http://example.org/a:b  \nempty:\n---\n").unwrap();
    assert_eq!(
        doc.attrs,
        vec![
            ("url".to_string(), "http://example.org/a:b".to_string()),
            ("empty".to_string(), "".to_string()),
        ]
    );
}

#[test]
fn front_matter_line_without_colon_is_malformed() {
    assert_eq!(parse("---\nkey1 value1\n---\n"), Err(ParseError::MalformedFrontMatter));
    assert_eq!(parse("---\nkey: v\n\n---\n"), Err(ParseError::MalformedFrontMatter));
}

#[test]
fn failed_parse_leaves_the_parser_as_it_was() {
    let mut parser = MarkdownParser::default();
    parser.parse_markdown("# One\n").unwrap();
    assert_eq!(parser.parse_markdown("# Two\n```\nopen"), Err(ParseError::UnterminatedCodeBlock));
    parser.parse_markdown("# Three\n").unwrap();
    assert_eq!(parser.document().items, vec![tittle(1, "One"), tittle(1, "Three")]);
}

#[test]
fn rule_after_the_start_is_a_rule() {
    assert_eq!(items("# T\n---\n"), vec![tittle(1, "T"), BasicItem::HLine]);
    let doc = parse("---\na: b\n---\n---\n").unwrap();
    assert_eq!(doc.attrs.len(), 1);
    assert_eq!(doc.items, vec![BasicItem::HLine]);
}

#[test]
fn state_is_kept_between_texts() {
    let mut parser = MarkdownParser::default();
    parser.parse_markdown("---\na: 1\n").unwrap();
    parser.parse_markdown("b: 2\n---\n").unwrap();
    parser.parse_markdown("---\n").unwrap();
    let doc = parser.document();
    assert_eq!(
        doc.attrs,
        vec![("a".to_string(), "1".to_string()), ("b".to_string(), "2".to_string())]
    );
    assert_eq!(doc.items, vec![BasicItem::HLine]);
}

#[test]
fn tittle_levels() {
    assert_eq!(items("# a"), vec![tittle(1, "a")]);
    assert_eq!(items("####### seven"), vec![tittle(7, "seven")]);
    assert_eq!(items("  ##  spaced  "), vec![tittle(2, " spaced")]);
    let many = format!("{} deep", "#".repeat(300));
    assert_eq!(items(&many), vec![tittle(300, "deep")]);
}

#[test]
fn tittle_needs_leading_hashes_and_a_space() {
    assert!(is_tittle("# a"));
    assert!(is_tittle("# "));
    assert!(!is_tittle("#"));
    assert!(!is_tittle("#a"));
    assert!(!is_tittle("#\ta"));
    assert!(!is_tittle("a # b"));
    assert!(!is_tittle(" # b"));
    assert!(!is_tittle(""));
    assert_eq!(parse_tittle("## x y"), Ok(Tittle { level: 2, tittle: "x y".into() }));
    assert_eq!(parse_tittle("# "), Ok(Tittle { level: 1, tittle: "".into() }));
    assert_eq!(parse_tittle("x"), Err(ParseError::NoTittle));
    assert_eq!(items("a # b"), vec![paragraph(vec![text("a # b")])]);
}

#[test]
fn fenced_code_is_kept_as_it_is() {
    assert_eq!(
        items("```rust\nfn main() {}\n  **x**\n\n```\nafter"),
        vec![
            BasicItem::Code(Code { attr: "rust".into(), content: "fn main() {}\n  **x**\n".into() }),
            paragraph(vec![text("after")]),
        ]
    );
    assert_eq!(
        items("```\n```"),
        vec![BasicItem::Code(Code { attr: "".into(), content: "".into() })]
    );
}

#[test]
fn unterminated_code_block() {
    assert_eq!(parse("```rust\nfn main() {}\n"), Err(ParseError::UnterminatedCodeBlock));
    assert_eq!(parse("```"), Err(ParseError::UnterminatedCodeBlock));
}

#[test]
fn comments() {
    assert_eq!(items("<!-- hi -->"), vec![BasicItem::Comment("hi".into())]);
    assert_eq!(items("<!---->"), vec![BasicItem::Comment("".into())]);
    assert_eq!(
        items("<!--\na\n b\n-->\nc"),
        vec![BasicItem::Comment("a\n b".into()), paragraph(vec![text("c")])]
    );
    assert_eq!(
        items("<!-- one\ntwo -->"),
        vec![BasicItem::Comment("one\ntwo".into())]
    );
}

#[test]
fn unterminated_comment() {
    assert_eq!(parse("<!-- a\nb\n"), Err(ParseError::UnterminatedComment));
    assert_eq!(parse("<!-->"), Err(ParseError::UnterminatedComment));
}

#[test]
fn display_math() {
    assert_eq!(items("$$ x + y $$"), vec![BasicItem::Latex("x + y".into())]);
    assert_eq!(items("$$$$"), vec![BasicItem::Latex("".into())]);
    assert_eq!(items("$$\na\n b\n$$\n# t"), vec![BasicItem::Latex("a\n b".into()), tittle(1, "t")]);
    assert_eq!(items("$$\na"), vec![BasicItem::Latex("a".into())]);
}

#[test]
fn quotes_nest_by_their_markers() {
    assert_eq!(
        items("> a\n>> b\n>>>c\n> d\n\n> e"),
        vec![
            BasicItem::Qoute(vec![
                QouteItem::Content("a".into()),
                QouteItem::Qoute(Box::new(QouteItem::Content("b".into()))),
                QouteItem::Qoute(Box::new(QouteItem::Qoute(Box::new(QouteItem::Content(
                    "c".into()
                ))))),
                QouteItem::Content("d".into()),
            ]),
            BasicItem::Qoute(vec![QouteItem::Content("e".into())]),
        ]
    );
}

#[test]
fn lists_nest_by_indentation() {
    assert_eq!(
        items("- a\n  - b\n    * c\n  - d\n- e\n1. f\n+ g"),
        vec![BasicItem::List(vec![
            ListItem::Dash(
                "a".into(),
                vec![
                    ListItem::Dash("b".into(), vec![ListItem::Star("c".into(), vec![])]),
                    ListItem::Dash("d".into(), vec![]),
                ]
            ),
            ListItem::Dash("e".into(), vec![]),
            ListItem::Ordered("f".into(), vec![]),
            ListItem::Plus("g".into(), vec![]),
        ])]
    );
}

#[test]
fn list_markers_need_a_space() {
    assert_eq!(items("12. twelve"), vec![BasicItem::List(vec![ListItem::Ordered(
        "twelve".into(),
        vec![]
    )])]);
    assert_eq!(items("1.x"), vec![paragraph(vec![text("1.x")])]);
    assert_eq!(items("-x"), vec![paragraph(vec![text("-x")])]);
    assert_eq!(items("+"), vec![paragraph(vec![text("+")])]);
}

#[test]
fn a_less_indented_item_is_no_child() {
    assert_eq!(
        items("  - a\n- b\n    - c"),
        vec![BasicItem::List(vec![
            ListItem::Dash("a".into(), vec![]),
            ListItem::Dash("b".into(), vec![ListItem::Dash("c".into(), vec![])]),
        ])]
    );
}

#[test]
fn tables() {
    assert_eq!(
        items("| a | b |\n|---|:-:|\n| 1 | 2 |\n| 3 |  |\n"),
        vec![BasicItem::Table(Table {
            header: strings(&["a", "b"]),
            rows: vec![TableRow(strings(&["1", "2"])), TableRow(strings(&["3", ""]))],
        })]
    );
    assert_eq!(
        items("|a|b"),
        vec![BasicItem::Table(Table { header: strings(&["a", "b"]), rows: vec![] })]
    );
    assert_eq!(
        items("| a |\n| - | - | - |"),
        vec![BasicItem::Table(Table { header: strings(&["a"]), rows: vec![] })]
    );
}

#[test]
fn table_row_with_other_cell_count_fails() {
    assert_eq!(parse("| a | b |\n|---|---|\n| 1 | 2 | 3 |\n"), Err(ParseError::TableColumnMismatch));
    assert_eq!(parse("| a | b |\n|---|---|\n| 1 | 2 |\n| 1 |\n"), Err(ParseError::TableColumnMismatch));
}

#[test]
fn paragraph_runs_to_a_blank_line_or_another_block() {
    assert_eq!(
        items("hello **w**\nsecond line\n\nnext\n# t\nlast"),
        vec![
            paragraph(vec![text("hello "), Content::Bold("w".into()), text("second line")]),
            paragraph(vec![text("next")]),
            tittle(1, "t"),
            paragraph(vec![text("last")]),
        ]
    );
}

#[test]
fn line_that_cannot_be_scanned_is_text() {
    assert_eq!(
        items("**ok**\na * b [x](y\nHello!"),
        vec![paragraph(vec![Content::Bold("ok".into()), text("a * b [x](y"), text("Hello!")])]
    );
}

#[test]
fn carriage_returns_are_trimmed() {
    assert_eq!(items("# a\r\n\r\nb\r\n"), vec![tittle(1, "a"), paragraph(vec![text("b")])]);
}
