use markdown_ast::elems::{BasicItem, Code, Content, Document, ListItem, Paragraph, QouteItem};
use markdown_ast::elems::{Table, TableRow, Tittle};
use markdown_ast::parse::MarkdownParser;
use markdown_ast::writer::{can_write, item_is_writable, quote_chars, row_chars, tittle_chars};
use markdown_ast::writer::{to_markdown, write_item, write_lines, write_markdown};

fn read(text: &str) -> Document {
    let mut parser = MarkdownParser::default();
    parser.parse_markdown(text).unwrap();
    parser.document()
}

fn strings(cells: &[&str]) -> Vec<String> {
    cells.iter().map(|c| c.to_string()).collect()
}

fn lines_of_item(item: &BasicItem) -> Vec<String> {
    let mut out = Vec::new();
    write_item(item, &mut out);
    out.into_iter().map(|line| line.into_iter().collect()).collect()
}

fn sample() -> Document {
    Document {
        attrs: vec![
            ("title".to_string(), "A: b".to_string()),
            ("empty".to_string(), "".to_string()),
        ],
        items: vec![
            BasicItem::HLine,
            BasicItem::Tittle(Tittle { level: 2, tittle: " two  words".into() }),
            BasicItem::Qoute(vec![
                QouteItem::Content("a".into()),
                QouteItem::Qoute(Box::new(QouteItem::Qoute(Box::new(QouteItem::Content(
                    "".into(),
                ))))),
                QouteItem::Qoute(Box::new(QouteItem::Content("> b".into()))),
            ]),
            BasicItem::Code(Code { attr: "rust".into(), content: "fn f() {\n\n    ```x\n}".into() }),
            BasicItem::Code(Code { attr: "".into(), content: "".into() }),
            BasicItem::Comment("one\n  two".into()),
            BasicItem::Comment("".into()),
            BasicItem::Latex(" a\n\nb ".into()),
            BasicItem::Table(Table {
                header: strings(&["h1", "", "h 3"]),
                rows: vec![TableRow(strings(&["1", "2", "3"])), TableRow(strings(&["", "", ""]))],
            }),
            BasicItem::Table(Table { header: strings(&["only"]), rows: vec![] }),
            BasicItem::List(vec![
                ListItem::Dash(
                    "a".into(),
                    vec![
                        ListItem::Ordered(
                            "b".into(),
                            vec![ListItem::Star("c".into(), vec![]), ListItem::Plus("d".into(), vec![])],
                        ),
                        ListItem::Dash("e".into(), vec![]),
                    ],
                ),
                ListItem::Ordered("f".into(), vec![ListItem::Dash("- g".into(), vec![])]),
            ]),
            BasicItem::HLine,
        ],
    }
}

#[test]
fn written_document_reads_back() {
    let doc = sample();
    assert!(can_write(&doc));
    let text = to_markdown(&doc).unwrap();
    assert_eq!(read(&text), doc);
}

#[test]
fn reading_twice_changes_nothing() {
    let first = read(&write_markdown(&sample()));
    let second = read(&to_markdown(&first).unwrap());
    assert_eq!(first, second);
}

#[test]
fn written_form_of_a_document() {
    let doc = Document {
        attrs: vec![("k".to_string(), "v".to_string())],
        items: vec![
            BasicItem::Tittle(Tittle { level: 1, tittle: "T".into() }),
            BasicItem::List(vec![ListItem::Dash(
                "a".into(),
                vec![ListItem::Ordered("b".into(), vec![ListItem::Star("c".into(), vec![])])],
            ), ListItem::Plus("d".into(), vec![])]),
        ],
    };
    assert_eq!(
        write_markdown(&doc),
        "---\nk: v\n---\n# T\n\n- a\n  1. b\n    * c\n+ d\n\n"
    );
    let lines: Vec<String> =
        write_lines(&doc).into_iter().map(|line| line.into_iter().collect()).collect();
    assert_eq!(lines, strings(&["---", "k: v", "---", "# T", "", "- a", "  1. b", "    * c", "+ d", ""]));
}

#[test]
fn written_form_of_each_item() {
    assert_eq!(lines_of_item(&BasicItem::HLine), strings(&["---"]));
    assert_eq!(
        lines_of_item(&BasicItem::Tittle(Tittle { level: 3, tittle: "Header 3".into() })),
        strings(&["### Header 3"])
    );
    assert_eq!(
        lines_of_item(&BasicItem::Qoute(vec![
            QouteItem::Content("a".into()),
            QouteItem::Qoute(Box::new(QouteItem::Content("b".into()))),
        ])),
        strings(&["> a", ">> b"])
    );
    assert_eq!(
        lines_of_item(&BasicItem::Code(Code { attr: "sh".into(), content: "a\n b".into() })),
        strings(&["```sh", "a", " b", "```"])
    );
    assert_eq!(
        lines_of_item(&BasicItem::Comment("a\nb".into())),
        strings(&["<!--", "a", "b", "-->"])
    );
    assert_eq!(lines_of_item(&BasicItem::Latex("x".into())), strings(&["$$", "x", "$$"]));
    assert_eq!(
        lines_of_item(&BasicItem::Table(Table {
            header: strings(&["a", "b"]),
            rows: vec![TableRow(strings(&["1", ""]))],
        })),
        strings(&["| a | b |", "| --- | --- |", "| 1 |  |"])
    );
    assert_eq!(
        lines_of_item(&BasicItem::Paragraph(Paragraph { lines: vec![Content::Text("a".into())] })),
        Vec::<String>::new()
    );
    let line: String = tittle_chars(&Tittle { level: 0, tittle: "x".into() }).into_iter().collect();
    assert_eq!(line, " x");
    let line: String = quote_chars(&QouteItem::Content("".into())).into_iter().collect();
    assert_eq!(line, "> ");
    let line: String = row_chars(&vec![]).into_iter().collect();
    assert_eq!(line, "||");
}

#[test]
fn document_without_attributes_reads_back() {
    let doc = Document { attrs: vec![], items: vec![BasicItem::HLine] };
    assert_eq!(write_markdown(&doc), "---\n---\n---\n\n");
    assert_eq!(read(&to_markdown(&doc).unwrap()), doc);
    let empty = Document { attrs: vec![], items: vec![] };
    assert_eq!(read(&to_markdown(&empty).unwrap()), empty);
}

#[test]
fn text_read_by_hand_reads_back() {
    let text = "# T\n\n> q\n>> r\n\n- a\n    - b\n- c\n\n| x | y |\n|:--|--:|\n| 1 | 2 |\n\n$$ e $$\n";
    let doc = read(text);
    assert_eq!(doc.items.len(), 5);
    assert_eq!(read(&to_markdown(&doc).unwrap()), doc);
}

fn unwritable(item: BasicItem) {
    assert!(!item_is_writable(&item));
    let doc = Document { attrs: vec![], items: vec![item] };
    assert!(!can_write(&doc));
    assert_eq!(to_markdown(&doc), None);
}

#[test]
fn what_cannot_be_written() {
    unwritable(BasicItem::Paragraph(Paragraph { lines: vec![] }));
    unwritable(BasicItem::Tittle(Tittle { level: 0, tittle: "a".into() }));
    unwritable(BasicItem::Tittle(Tittle { level: 1, tittle: "".into() }));
    unwritable(BasicItem::Tittle(Tittle { level: 1, tittle: "a ".into() }));
    unwritable(BasicItem::Tittle(Tittle { level: 1, tittle: "a\nb".into() }));
    unwritable(BasicItem::Qoute(vec![]));
    unwritable(BasicItem::Qoute(vec![QouteItem::Content(" a".into())]));
    unwritable(BasicItem::Qoute(vec![
        QouteItem::Content("a".into()),
        QouteItem::Qoute(Box::new(QouteItem::Content("a\nb".into()))),
    ]));
    unwritable(BasicItem::Code(Code { attr: "a ".into(), content: "".into() }));
    unwritable(BasicItem::Code(Code { attr: "".into(), content: "a\n ``` \nb".into() }));
    unwritable(BasicItem::Comment(" a".into()));
    unwritable(BasicItem::Comment("a -->\nb".into()));
    unwritable(BasicItem::Latex("a\n$$".into()));
    unwritable(BasicItem::Table(Table { header: vec![], rows: vec![] }));
    unwritable(BasicItem::Table(Table { header: strings(&["a|b"]), rows: vec![] }));
    unwritable(BasicItem::Table(Table {
        header: strings(&["a"]),
        rows: vec![TableRow(strings(&["1", "2"]))],
    }));
    unwritable(BasicItem::Table(Table {
        header: strings(&["a"]),
        rows: vec![TableRow(strings(&["1"])), TableRow(strings(&[" 2"]))],
    }));
    unwritable(BasicItem::List(vec![]));
    unwritable(BasicItem::List(vec![ListItem::Dash("".into(), vec![])]));
    unwritable(BasicItem::List(vec![ListItem::Dash(
        "a".into(),
        vec![ListItem::Star("b".into(), vec![]), ListItem::Plus("c ".into(), vec![])],
    )]));

    let twice = Document {
        attrs: vec![("k".to_string(), "1".to_string()), ("k".to_string(), "2".to_string())],
        items: vec![],
    };
    assert!(!can_write(&twice));
    for (key, value) in [("a:b", "c"), (" a", "c"), ("a", "c "), ("a", "c\nd"), ("a\nb", "c")] {
        let doc = Document { attrs: vec![(key.to_string(), value.to_string())], items: vec![] };
        assert!(!can_write(&doc), "{:?}: {:?}", key, value);
    }
}

#[test]
fn what_can_be_written() {
    assert!(item_is_writable(&BasicItem::Latex("".into())));
    assert!(item_is_writable(&BasicItem::Latex(" $$x ".into())));
    assert!(item_is_writable(&BasicItem::Comment("a --> b".into())));
    assert!(item_is_writable(&BasicItem::Code(Code { attr: "".into(), content: "````".into() })));
    assert!(item_is_writable(&BasicItem::Tittle(Tittle { level: 1, tittle: " a".into() })));
}
