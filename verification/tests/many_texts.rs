use markdown_ast::elems::{BasicItem, Document};
use markdown_ast::parse::MarkdownParser;
use markdown_ast::parser::content::{scan_line, ContentParser};
use markdown_ast::text::{chars_of, trim_chars};
use markdown_ast::writer::{can_write, item_is_writable, to_markdown};

struct Dice(u64);

impl Dice {
    fn roll(&mut self, sides: usize) -> usize {
        self.0 = self.0.wrapping_mul(6364136223846793005).wrapping_add(1442695040888963407);
        ((self.0 >> 33) as usize) % sides
    }

    fn pick<'a>(&mut self, from: &[&'a str]) -> &'a str {
        from[self.roll(from.len())]
    }
}

fn read(text: &str) -> Option<Document> {
    let mut parser = MarkdownParser::default();
    parser.parse_markdown(text).ok()?;
    Some(parser.document())
}

const BLOCK_LINES: [&str; 40] = [
    "", "", "", "---", "# a", "## b c", "#x", "####### deep", "> q", ">> r", ">>>", "> > s",
    "- a", "  - b", "    * c", " + d", "1. e", "  23. f", "- ", "| a | b |", "|---|---|",
    "| 1 | 2 |", "|", "| x", "```", "```rust", "let x = 1;", "$$", "$$ e $$", "x + y",
    "<!--", "<!-- c -->", "-->", "d -->", "text", "  text  ", "\t", "\u{3000}# a", "-", "$$$",
];

const INLINE_PIECES: [&str; 28] = [
    "a", " ", "b c", "**", "*", "__", "_", "~~", "~", "![", "[", "]", "(", ")", "!", "$", "`",
    "#", "@", "/", "^", "é", "日本", "#tag", "@n/p", "[x]", "(y)", "`2024/09`",
];

#[test]
fn written_texts_read_back() {
    let mut dice = Dice(1);
    let mut written = 0;
    for _ in 0..400 {
        let mut text = String::new();
        if dice.roll(4) == 0 {
            text.push_str("---\n");
            for _ in 0..dice.roll(3) {
                text.push_str(dice.pick(&["k: v\n", "a:\n", "b : c : d\n", "k: w\n"]));
            }
            text.push_str("---\n");
        }
        for _ in 0..dice.roll(12) {
            text.push_str(dice.pick(&BLOCK_LINES));
            text.push('\n');
        }
        let doc = match read(&text) {
            Some(doc) => doc,
            None => continue,
        };
        for item in &doc.items {
            if let BasicItem::Table(table) = item {
                assert!(table.rows.iter().all(|row| row.0.len() == table.header.len()), "{:?}", text);
            }
        }
        let settled = doc.items.iter().all(|item| match item {
            BasicItem::Paragraph(_) => false,
            BasicItem::Comment(_) | BasicItem::Latex(_) => item_is_writable(item),
            _ => true,
        });
        assert_eq!(can_write(&doc), settled, "{:?}", text);
        if settled {
            let again = read(&to_markdown(&doc).unwrap());
            assert_eq!(again, Some(doc), "{:?}", text);
            written += 1;
        }
    }
    assert!(written > 40, "{}", written);
}

#[test]
fn lines_are_scanned_the_same_way_alone_and_in_a_text() {
    let mut dice = Dice(2);
    let mut scanned = 0;
    for _ in 0..120 {
        let mut line = String::from("x");
        for _ in 0..dice.roll(8) {
            line.push_str(dice.pick(&INLINE_PIECES));
        }
        let alone = scan_line(&line);
        let mut parser = ContentParser::new(&line);
        let length = parser.parse();
        match &alone {
            Ok(nodes) => {
                assert_eq!(length, Ok(line.trim().len()), "{:?}", line);
                assert_eq!(parser.contents(), &scan_line(line.trim()).unwrap(), "{:?}", line);
                if line.trim() == line {
                    assert_eq!(parser.contents(), nodes, "{:?}", line);
                }
                scanned += 1;
            }
            Err(_) => {
                if line.trim() == line {
                    assert_eq!(length.err(), alone.as_ref().err().copied(), "{:?}", line);
                }
            }
        }
        let doc = read(&line).unwrap();
        assert_eq!(doc.items.len(), 1, "{:?}", line);
        match &doc.items[0] {
            BasicItem::Paragraph(p) => match scan_line(line.trim()) {
                Ok(nodes) => assert_eq!(p.lines, nodes, "{:?}", line),
                Err(_) => assert_eq!(
                    p.lines,
                    vec![markdown_ast::elems::Content::Text(line.trim().to_string())],
                    "{:?}",
                    line
                ),
            },
            other => panic!("{:?} is read as {:?}", line, other),
        }
    }
    assert!(scanned > 10, "{}", scanned);
}

#[test]
fn trimming_is_what_std_does() {
    let mut dice = Dice(3);
    for _ in 0..3000 {
        let mut line = String::new();
        for _ in 0..dice.roll(6) {
            line.push_str(dice.pick(&[" ", "\t", "\r", "\n", "\u{a0}", "\u{3000}", "a", "é", "#"]));
        }
        let trimmed: String = trim_chars(&chars_of(&line)).into_iter().collect();
        assert_eq!(trimmed, line.trim(), "{:?}", line);
    }
}
