use markdown_ast::elems::{Content, Image};
use markdown_ast::parser::content::ContentParser;

fn test_parse_bold(s: &str, expected_idx: usize, expected_s: &str) {
    let mut parser = ContentParser::new(s);

    let idx = parser.parse_bold_or_ltalic().unwrap();
    assert_eq!(idx, expected_idx);
    assert_eq!(parser.contents()[0], Content::Bold(expected_s.into()));
}

fn test_parse_latlic(s: &str, expected_idx: usize, expected_s: &str) {
    let mut parser = ContentParser::new(s);

    let idx = parser.parse_bold_or_ltalic().unwrap();
    assert_eq!(idx, expected_idx);
    assert_eq!(parser.contents()[0], Content::Ltalic(expected_s.into()));
}

#[test]
fn test_bold() {
    test_parse_bold("**abcd asdas **", 15, "abcd asdas ");
    test_parse_bold("aa** **", 7, " ");
    test_parse_bold("a****", 5, "");
    test_parse_bold("**abcd asdas ****asdasd**", 15, "abcd asdas ");

    test_parse_bold("__abcd asdas __", 15, "abcd asdas ");
    test_parse_bold("__ __", 5, " ");
    test_parse_bold("____", 4, "");
    test_parse_bold("__abcd asdas ____asdasd__", 15, "abcd asdas ");

    test_parse_latlic("*abcd asdas *", 13, "abcd asdas ");
    test_parse_latlic("* *", 3, " ");
    test_parse_latlic("**", 2, "");
    test_parse_latlic("*abcd asdas **asdasd**", 13, "abcd asdas ");
}

fn parse_delete(s: &str, expected_idx: usize, expected_s: &str) {
    let mut parser = ContentParser::new(s);

    let idx = parser.parse_delete().unwrap();
    assert_eq!(idx, expected_idx);
    assert_eq!(parser.contents()[0], Content::Delete(expected_s.into()));
}

#[test]
fn test_delete() {
    parse_delete("~~abc ~~", 8, "abc ");
    parse_delete("~~~~ ~~", 4, "");
}

fn parse_image(s: &str, expected_idx: usize, link: &str, alt: &str) {
    let mut parser = ContentParser::new(s);

    let idx = parser.parse_image().unwrap();
    assert_eq!(idx, expected_idx);
    assert_eq!(
        parser.contents()[0],
        Content::Image(Image {
            link: link.into(),
            alt: alt.into()
        })
    );
}

#[test]
fn test_image() {
    parse_image("![]()", 5, "", "");
    parse_image("![asd](asd)", 11, "asd", "asd");
}
