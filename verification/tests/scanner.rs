use markdown_ast::elems::{Content, Date, Hyperlink, Image, InlineCode, Time, TimeDate};
use markdown_ast::error::ParseError;
use markdown_ast::parser::content::{first_special_in, plain_text_of, scan_line, scan_with};
use markdown_ast::parser::content::{step_with, ContentParser};
use markdown_ast::parser::marker::{earlier_of, find, find_marker, first_group_of, hit_from};
use markdown_ast::parser::marker::{node_from, nth_marker, pattern, Marker, MARKERS};
use markdown_ast::parser::marker::{OPEN_LINK_GROUP, SCAN_PATTERN};

fn text(s: &str) -> Content {
    Content::Text(s.into())
}

#[test]
fn plain_line_is_one_text() {
    assert_eq!(scan_line("plain text, no markers."), Ok(vec![text("plain text, no markers.")]));
}

#[test]
fn empty_line_has_no_content() {
    assert_eq!(scan_line(""), Ok(vec![]));
}

#[test]
fn text_around_a_marker_is_kept() {
    assert_eq!(
        scan_line("a **b** c"),
        Ok(vec![text("a "), Content::Bold("b".into()), text(" c")])
    );
}

#[test]
fn markers_follow_each_other_without_gaps() {
    assert_eq!(
        scan_line("**a***b*~~c~~"),
        Ok(vec![
            Content::Bold("a".into()),
            Content::Ltalic("b".into()),
            Content::Delete("c".into()),
        ])
    );
}

#[test]
fn bold_wins_a_tie_with_italic() {
    assert_eq!(scan_line("**abcd asdas **"), Ok(vec![Content::Bold("abcd asdas ".into())]));
    assert_eq!(scan_line("****"), Ok(vec![Content::Bold("".into())]));
}

#[test]
fn earlier_italic_wins_over_later_bold() {
    assert_eq!(
        scan_line("*abcd asdas **asdasd**"),
        Err(ParseError::NoMarkerMatched),
    );
    let mut parser = ContentParser::new("*abcd asdas **asdasd**");
    assert_eq!(parser.parse_bold_or_ltalic(), Ok(13));
    assert_eq!(parser.contents()[0], Content::Ltalic("abcd asdas ".into()));
}

#[test]
fn image_and_hyperlink() {
    assert_eq!(
        scan_line("![alt](link) [name](url)"),
        Ok(vec![
            Content::Image(Image { link: "link".into(), alt: "alt".into() }),
            text(" "),
            Content::Hyperlink(Hyperlink { name: "name".into(), url: "url".into() }),
        ])
    );
}

#[test]
fn bracket_attributes() {
    assert_eq!(
        scan_line("[x] [^note] [!warn]"),
        Ok(vec![
            Content::Attr("x".into()),
            text(" "),
            Content::FootnoteAttr("note".into()),
            text(" "),
            Content::WarningAttr("warn".into()),
        ])
    );
}

#[test]
fn attribute_before_a_hyperlink() {
    assert_eq!(
        scan_line("[a] [b](c)"),
        Ok(vec![
            Content::Attr("a".into()),
            text(" "),
            Content::Hyperlink(Hyperlink { name: "b".into(), url: "c".into() }),
        ])
    );
}

#[test]
fn dash_attribute_and_reference() {
    assert_eq!(
        scan_line("see #tag and @space/ref/er/ence now"),
        Ok(vec![
            text("see "),
            Content::DashAttr("tag".into()),
            text(" and "),
            Content::Reference("space".into(), "ref/er/ence".into()),
            text(" now"),
        ])
    );
}

#[test]
fn lone_hash_and_at_are_text() {
    assert_eq!(scan_line("a # b @ c"), Ok(vec![text("a # b @ c")]));
}

#[test]
fn inline_math() {
    assert_eq!(
        scan_line("so $x + y$ holds"),
        Ok(vec![text("so "), Content::Latex("x + y".into()), text(" holds")])
    );
}

#[test]
fn inline_code_kinds() {
    assert_eq!(
        scan_line("`let x`"),
        Ok(vec![Content::Code(InlineCode::Text("let x".into()))])
    );
    assert_eq!(scan_line("`#ff0080`"), Ok(vec![Content::Code(InlineCode::Color(255, 0, 128))]));
    assert_eq!(scan_line("`#FFffFF`"), Ok(vec![Content::Code(InlineCode::Color(255, 255, 255))]));
    assert_eq!(scan_line("`rgb(0,0,0)`"), Ok(vec![Content::Code(InlineCode::Color(0, 0, 0))]));
    assert_eq!(
        scan_line("`rgb(12,255,7)`"),
        Ok(vec![Content::Code(InlineCode::Color(12, 255, 7))])
    );
    assert_eq!(
        scan_line("`rgb(12,256,7)`"),
        Ok(vec![Content::Code(InlineCode::Text("rgb(12,256,7)".into()))])
    );
    assert_eq!(
        scan_line("`2024/06/29`"),
        Ok(vec![Content::Code(InlineCode::TimeDate(TimeDate::Date(Date {
            year: Some(2024),
            month: Some(6),
            day: Some(29),
        })))])
    );
    assert_eq!(
        scan_line("`2024-06-29 09:19:23`"),
        Ok(vec![Content::Code(InlineCode::TimeDate(TimeDate::DateTime(
            Date { year: Some(2024), month: Some(6), day: Some(29) },
            Time { hour: Some(9), minute: Some(19), second: Some(23) },
        )))])
    );
    assert_eq!(
        scan_line("`09:19:23`"),
        Ok(vec![Content::Code(InlineCode::TimeDate(TimeDate::Time(Time {
            hour: Some(9),
            minute: Some(19),
            second: Some(23),
        })))])
    );
}

#[test]
fn unclosed_emphasis_is_signalled() {
    assert_eq!(scan_line("a * b"), Err(ParseError::NoMarkerMatched));
    assert_eq!(scan_line("snake_case"), Err(ParseError::NoMarkerMatched));
    assert_eq!(scan_line("a ~ b"), Err(ParseError::NoMarkerMatched));
    assert_eq!(scan_line("cost: $5"), Err(ParseError::NoMarkerMatched));
    assert_eq!(scan_line("a ` b"), Err(ParseError::NoMarkerMatched));
    assert_eq!(scan_line("a ~ b **c**"), Err(ParseError::NoMarkerMatched));
}

#[test]
fn unclosed_image_or_link_is_a_hard_error() {
    assert_eq!(scan_line("![alt](link"), Err(ParseError::UnresolvedInlineMarker));
    assert_eq!(scan_line("[name](url"), Err(ParseError::UnresolvedInlineMarker));
    assert_eq!(scan_line("see [name](url and **more**"), Err(ParseError::UnresolvedInlineMarker));
    assert_eq!(scan_line("Hello!"), Err(ParseError::UnresolvedInlineMarker));
    assert_eq!(scan_line("a [ b"), Err(ParseError::UnresolvedInlineMarker));
}

#[test]
fn single_markers_report_a_miss() {
    assert_eq!(
        ContentParser::new("abc").parse_bold_or_ltalic(),
        Err(ParseError::NoMarkerMatched)
    );
    assert_eq!(ContentParser::new("abc").parse_delete(), Err(ParseError::NoMarkerMatched));
    assert_eq!(ContentParser::new("~~abc").parse_delete(), Err(ParseError::NoMarkerMatched));
    assert_eq!(ContentParser::new("abc").parse_image(), Err(ParseError::UnresolvedInlineMarker));
    assert_eq!(
        ContentParser::new("![a](b").parse_image(),
        Err(ParseError::UnresolvedInlineMarker)
    );
}

#[test]
fn a_miss_adds_nothing() {
    let mut parser = ContentParser::new("**b** and ~");
    assert_eq!(parser.parse_bold_or_ltalic(), Ok(5));
    assert_eq!(parser.parse_delete(), Err(ParseError::NoMarkerMatched));
    assert_eq!(parser.parse(), Err(ParseError::NoMarkerMatched));
    assert_eq!(parser.contents(), &vec![Content::Bold("b".into())]);
}

#[test]
fn parser_trims_its_line() {
    let mut parser = ContentParser::new("  \t **b** \n");
    assert_eq!(parser.parse(), Ok(5));
    assert_eq!(parser.into_contents(), vec![Content::Bold("b".into())]);
}

#[test]
fn parse_returns_the_length_in_bytes() {
    let mut parser = ContentParser::new("héllo **wörld**");
    assert_eq!(parser.parse(), Ok(17));
    assert_eq!(parser.contents(), &vec![text("héllo "), Content::Bold("wörld".into())]);
}

#[test]
fn parse_adds_to_what_was_found() {
    let mut parser = ContentParser::new("~~x~~ y");
    assert_eq!(parser.parse_delete(), Ok(5));
    assert_eq!(parser.parse(), Ok(7));
    assert_eq!(
        parser.into_contents(),
        vec![Content::Delete("x".into()), Content::Delete("x".into()), text(" y")]
    );
}

#[test]
fn find_reports_start_and_end() {
    assert_eq!(
        find(Marker::Delete, "ab ~~cd~~ ef"),
        Ok(Some((Content::Delete("cd".into()), 3, 9)))
    );
    assert_eq!(find(Marker::Delete, "ab ~~cd ef"), Ok(None));
    assert_eq!(
        find(Marker::Bold, "é **x**"),
        Ok(Some((Content::Bold("x".into()), 3, 8)))
    );
    assert_eq!(
        find(Marker::Hyperlink, "[a] b [c](d)"),
        Ok(Some((Content::Hyperlink(Hyperlink { name: "c".into(), url: "d".into() }), 6, 12)))
    );
}

#[test]
fn node_from_given_groups() {
    let s = "~~abc ~~";
    assert_eq!(
        node_from(Marker::Delete, s, &vec![Some((0, 8)), Some((2, 6))]),
        Some((Content::Delete("abc ".into()), 0, 8))
    );
    assert_eq!(node_from(Marker::Delete, s, &vec![Some((0, 8))]), None);
    assert_eq!(node_from(Marker::Delete, s, &vec![Some((0, 8)), None]), None);
    assert_eq!(node_from(Marker::Delete, s, &vec![Some((0, 8)), Some((2, 7))]), None);
    assert_eq!(node_from(Marker::Delete, s, &vec![Some((0, 8)), Some((6, 2))]), None);
    assert_eq!(
        node_from(Marker::Delete, s, &vec![Some((0, 8)), Some((2, usize::MAX))]),
        None
    );

    let b = "x**é**";
    assert_eq!(
        node_from(Marker::Bold, b, &vec![Some((1, 7)), Some((1, 7))]),
        Some((Content::Bold("é".into()), 1, 7))
    );
    assert_eq!(node_from(Marker::Bold, b, &vec![Some((1, 7)), Some((1, 4))]), None);
    assert_eq!(node_from(Marker::Bold, b, &vec![Some((1, 7)), Some((2, 6))]), None);
    assert_eq!(
        node_from(Marker::Ltalic, b, &vec![Some((1, 7)), Some((2, 6))]),
        Some((Content::Ltalic("é".into()), 2, 6))
    );

    let i = "![a](b)";
    assert_eq!(
        node_from(Marker::Image, i, &vec![Some((0, 7)), Some((2, 3)), Some((5, 6)), Some((6, 7))]),
        Some((Content::Image(Image { link: "b".into(), alt: "a".into() }), 0, 7))
    );
    assert_eq!(
        node_from(Marker::Image, i, &vec![Some((0, 7)), None, None, Some((6, 7))]),
        Some((Content::Image(Image { link: "".into(), alt: "".into() }), 0, 7))
    );
    assert_eq!(node_from(Marker::Image, i, &vec![Some((0, 7)), Some((2, 3)), Some((5, 6))]), None);

    let r = "@n/p";
    assert_eq!(
        node_from(Marker::Reference, r, &vec![Some((0, 4)), Some((1, 2)), Some((3, 4))]),
        Some((Content::Reference("n".into(), "p".into()), 0, 4))
    );
    assert_eq!(
        node_from(Marker::Code, "`#000001`", &vec![Some((0, 9)), Some((1, 8))]),
        Some((Content::Code(InlineCode::Color(0, 0, 1)), 0, 9))
    );
    assert_eq!(node_from(Marker::Attr, "[x]", &vec![Some((0, 0)), Some((1, 2))]), None);
}

#[test]
fn earlier_of_two_matches() {
    let bold = Some((Content::Bold("b".into()), 3, 8));
    let early = Some((Content::Ltalic("i".into()), 1, 4));
    let tie = Some((Content::Ltalic("i".into()), 3, 6));
    assert_eq!(earlier_of(bold, early), Some((Content::Ltalic("i".into()), 1, 4)));
    let bold = Some((Content::Bold("b".into()), 3, 8));
    assert_eq!(earlier_of(bold, tie), Some((Content::Bold("b".into()), 3, 8)));
    assert_eq!(
        earlier_of(None, Some((Content::Bold("b".into()), 3, 8))),
        Some((Content::Bold("b".into()), 3, 8))
    );
    assert_eq!(
        earlier_of(Some((Content::Bold("b".into()), 3, 8)), None),
        Some((Content::Bold("b".into()), 3, 8))
    );
    assert_eq!(earlier_of(None, None), None);
}

#[test]
fn every_pattern_is_accepted() {
    for k in 0..MARKERS {
        assert!(find(nth_marker(k), "").is_ok(), "{}", pattern(nth_marker(k)));
    }
    assert_eq!(scan_line(""), Ok(vec![]));
}

#[test]
fn first_special_character() {
    assert_eq!(first_special_in("ab [x] *"), Some('['));
    assert_eq!(first_special_in("ab # @ ( )"), None);
    assert_eq!(first_special_in(""), None);
}

fn groups(own: &[(usize, (usize, usize))]) -> Vec<Option<(usize, usize)>> {
    let mut all = vec![None; 18];
    for (group, span) in own {
        all[*group] = Some(*span);
    }
    all
}

#[test]
fn markers_have_their_groups() {
    let firsts: Vec<usize> = (0..MARKERS).map(|k| first_group_of(nth_marker(k))).collect();
    assert_eq!(firsts, vec![1, 2, 3, 4, 7, 10, 11, 12, 13, 14, 15, 16]);
    assert_eq!(find_marker(&groups(&[(0, (0, 5)), (1, (0, 5))])), Some(Marker::Bold));
    assert_eq!(find_marker(&groups(&[(0, (0, 5)), (14, (1, 4))])), Some(Marker::Attr));
    assert_eq!(
        find_marker(&groups(&[(0, (0, 5)), (16, (1, 2)), (17, (3, 5))])),
        Some(Marker::Reference)
    );
    assert_eq!(find_marker(&groups(&[(0, (0, 5)), (2, (0, 5)), (11, (1, 4))])), Some(Marker::Ltalic));
    assert_eq!(find_marker(&groups(&[(0, (0, 5))])), None);
    assert_eq!(find_marker(&vec![]), None);
}

#[test]
fn hit_from_given_groups() {
    assert_eq!(
        hit_from("a **b**", &groups(&[(0, (2, 7)), (1, (2, 7))])),
        Some((Some(Content::Bold("b".into())), 2, 7))
    );
    assert_eq!(
        hit_from("a ~~b~~", &groups(&[(0, (2, 7)), (3, (4, 5))])),
        Some((Some(Content::Delete("b".into())), 2, 7))
    );
    assert_eq!(
        hit_from("![a](b)", &groups(&[(0, (0, 7)), (4, (2, 3)), (5, (5, 6)), (6, (6, 7))])),
        Some((Some(Content::Image(Image { link: "b".into(), alt: "a".into() })), 0, 7))
    );
    assert_eq!(
        hit_from("[a](b)", &groups(&[(0, (0, 6)), (7, (1, 2)), (8, (4, 5))])),
        Some((Some(Content::Hyperlink(Hyperlink { name: "a".into(), url: "b".into() })), 0, 6))
    );
    assert_eq!(hit_from("[a](b", &groups(&[(0, (0, 4)), (9, (0, 4))])), Some((None, 0, 4)));
    assert_eq!(
        hit_from("@n/p", &groups(&[(0, (0, 4)), (16, (1, 2)), (17, (3, 4))])),
        Some((Some(Content::Reference("n".into(), "p".into())), 0, 4))
    );
    assert_eq!(hit_from("a **b**", &groups(&[(0, (2, 7))])), None);
    assert_eq!(hit_from("a **b**", &groups(&[(0, (2, 7)), (1, (2, 8))])), None);
    assert_eq!(hit_from("a **b**", &vec![]), None);
}

#[test]
fn plain_text_between_offsets() {
    assert_eq!(plain_text_of("ab cd", 0, 5), Ok(vec![text("ab cd")]));
    assert_eq!(plain_text_of("ab cd", 2, 2), Ok(vec![]));
    assert_eq!(plain_text_of("ab*cd", 0, 2), Ok(vec![text("ab")]));
    assert_eq!(plain_text_of("ab*cd", 0, 3), Err(ParseError::NoMarkerMatched));
    assert_eq!(plain_text_of("ab!cd", 1, 5), Err(ParseError::UnresolvedInlineMarker));
    assert_eq!(plain_text_of("ab cd", 3, 2), Err(ParseError::NoMarkerMatched));
    assert_eq!(plain_text_of("ab cd", 0, 6), Err(ParseError::NoMarkerMatched));
    assert_eq!(plain_text_of("héllo", 0, 2), Err(ParseError::NoMarkerMatched));
}

#[test]
fn one_step_given_groups() {
    assert_eq!(
        step_with("ab **c** d", &groups(&[(0, (3, 8)), (1, (3, 8))]), 0),
        Ok((vec![text("ab "), Content::Bold("c".into())], 8))
    );
    assert_eq!(
        step_with("ab **c** d", &groups(&[(0, (3, 8)), (1, (3, 8))]), 3),
        Ok((vec![Content::Bold("c".into())], 8))
    );
    assert_eq!(
        step_with("ab **c** d", &groups(&[(0, (3, 8)), (1, (3, 8))]), 4),
        Err(ParseError::NoMarkerMatched)
    );
    assert_eq!(
        step_with("a_ **c** d", &groups(&[(0, (3, 8)), (1, (3, 8))]), 0),
        Err(ParseError::NoMarkerMatched)
    );
    assert_eq!(
        step_with("x [a](b", &groups(&[(0, (2, 6)), (9, (2, 6))]), 0),
        Err(ParseError::UnresolvedInlineMarker)
    );
    assert_eq!(step_with("ab", &vec![], 0), Err(ParseError::NoMarkerMatched));
}

#[test]
fn scan_given_matches() {
    let matches = vec![
        groups(&[(0, (2, 7)), (1, (2, 7))]),
        groups(&[(0, (8, 11)), (14, (9, 10))]),
    ];
    assert_eq!(
        scan_with("a **b** [c] d", &matches),
        Ok(vec![
            text("a "),
            Content::Bold("b".into()),
            text(" "),
            Content::Attr("c".into()),
            text(" d"),
        ])
    );
    assert_eq!(scan_with("a **b** [c] d", &vec![]), Err(ParseError::NoMarkerMatched));
    assert_eq!(scan_with("a b", &vec![]), Ok(vec![text("a b")]));
    assert_eq!(scan_with("", &vec![]), Ok(vec![]));
    let backwards = vec![
        groups(&[(0, (8, 11)), (14, (9, 10))]),
        groups(&[(0, (2, 7)), (1, (2, 7))]),
    ];
    assert_eq!(scan_with("a **b** [c] d", &backwards), Err(ParseError::NoMarkerMatched));
}

#[test]
fn empty_payloads() {
    let mut parser = ContentParser::new("****");
    assert_eq!(parser.parse_bold_or_ltalic(), Ok(4));
    assert_eq!(parser.contents(), &vec![Content::Bold("".into())]);

    let mut parser = ContentParser::new("**");
    assert_eq!(parser.parse_bold_or_ltalic(), Ok(2));
    assert_eq!(parser.contents(), &vec![Content::Ltalic("".into())]);

    let mut parser = ContentParser::new("~~~~ ~~");
    assert_eq!(parser.parse_delete(), Ok(4));
    assert_eq!(parser.contents(), &vec![Content::Delete("".into())]);

    let mut parser = ContentParser::new("![]()");
    assert_eq!(parser.parse_image(), Ok(5));
    assert_eq!(
        parser.contents(),
        &vec![Content::Image(Image { link: "".into(), alt: "".into() })]
    );
    assert_eq!(scan_line("$$ `` []"), Ok(vec![
        Content::Latex("".into()),
        text(" "),
        Content::Code(InlineCode::Text("".into())),
        text(" "),
        Content::Attr("".into()),
    ]));
}

#[test]
fn scan_pattern_is_the_patterns_of_the_markers() {
    let mut parts: Vec<String> = Vec::new();
    for k in 0..MARKERS {
        let marker = nth_marker(k);
        parts.push(pattern(marker).to_string());
        if marker == Marker::Hyperlink {
            parts.push(r"(\[[^\]]*\]\()".to_string());
        }
    }
    assert_eq!(SCAN_PATTERN, parts.join("|"));
    assert_eq!(OPEN_LINK_GROUP, first_group_of(Marker::Hyperlink) + 2);
}

#[test]
fn non_ascii_text_in_markers() {
    assert_eq!(
        scan_line("日本 **太字** と [リンク](https://例え.jp/パス) です"),
        Ok(vec![
            text("日本 "),
            Content::Bold("太字".into()),
            text(" と "),
            Content::Hyperlink(Hyperlink { name: "リンク".into(), url: "https://例え.jp/パス".into() }),
            text(" です"),
        ])
    );
}
