use markdown_ast::elems::{Date, InlineCode, Time, TimeDate};
use markdown_ast::parser::code::{classify_code, hex_color_of, parse_date, parse_time};
use markdown_ast::parser::code::{parse_time_date, rgb_color_of};

fn chars(s: &str) -> Vec<char> {
    s.chars().collect()
}

#[test]
fn hex_colors() {
    assert_eq!(hex_color_of(&chars("#ffffff")), Some((255, 255, 255)));
    assert_eq!(hex_color_of(&chars("#000000")), Some((0, 0, 0)));
    assert_eq!(hex_color_of(&chars("#1a2B3c")), Some((0x1a, 0x2b, 0x3c)));
    assert_eq!(hex_color_of(&chars("#fffff")), None);
    assert_eq!(hex_color_of(&chars("#fffffff")), None);
    assert_eq!(hex_color_of(&chars("#gggggg")), None);
    assert_eq!(hex_color_of(&chars("ffffff")), None);
    assert_eq!(hex_color_of(&chars("0ffffff")), None);
}

#[test]
fn rgb_colors() {
    assert_eq!(rgb_color_of(&chars("rgb(0,0,0)")), Some((0, 0, 0)));
    assert_eq!(rgb_color_of(&chars("rgb(255,128,7)")), Some((255, 128, 7)));
    assert_eq!(rgb_color_of(&chars("rgb(256,0,0)")), None);
    assert_eq!(rgb_color_of(&chars("rgb(0,0)")), None);
    assert_eq!(rgb_color_of(&chars("rgb(0,0,0,0)")), None);
    assert_eq!(rgb_color_of(&chars("rgb(0, 0, 0)")), None);
    assert_eq!(rgb_color_of(&chars("rgb(0,0,0")), None);
    assert_eq!(rgb_color_of(&chars("rgb()")), None);
    assert_eq!(rgb_color_of(&chars("rgb(")), None);
    assert_eq!(rgb_color_of(&chars("rgb(1,,2)")), None);
    assert_eq!(rgb_color_of(&chars("hsl(0,0,0)")), None);
}

#[test]
fn dates() {
    let full = Date { year: Some(2024), month: Some(6), day: Some(29) };
    assert_eq!(parse_date(&chars("2024/06/29")), Some(full));
    assert_eq!(parse_date(&chars("2024-06-29")), Some(full));
    assert_eq!(parse_date(&chars("2024/6/29")), Some(full));
    assert_eq!(
        parse_date(&chars("2024/09")),
        Some(Date { year: Some(2024), month: Some(9), day: None })
    );
    assert_eq!(
        parse_date(&chars("09/19")),
        Some(Date { year: None, month: Some(9), day: Some(19) })
    );
    assert_eq!(
        parse_date(&chars("9-1")),
        Some(Date { year: None, month: Some(9), day: Some(1) })
    );
    assert_eq!(parse_date(&chars("2024")), None);
    assert_eq!(parse_date(&chars("2024/06-29")), None);
    assert_eq!(parse_date(&chars("24/06/29")), None);
    assert_eq!(parse_date(&chars("2024/06/29/1")), None);
    assert_eq!(parse_date(&chars("2024/123")), None);
    assert_eq!(parse_date(&chars("123/1")), None);
    assert_eq!(parse_date(&chars("2024//29")), None);
    assert_eq!(parse_date(&chars("")), None);
}

#[test]
fn times() {
    assert_eq!(
        parse_time(&chars("09:19:23")),
        Some(Time { hour: Some(9), minute: Some(19), second: Some(23) })
    );
    assert_eq!(
        parse_time(&chars("9:05")),
        Some(Time { hour: Some(9), minute: Some(5), second: None })
    );
    assert_eq!(parse_time(&chars("09")), None);
    assert_eq!(parse_time(&chars("09:19:23:01")), None);
    assert_eq!(parse_time(&chars("09:190")), None);
    assert_eq!(parse_time(&chars("09:")), None);
}

#[test]
fn dates_and_times() {
    let date = Date { year: Some(2024), month: Some(6), day: Some(29) };
    let time = Time { hour: Some(9), minute: Some(19), second: Some(23) };
    assert_eq!(parse_time_date(&chars("2024/06/29 09:19:23")), Some(TimeDate::DateTime(date, time)));
    assert_eq!(parse_time_date(&chars("2024-06-29 09:19:23")), Some(TimeDate::DateTime(date, time)));
    assert_eq!(parse_time_date(&chars("2024/06/29")), Some(TimeDate::Date(date)));
    assert_eq!(parse_time_date(&chars("09:19:23")), Some(TimeDate::Time(time)));
    assert_eq!(parse_time_date(&chars("2024/06/29  09:19:23")), None);
    assert_eq!(parse_time_date(&chars("2024/06/29 ")), None);
    assert_eq!(parse_time_date(&chars("09:19:23 2024/06/29")), None);
    assert_eq!(parse_time_date(&chars("tomorrow")), None);
}

#[test]
fn code_bodies() {
    assert_eq!(classify_code(&chars("#102030")), InlineCode::Color(16, 32, 48));
    assert_eq!(classify_code(&chars("rgb(1,2,3)")), InlineCode::Color(1, 2, 3));
    assert_eq!(
        classify_code(&chars("12:30")),
        InlineCode::TimeDate(TimeDate::Time(Time { hour: Some(12), minute: Some(30), second: None }))
    );
    assert_eq!(classify_code(&chars("*/5 * * * *")), InlineCode::Text("*/5 * * * *".into()));
    assert_eq!(classify_code(&chars("")), InlineCode::Text("".into()));
}
