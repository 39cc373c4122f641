//! What stands between two backticks: a colour, a date, a time, or text.

use vstd::prelude::*;
use crate::elems::content::{Date, InlineCode, InlineCodeView, Time, TimeDate};
use crate::text::{copy_range, find_char, index_of, is_digit, is_digit_char, lemma_chars_deep_view};
use crate::text::{split, split_chars, string_of};

verus! {

/// The number that the digit `c` stands for.
pub open spec fn digit_value(c: char) -> nat {
    (c as u32 - 0x30) as nat
}

/// The number that a text of decimal digits stands for.
pub open spec fn number_value(s: Seq<char>) -> nat
    decreases s.len(),
{
    if s.len() == 0 {
        0
    } else {
        number_value(s.drop_last()) * 10 + digit_value(s.last())
    }
}

/// Whether `s` is a number of at most `most` decimal digits.
pub open spec fn is_number(s: Seq<char>, most: int) -> bool {
    1 <= s.len() <= most && forall|i: int| 0 <= i < s.len() ==> is_digit(#[trigger] s[i])
}

/// The number that `v` is written as, where it is one of up to `most`
/// decimal digits.
pub(crate) fn number_of(v: &Vec<char>, most: usize) -> (n: Option<u32>)
    requires
        most <= 4,
    ensures
        n is Some == is_number(v@, most as int),
        n matches Some(value) ==> value == number_value(v@) && value <= 9999,
{
    if v.len() < 1 || v.len() > most {
        return None;
    }
    let mut acc: u32 = 0;
    let mut i: usize = 0;
    while i < v.len()
        invariant
            i <= v.len() <= 4,
            acc == number_value(v@.take(i as int)),
            forall|k: int| 0 <= k < i ==> is_digit(#[trigger] v@[k]),
            i == 0 ==> acc == 0,
            i == 1 ==> acc <= 9,
            i == 2 ==> acc <= 99,
            i == 3 ==> acc <= 999,
            i == 4 ==> acc <= 9999,
        decreases v.len() - i,
    {
        let c = v[i];
        if !is_digit_char(c) {
            return None;
        }
        let d: u32 = c as u32 - 0x30;
        proof {
            assert(v@.take(i + 1).drop_last() =~= v@.take(i as int));
            assert(v@.take(i + 1).last() == c);
        }
        acc = acc * 10 + d;
        i += 1;
    }
    proof {
        assert(v@.take(v.len() as int) =~= v@);
    }
    Some(acc)
}

/// Whether `c` is a hexadecimal digit.
pub open spec fn is_hex(c: char) -> bool {
    is_digit(c) || ('a' <= c <= 'f') || ('A' <= c <= 'F')
}

/// The number that the hexadecimal digit `c` stands for.
pub open spec fn hex_value(c: char) -> nat {
    if is_digit(c) {
        (c as u32 - 0x30) as nat
    } else if 'a' <= c <= 'f' {
        (c as u32 - 0x61 + 10) as nat
    } else {
        (c as u32 - 0x41 + 10) as nat
    }
}

fn hex_of(c: char) -> (n: Option<u8>)
    ensures
        n is Some == is_hex(c),
        n matches Some(value) ==> value == hex_value(c) && value <= 15,
{
    let u: u32 = c as u32;
    if 0x30 <= u && u <= 0x39 {
        Some((u - 0x30) as u8)
    } else if 0x61 <= u && u <= 0x66 {
        Some((u - 0x61 + 10) as u8)
    } else if 0x41 <= u && u <= 0x46 {
        Some((u - 0x41 + 10) as u8)
    } else {
        None
    }
}

/// The colour written as `#` and six hexadecimal digits.
pub open spec fn hex_color(s: Seq<char>) -> Option<(u8, u8, u8)> {
    if s.len() == 7 && s[0] == '#' && forall|i: int| 1 <= i < 7 ==> is_hex(#[trigger] s[i]) {
        Some(
            (
                (hex_value(s[1]) * 16 + hex_value(s[2])) as u8,
                (hex_value(s[3]) * 16 + hex_value(s[4])) as u8,
                (hex_value(s[5]) * 16 + hex_value(s[6])) as u8,
            ),
        )
    } else {
        None
    }
}

fn hex_pair(v: &Vec<char>, at: usize) -> (n: Option<u8>)
    requires
        at + 1 < v.len(),
    ensures
        n is Some == (is_hex(v@[at as int]) && is_hex(v@[at + 1])),
        n matches Some(value) ==> value == hex_value(v@[at as int]) * 16 + hex_value(v@[at + 1]),
{
    match (hex_of(v[at]), hex_of(v[at + 1])) {
        (Some(high), Some(low)) => Some(high * 16 + low),
        _ => None,
    }
}

/// The colour that `v` is written as with `#`.
pub fn hex_color_of(v: &Vec<char>) -> (color: Option<(u8, u8, u8)>)
    ensures
        color == hex_color(v@),
{
    if v.len() != 7 || v[0] != '#' {
        return None;
    }
    match (hex_pair(v, 1), hex_pair(v, 3), hex_pair(v, 5)) {
        (Some(r), Some(g), Some(b)) => {
            proof {
                assert forall|i: int| 1 <= i < 7 implies is_hex(#[trigger] v@[i]) by {
                    if i == 1 || i == 3 || i == 5 {
                    } else {
                        assert(is_hex(v@[(i - 1) + 1]));
                    }
                }
            }
            Some((r, g, b))
        },
        _ => None,
    }
}

/// The colour written as `rgb(`, three numbers of at most 255 with commas
/// between them, and `)`.
pub open spec fn rgb_color(s: Seq<char>) -> Option<(u8, u8, u8)> {
    if s.len() >= 5 && s[0] == 'r' && s[1] == 'g' && s[2] == 'b' && s[3] == '(' && s.last()
        == ')' {
        let parts = split(s.subrange(4, s.len() - 1), ',');
        if parts.len() == 3 && is_number(parts[0], 3) && is_number(parts[1], 3) && is_number(
            parts[2],
            3,
        ) && number_value(parts[0]) <= 255 && number_value(parts[1]) <= 255 && number_value(
            parts[2],
        ) <= 255 {
            Some(
                (
                    number_value(parts[0]) as u8,
                    number_value(parts[1]) as u8,
                    number_value(parts[2]) as u8,
                ),
            )
        } else {
            None
        }
    } else {
        None
    }
}

/// The number that `v` is written as, where it is one of up to `most`
/// digits and at most `limit`.
fn small_number_of(v: &Vec<char>, most: usize, limit: u32) -> (n: Option<u8>)
    requires
        most <= 4,
        limit <= 255,
    ensures
        n is Some == (is_number(v@, most as int) && number_value(v@) <= limit),
        n matches Some(value) ==> value == number_value(v@),
{
    match number_of(v, most) {
        Some(value) => if value <= limit {
            Some(value as u8)
        } else {
            None
        },
        None => None,
    }
}

/// The colour that `v` is written as with `rgb(..)`.
pub fn rgb_color_of(v: &Vec<char>) -> (color: Option<(u8, u8, u8)>)
    ensures
        color == rgb_color(v@),
{
    let n = v.len();
    if n < 5 || v[0] != 'r' || v[1] != 'g' || v[2] != 'b' || v[3] != '(' || v[n - 1] != ')' {
        return None;
    }
    let inner = copy_range(v, 4, n - 1);
    let parts = split_chars(&inner, ',');
    if parts.len() != 3 {
        return None;
    }
    proof {
        lemma_chars_deep_view(parts[0]);
        lemma_chars_deep_view(parts[1]);
        lemma_chars_deep_view(parts[2]);
    }
    match (
        small_number_of(&parts[0], 3, 255),
        small_number_of(&parts[1], 3, 255),
        small_number_of(&parts[2], 3, 255),
    ) {
        (Some(r), Some(g), Some(b)) => Some((r, g, b)),
        _ => None,
    }
}

/// The date that `s` is written as: a year of four digits, a month and a
/// day of one or two, with `/` between them, or with `-`; the year or the
/// day may be left out.
pub open spec fn date_of(s: Seq<char>) -> Option<Date> {
    let sep = if index_of(s, 0, '/') < s.len() {
        '/'
    } else {
        '-'
    };
    let p = split(s, sep);
    if p.len() == 3 && p[0].len() == 4 && is_number(p[0], 4) && is_number(p[1], 2) && is_number(
        p[2],
        2,
    ) {
        Some(
            Date {
                year: Some(number_value(p[0]) as u16),
                month: Some(number_value(p[1]) as u8),
                day: Some(number_value(p[2]) as u8),
            },
        )
    } else if p.len() == 2 && p[0].len() == 4 && is_number(p[0], 4) && is_number(p[1], 2) {
        Some(
            Date {
                year: Some(number_value(p[0]) as u16),
                month: Some(number_value(p[1]) as u8),
                day: None,
            },
        )
    } else if p.len() == 2 && is_number(p[0], 2) && is_number(p[1], 2) {
        Some(
            Date {
                year: None,
                month: Some(number_value(p[0]) as u8),
                day: Some(number_value(p[1]) as u8),
            },
        )
    } else {
        None
    }
}

/// The year that `v` is written as, in four digits.
fn year_of(v: &Vec<char>) -> (n: Option<u16>)
    ensures
        n is Some == (v@.len() == 4 && is_number(v@, 4)),
        n matches Some(value) ==> value == number_value(v@),
{
    if v.len() != 4 {
        return None;
    }
    match number_of(v, 4) {
        Some(value) => Some(value as u16),
        None => None,
    }
}

/// The date that `v` is written as.
pub fn parse_date(v: &Vec<char>) -> (date: Option<Date>)
    ensures
        date == date_of(v@),
{
    let sep = if find_char(v, 0, '/') < v.len() {
        '/'
    } else {
        '-'
    };
    let p = split_chars(v, sep);
    proof {
        if p.len() >= 1 {
            lemma_chars_deep_view(p[0]);
        }
        if p.len() >= 2 {
            lemma_chars_deep_view(p[1]);
        }
        if p.len() >= 3 {
            lemma_chars_deep_view(p[2]);
        }
    }
    if p.len() == 3 {
        match (year_of(&p[0]), small_number_of(&p[1], 2, 99), small_number_of(&p[2], 2, 99)) {
            (Some(y), Some(m), Some(d)) => {
                proof {
                    lemma_two_digits(p[1]@);
                    lemma_two_digits(p[2]@);
                }
                Some(Date { year: Some(y), month: Some(m), day: Some(d) })
            },
            _ => {
                proof {
                    lemma_two_digits(p[1]@);
                    lemma_two_digits(p[2]@);
                }
                None
            },
        }
    } else if p.len() == 2 {
        proof {
            lemma_two_digits(p[0]@);
            lemma_two_digits(p[1]@);
        }
        match (year_of(&p[0]), small_number_of(&p[1], 2, 99)) {
            (Some(y), Some(m)) => Some(Date { year: Some(y), month: Some(m), day: None }),
            _ => match (small_number_of(&p[0], 2, 99), small_number_of(&p[1], 2, 99)) {
                (Some(m), Some(d)) => Some(Date { year: None, month: Some(m), day: Some(d) }),
                _ => None,
            },
        }
    } else {
        None
    }
}

/// A number of one or two digits is at most 99.
proof fn lemma_two_digits(s: Seq<char>)
    ensures
        is_number(s, 2) ==> number_value(s) <= 99,
{
    reveal_with_fuel(number_value, 3);
    if is_number(s, 2) {
        assert(is_digit(s[0]));
        if s.len() == 2 {
            assert(is_digit(s[1]));
            assert(s.drop_last().last() == s[0]);
        }
    }
}

/// The time that `s` is written as: hours, minutes and seconds of one or
/// two digits each with `:` between them; the seconds may be left out.
pub open spec fn time_of(s: Seq<char>) -> Option<Time> {
    let p = split(s, ':');
    if p.len() == 3 && is_number(p[0], 2) && is_number(p[1], 2) && is_number(p[2], 2) {
        Some(
            Time {
                hour: Some(number_value(p[0]) as u8),
                minute: Some(number_value(p[1]) as u8),
                second: Some(number_value(p[2]) as u8),
            },
        )
    } else if p.len() == 2 && is_number(p[0], 2) && is_number(p[1], 2) {
        Some(
            Time {
                hour: Some(number_value(p[0]) as u8),
                minute: Some(number_value(p[1]) as u8),
                second: None,
            },
        )
    } else {
        None
    }
}

/// The time that `v` is written as.
pub fn parse_time(v: &Vec<char>) -> (time: Option<Time>)
    ensures
        time == time_of(v@),
{
    let p = split_chars(v, ':');
    proof {
        if p.len() >= 1 {
            lemma_chars_deep_view(p[0]);
            lemma_two_digits(p[0]@);
        }
        if p.len() >= 2 {
            lemma_chars_deep_view(p[1]);
            lemma_two_digits(p[1]@);
        }
        if p.len() >= 3 {
            lemma_chars_deep_view(p[2]);
            lemma_two_digits(p[2]@);
        }
    }
    if p.len() == 3 {
        match (
            small_number_of(&p[0], 2, 99),
            small_number_of(&p[1], 2, 99),
            small_number_of(&p[2], 2, 99),
        ) {
            (Some(h), Some(m), Some(s)) => Some(
                Time { hour: Some(h), minute: Some(m), second: Some(s) },
            ),
            _ => None,
        }
    } else if p.len() == 2 {
        match (small_number_of(&p[0], 2, 99), small_number_of(&p[1], 2, 99)) {
            (Some(h), Some(m)) => Some(Time { hour: Some(h), minute: Some(m), second: None }),
            _ => None,
        }
    } else {
        None
    }
}

/// The date, the time, or the date and time that `s` is written as: a
/// date, a time, or a date, one space and a time.
pub open spec fn time_date_of(s: Seq<char>) -> Option<TimeDate> {
    let at = index_of(s, 0, ' ');
    if 0 <= at < s.len() {
        match (date_of(s.subrange(0, at)), time_of(s.subrange(at + 1, s.len() as int))) {
            (Some(d), Some(t)) => Some(TimeDate::DateTime(d, t)),
            _ => None,
        }
    } else {
        match date_of(s) {
            Some(d) => Some(TimeDate::Date(d)),
            None => match time_of(s) {
                Some(t) => Some(TimeDate::Time(t)),
                None => None,
            },
        }
    }
}

/// The date, the time, or the date and time that `v` is written as.
pub fn parse_time_date(v: &Vec<char>) -> (found: Option<TimeDate>)
    ensures
        found == time_date_of(v@),
{
    let at = find_char(v, 0, ' ');
    if at < v.len() {
        let head = copy_range(v, 0, at);
        let tail = copy_range(v, at + 1, v.len());
        match (parse_date(&head), parse_time(&tail)) {
            (Some(d), Some(t)) => Some(TimeDate::DateTime(d, t)),
            _ => None,
        }
    } else {
        match parse_date(v) {
            Some(d) => Some(TimeDate::Date(d)),
            None => match parse_time(v) {
                Some(t) => Some(TimeDate::Time(t)),
                None => None,
            },
        }
    }
}

/// What a code span with the text `s` holds: a colour where `s` is written
/// as one, else a date or a time where it is written as one, else `s`
/// itself.
pub open spec fn code_body(s: Seq<char>) -> InlineCodeView {
    match hex_color(s) {
        Some((r, g, b)) => InlineCodeView::Color(r, g, b),
        None => match rgb_color(s) {
            Some((r, g, b)) => InlineCodeView::Color(r, g, b),
            None => match time_date_of(s) {
                Some(t) => InlineCodeView::TimeDate(t),
                None => InlineCodeView::Text(s),
            },
        },
    }
}

/// What a code span with the text `v` holds.
pub fn classify_code(v: &Vec<char>) -> (body: InlineCode)
    ensures
        body@ == code_body(v@),
{
    match hex_color_of(v) {
        Some((r, g, b)) => InlineCode::Color(r, g, b),
        None => match rgb_color_of(v) {
            Some((r, g, b)) => InlineCode::Color(r, g, b),
            None => match parse_time_date(v) {
                Some(t) => InlineCode::TimeDate(t),
                None => InlineCode::Text(string_of(v)),
            },
        },
    }
}

} // verus!
