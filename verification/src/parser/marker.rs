//! The inline markers: the pattern of each, and the content that a match
//! of it stands for.

use vstd::prelude::*;
use crate::elems::content::{Content, ContentView, Hyperlink, HyperlinkView, Image, ImageView};
use crate::error::ParseError;
use crate::parser::code::{classify_code, code_body};
use crate::pattern::{regex_accepts, regex_all_captures, search_all};
use crate::text::{byte_slice, chars_of, span_text, valid_span};

verus! {
/// The inline markers. Of two that match at the same place, the one that
/// stands first here is taken.
#[derive(Debug, PartialEq, Eq, Clone, Copy, Structural)]
pub enum Marker {
    Bold,
    Ltalic,
    Delete,
    Image,
    Hyperlink,
    Latex,
    Code,
    FootnoteAttr,
    WarningAttr,
    Attr,
    DashAttr,
    Reference,
}

/// Bold text: the shortest text between two `**`, or between two `__`.
pub const BOLD_PATTERN: &'static str = r"(\*\*.*?\*\*|\_\_.*?\_\_)";

/// Italic text: the shortest text between two `*`, or between two `_`.
pub const LTALIC_PATTERN: &'static str = r"(\*.*?\*|\_.*?\_)";

/// Deleted text: the shortest text between two `~~`.
pub const DELETE_PATTERN: &'static str = r"~~(.*?)~~";

/// An image: `!`, the shortest text in brackets, and the shortest text in
/// parentheses.
pub const IMAGE_PATTERN: &'static str = r"!\[(.*?)\]\((.*?)(\))";

/// A link: a text without `]` in brackets, and a text without `)` in
/// parentheses.
pub const HYPERLINK_PATTERN: &'static str = r"\[([^\]]*)\]\(([^)]*)\)";

/// Inline math: the shortest text between two `$`.
pub const LATEX_PATTERN: &'static str = r"\$(.*?)\$";

/// Inline code: the shortest text between two backticks.
pub const CODE_PATTERN: &'static str = r"`(.*?)`";

/// A footnote: `^` and a text without `]`, in brackets.
pub const FOOTNOTE_PATTERN: &'static str = r"\[\^([^\]]*)\]";

/// A warning: `!` and a text without `]`, in brackets.
pub const WARNING_PATTERN: &'static str = r"\[!([^\]]*)\]";

/// An attribute: a text without `]` in brackets.
pub const ATTR_PATTERN: &'static str = r"\[([^\]]*)\]";

/// A tag: `#` and a text without white space and without `#`.
pub const DASH_PATTERN: &'static str = r"#([^\s#]+)";

/// A reference: `@`, a name space without white space and without `/`, `/`,
/// and a path without white space.
pub const REFERENCE_PATTERN: &'static str = r"@([^\s/]+)/(\S+)";

/// The number of markers.
pub const MARKERS: usize = 12;

/// The pattern of each marker.
pub open spec fn pattern_text(marker: Marker) -> Seq<char> {
    match marker {
        Marker::Bold => BOLD_PATTERN@,
        Marker::Ltalic => LTALIC_PATTERN@,
        Marker::Delete => DELETE_PATTERN@,
        Marker::Image => IMAGE_PATTERN@,
        Marker::Hyperlink => HYPERLINK_PATTERN@,
        Marker::Latex => LATEX_PATTERN@,
        Marker::Code => CODE_PATTERN@,
        Marker::FootnoteAttr => FOOTNOTE_PATTERN@,
        Marker::WarningAttr => WARNING_PATTERN@,
        Marker::Attr => ATTR_PATTERN@,
        Marker::DashAttr => DASH_PATTERN@,
        Marker::Reference => REFERENCE_PATTERN@,
    }
}

/// The pattern of `marker`.
pub fn pattern(marker: Marker) -> (p: &'static str)
    ensures
        p@ == pattern_text(marker),
{
    match marker {
        Marker::Bold => BOLD_PATTERN,
        Marker::Ltalic => LTALIC_PATTERN,
        Marker::Delete => DELETE_PATTERN,
        Marker::Image => IMAGE_PATTERN,
        Marker::Hyperlink => HYPERLINK_PATTERN,
        Marker::Latex => LATEX_PATTERN,
        Marker::Code => CODE_PATTERN,
        Marker::FootnoteAttr => FOOTNOTE_PATTERN,
        Marker::WarningAttr => WARNING_PATTERN,
        Marker::Attr => ATTR_PATTERN,
        Marker::DashAttr => DASH_PATTERN,
        Marker::Reference => REFERENCE_PATTERN,
    }
}

/// The marker at each place in the order of the markers.
pub open spec fn marker_at(k: int) -> Marker {
    if k <= 0 {
        Marker::Bold
    } else if k == 1 {
        Marker::Ltalic
    } else if k == 2 {
        Marker::Delete
    } else if k == 3 {
        Marker::Image
    } else if k == 4 {
        Marker::Hyperlink
    } else if k == 5 {
        Marker::Latex
    } else if k == 6 {
        Marker::Code
    } else if k == 7 {
        Marker::FootnoteAttr
    } else if k == 8 {
        Marker::WarningAttr
    } else if k == 9 {
        Marker::Attr
    } else if k == 10 {
        Marker::DashAttr
    } else {
        Marker::Reference
    }
}

/// The marker at place `k` in the order of the markers.
pub fn nth_marker(k: usize) -> (marker: Marker)
    ensures
        marker == marker_at(k as int),
{
    if k == 0 {
        Marker::Bold
    } else if k == 1 {
        Marker::Ltalic
    } else if k == 2 {
        Marker::Delete
    } else if k == 3 {
        Marker::Image
    } else if k == 4 {
        Marker::Hyperlink
    } else if k == 5 {
        Marker::Latex
    } else if k == 6 {
        Marker::Code
    } else if k == 7 {
        Marker::FootnoteAttr
    } else if k == 8 {
        Marker::WarningAttr
    } else if k == 9 {
        Marker::Attr
    } else if k == 10 {
        Marker::DashAttr
    } else {
        Marker::Reference
    }
}

/// Group `i` of a match, where the match has such a group and it took part.
pub open spec fn group_at(groups: Seq<Option<(usize, usize)>>, i: int) -> Option<(usize, usize)> {
    if 0 <= i < groups.len() {
        groups[i]
    } else {
        None
    }
}

/// The text of a group, where the group took part and its offsets cut a
/// piece out of `s`.
pub open spec fn group_text(s: Seq<char>, group: Option<(usize, usize)>) -> Option<Seq<char>> {
    match group {
        Some((a, b)) => if valid_span(s, a as int, b as int) {
            Some(span_text(s, a as int, b as int))
        } else {
            None
        },
        None => None,
    }
}

/// The text of a group, or the empty text for a group that took no part.
pub open spec fn group_text_or_empty(s: Seq<char>, group: Option<(usize, usize)>) -> Option<
    Seq<char>,
> {
    match group {
        Some(_) => group_text(s, group),
        None => Some(Seq::empty()),
    }
}

/// The extent of a match: from `start` up to `end`, where that is a piece
/// of `s` and not empty.
pub open spec fn extent(s: Seq<char>, start: int, end: int) -> Option<(usize, usize)> {
    if start < end <= usize::MAX && valid_span(s, start, end) {
        Some((start as usize, end as usize))
    } else {
        None
    }
}

/// What is between the two delimiters of `width` bytes each that the match
/// from `a` to `b` begins and ends with.
pub open spec fn inner_text(s: Seq<char>, a: int, b: int, width: int) -> Option<Seq<char>> {
    if a + 2 * width <= b && valid_span(s, a + width, b - width) {
        Some(span_text(s, a + width, b - width))
    } else {
        None
    }
}

/// The content that a match of `marker`'s pattern in `s` stands for, with
/// the byte offsets at which the match starts and ends, given the groups of
/// the match. `None` where the groups are not those of a match in `s`.
///
/// Bold and italic text is the first group without its delimiters. Deleted
/// text is the first group, and its match ends two bytes after the group.
/// An image's match ends where its third group ends. Every other match
/// starts and ends with group 0.
pub open spec fn match_from(marker: Marker, s: Seq<char>, groups: Seq<Option<(usize, usize)>>) -> Option<
    (ContentView, usize, usize),
> {
    let whole = group_at(groups, 0);
    let first = group_at(groups, 1);
    let second = group_at(groups, 2);
    match marker {
        Marker::Bold => match first {
            Some((a, b)) => match (extent(s, a as int, b as int), inner_text(s, a as int, b as int, 2)) {
                (Some((start, end)), Some(text)) => Some((ContentView::Bold(text), start, end)),
                _ => None,
            },
            None => None,
        },
        Marker::Ltalic => match first {
            Some((a, b)) => match (extent(s, a as int, b as int), inner_text(s, a as int, b as int, 1)) {
                (Some((start, end)), Some(text)) => Some((ContentView::Ltalic(text), start, end)),
                _ => None,
            },
            None => None,
        },
        Marker::Delete => match (whole, first) {
            (Some((a, _)), Some((_, b))) => match (extent(s, a as int, b + 2), group_text(s, first)) {
                (Some((start, end)), Some(text)) => Some((ContentView::Delete(text), start, end)),
                _ => None,
            },
            _ => None,
        },
        Marker::Image => match (whole, group_at(groups, 3)) {
            (Some((a, _)), Some((_, b))) => match (
                extent(s, a as int, b as int),
                group_text_or_empty(s, first),
                group_text_or_empty(s, second),
            ) {
                (Some((start, end)), Some(alt), Some(link)) => Some(
                    (ContentView::Image(ImageView { link, alt }), start, end),
                ),
                _ => None,
            },
            _ => None,
        },
        Marker::Hyperlink => match (whole_extent(s, whole), group_text(s, first), group_text(s, second)) {
            (Some((start, end)), Some(name), Some(url)) => Some(
                (ContentView::Hyperlink(HyperlinkView { name, url }), start, end),
            ),
            _ => None,
        },
        Marker::Reference => match (whole_extent(s, whole), group_text(s, first), group_text(s, second)) {
            (Some((start, end)), Some(space), Some(path)) => Some(
                (ContentView::Reference(space, path), start, end),
            ),
            _ => None,
        },
        _ => match (whole_extent(s, whole), group_text(s, first)) {
            (Some((start, end)), Some(text)) => Some((plain_node(marker, text), start, end)),
            _ => None,
        },
    }
}

/// The extent of a match that starts and ends with its group 0.
pub open spec fn whole_extent(s: Seq<char>, whole: Option<(usize, usize)>) -> Option<(usize, usize)> {
    match whole {
        Some((a, b)) => extent(s, a as int, b as int),
        None => None,
    }
}

/// The content of a marker that holds one text.
pub open spec fn plain_node(marker: Marker, text: Seq<char>) -> ContentView {
    match marker {
        Marker::Latex => ContentView::Latex(text),
        Marker::Code => ContentView::Code(code_body(text)),
        Marker::FootnoteAttr => ContentView::FootnoteAttr(text),
        Marker::WarningAttr => ContentView::WarningAttr(text),
        Marker::Attr => ContentView::Attr(text),
        Marker::DashAttr => ContentView::DashAttr(text),
        Marker::Delete => ContentView::Delete(text),
        Marker::Bold => ContentView::Bold(text),
        _ => ContentView::Ltalic(text),
    }
}

pub(crate) fn group_of(groups: &Vec<Option<(usize, usize)>>, i: usize) -> (group: Option<(usize, usize)>)
    ensures
        group == group_at(groups@, i as int),
{
    if i < groups.len() {
        groups[i]
    } else {
        None
    }
}

fn text_of_group(s: &str, group: Option<(usize, usize)>) -> (text: Option<String>)
    ensures
        text.deep_view() == group_text(s@, group),
{
    match group {
        Some((a, b)) => match byte_slice(s, a, b) {
            Some(piece) => Some(piece.to_owned()),
            None => None,
        },
        None => None,
    }
}

fn text_of_group_or_empty(s: &str, group: Option<(usize, usize)>) -> (text: Option<String>)
    ensures
        text.deep_view() == group_text_or_empty(s@, group),
{
    match group {
        Some(_) => text_of_group(s, group),
        None => Some(String::new()),
    }
}

fn extent_of(s: &str, start: usize, end: usize) -> (e: Option<(usize, usize)>)
    ensures
        e == extent(s@, start as int, end as int),
{
    if start < end && byte_slice(s, start, end).is_some() {
        Some((start, end))
    } else {
        None
    }
}

fn extent_of_whole(s: &str, whole: Option<(usize, usize)>) -> (e: Option<(usize, usize)>)
    ensures
        e == whole_extent(s@, whole),
{
    match whole {
        Some((a, b)) => extent_of(s, a, b),
        None => None,
    }
}

fn inner_of(s: &str, a: usize, b: usize, width: usize) -> (text: Option<String>)
    requires
        width <= 2,
    ensures
        text.deep_view() == inner_text(s@, a as int, b as int, width as int),
{
    if b >= 2 * width && a <= b - 2 * width {
        match byte_slice(s, a + width, b - width) {
            Some(piece) => Some(piece.to_owned()),
            None => None,
        }
    } else {
        None
    }
}

fn plain(marker: Marker, text: String) -> (node: Content)
    ensures
        node@ == plain_node(marker, text@),
{
    match marker {
        Marker::Latex => Content::Latex(text),
        Marker::Code => {
            let chars = chars_of(text.as_str());
            Content::Code(classify_code(&chars))
        },
        Marker::FootnoteAttr => Content::FootnoteAttr(text),
        Marker::WarningAttr => Content::WarningAttr(text),
        Marker::Attr => Content::Attr(text),
        Marker::DashAttr => Content::DashAttr(text),
        Marker::Delete => Content::Delete(text),
        Marker::Bold => Content::Bold(text),
        _ => Content::Ltalic(text),
    }
}

/// The content that a match of `marker` in `s` stands for, from the groups
/// of the match.
pub fn node_from(marker: Marker, s: &str, groups: &Vec<Option<(usize, usize)>>) -> (hit: Option<
    (Content, usize, usize),
>)
    ensures
        hit.deep_view() == match_from(marker, s@, groups@),
{
    let whole = group_of(groups, 0);
    let first = group_of(groups, 1);
    let second = group_of(groups, 2);
    match marker {
        Marker::Bold => match first {
            Some((a, b)) => match (extent_of(s, a, b), inner_of(s, a, b, 2)) {
                (Some((start, end)), Some(text)) => Some((Content::Bold(text), start, end)),
                _ => None,
            },
            None => None,
        },
        Marker::Ltalic => match first {
            Some((a, b)) => match (extent_of(s, a, b), inner_of(s, a, b, 1)) {
                (Some((start, end)), Some(text)) => Some((Content::Ltalic(text), start, end)),
                _ => None,
            },
            None => None,
        },
        Marker::Delete => match (whole, first) {
            (Some((a, _)), Some((_, b))) => {
                if b > usize::MAX - 2 {
                    return None;
                }
                match (extent_of(s, a, b + 2), text_of_group(s, first)) {
                    (Some((start, end)), Some(text)) => Some((Content::Delete(text), start, end)),
                    _ => None,
                }
            },
            _ => None,
        },
        Marker::Image => match (whole, group_of(groups, 3)) {
            (Some((a, _)), Some((_, b))) => match (
                extent_of(s, a, b),
                text_of_group_or_empty(s, first),
                text_of_group_or_empty(s, second),
            ) {
                (Some((start, end)), Some(alt), Some(link)) => Some(
                    (Content::Image(Image { link, alt }), start, end),
                ),
                _ => None,
            },
            _ => None,
        },
        Marker::Hyperlink => match (
            extent_of_whole(s, whole),
            text_of_group(s, first),
            text_of_group(s, second),
        ) {
            (Some((start, end)), Some(name), Some(url)) => Some(
                (Content::Hyperlink(Hyperlink { name, url }), start, end),
            ),
            _ => None,
        },
        Marker::Reference => match (
            extent_of_whole(s, whole),
            text_of_group(s, first),
            text_of_group(s, second),
        ) {
            (Some((start, end)), Some(space), Some(path)) => Some(
                (Content::Reference(space, path), start, end),
            ),
            _ => None,
        },
        _ => match (extent_of_whole(s, whole), text_of_group(s, first)) {
            (Some((start, end)), Some(text)) => Some((plain(marker, text), start, end)),
            _ => None,
        },
    }
}

/// What the first match of `marker`'s pattern in `s` stands for, and where
/// it starts and ends; `None` where the pattern matches nowhere in `s`.
pub open spec fn found(marker: Marker, s: Seq<char>) -> Option<(ContentView, usize, usize)> {
    let all = regex_all_captures(pattern_text(marker), s);
    if all.len() > 0 {
        match_from(marker, s, all[0])
    } else {
        None
    }
}

/// Searches `s` for the first match of `marker`'s pattern.
pub fn find(marker: Marker, s: &str) -> (r: Result<Option<(Content, usize, usize)>, ParseError>)
    ensures
        match r {
            Ok(hit) => regex_accepts(pattern_text(marker)) && hit.deep_view() == found(marker, s@),
            Err(e) => !regex_accepts(pattern_text(marker)) && e == ParseError::PatternRejected,
        },
{
    let mut lines: Vec<String> = Vec::new();
    lines.push(s.to_owned());
    match search_all(pattern(marker), &lines) {
        Ok(all) => {
            proof {
                assert(all.deep_view().len() == 1);
                assert(all.deep_view()[0] == regex_all_captures(pattern_text(marker), s@));
                assert(all[0].deep_view().len() == all[0].len());
                if all[0].len() > 0 {
                    assert(all[0].deep_view()[0] =~= all[0][0]@);
                }
            }
            if all[0].len() > 0 {
                Ok(node_from(marker, s, &all[0][0]))
            } else {
                Ok(None)
            }
        },
        Err(_) => Err(ParseError::PatternRejected),
    }
}

/// Of two matches the one that starts first, and the first of the two
/// where they start at the same place.
pub open spec fn earlier(
    a: Option<(ContentView, usize, usize)>,
    b: Option<(ContentView, usize, usize)>,
) -> Option<(ContentView, usize, usize)> {
    match (a, b) {
        (Some(x), Some(y)) => if y.1 < x.1 {
            b
        } else {
            a
        },
        (None, _) => b,
        (_, None) => a,
    }
}

/// Of two matches the one that starts first, and the first of the two
/// where they start at the same place.
pub fn earlier_of(a: Option<(Content, usize, usize)>, b: Option<(Content, usize, usize)>) -> (r:
    Option<(Content, usize, usize)>)
    ensures
        r.deep_view() == earlier(a.deep_view(), b.deep_view()),
{
    match (a, b) {
        (Some(x), Some(y)) => if y.1 < x.1 {
            Some(y)
        } else {
            Some(x)
        },
        (None, b) => b,
        (a, None) => a,
    }
}

/// The pattern of the scan: the patterns of the markers, in their order, as
/// alternatives, with the opening of a link after the link. The first match
/// is the earliest match of any marker, and of the markers that match
/// there, the one that stands first.
pub const SCAN_PATTERN: &'static str =
    r"(\*\*.*?\*\*|\_\_.*?\_\_)|(\*.*?\*|\_.*?\_)|~~(.*?)~~|!\[(.*?)\]\((.*?)(\))|\[([^\]]*)\]\(([^)]*)\)|(\[[^\]]*\]\()|\$(.*?)\$|`(.*?)`|\[\^([^\]]*)\]|\[!([^\]]*)\]|\[([^\]]*)\]|#([^\s#]+)|@([^\s/]+)/(\S+)";

/// The group of the scan pattern that takes part where a link is opened
/// and not closed: a name in brackets and the opening parenthesis of its
/// address.
pub const OPEN_LINK_GROUP: usize = 9;

/// The first of the groups of `marker` among the groups of the scan
/// pattern.
pub open spec fn first_group(marker: Marker) -> int {
    match marker {
        Marker::Bold => 1,
        Marker::Ltalic => 2,
        Marker::Delete => 3,
        Marker::Image => 4,
        Marker::Hyperlink => 7,
        Marker::Latex => 10,
        Marker::Code => 11,
        Marker::FootnoteAttr => 12,
        Marker::WarningAttr => 13,
        Marker::Attr => 14,
        Marker::DashAttr => 15,
        Marker::Reference => 16,
    }
}

/// The first of the groups of `marker` among the groups of the scan
/// pattern.
pub fn first_group_of(marker: Marker) -> (g: usize)
    ensures
        g == first_group(marker),
        1 <= g <= 16,
{
    match marker {
        Marker::Bold => 1,
        Marker::Ltalic => 2,
        Marker::Delete => 3,
        Marker::Image => 4,
        Marker::Hyperlink => 7,
        Marker::Latex => 10,
        Marker::Code => 11,
        Marker::FootnoteAttr => 12,
        Marker::WarningAttr => 13,
        Marker::Attr => 14,
        Marker::DashAttr => 15,
        Marker::Reference => 16,
    }
}

/// The groups of a match of the scan pattern as the groups of a match of
/// `marker`'s own pattern: group 0, and the groups of the marker.
pub open spec fn own_groups(marker: Marker, groups: Seq<Option<(usize, usize)>>) -> Seq<
    Option<(usize, usize)>,
> {
    let first = first_group(marker);
    seq![
        group_at(groups, 0),
        group_at(groups, first),
        group_at(groups, first + 1),
        group_at(groups, first + 2),
    ]
}

/// The marker that a match of the scan pattern is a match of: the first
/// marker at or after place `k` whose first group took part.
pub open spec fn marker_of(groups: Seq<Option<(usize, usize)>>, k: int) -> Option<Marker>
    decreases MARKERS - k,
{
    if 0 <= k < MARKERS {
        if group_at(groups, first_group(marker_at(k))) is Some {
            Some(marker_at(k))
        } else {
            marker_of(groups, k + 1)
        }
    } else {
        None
    }
}

/// What a match of the scan pattern in `s` stands for, given its groups:
/// the content of its marker, or no content where it is the opening of a
/// link, and the byte offsets at which it starts and ends. `None` where
/// the groups are not those of a match in `s`.
pub open spec fn scan_hit(s: Seq<char>, groups: Seq<Option<(usize, usize)>>) -> Option<
    (Option<ContentView>, usize, usize),
> {
    if group_at(groups, OPEN_LINK_GROUP as int) is Some {
        match whole_extent(s, group_at(groups, 0)) {
            Some((start, end)) => Some((None, start, end)),
            None => None,
        }
    } else {
        match marker_of(groups, 0) {
            Some(marker) => match match_from(marker, s, own_groups(marker, groups)) {
                Some((node, start, end)) => Some((Some(node), start, end)),
                None => None,
            },
            None => None,
        }
    }
}

/// The marker that a match of the scan pattern is a match of.
pub fn find_marker(groups: &Vec<Option<(usize, usize)>>) -> (marker: Option<Marker>)
    ensures
        marker == marker_of(groups@, 0),
{
    let mut k: usize = 0;
    while k < MARKERS
        invariant
            k <= MARKERS,
            marker_of(groups@, 0) == marker_of(groups@, k as int),
        decreases MARKERS - k,
    {
        let marker = nth_marker(k);
        if group_of(groups, first_group_of(marker)).is_some() {
            return Some(marker);
        }
        k += 1;
    }
    None
}

/// What a match of the scan pattern in `s` stands for, given its groups.
pub fn hit_from(s: &str, groups: &Vec<Option<(usize, usize)>>) -> (hit: Option<
    (Option<Content>, usize, usize),
>)
    ensures
        hit.deep_view() == scan_hit(s@, groups@),
{
    if group_of(groups, OPEN_LINK_GROUP).is_some() {
        return match extent_of_whole(s, group_of(groups, 0)) {
            Some((start, end)) => Some((None, start, end)),
            None => None,
        };
    }
    match find_marker(groups) {
        Some(marker) => {
            let first = first_group_of(marker);
            let mut own: Vec<Option<(usize, usize)>> = Vec::new();
            own.push(group_of(groups, 0));
            own.push(group_of(groups, first));
            own.push(group_of(groups, first + 1));
            own.push(group_of(groups, first + 2));
            proof {
                assert(own@ =~= own_groups(marker, groups@));
            }
            match node_from(marker, s, &own) {
                Some((node, start, end)) => Some((Some(node), start, end)),
                None => None,
            }
        },
        None => None,
    }
}

} // verus!
