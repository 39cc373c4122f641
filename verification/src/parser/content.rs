//! The inline scanner: from a line of text to its typed spans.
//!
//! The line is searched for the pattern of the scan. Each match is a
//! marker; the text before a match, between two matches and after the last
//! is plain text.

use vstd::prelude::*;
use vstd::string::StrSliceExecFns;
use crate::elems::content::{Content, ContentView};
use crate::error::ParseError;
use crate::parser::marker::{earlier, earlier_of, find, found, hit_from, scan_hit, Marker};
use crate::parser::marker::{BOLD_PATTERN, DELETE_PATTERN, IMAGE_PATTERN, LTALIC_PATTERN, SCAN_PATTERN};
use crate::pattern::{regex_accepts, regex_all_captures, search_all};
use crate::text::{back_space_from, byte_count, byte_len, byte_slice, chars_of, lemma_deep_view_concat};
use crate::text::{lemma_deep_view_empty, lemma_deep_view_push, skip_space_from, span_text, trim};
use crate::text::valid_span;

verus! {

/// The first bold text in `s`, without its delimiters, and the offsets at
/// which it starts and ends.
pub fn parse_bold(s: &str) -> (r: Result<Option<(Content, usize, usize)>, ParseError>)
    ensures
        match r {
            Ok(hit) => regex_accepts(BOLD_PATTERN@) && hit.deep_view() == found(Marker::Bold, s@),
            Err(e) => !regex_accepts(BOLD_PATTERN@) && e == ParseError::PatternRejected,
        },
{
    find(Marker::Bold, s)
}

/// The first italic text in `s`, without its delimiters, and the offsets at
/// which it starts and ends.
pub fn parse_ltalic(s: &str) -> (r: Result<Option<(Content, usize, usize)>, ParseError>)
    ensures
        match r {
            Ok(hit) => regex_accepts(LTALIC_PATTERN@) && hit.deep_view() == found(
                Marker::Ltalic,
                s@,
            ),
            Err(e) => !regex_accepts(LTALIC_PATTERN@) && e == ParseError::PatternRejected,
        },
{
    find(Marker::Ltalic, s)
}

/// Whether `c` is a character that opens a marker and may not stand in
/// plain text.
pub open spec fn is_special(c: char) -> bool {
    c == '*' || c == '_' || c == '~' || c == '!' || c == '[' || c == '$' || c == '`'
}

/// The index of the first special character of `s` at or after `from`, or
/// the length of `s`.
pub open spec fn special_index(s: Seq<char>, from: int) -> int
    decreases s.len() - from,
{
    if 0 <= from < s.len() && !is_special(s[from]) {
        special_index(s, from + 1)
    } else {
        from
    }
}

/// The first special character of `s`.
pub open spec fn first_special(s: Seq<char>) -> Option<char> {
    let at = special_index(s, 0);
    if 0 <= at < s.len() {
        Some(s[at])
    } else {
        None
    }
}

/// The error for a special character that opens no marker: an image or a
/// link that is not closed, or no marker at all.
pub open spec fn error_for(c: char) -> ParseError {
    if c == '!' || c == '[' {
        ParseError::UnresolvedInlineMarker
    } else {
        ParseError::NoMarkerMatched
    }
}

/// The first special character of `s`.
pub fn first_special_in(s: &str) -> (found: Option<char>)
    ensures
        found == first_special(s@),
{
    let v = chars_of(s);
    let mut i: usize = 0;
    while i < v.len()
        invariant
            i <= v.len(),
            v@ == s@,
            special_index(v@, 0) == special_index(v@, i as int),
        decreases v.len() - i,
    {
        let c = v[i];
        if c == '*' || c == '_' || c == '~' || c == '!' || c == '[' || c == '$' || c == '`' {
            assert(is_special(v@[i as int]));
            return Some(c);
        }
        i += 1;
    }
    None
}

fn error_of(c: char) -> (e: ParseError)
    ensures
        e == error_for(c),
{
    if c == '!' || c == '[' {
        ParseError::UnresolvedInlineMarker
    } else {
        ParseError::NoMarkerMatched
    }
}

/// A text as content: nothing for the empty text.
pub open spec fn text_piece(text: Seq<char>) -> Seq<ContentView> {
    if text.len() == 0 {
        Seq::empty()
    } else {
        seq![ContentView::Text(text)]
    }
}

/// Content in front of the outcome of a scan.
pub open spec fn prepend(front: Seq<ContentView>, r: Result<Seq<ContentView>, ParseError>) -> Result<
    Seq<ContentView>,
    ParseError,
> {
    match r {
        Ok(nodes) => Ok(front + nodes),
        Err(e) => Err(e),
    }
}

/// The plain text of `s` from the byte `from` up to the byte `to`, as
/// content. Plain text may hold no special character: the first that it
/// holds is a marker that is opened and not closed. Offsets that cut no
/// piece out of `s` are those of no match in it.
pub open spec fn plain_text(s: Seq<char>, from: int, to: int) -> Result<Seq<ContentView>, ParseError> {
    if valid_span(s, from, to) {
        match first_special(span_text(s, from, to)) {
            Some(c) => Err(error_for(c)),
            None => Ok(text_piece(span_text(s, from, to))),
        }
    } else {
        Err(ParseError::NoMarkerMatched)
    }
}

/// What a match of the scan pattern adds to the content of `s`: the plain
/// text from the byte `from` up to the match, and the content of the
/// marker that the match is of; and the byte at which the match ends. The
/// opening of a link is a link that is not closed.
pub open spec fn step_at(s: Seq<char>, groups: Seq<Option<(usize, usize)>>, from: int) -> Result<
    (Seq<ContentView>, int),
    ParseError,
> {
    match scan_hit(s, groups) {
        Some((node, start, end)) => match plain_text(s, from, start as int) {
            Ok(before) => match node {
                Some(n) => Ok((before + seq![n], end as int)),
                None => Err(ParseError::UnresolvedInlineMarker),
            },
            Err(e) => Err(e),
        },
        None => Err(ParseError::NoMarkerMatched),
    }
}

/// The content of `s` from the byte `from` on, given the matches of the
/// scan pattern in `s` from the one at place `k` on: what each match adds,
/// and the plain text after the last.
pub open spec fn scan_from(
    s: Seq<char>,
    matches: Seq<Seq<Option<(usize, usize)>>>,
    k: int,
    from: int,
) -> Result<Seq<ContentView>, ParseError>
    decreases matches.len() - k,
{
    if 0 <= k < matches.len() {
        match step_at(s, matches[k], from) {
            Ok((nodes, next)) => prepend(nodes, scan_from(s, matches, k + 1, next)),
            Err(e) => Err(e),
        }
    } else {
        plain_text(s, from, byte_len(s))
    }
}

/// The inline content of the line `s`: the content of the matches of the
/// scan pattern in it, and of the plain text around them, in order.
pub open spec fn scan(s: Seq<char>) -> Result<Seq<ContentView>, ParseError> {
    if regex_accepts(SCAN_PATTERN@) {
        scan_from(s, regex_all_captures(SCAN_PATTERN@, s), 0, 0)
    } else {
        Err(ParseError::PatternRejected)
    }
}

/// The deep view of a vector of matches holds the view of each match.
pub proof fn lemma_matches(matches: Vec<Vec<Option<(usize, usize)>>>)
    ensures
        matches.deep_view().len() == matches.len(),
        forall|i: int| 0 <= i < matches.len() ==> #[trigger] matches.deep_view()[i] == matches@[i]@,
{
    assert forall|i: int| 0 <= i < matches.len() implies #[trigger] matches.deep_view()[i]
        == matches@[i]@ by {
        assert(matches@[i].deep_view() =~= matches@[i]@);
    }
}

/// The plain text of `s` from the byte `from` up to the byte `to`, as
/// content.
pub fn plain_text_of(s: &str, from: usize, to: usize) -> (r: Result<Vec<Content>, ParseError>)
    ensures
        match r {
            Ok(nodes) => plain_text(s@, from as int, to as int) == Ok::<
                Seq<ContentView>,
                ParseError,
            >(nodes.deep_view()),
            Err(e) => plain_text(s@, from as int, to as int) == Err::<Seq<ContentView>, ParseError>(
                e,
            ),
        },
{
    match byte_slice(s, from, to) {
        Some(piece) => match first_special_in(piece) {
            Some(c) => Err(error_of(c)),
            None => {
                let mut nodes: Vec<Content> = Vec::new();
                proof {
                    lemma_deep_view_empty(nodes);
                }
                if piece.unicode_len() > 0 {
                    let ghost empty = nodes;
                    let node = Content::Text(piece.to_owned());
                    nodes.push(node);
                    proof {
                        lemma_deep_view_push(empty, nodes, node);
                        assert(nodes.deep_view() =~= text_piece(piece@));
                    }
                }
                Ok(nodes)
            },
        },
        None => Err(ParseError::NoMarkerMatched),
    }
}

/// What a match of the scan pattern adds to the content of `s`, given the
/// groups of the match.
pub fn step_with(s: &str, groups: &Vec<Option<(usize, usize)>>, from: usize) -> (r: Result<
    (Vec<Content>, usize),
    ParseError,
>)
    ensures
        match r {
            Ok((nodes, next)) => step_at(s@, groups@, from as int) == Ok::<
                (Seq<ContentView>, int),
                ParseError,
            >((nodes.deep_view(), next as int)),
            Err(e) => step_at(s@, groups@, from as int) == Err::<
                (Seq<ContentView>, int),
                ParseError,
            >(e),
        },
{
    match hit_from(s, groups) {
        Some((node, start, end)) => match plain_text_of(s, from, start) {
            Ok(before) => match node {
                Some(n) => {
                    let mut nodes = before;
                    let ghost plain = nodes;
                    nodes.push(n);
                    proof {
                        lemma_deep_view_push(plain, nodes, n);
                        assert(nodes.deep_view() =~= plain.deep_view() + seq![n@]);
                    }
                    Ok((nodes, end))
                },
                None => Err(ParseError::UnresolvedInlineMarker),
            },
            Err(e) => Err(e),
        },
        None => Err(ParseError::NoMarkerMatched),
    }
}

/// The inline content of the line `s`, given the matches of the scan
/// pattern in it.
pub fn scan_with(s: &str, matches: &Vec<Vec<Option<(usize, usize)>>>) -> (r: Result<
    Vec<Content>,
    ParseError,
>)
    ensures
        match r {
            Ok(nodes) => scan_from(s@, matches.deep_view(), 0, 0) == Ok::<
                Seq<ContentView>,
                ParseError,
            >(nodes.deep_view()),
            Err(e) => scan_from(s@, matches.deep_view(), 0, 0) == Err::<
                Seq<ContentView>,
                ParseError,
            >(e),
        },
{
    let mut out: Vec<Content> = Vec::new();
    let mut from: usize = 0;
    let mut k: usize = 0;
    proof {
        lemma_matches(*matches);
        lemma_deep_view_empty(out);
        lemma_prepend_nothing(scan_from(s@, matches.deep_view(), 0, 0));
    }
    while k < matches.len()
        invariant
            k <= matches.len(),
            matches.deep_view().len() == matches.len(),
            forall|i: int|
                0 <= i < matches.len() ==> #[trigger] matches.deep_view()[i] == matches@[i]@,
            scan_from(s@, matches.deep_view(), 0, 0) == prepend(
                out.deep_view(),
                scan_from(s@, matches.deep_view(), k as int, from as int),
            ),
        decreases matches.len() - k,
    {
        let ghost front = out;
        match step_with(s, &matches[k], from) {
            Ok((nodes, next)) => {
                let mut nodes = nodes;
                let ghost added = nodes;
                out.append(&mut nodes);
                proof {
                    lemma_deep_view_concat(out, front, added);
                    lemma_prepend_twice(
                        front.deep_view(),
                        added.deep_view(),
                        scan_from(s@, matches.deep_view(), k + 1, next as int),
                    );
                }
                from = next;
            },
            Err(e) => {
                return Err(e);
            },
        }
        k += 1;
    }
    match plain_text_of(s, from, byte_count(s)) {
        Ok(tail) => {
            let mut tail = tail;
            let ghost front = out;
            let ghost back = tail;
            out.append(&mut tail);
            proof {
                lemma_deep_view_concat(out, front, back);
            }
            Ok(out)
        },
        Err(e) => Err(e),
    }
}

/// Nothing in front of an outcome leaves the outcome as it is.
pub proof fn lemma_prepend_nothing(r: Result<Seq<ContentView>, ParseError>)
    ensures
        prepend(Seq::empty(), r) == r,
{
    match r {
        Ok(nodes) => {
            assert(Seq::<ContentView>::empty() + nodes =~= nodes);
        },
        Err(_) => {},
    }
}

/// Content in front of content in front of an outcome is both in a row in
/// front of the outcome.
pub proof fn lemma_prepend_twice(
    first: Seq<ContentView>,
    second: Seq<ContentView>,
    r: Result<Seq<ContentView>, ParseError>,
)
    ensures
        prepend(first, prepend(second, r)) == prepend(first + second, r),
{
    match r {
        Ok(nodes) => {
            assert(first + (second + nodes) =~= (first + second) + nodes);
        },
        Err(_) => {},
    }
}

/// The inline content of the line `s`.
pub fn scan_line(s: &str) -> (r: Result<Vec<Content>, ParseError>)
    ensures
        match r {
            Ok(nodes) => scan(s@) == Ok::<Seq<ContentView>, ParseError>(nodes.deep_view()),
            Err(e) => scan(s@) == Err::<Seq<ContentView>, ParseError>(e),
        },
{
    let mut lines: Vec<String> = Vec::new();
    lines.push(s.to_owned());
    match search_all(SCAN_PATTERN, &lines) {
        Ok(all) => {
            proof {
                assert(all.deep_view()[0] == regex_all_captures(SCAN_PATTERN@, s@));
                assert(all.deep_view().len() == 1);
            }
            scan_with(s, &all[0])
        },
        Err(_) => Err(ParseError::PatternRejected),
    }
}

/// The scanner of one line: the line, trimmed, and the content found in it
/// so far.
#[derive(Debug)]
pub struct ContentParser<'s> {
    origin_str: &'s str,
    contents: Vec<Content>,
}

impl<'s> ContentParser<'s> {
    /// The line that is scanned.
    pub closed spec fn origin(&self) -> Seq<char> {
        self.origin_str@
    }

    /// The content found so far.
    pub closed spec fn nodes(&self) -> Seq<ContentView> {
        self.contents.deep_view()
    }

    /// A scanner of the line `s` without the white space at its ends, with
    /// no content yet.
    pub fn new(s: &'s str) -> (parser: Self)
        ensures
            parser.origin() == trim(s@),
            parser.nodes() == Seq::<ContentView>::empty(),
    {
        let chars = chars_of(s);
        let lo = skip_space_from(&chars, 0);
        let hi = back_space_from(&chars, lo, chars.len());
        let contents: Vec<Content> = Vec::new();
        proof {
            lemma_deep_view_empty(contents);
        }
        ContentParser { origin_str: s.substring_char(lo, hi), contents }
    }

    /// The content found so far.
    pub fn contents(&self) -> (contents: &Vec<Content>)
        ensures
            contents.deep_view() == self.nodes(),
    {
        &self.contents
    }

    /// The content found, without the scanner.
    pub fn into_contents(self) -> (contents: Vec<Content>)
        ensures
            contents.deep_view() == self.nodes(),
    {
        self.contents
    }

    /// Scans the whole line and adds its content to what was found before.
    /// Returns the number of bytes scanned: the length of the line. Where
    /// the line cannot be scanned, nothing is added.
    pub fn parse(&mut self) -> (r: Result<usize, ParseError>)
        ensures
            final(self).origin() == old(self).origin(),
            match scan(old(self).origin()) {
                Ok(nodes) => r == Ok::<usize, ParseError>(byte_len(old(self).origin()) as usize)
                    && final(self).nodes() == old(self).nodes() + nodes,
                Err(e) => r == Err::<usize, ParseError>(e) && final(self).nodes() == old(
                    self,
                ).nodes(),
            },
    {
        match scan_line(self.origin_str) {
            Ok(nodes) => {
                let mut nodes = nodes;
                let ghost front = self.contents;
                let ghost back = nodes;
                self.contents.append(&mut nodes);
                proof {
                    lemma_deep_view_concat(self.contents, front, back);
                }
                Ok(byte_count(self.origin_str))
            },
            Err(e) => Err(e),
        }
    }

    /// Adds the content of `hit` and returns where it ends, or fails with
    /// `miss` where there is none.
    fn accept(&mut self, hit: Option<(Content, usize, usize)>, miss: ParseError) -> (r: Result<
        usize,
        ParseError,
    >)
        ensures
            final(self).origin() == old(self).origin(),
            taken(old(self).nodes(), hit.deep_view(), miss, final(self).nodes(), r),
    {
        match hit {
            Some((node, _, end)) => {
                let ghost front = self.contents;
                self.contents.push(node);
                proof {
                    lemma_deep_view_push(front, self.contents, node);
                }
                Ok(end)
            },
            None => Err(miss),
        }
    }

    /// Searches the line for bold and for italic text and adds the one that
    /// starts first, the bold one where both start at the same place.
    /// Returns the offset at which it ends.
    pub fn parse_bold_or_ltalic(&mut self) -> (r: Result<usize, ParseError>)
        ensures
            final(self).origin() == old(self).origin(),
            if regex_accepts(BOLD_PATTERN@) && regex_accepts(LTALIC_PATTERN@) {
                taken(
                    old(self).nodes(),
                    earlier(
                        found(Marker::Bold, old(self).origin()),
                        found(Marker::Ltalic, old(self).origin()),
                    ),
                    ParseError::NoMarkerMatched,
                    final(self).nodes(),
                    r,
                )
            } else {
                r == Err::<usize, ParseError>(ParseError::PatternRejected) && final(self).nodes()
                    == old(self).nodes()
            },
    {
        let bold = match parse_bold(self.origin_str) {
            Ok(hit) => hit,
            Err(e) => {
                return Err(e);
            },
        };
        let ltalic = match parse_ltalic(self.origin_str) {
            Ok(hit) => hit,
            Err(e) => {
                return Err(e);
            },
        };
        self.accept(earlier_of(bold, ltalic), ParseError::NoMarkerMatched)
    }

    /// Searches the line for deleted text and adds the first. Returns the
    /// offset at which it ends.
    pub fn parse_delete(&mut self) -> (r: Result<usize, ParseError>)
        ensures
            final(self).origin() == old(self).origin(),
            if regex_accepts(DELETE_PATTERN@) {
                taken(
                    old(self).nodes(),
                    found(Marker::Delete, old(self).origin()),
                    ParseError::NoMarkerMatched,
                    final(self).nodes(),
                    r,
                )
            } else {
                r == Err::<usize, ParseError>(ParseError::PatternRejected) && final(self).nodes()
                    == old(self).nodes()
            },
    {
        match find(Marker::Delete, self.origin_str) {
            Ok(hit) => self.accept(hit, ParseError::NoMarkerMatched),
            Err(e) => Err(e),
        }
    }

    /// Searches the line for an image and adds the first. Returns the
    /// offset at which it ends.
    pub fn parse_image(&mut self) -> (r: Result<usize, ParseError>)
        ensures
            final(self).origin() == old(self).origin(),
            if regex_accepts(IMAGE_PATTERN@) {
                taken(
                    old(self).nodes(),
                    found(Marker::Image, old(self).origin()),
                    ParseError::UnresolvedInlineMarker,
                    final(self).nodes(),
                    r,
                )
            } else {
                r == Err::<usize, ParseError>(ParseError::PatternRejected) && final(self).nodes()
                    == old(self).nodes()
            },
    {
        match find(Marker::Image, self.origin_str) {
            Ok(hit) => self.accept(hit, ParseError::UnresolvedInlineMarker),
            Err(e) => Err(e),
        }
    }
}

/// How a search ends: with a match, its content is added to what was found
/// before and the offset of its end is returned; without one, nothing is
/// added and `miss` is returned.
pub open spec fn taken(
    before: Seq<ContentView>,
    hit: Option<(ContentView, usize, usize)>,
    miss: ParseError,
    after: Seq<ContentView>,
    r: Result<usize, ParseError>,
) -> bool {
    match hit {
        Some((node, _, end)) => r == Ok::<usize, ParseError>(end) && after == before.push(node),
        None => r == Err::<usize, ParseError>(miss) && after == before,
    }
}

} // verus!
