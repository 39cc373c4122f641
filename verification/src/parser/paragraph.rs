//! Paragraphs: lines of text, scanned for inline content.

use vstd::prelude::*;
use crate::elems::content::{Content, ContentView};
use crate::elems::items::{BasicItem, BasicItemView, Paragraph, ParagraphView};
use crate::error::ParseError;
use crate::parser::block::{find_stop, find_stop_line, lemma_find_stop, lemma_lines, line_kind};
use crate::parser::block::{LineKind, Stop};
use crate::parser::content::{scan, scan_with};
use crate::parser::marker::SCAN_PATTERN;
use crate::pattern::{regex_accepts, regex_all_captures, search_all};
use crate::text::{lemma_deep_view_concat, lemma_deep_view_empty, lemma_deep_view_push, string_of};
use crate::text::{trim, trim_chars};

verus! {

/// The content of the trimmed line `t`: what the scan finds in it. A line
/// that the scan cannot read is one span of text. Only a pattern that the
/// engine refused fails the line.
pub open spec fn line_content(t: Seq<char>) -> Result<Seq<ContentView>, ParseError> {
    match scan(t) {
        Ok(nodes) => Ok(nodes),
        Err(e) => if e == ParseError::PatternRejected {
            Err(e)
        } else {
            Ok(seq![ContentView::Text(t)])
        },
    }
}

/// The content of the lines from `lo` up to `hi`, in order.
pub open spec fn paragraph_content(lines: Seq<Seq<char>>, lo: int, hi: int) -> Result<
    Seq<ContentView>,
    ParseError,
>
    decreases hi - lo,
{
    if hi <= lo {
        Ok(Seq::empty())
    } else {
        match paragraph_content(lines, lo, hi - 1) {
            Ok(front) => match line_content(trim(lines[hi - 1])) {
                Ok(nodes) => Ok(front + nodes),
                Err(e) => Err(e),
            },
            Err(e) => Err(e),
        }
    }
}

/// The paragraph that begins on line `i`: the lines of text from there on.
/// The next line is the first that is blank or opens another block.
pub open spec fn paragraph_block(lines: Seq<Seq<char>>, i: int) -> Result<
    (BasicItemView, int),
    ParseError,
> {
    let end = find_stop(lines, i, Stop::Other(LineKind::Text));
    match paragraph_content(lines, i, end) {
        Ok(nodes) => Ok((BasicItemView::Paragraph(ParagraphView { lines: nodes }), end)),
        Err(e) => Err(e),
    }
}

/// The lines of a text, trimmed, and the matches of the scan pattern in
/// each of them: all of them where the pattern engine accepts the pattern,
/// and none where it does not.
pub struct Scans {
    pub texts: Vec<String>,
    pub found: Option<Vec<Vec<Vec<Option<(usize, usize)>>>>>,
}

impl Scans {
    /// Whether these are the trimmed lines of `lines`, and the matches in
    /// them.
    pub open spec fn of(&self, lines: Seq<Seq<char>>) -> bool {
        &&& self.texts.len() == lines.len()
        &&& forall|i: int| 0 <= i < lines.len() ==> (#[trigger] self.texts[i])@ == trim(lines[i])
        &&& match self.found {
            Some(all) => regex_accepts(SCAN_PATTERN@) && all.len() == lines.len() && forall|i: int|
                0 <= i < lines.len() ==> (#[trigger] all[i]).deep_view() == regex_all_captures(
                    SCAN_PATTERN@,
                    trim(lines[i]),
                ),
            None => !regex_accepts(SCAN_PATTERN@),
        }
    }
}

/// The lines `lines`, trimmed, and the matches of the scan pattern in each
/// of them.
pub fn scan_lines(lines: &Vec<Vec<char>>) -> (scans: Scans)
    ensures
        scans.of(lines.deep_view()),
{
    proof {
        lemma_lines(*lines);
    }
    let mut texts: Vec<String> = Vec::new();
    let mut i: usize = 0;
    while i < lines.len()
        invariant
            i <= lines.len(),
            texts.len() == i,
            lines.deep_view().len() == lines.len(),
            forall|k: int| 0 <= k < lines.len() ==> #[trigger] lines.deep_view()[k] == lines@[k]@,
            forall|k: int| 0 <= k < i ==> (#[trigger] texts[k])@ == trim(lines.deep_view()[k]),
        decreases lines.len() - i,
    {
        texts.push(string_of(&trim_chars(&lines[i])));
        i += 1;
    }
    match search_all(SCAN_PATTERN, &texts) {
        Ok(all) => {
            proof {
                assert(all.deep_view().len() == all.len());
                assert(all.len() == lines.len());
                assert forall|k: int| 0 <= k < lines.len() implies (#[trigger] all[k]).deep_view()
                    == regex_all_captures(SCAN_PATTERN@, trim(lines.deep_view()[k])) by {
                    assert(all.deep_view()[k] == all[k].deep_view());
                    assert(texts[k]@ == trim(lines.deep_view()[k]));
                }
            }
            Scans { texts, found: Some(all) }
        },
        Err(_) => Scans { texts, found: None },
    }
}

/// The content of line `j`.
pub(crate) fn parse_text_line(lines: &Vec<Vec<char>>, scans: &Scans, j: usize) -> (r: Result<
    Vec<Content>,
    ParseError,
>)
    requires
        j < lines.len(),
        scans.of(lines.deep_view()),
    ensures
        match r {
            Ok(nodes) => line_content(trim(lines.deep_view()[j as int])) == Ok::<
                Seq<ContentView>,
                ParseError,
            >(nodes.deep_view()),
            Err(e) => line_content(trim(lines.deep_view()[j as int])) == Err::<
                Seq<ContentView>,
                ParseError,
            >(e),
        },
{
    let text = &scans.texts[j];
    match &scans.found {
        Some(all) => match scan_with(text.as_str(), &all[j]) {
            Ok(nodes) => Ok(nodes),
            Err(ParseError::PatternRejected) => Err(ParseError::PatternRejected),
            Err(_) => {
                let mut nodes: Vec<Content> = Vec::new();
                let ghost empty = nodes;
                let node = Content::Text(text.clone());
                nodes.push(node);
                proof {
                    lemma_deep_view_empty(empty);
                    lemma_deep_view_push(empty, nodes, node);
                    assert(nodes.deep_view() =~= seq![ContentView::Text(text@)]);
                }
                Ok(nodes)
            },
        },
        None => Err(ParseError::PatternRejected),
    }
}

/// The paragraph that begins on line `i`.
pub(crate) fn parse_paragraph(lines: &Vec<Vec<char>>, scans: &Scans, i: usize) -> (r: Result<
    (BasicItem, usize),
    ParseError,
>)
    requires
        i < lines.len(),
        scans.of(lines.deep_view()),
        line_kind(trim(lines.deep_view()[i as int])) == LineKind::Text,
    ensures
        match r {
            Ok((item, next)) => paragraph_block(lines.deep_view(), i as int) == Ok::<
                (BasicItemView, int),
                ParseError,
            >((item@, next as int)) && i < next <= lines.len(),
            Err(e) => paragraph_block(lines.deep_view(), i as int) == Err::<
                (BasicItemView, int),
                ParseError,
            >(e),
        },
{
    let end = find_stop_line(lines, i, Stop::Other(LineKind::Text));
    proof {
        lemma_find_stop(lines.deep_view(), i as int, Stop::Other(LineKind::Text));
    }
    let mut all: Vec<Content> = Vec::new();
    proof {
        lemma_deep_view_empty(all);
    }
    let mut j: usize = i;
    while j < end
        invariant
            i <= j <= end <= lines.len(),
            scans.of(lines.deep_view()),
            end == find_stop(lines.deep_view(), i as int, Stop::Other(LineKind::Text)),
            paragraph_content(lines.deep_view(), i as int, j as int) == Ok::<
                Seq<ContentView>,
                ParseError,
            >(all.deep_view()),
        decreases end - j,
    {
        match parse_text_line(lines, scans, j) {
            Ok(nodes) => {
                let mut nodes = nodes;
                let ghost front = all;
                let ghost back = nodes;
                all.append(&mut nodes);
                proof {
                    lemma_deep_view_concat(all, front, back);
                }
            },
            Err(e) => {
                proof {
                    lemma_content_fails(lines.deep_view(), i as int, j + 1, end as int);
                }
                return Err(e);
            },
        }
        j += 1;
    }
    Ok((BasicItem::Paragraph(Paragraph { lines: all }), end))
}

/// Lines whose first part fails fail as a whole, with the same error.
pub proof fn lemma_content_fails(lines: Seq<Seq<char>>, lo: int, mid: int, hi: int)
    requires
        lo <= mid <= hi,
        paragraph_content(lines, lo, mid) is Err,
    ensures
        paragraph_content(lines, lo, hi) == paragraph_content(lines, lo, mid),
    decreases hi - mid,
{
    if mid < hi {
        lemma_content_fails(lines, lo, mid, hi - 1);
    }
}

} // verus!
