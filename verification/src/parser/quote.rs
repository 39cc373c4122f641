//! Quotes: lines that begin with `>`.

use vstd::prelude::*;
use crate::elems::items::{BasicItem, BasicItemView, QouteItem, QouteItemView};
use crate::parser::block::{find_stop, find_stop_line, lemma_find_stop, lemma_lines, line_kind};
use crate::parser::block::{LineKind, Stop};
use crate::text::{count_run, lemma_deep_view_empty, lemma_deep_view_push, run_end, string_of};
use crate::text::{trim, trim_chars, trim_range};

verus! {

/// The quoted line `t`: one level of nesting for each `>` that it begins
/// with after the first, and the trimmed text after them.
pub open spec fn quote_item(t: Seq<char>) -> QouteItemView {
    let depth = run_end(t, 0, '>');
    QouteItemView { nesting: (depth - 1) as nat, text: trim(t.subrange(depth, t.len() as int)) }
}

/// The quoted lines from `lo` up to `hi`.
pub open spec fn quote_items(lines: Seq<Seq<char>>, lo: int, hi: int) -> Seq<QouteItemView> {
    Seq::new((hi - lo) as nat, |k: int| quote_item(trim(lines[lo + k])))
}

/// The quote that begins on line `i`: the lines from there on that begin
/// with `>`, one item each. The next line is the first that does not.
pub open spec fn quote_block(lines: Seq<Seq<char>>, i: int) -> (BasicItemView, int) {
    let end = find_stop(lines, i, Stop::Other(LineKind::Qoute));
    (BasicItemView::Qoute(quote_items(lines, i, end)), end)
}

/// The text `text` inside `depth` levels of nesting.
pub fn nested(text: String, depth: usize) -> (item: QouteItem)
    ensures
        item@ == (QouteItemView { nesting: depth as nat, text: text@ }),
{
    let mut item = QouteItem::Content(text);
    let mut k: usize = 0;
    while k < depth
        invariant
            k <= depth,
            item@ == (QouteItemView { nesting: k as nat, text: text@ }),
        decreases depth - k,
    {
        item = QouteItem::Qoute(Box::new(item));
        k += 1;
    }
    item
}

/// The quoted line `t`.
pub(crate) fn parse_quote_line(t: &Vec<char>) -> (item: QouteItem)
    requires
        t@.len() > 0,
        t@[0] == '>',
    ensures
        item@ == quote_item(t@),
{
    let depth = count_run(t, 0, '>');
    proof {
        crate::text::lemma_run_end(t@, 1, '>');
    }
    let text = trim_range(t, depth, t.len());
    nested(string_of(&text), depth - 1)
}

/// The quote that begins on line `i`.
pub(crate) fn parse_quote(lines: &Vec<Vec<char>>, i: usize) -> (r: (BasicItem, usize))
    requires
        i < lines.len(),
        line_kind(trim(lines.deep_view()[i as int])) == LineKind::Qoute,
    ensures
        quote_block(lines.deep_view(), i as int) == (r.0@, r.1 as int),
        i < r.1 <= lines.len(),
{
    let end = find_stop_line(lines, i, Stop::Other(LineKind::Qoute));
    proof {
        lemma_lines(*lines);
        lemma_find_stop(lines.deep_view(), i as int, Stop::Other(LineKind::Qoute));
    }
    let mut items: Vec<QouteItem> = Vec::new();
    proof {
        lemma_deep_view_empty(items);
        assert(items.deep_view() =~= quote_items(lines.deep_view(), i as int, i as int));
    }
    let mut j: usize = i;
    while j < end
        invariant
            i <= j <= end <= lines.len(),
            lines.deep_view().len() == lines.len(),
            forall|k: int| 0 <= k < lines.len() ==> #[trigger] lines.deep_view()[k] == lines@[k]@,
            forall|k: int|
                i <= k < end ==> line_kind(#[trigger] trim(lines.deep_view()[k])) == LineKind::Qoute,
            items.deep_view() == quote_items(lines.deep_view(), i as int, j as int),
        decreases end - j,
    {
        let t = trim_chars(&lines[j]);
        proof {
            assert(line_kind(trim(lines.deep_view()[j as int])) == LineKind::Qoute);
        }
        let item = parse_quote_line(&t);
        let ghost before = items;
        items.push(item);
        proof {
            lemma_deep_view_push(before, items, item);
            assert(items.deep_view() =~= quote_items(lines.deep_view(), i as int, j + 1));
        }
        j += 1;
    }
    (BasicItem::Qoute(items), end)
}

} // verus!
