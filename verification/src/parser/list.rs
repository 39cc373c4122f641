//! Lists: lines that begin with a list marker, nested by how far they are
//! indented.

use vstd::prelude::*;
use crate::elems::items::{BasicItem, BasicItemView, ListItem, ListItemView, ListKind};
use crate::parser::block::{find_stop, find_stop_line, lemma_find_stop, lemma_lines, line_kind};
use crate::parser::block::{list_marker, list_marker_of, LineKind, Stop};
use crate::text::{lemma_deep_view_empty, lemma_deep_view_push, skip_space, skip_space_from};
use crate::text::{string_of, trim, trim_chars, trim_range};

verus! {

/// One line of a list.
pub struct ListEntry {
    /// The number of white space characters that the line begins with.
    pub indent: usize,
    pub kind: ListKind,
    pub text: Vec<char>,
}

/// One line of a list as plain data.
pub struct ListEntryView {
    pub indent: nat,
    pub kind: ListKind,
    pub text: Seq<char>,
}

impl DeepView for ListEntry {
    type V = ListEntryView;

    open spec fn deep_view(&self) -> ListEntryView {
        ListEntryView { indent: self.indent as nat, kind: self.kind, text: self.text@ }
    }
}

/// The list line `raw`: the white space in front of it, its marker, and the
/// trimmed text after the marker.
pub open spec fn list_entry(raw: Seq<char>) -> ListEntryView {
    let t = trim(raw);
    let (kind, at) = list_marker(t).unwrap();
    ListEntryView {
        indent: skip_space(raw, 0) as nat,
        kind,
        text: trim(t.subrange(at, t.len() as int)),
    }
}

/// The list lines from `lo` up to `hi`.
pub open spec fn list_entries(lines: Seq<Seq<char>>, lo: int, hi: int) -> Seq<ListEntryView> {
    Seq::new((hi - lo) as nat, |k: int| list_entry(lines[lo + k]))
}

/// The index of the first entry from `from` up to `hi` that is indented by
/// no more than `indent`, or `hi`.
pub open spec fn next_not_deeper(entries: Seq<ListEntryView>, from: int, hi: int, indent: nat) -> int
    decreases hi - from,
{
    if 0 <= from < hi <= entries.len() && entries[from].indent > indent {
        next_not_deeper(entries, from + 1, hi, indent)
    } else {
        from
    }
}

/// The next entry that is not deeper is found at or after where the search
/// begins, and before its end.
pub proof fn lemma_next_not_deeper(entries: Seq<ListEntryView>, from: int, hi: int, indent: nat)
    requires
        0 <= from <= hi <= entries.len(),
    ensures
        from <= next_not_deeper(entries, from, hi, indent) <= hi,
    decreases hi - from,
{
    if from < hi && entries[from].indent > indent {
        lemma_next_not_deeper(entries, from + 1, hi, indent);
    }
}

/// The items that the entries from `lo` up to `hi` make. The first entry
/// is an item; the entries after it that are indented more than it, up to
/// the first that is not, make its children; the rest make the items after
/// it. So each entry is a child of the nearest entry before it that is
/// indented less.
pub open spec fn forest(entries: Seq<ListEntryView>, lo: int, hi: int) -> Seq<ListItemView>
    decreases hi - lo,
    via forest_goes_on
{
    if 0 <= lo < hi <= entries.len() {
        let end = next_not_deeper(entries, lo + 1, hi, entries[lo].indent);
        seq![
            ListItemView {
                kind: entries[lo].kind,
                text: entries[lo].text,
                children: forest(entries, lo + 1, end),
            },
        ] + forest(entries, end, hi)
    } else {
        Seq::empty()
    }
}

#[via_fn]
proof fn forest_goes_on(entries: Seq<ListEntryView>, lo: int, hi: int) {
    if 0 <= lo < hi <= entries.len() {
        lemma_next_not_deeper(entries, lo + 1, hi, entries[lo].indent);
    }
}

/// The list that begins on line `i`: the lines from there on that begin
/// with a list marker. The next line is the first that does not.
pub open spec fn list_block(lines: Seq<Seq<char>>, i: int) -> (BasicItemView, int) {
    let end = find_stop(lines, i, Stop::Other(LineKind::List));
    (BasicItemView::List(forest(list_entries(lines, i, end), 0, end - i)), end)
}

fn find_not_deeper(entries: &Vec<ListEntry>, from: usize, hi: usize, indent: usize) -> (at: usize)
    requires
        from <= hi <= entries.len(),
    ensures
        at == next_not_deeper(entries.deep_view(), from as int, hi as int, indent as nat),
        from <= at <= hi,
{
    let mut i: usize = from;
    while i < hi && entries[i].indent > indent
        invariant
            from <= i <= hi <= entries.len(),
            next_not_deeper(entries.deep_view(), from as int, hi as int, indent as nat)
                == next_not_deeper(entries.deep_view(), i as int, hi as int, indent as nat),
        decreases hi - i,
    {
        i += 1;
    }
    i
}

/// The items that the entries from `lo` up to `hi` make.
pub(crate) fn build_forest(entries: &Vec<ListEntry>, lo: usize, hi: usize) -> (items: Vec<ListItem>)
    requires
        lo <= hi <= entries.len(),
    ensures
        items.deep_view() == forest(entries.deep_view(), lo as int, hi as int),
    decreases hi - lo,
{
    let mut items: Vec<ListItem> = Vec::new();
    proof {
        lemma_deep_view_empty(items);
        assert(items.deep_view() + forest(entries.deep_view(), lo as int, hi as int) =~= forest(
            entries.deep_view(),
            lo as int,
            hi as int,
        ));
    }
    let mut i: usize = lo;
    while i < hi
        invariant
            lo <= i <= hi <= entries.len(),
            forest(entries.deep_view(), lo as int, hi as int) == items.deep_view() + forest(
                entries.deep_view(),
                i as int,
                hi as int,
            ),
        decreases hi - i,
    {
        let end = find_not_deeper(entries, i + 1, hi, entries[i].indent);
        let children = build_forest(entries, i + 1, end);
        let item = ListItem::new(entries[i].kind, string_of(&entries[i].text), children);
        let ghost before = items;
        items.push(item);
        proof {
            lemma_deep_view_push(before, items, item);
            let rest = forest(entries.deep_view(), end as int, hi as int);
            assert(before.deep_view() + (seq![item@] + rest) =~= items.deep_view() + rest);
        }
        i = end;
    }
    items
}

/// The list line `raw`, whose trimmed form is `t`.
pub(crate) fn parse_list_line(raw: &Vec<char>, t: &Vec<char>) -> (entry: ListEntry)
    requires
        t@ == trim(raw@),
        list_marker(t@) is Some,
    ensures
        entry.deep_view() == list_entry(raw@),
{
    let indent = skip_space_from(raw, 0);
    match list_marker_of(t) {
        Some((kind, at)) => ListEntry { indent, kind, text: trim_range(t, at, t.len()) },
        None => ListEntry { indent, kind: ListKind::Star, text: Vec::new() },
    }
}

/// The list that begins on line `i`.
pub(crate) fn parse_list(lines: &Vec<Vec<char>>, i: usize) -> (r: (BasicItem, usize))
    requires
        i < lines.len(),
        line_kind(trim(lines.deep_view()[i as int])) == LineKind::List,
    ensures
        list_block(lines.deep_view(), i as int) == (r.0@, r.1 as int),
        i < r.1 <= lines.len(),
{
    let end = find_stop_line(lines, i, Stop::Other(LineKind::List));
    proof {
        lemma_lines(*lines);
        lemma_find_stop(lines.deep_view(), i as int, Stop::Other(LineKind::List));
    }
    let mut entries: Vec<ListEntry> = Vec::new();
    proof {
        lemma_deep_view_empty(entries);
        assert(entries.deep_view() =~= list_entries(lines.deep_view(), i as int, i as int));
    }
    let mut j: usize = i;
    while j < end
        invariant
            i <= j <= end <= lines.len(),
            lines.deep_view().len() == lines.len(),
            forall|k: int| 0 <= k < lines.len() ==> #[trigger] lines.deep_view()[k] == lines@[k]@,
            forall|k: int|
                i <= k < end ==> line_kind(#[trigger] trim(lines.deep_view()[k])) == LineKind::List,
            entries.len() == j - i,
            entries.deep_view() == list_entries(lines.deep_view(), i as int, j as int),
        decreases end - j,
    {
        let t = trim_chars(&lines[j]);
        proof {
            assert(line_kind(trim(lines.deep_view()[j as int])) == LineKind::List);
        }
        let entry = parse_list_line(&lines[j], &t);
        let ghost before = entries;
        entries.push(entry);
        proof {
            lemma_deep_view_push(before, entries, entry);
            assert(entries.deep_view() =~= list_entries(lines.deep_view(), i as int, j + 1));
        }
        j += 1;
    }
    let items = build_forest(&entries, 0, entries.len());
    (BasicItem::List(items), end)
}

/// The next entry that is not deeper is found by the entries before it
/// and the entry at it.
pub proof fn lemma_next_not_deeper_is(entries: Seq<ListEntryView>, from: int, hi: int, indent: nat, at: int)
    requires
        0 <= from <= at <= hi <= entries.len(),
        forall|k: int| from <= k < at ==> (#[trigger] entries[k]).indent > indent,
        at < hi ==> entries[at].indent <= indent,
    ensures
        next_not_deeper(entries, from, hi, indent) == at,
    decreases at - from,
{
    if from < at {
        assert(entries[from].indent > indent);
        lemma_next_not_deeper_is(entries, from + 1, hi, indent, at);
    }
}

/// Every entry before the next that is not deeper is deeper, and that one
/// is not.
pub proof fn lemma_next_part(entries: Seq<ListEntryView>, from: int, hi: int, indent: nat)
    requires
        0 <= from <= hi <= entries.len(),
    ensures
        forall|k: int|
            from <= k < next_not_deeper(entries, from, hi, indent) ==> (#[trigger] entries[k]).indent
                > indent,
        next_not_deeper(entries, from, hi, indent) < hi ==> entries[next_not_deeper(
            entries,
            from,
            hi,
            indent,
        )].indent <= indent,
    decreases hi - from,
{
    if from < hi && entries[from].indent > indent {
        lemma_next_part(entries, from + 1, hi, indent);
    }
}

/// What a part of the entries makes depends on that part alone.
pub proof fn lemma_forest_local(
    whole: Seq<ListEntryView>,
    part: Seq<ListEntryView>,
    offset: int,
    lo: int,
    hi: int,
)
    requires
        0 <= offset,
        0 <= lo <= hi <= part.len(),
        offset + part.len() <= whole.len(),
        forall|k: int| 0 <= k < part.len() ==> whole[offset + k] == #[trigger] part[k],
    ensures
        forest(whole, offset + lo, offset + hi) == forest(part, lo, hi),
    decreases hi - lo,
{
    if lo < hi {
        let indent = part[lo].indent;
        assert(whole[offset + lo] == part[lo]);
        let end = next_not_deeper(part, lo + 1, hi, indent);
        lemma_next_not_deeper(part, lo + 1, hi, indent);
        lemma_next_part(part, lo + 1, hi, indent);
        assert forall|k: int| offset + lo + 1 <= k < offset + end implies (#[trigger] whole[k]).indent
            > indent by {
            assert(whole[offset + (k - offset)] == part[k - offset]);
        }
        if end < hi {
            assert(whole[offset + end] == part[end]);
        }
        lemma_next_not_deeper_is(whole, offset + lo + 1, offset + hi, indent, offset + end);
        lemma_forest_local(whole, part, offset, lo + 1, end);
        lemma_forest_local(whole, part, offset, end, hi);
    }
}

} // verus!
