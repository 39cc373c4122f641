//! Reading, writing and reading again: what a parse has read can be
//! written, and then reads back as the same.

use vstd::prelude::*;
use crate::elems::document::DocumentView;
use crate::elems::items::{BasicItemView, ListItemView};
use crate::elems::tittle::{is_tittle_line, tittle_of};
use crate::error::ParseError;
use crate::parse::{attr_of, block_at, distinct_keys, lemma_block_advances, parse_from, parse_text};
use crate::parse::{upsert, upsert_all, with_item, Parsed, ParserState};
use crate::parser::block::{code_block, find_stop, is_rule, join_lines, lemma_find_stop, lemma_join_cons};
use crate::parser::block::{comment_block, digits_end, ends_comment, line_kind, list_marker, stops};
use crate::parser::block::{LineKind, Stop};
use crate::parser::list::{forest, lemma_next_not_deeper, list_entries, list_entry, next_not_deeper};
use crate::parser::list::{list_block, ListEntryView};
use crate::parser::quote::{quote_block, quote_items};
use crate::parser::table::{cells_of, rows_of, table_block};
use crate::render::{document_text, entries_of, no_line_stops, writable, writable_cells};
use crate::render::{writable_document, writable_item};
use crate::round_trip::lemma_document_reads_back;
use crate::text::{back_space, free_of, index_of, lemma_back_space, lemma_index_of, lemma_run_end};
use crate::text::{lemma_skip_space, lemma_split_cons, lemma_split_nonempty, lemma_split_pieces};
use crate::text::{lemma_split_single, lemma_trim_is_tight, lines_of, run_end, skip_space, split};
use crate::text::{is_space, tight, trim};
use crate::theorems::lemma_last_write_wins;

verus! {

/// Whether none of `lines` holds a line feed.
pub open spec fn one_line_each(lines: Seq<Seq<char>>) -> bool {
    forall|k: int| 0 <= k < lines.len() ==> free_of(#[trigger] lines[k], '\n')
}

/// A part of a text holds no character that the text does not hold.
pub proof fn lemma_part_free(s: Seq<char>, lo: int, hi: int, c: char)
    requires
        free_of(s, c),
        0 <= lo <= hi <= s.len(),
    ensures
        free_of(s.subrange(lo, hi), c),
{
    assert forall|k: int| 0 <= k < hi - lo implies s.subrange(lo, hi)[k] != c by {
        assert(s.subrange(lo, hi)[k] == s[lo + k]);
    }
}

/// A trimmed text holds no character that the text does not hold.
pub proof fn lemma_trim_free(s: Seq<char>, c: char)
    requires
        free_of(s, c),
    ensures
        free_of(trim(s), c),
{
    lemma_skip_space(s, 0);
    lemma_back_space(s, skip_space(s, 0), s.len() as int);
    lemma_part_free(s, skip_space(s, 0), back_space(s, skip_space(s, 0), s.len() as int), c);
}

/// A text that does not end with white space is trimmed to a text that is
/// not empty.
pub proof fn lemma_trim_keeps_end(s: Seq<char>)
    requires
        s.len() > 0,
        !is_space(s[s.len() - 1]),
    ensures
        trim(s).len() > 0,
{
    lemma_skip_space(s, 0);
    let lo = skip_space(s, 0);
    assert(lo < s.len()) by {
        if lo >= s.len() {
            assert(is_space(s[s.len() - 1]));
        }
    }
    assert(back_space(s, lo, s.len() as int) == s.len());
}

/// The lines of a text hold no line feed.
pub proof fn lemma_lines_of_one_line_each(text: Seq<char>)
    ensures
        one_line_each(lines_of(text)),
{
    lemma_split_pieces(text, '\n');
    let pieces = split(text, '\n');
    let lines = lines_of(text);
    assert forall|k: int| 0 <= k < lines.len() implies free_of(#[trigger] lines[k], '\n') by {
        assert(lines[k] == pieces[k]);
        assert forall|j: int| 0 <= j < pieces[k].len() implies pieces[k][j] != '\n' by {
            assert(split(text, '\n')[k][j] != '\n');
        }
    }
}

/// The pieces of a text hold no character that the text does not hold.
pub proof fn lemma_pieces_free(s: Seq<char>, at: char, c: char)
    requires
        free_of(s, c),
    ensures
        forall|k: int| 0 <= k < split(s, at).len() ==> free_of(#[trigger] split(s, at)[k], c),
    decreases s.len(),
{
    let i = index_of(s, 0, at);
    lemma_index_of(s, 0, at);
    if 0 <= i < s.len() {
        let rest = s.subrange(i + 1, s.len() as int);
        lemma_part_free(s, i + 1, s.len() as int, c);
        lemma_part_free(s, 0, i, c);
        lemma_pieces_free(rest, at, c);
        assert forall|k: int| 0 <= k < split(s, at).len() implies free_of(
            #[trigger] split(s, at)[k],
            c,
        ) by {
            if k > 0 {
                assert(split(s, at)[k] == split(rest, at)[k - 1]);
            }
        }
    }
}

/// The lines that were joined are the lines of what they were joined to,
/// where there is a line and none of them holds a line feed.
pub proof fn lemma_split_join(lines: Seq<Seq<char>>)
    requires
        lines.len() >= 1,
        one_line_each(lines),
    ensures
        split(join_lines(lines), '\n') == lines,
    decreases lines.len(),
{
    if lines.len() == 1 {
        assert(free_of(lines[0], '\n'));
        lemma_split_single(lines[0], '\n');
        assert(seq![lines[0]] =~= lines);
    } else {
        let rest = lines.drop_first();
        assert(one_line_each(rest)) by {
            assert forall|k: int| 0 <= k < rest.len() implies free_of(#[trigger] rest[k], '\n') by {
                assert(rest[k] == lines[k + 1]);
            }
        }
        lemma_split_join(rest);
        assert(seq![lines[0]] + rest =~= lines);
        lemma_join_cons(lines[0], rest);
        assert(free_of(lines[0], '\n'));
        lemma_split_cons(lines[0], join_lines(rest), '\n');
    }
}

/// Whether `item` is one that a parse reads the same when it is written
/// and read again: no paragraph, and no comment or display math with a
/// line that would close it.
pub open spec fn settled(item: BasicItemView) -> bool {
    match item {
        BasicItemView::Paragraph(_) => false,
        BasicItemView::Comment(text) => no_line_stops(text, Stop::CommentClose),
        BasicItemView::Latex(text) => no_line_stops(text, Stop::LatexClose),
        _ => true,
    }
}

/// The title on a trimmed line can be written.
proof fn lemma_tittle_writable(t: Seq<char>)
    requires
        tight(t),
        free_of(t, '\n'),
        is_tittle_line(t),
    ensures
        writable_item(BasicItemView::Tittle(tittle_of(t))),
{
    let n = run_end(t, 0, '#');
    assert(is_space(' '));
    lemma_part_free(t, n + 1, t.len() as int, '\n');
    let text = t.subrange(n + 1, t.len() as int);
    assert(text[text.len() - 1] == t[t.len() - 1]);
}

/// The quote that begins on a line can be written.
proof fn lemma_quote_writable(lines: Seq<Seq<char>>, i: int)
    requires
        one_line_each(lines),
        0 <= i < lines.len(),
        line_kind(trim(lines[i])) == LineKind::Qoute,
    ensures
        writable_item(quote_block(lines, i).0),
{
    let stop = Stop::Other(LineKind::Qoute);
    let end = find_stop(lines, i, stop);
    lemma_find_stop(lines, i, stop);
    let items = quote_items(lines, i, end);
    assert(end > i);
    assert forall|k: int| 0 <= k < items.len() implies tight((#[trigger] items[k]).text) && free_of(
        items[k].text,
        '\n',
    ) by {
        let t = trim(lines[i + k]);
        let depth = run_end(t, 0, '>');
        lemma_run_end(t, 0, '>');
        lemma_trim_free(lines[i + k], '\n');
        lemma_part_free(t, depth, t.len() as int, '\n');
        lemma_trim_free(t.subrange(depth, t.len() as int), '\n');
        lemma_trim_is_tight(t.subrange(depth, t.len() as int));
    }
}

/// The block of code that a fence opens can be written.
proof fn lemma_code_writable(lines: Seq<Seq<char>>, i: int)
    requires
        one_line_each(lines),
        0 <= i < lines.len(),
        line_kind(trim(lines[i])) == LineKind::Fence,
    ensures
        code_block(lines, i) matches Ok((item, _)) ==> writable_item(item),
{
    let t = trim(lines[i]);
    let close = find_stop(lines, i + 1, Stop::FenceClose);
    lemma_find_stop(lines, i + 1, Stop::FenceClose);
    if close < lines.len() {
        let attr = trim(t.subrange(3, t.len() as int));
        lemma_trim_free(lines[i], '\n');
        lemma_part_free(t, 3, t.len() as int, '\n');
        lemma_trim_free(t.subrange(3, t.len() as int), '\n');
        lemma_trim_is_tight(t.subrange(3, t.len() as int));
        let inner = lines.subrange(i + 1, close);
        let content = join_lines(inner);
        if inner.len() == 0 {
            lemma_split_single(content, '\n');
            assert(trim(content).len() == 0) by {
                lemma_trim_is_tight(content);
            }
        } else {
            assert(one_line_each(inner)) by {
                assert forall|k: int| 0 <= k < inner.len() implies free_of(
                    #[trigger] inner[k],
                    '\n',
                ) by {
                    assert(inner[k] == lines[i + 1 + k]);
                }
            }
            lemma_split_join(inner);
            assert forall|k: int| 0 <= k < inner.len() implies !stops(
                Stop::FenceClose,
                trim(#[trigger] split(content, '\n')[k]),
            ) by {
                assert(inner[k] == lines[i + 1 + k]);
                assert(!stops(Stop::FenceClose, trim(lines[i + 1 + k])));
            }
        }
    }
}

/// The cells of a table line can be written, and there is one.
proof fn lemma_cells_writable(t: Seq<char>)
    requires
        free_of(t, '\n'),
        t.len() >= 1,
    ensures
        cells_of(t).len() >= 1,
        writable_cells(cells_of(t)),
{
    let hi = if t.len() >= 2 && t.last() == '|' {
        t.len() - 1
    } else {
        t.len() as int
    };
    let inner = t.subrange(1, hi);
    let pieces = split(inner, '|');
    lemma_part_free(t, 1, hi, '\n');
    lemma_split_nonempty(inner, '|');
    lemma_split_pieces(inner, '|');
    lemma_pieces_free(inner, '|', '\n');
    let cells = cells_of(t);
    assert forall|k: int| 0 <= k < cells.len() implies tight(#[trigger] cells[k]) && free_of(
        cells[k],
        '|',
    ) && free_of(cells[k], '\n') by {
        assert(cells[k] == trim(pieces[k]));
        assert(free_of(pieces[k], '|')) by {
            assert forall|j: int| 0 <= j < pieces[k].len() implies pieces[k][j] != '|' by {
                assert(split(inner, '|')[k][j] != '|');
            }
        }
        lemma_trim_is_tight(pieces[k]);
        lemma_trim_free(pieces[k], '|');
        lemma_trim_free(pieces[k], '\n');
    }
}

/// The table that begins on a line can be written.
proof fn lemma_table_writable(lines: Seq<Seq<char>>, i: int)
    requires
        one_line_each(lines),
        0 <= i < lines.len(),
        line_kind(trim(lines[i])) == LineKind::Table,
    ensures
        table_block(lines, i) matches Ok((item, _)) ==> writable_item(item),
{
    let stop = Stop::Other(LineKind::Table);
    let end = find_stop(lines, i, stop);
    lemma_find_stop(lines, i, stop);
    let first = if i + 2 <= end {
        i + 2
    } else {
        end
    };
    let rows = rows_of(lines, first, end);
    lemma_trim_free(lines[i], '\n');
    lemma_cells_writable(trim(lines[i]));
    assert forall|k: int| 0 <= k < rows.len() implies writable_cells(#[trigger] rows[k]) by {
        assert(!stops(stop, trim(lines[first + k])));
        lemma_trim_free(lines[first + k], '\n');
        lemma_cells_writable(trim(lines[first + k]));
    }
}

/// The text of a line of a list is trimmed, on one line, and not empty.
proof fn lemma_entry_writable(raw: Seq<char>)
    requires
        free_of(raw, '\n'),
        line_kind(trim(raw)) == LineKind::List,
    ensures
        tight(list_entry(raw).text),
        list_entry(raw).text.len() > 0,
        free_of(list_entry(raw).text, '\n'),
{
    let t = trim(raw);
    let at = list_marker(t).unwrap().1;
    lemma_trim_is_tight(raw);
    lemma_trim_free(raw, '\n');
    assert(is_space(' '));
    assert(2 <= at < t.len() && t[at - 1] == ' ') by {
        let d = digits_end(t, 0);
        if at != 2 {
            assert(at == d + 2);
        }
    }
    let rest = t.subrange(at, t.len() as int);
    assert(rest[rest.len() - 1] == t[t.len() - 1]);
    lemma_part_free(t, at, t.len() as int, '\n');
    lemma_trim_free(rest, '\n');
    lemma_trim_is_tight(rest);
    lemma_trim_keeps_end(rest);
}

/// The items that entries make hold the texts of the entries, in order,
/// when they are written again; and there is an item where there is an
/// entry.
proof fn lemma_forest_texts(entries: Seq<ListEntryView>, lo: int, hi: int, depth: nat)
    requires
        0 <= lo <= hi <= entries.len(),
    ensures
        entries_of(forest(entries, lo, hi), depth).len() == hi - lo,
        forall|k: int|
            0 <= k < hi - lo ==> (#[trigger] entries_of(forest(entries, lo, hi), depth)[k]).text
                == entries[lo + k].text,
        lo < hi ==> forest(entries, lo, hi).len() >= 1,
    decreases hi - lo,
{
    if lo < hi {
        let end = next_not_deeper(entries, lo + 1, hi, entries[lo].indent);
        lemma_next_not_deeper(entries, lo + 1, hi, entries[lo].indent);
        lemma_forest_texts(entries, lo + 1, end, depth + 1);
        lemma_forest_texts(entries, end, hi, depth);
        let children = forest(entries, lo + 1, end);
        let first = ListItemView { kind: entries[lo].kind, text: entries[lo].text, children };
        let after = forest(entries, end, hi);
        let items = forest(entries, lo, hi);
        assert(items == seq![first] + after);
        assert(items[0] == first);
        assert(items.drop_first() =~= after);
        let below = entries_of(children, depth + 1);
        let all = entries_of(items, depth);
        assert forall|k: int| 0 <= k < hi - lo implies (#[trigger] all[k]).text == entries[lo
            + k].text by {
            if k == 0 {
            } else if k <= below.len() {
                assert(all[k] == below[k - 1]);
            } else {
                assert(all[k] == entries_of(after, depth)[k - 1 - below.len()]);
            }
        }
    } else {
        assert(forest(entries, lo, hi).len() == 0);
    }
}

/// The list that begins on a line can be written.
proof fn lemma_list_writable(lines: Seq<Seq<char>>, i: int)
    requires
        one_line_each(lines),
        0 <= i < lines.len(),
        line_kind(trim(lines[i])) == LineKind::List,
    ensures
        writable_item(list_block(lines, i).0),
{
    let stop = Stop::Other(LineKind::List);
    let end = find_stop(lines, i, stop);
    lemma_find_stop(lines, i, stop);
    let entries = list_entries(lines, i, end);
    let items = forest(entries, 0, end - i);
    lemma_forest_texts(entries, 0, end - i, 0);
    let written = entries_of(items, 0);
    assert forall|k: int| 0 <= k < written.len() implies tight((#[trigger] written[k]).text)
        && written[k].text.len() > 0 && free_of(written[k].text, '\n') by {
        assert(written[k].text == entries[k].text);
        assert(entries[k] == list_entry(lines[i + k]));
        assert(!stops(stop, trim(lines[i + k])));
        lemma_entry_writable(lines[i + k]);
    }
}

/// What a block is read as can be written, where it is settled.
pub proof fn lemma_block_writable(lines: Seq<Seq<char>>, i: int)
    requires
        one_line_each(lines),
        0 <= i < lines.len(),
    ensures
        block_at(lines, i) matches Ok((Some(item), _)) ==> (settled(item) ==> writable_item(item)),
{
    let t = trim(lines[i]);
    lemma_trim_is_tight(lines[i]);
    lemma_trim_free(lines[i], '\n');
    match line_kind(t) {
        LineKind::Tittle => lemma_tittle_writable(t),
        LineKind::Fence => lemma_code_writable(lines, i),
        LineKind::Comment => {
            match comment_block(lines, i) {
                Ok((BasicItemView::Comment(text), _)) => {
                    let rest = t.subrange(4, t.len() as int);
                    if ends_comment(rest) {
                        lemma_trim_is_tight(rest.subrange(0, rest.len() - 3));
                    } else {
                        let close = find_stop(lines, i + 1, Stop::CommentClose);
                        let last = trim(lines[close]);
                        let body = seq![rest] + lines.subrange(i + 1, close) + seq![
                            last.subrange(0, last.len() - 3),
                        ];
                        lemma_trim_is_tight(join_lines(body));
                    }
                },
                _ => {},
            }
        },
        LineKind::Qoute => lemma_quote_writable(lines, i),
        LineKind::List => lemma_list_writable(lines, i),
        LineKind::Table => lemma_table_writable(lines, i),
        _ => {},
    }
}

/// The attribute on a line of front matter can be written.
pub proof fn lemma_attr_writable(t: Seq<char>)
    requires
        free_of(t, '\n'),
    ensures
        attr_of(t) matches Some(pair) ==> writable(pair),
{
    let at = index_of(t, 0, ':');
    lemma_index_of(t, 0, ':');
    if 0 <= at < t.len() {
        let key = t.subrange(0, at);
        let value = t.subrange(at + 1, t.len() as int);
        assert(free_of(key, ':'));
        lemma_part_free(t, 0, at, '\n');
        lemma_part_free(t, at + 1, t.len() as int, '\n');
        lemma_trim_free(key, ':');
        lemma_trim_free(key, '\n');
        lemma_trim_free(value, '\n');
        lemma_trim_is_tight(key);
        lemma_trim_is_tight(value);
    }
}

/// Whether each of `attrs` can be written.
pub open spec fn all_writable(attrs: Seq<(Seq<char>, Seq<char>)>) -> bool {
    forall|k: int| 0 <= k < attrs.len() ==> writable(#[trigger] attrs[k])
}

/// Whether each of `items` that is settled can be written.
pub open spec fn settled_writable(items: Seq<BasicItemView>) -> bool {
    forall|k: int| 0 <= k < items.len() ==> (settled(#[trigger] items[k]) ==> writable_item(items[k]))
}

/// What a parse reads can be written: each attribute, and each item that
/// is settled.
pub proof fn lemma_parsed_writable(
    lines: Seq<Seq<char>>,
    i: int,
    state: ParserState,
    attrs: Seq<(Seq<char>, Seq<char>)>,
    items: Seq<BasicItemView>,
)
    requires
        one_line_each(lines),
        all_writable(attrs),
        settled_writable(items),
    ensures
        parse_from(lines, i, state, attrs, items) matches Ok(parsed) ==> all_writable(parsed.attrs)
            && settled_writable(parsed.items),
    decreases lines.len() - i,
{
    if 0 <= i < lines.len() {
        let t = trim(lines[i]);
        if state == ParserState::Begin && is_rule(t) {
            lemma_parsed_writable(lines, i + 1, ParserState::DocumentAttr, attrs, items);
        } else if state == ParserState::Begin && t.len() == 0 {
            lemma_parsed_writable(lines, i + 1, ParserState::Begin, attrs, items);
        } else if state == ParserState::DocumentAttr {
            if is_rule(t) {
                lemma_parsed_writable(lines, i + 1, ParserState::Document, attrs, items);
            } else {
                lemma_trim_free(lines[i], '\n');
                lemma_attr_writable(t);
                match attr_of(t) {
                    Some(pair) => {
                        assert(all_writable(attrs.push(pair)));
                        lemma_parsed_writable(
                            lines,
                            i + 1,
                            ParserState::DocumentAttr,
                            attrs.push(pair),
                            items,
                        );
                    },
                    None => {},
                }
            }
        } else {
            match block_at(lines, i) {
                Ok(block) => {
                    lemma_block_advances(lines, i);
                    lemma_block_writable(lines, i);
                    let more = with_item(items, block.0);
                    assert(settled_writable(more));
                    lemma_parsed_writable(lines, block.1, ParserState::Document, attrs, more);
                },
                Err(_) => {},
            }
        }
    }
}

/// After attributes that can be written are written into attributes that
/// can be written, each attribute can be written.
pub proof fn lemma_written_writable(
    attrs: Seq<(Seq<char>, Seq<char>)>,
    pairs: Seq<(Seq<char>, Seq<char>)>,
)
    requires
        all_writable(attrs),
        all_writable(pairs),
    ensures
        all_writable(upsert_all(attrs, pairs)),
    decreases pairs.len(),
{
    if pairs.len() > 0 {
        let front = pairs.drop_last();
        assert(all_writable(front)) by {
            assert forall|k: int| 0 <= k < front.len() implies writable(#[trigger] front[k]) by {
                assert(front[k] == pairs[k]);
            }
        }
        lemma_written_writable(attrs, front);
        let before = upsert_all(attrs, front);
        let after = upsert(before, pairs.last().0, pairs.last().1);
        assert(writable(pairs.last()));
        assert(pairs.last() == (pairs.last().0, pairs.last().1));
        assert forall|k: int| 0 <= k < after.len() implies writable(#[trigger] after[k]) by {
            if k < before.len() && after[k] == before[k] {
            } else {
                assert(after[k] == pairs.last());
            }
        }
    }
}

/// The document that a parse of a text from the beginning has read.
pub open spec fn document_read(parsed: Parsed) -> DocumentView {
    DocumentView { attrs: upsert_all(Seq::empty(), parsed.attrs), items: parsed.items }
}

/// Reading, writing and reading again gives what the first reading gave.
///
/// Where a text is read from the beginning, and each item read is settled,
/// the document read can be written, and what is written is read as the
/// same document.
pub proof fn lemma_read_again(text: Seq<char>)
    ensures
        parse_text(text, ParserState::Begin) matches Ok(parsed) ==> ((forall|k: int|
            0 <= k < parsed.items.len() ==> settled(#[trigger] parsed.items[k]))
            ==> writable_document(document_read(parsed)) && parse_text(
            document_text(document_read(parsed)),
            ParserState::Begin,
        ) == Ok::<Parsed, ParseError>(
            Parsed {
                state: ParserState::Document,
                attrs: document_read(parsed).attrs,
                items: document_read(parsed).items,
            },
        )),
{
    match parse_text(text, ParserState::Begin) {
        Ok(parsed) => {
            if forall|k: int| 0 <= k < parsed.items.len() ==> settled(#[trigger] parsed.items[k]) {
                let none = Seq::<(Seq<char>, Seq<char>)>::empty();
                lemma_lines_of_one_line_each(text);
                lemma_parsed_writable(
                    lines_of(text),
                    0,
                    ParserState::Begin,
                    none,
                    Seq::empty(),
                );
                lemma_written_writable(none, parsed.attrs);
                lemma_last_write_wins(none, parsed.attrs, Seq::empty());
                let doc = document_read(parsed);
                assert(distinct_keys(none));
                assert(writable_document(doc)) by {
                    assert forall|k: int| 0 <= k < doc.items.len() implies writable_item(
                        #[trigger] doc.items[k],
                    ) by {
                        assert(settled(parsed.items[k]));
                    }
                }
                lemma_document_reads_back(doc);
            }
        },
        Err(_) => {},
    }
}

} // verus!
