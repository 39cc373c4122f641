//! Reading back what was written: a document that is written as Markdown
//! is read as the same document.

use vstd::prelude::*;
use crate::elems::document::DocumentView;
use crate::elems::items::{BasicItemView, ListItemView, ListKind, QouteItemView};
use crate::elems::tittle::{hashes, lemma_tittle_level};
use crate::error::ParseError;
use crate::parse::{block_at, parse_from, parse_text, upsert_all, with_item, Parsed, ParserState};
use crate::parser::block::{digits_end, find_stop, is_rule, join_lines, lemma_blank, lemma_find_stop_is};
use crate::parser::block::{lemma_join_cons, lemma_join_split, line_kind, list_marker, stops, LineKind};
use crate::parser::block::Stop;
use crate::parser::list::{forest, lemma_forest_local, lemma_next_not_deeper_is, list_entries};
use crate::parser::list::{list_entry, ListEntryView};
use crate::parser::quote::{quote_item, quote_items};
use crate::parser::table::{cells_of, rows_of, trim_all};
use crate::render::{angles, attr_lines, cells_text, comment_close_line, comment_open_line};
use crate::render::{document_lines, document_text, entries_of, entry_line, fence_line, item_lines};
use crate::render::{latex_fence_line, marker_text, markdown_lines, no_line_stops, pad, quote_line};
use crate::render::row_line;
use crate::render::{rule_cells, rule_line, writable_cells, writable_document, writable_item};
use crate::text::{back_space, free_of, is_space, lemma_run_end_is, lemma_skip_space_is};
use crate::text::{lemma_split_cons, lemma_split_nonempty, lemma_split_pieces, lemma_split_single};
use crate::text::{lemma_trim_after_space, lemma_trim_between, lemma_trim_is_tight, lemma_trim_tight};
use crate::text::{lines_of, run_end};
use crate::text::{skip_space, split, tight, trim};
use crate::theorems::{lemma_distinct_written, lemma_front_matter_lines, lemma_front_matter_then};
use crate::theorems::lemma_lines_of_text;

verus! {

/// Whether the lines from `i` on are those of `item` and a blank line.
pub open spec fn written_at(lines: Seq<Seq<char>>, i: int, item: BasicItemView) -> bool {
    let own = item_lines(item);
    &&& 0 <= i
    &&& i + own.len() < lines.len()
    &&& forall|k: int| 0 <= k < own.len() ==> lines[i + k] == #[trigger] own[k]
    &&& lines[i + own.len()].len() == 0
}

/// A written title reads back as the title.
proof fn lemma_read_tittle(lines: Seq<Seq<char>>, i: int, item: BasicItemView)
    requires
        item is Tittle,
        writable_item(item),
        written_at(lines, i, item),
    ensures
        block_at(lines, i) == Ok::<(Option<BasicItemView>, int), ParseError>((Some(item), i + 1)),
{
    let t = item->Tittle_0;
    let line = hashes(t.level) + seq![' '] + t.tittle;
    assert(lines[i] == item_lines(item)[0]);
    assert(!is_space('#'));
    assert(line[0] == '#');
    assert(line[line.len() - 1] == t.tittle[t.tittle.len() - 1]);
    lemma_trim_tight(line);
    lemma_tittle_level(t.level, t.tittle);
}

/// A written rule reads back as a rule.
proof fn lemma_read_rule(lines: Seq<Seq<char>>, i: int, item: BasicItemView)
    requires
        item is HLine,
        written_at(lines, i, item),
    ensures
        block_at(lines, i) == Ok::<(Option<BasicItemView>, int), ParseError>((Some(item), i + 1)),
{
    let line = rule_line();
    assert(lines[i] == item_lines(item)[0]);
    assert(!is_space('-'));
    lemma_trim_tight(line);
    assert(run_end(line, 0, '#') == 0);
}

/// A written line of a quote is a line of a quote, and reads back as what
/// it was written for.
proof fn lemma_quote_line(q: QouteItemView)
    requires
        tight(q.text),
    ensures
        line_kind(trim(quote_line(q))) == LineKind::Qoute,
        quote_item(trim(quote_line(q))) == q,
{
    let depth = (q.nesting + 1) as int;
    let line = quote_line(q);
    assert(!is_space('>'));
    assert(is_space(' '));
    assert(line[0] == '>');
    assert(line[depth] == ' ');
    assert(skip_space(line, 0) == 0);
    let t = trim(line);
    if q.text.len() > 0 {
        assert(line[line.len() - 1] == q.text[q.text.len() - 1]);
        lemma_trim_tight(line);
        assert(t.subrange(depth, t.len() as int) =~= seq![' '] + q.text);
        lemma_trim_after_space(q.text);
    } else {
        let full = line.len() as int;
        assert(full == depth + 1);
        assert(line[full - 2] == '>');
        assert(back_space(line, 0, full - 1) == full - 1);
        assert(back_space(line, 0, full) == full - 1);
        assert(t =~= angles(q.nesting + 1));
        assert(t.subrange(depth, t.len() as int) =~= Seq::<char>::empty());
        assert(trim(Seq::<char>::empty()) =~= q.text);
    }
    assert(t[0] == '>');
    assert(forall|k: int| 0 <= k < depth ==> t[k] == '>');
    lemma_run_end_is(t, 0, '>', depth);
    assert(run_end(t, 0, '#') == 0);
}

/// A written quote reads back as the quote.
proof fn lemma_read_quote(lines: Seq<Seq<char>>, i: int, item: BasicItemView)
    requires
        item is Qoute,
        writable_item(item),
        written_at(lines, i, item),
    ensures
        block_at(lines, i) == Ok::<(Option<BasicItemView>, int), ParseError>(
            (Some(item), i + item_lines(item).len()),
        ),
{
    let items = item->Qoute_0;
    let own = item_lines(item);
    let n = items.len() as int;
    let stop = Stop::Other(LineKind::Qoute);
    assert forall|k: int| i <= k < i + n implies line_kind(#[trigger] trim(lines[k]))
        == LineKind::Qoute && quote_item(trim(lines[k])) == items[k - i] by {
        assert(lines[i + (k - i)] == own[k - i]);
        assert(tight(items[k - i].text));
        lemma_quote_line(items[k - i]);
    }
    lemma_blank(lines[i + n]);
    lemma_find_stop_is(lines, i, stop, i + n);
    assert(quote_items(lines, i, i + n) =~= items);
}

/// What is written between two fences is read as it was written: the
/// stop is found after the lines of the text, and they join to the text.
proof fn lemma_read_between(lines: Seq<Seq<char>>, i: int, text: Seq<char>, stop: Stop, close: Seq<char>)
    requires
        0 <= i,
        no_line_stops(text, stop),
        stops(stop, trim(close)),
        i + 1 + split(text, '\n').len() < lines.len(),
        forall|k: int|
            0 <= k < split(text, '\n').len() ==> lines[i + 1 + k] == #[trigger] split(text, '\n')[k],
        lines[i + 1 + split(text, '\n').len()] == close,
    ensures
        find_stop(lines, i + 1, stop) == i + 1 + split(text, '\n').len(),
        lines.subrange(i + 1, i + 1 + split(text, '\n').len()) == split(text, '\n'),
        join_lines(lines.subrange(i + 1, i + 1 + split(text, '\n').len())) == text,
{
    let inner = split(text, '\n');
    let end = i + 1 + inner.len();
    assert forall|k: int| i + 1 <= k < end implies !stops(stop, #[trigger] trim(lines[k])) by {
        assert(lines[i + 1 + (k - i - 1)] == inner[k - i - 1]);
    }
    lemma_find_stop_is(lines, i + 1, stop, end);
    assert(lines.subrange(i + 1, end) =~= inner);
    lemma_join_split(text);
}

/// A written block of code reads back as the block.
proof fn lemma_read_code(lines: Seq<Seq<char>>, i: int, item: BasicItemView)
    requires
        item is Code,
        writable_item(item),
        written_at(lines, i, item),
    ensures
        block_at(lines, i) == Ok::<(Option<BasicItemView>, int), ParseError>(
            (Some(item), i + item_lines(item).len()),
        ),
{
    let c = item->Code_0;
    let own = item_lines(item);
    let inner = split(c.content, '\n');
    let open = fence_line() + c.attr;
    assert(!is_space('`'));
    assert(lines[i + 0] == own[0]);
    assert(open[0] == '`');
    if c.attr.len() > 0 {
        assert(open[open.len() - 1] == c.attr[c.attr.len() - 1]);
    }
    lemma_trim_tight(open);
    lemma_trim_tight(fence_line());
    lemma_trim_tight(c.attr);
    assert(run_end(open, 0, '#') == 0);
    assert(open.subrange(3, open.len() as int) =~= c.attr);
    assert forall|k: int| 0 <= k < inner.len() implies lines[i + 1 + k] == #[trigger] inner[k] by {
        assert(lines[i + (1 + k)] == own[1 + k]);
    }
    assert(lines[i + (1 + inner.len())] == own[1 + inner.len() as int]);
    lemma_read_between(lines, i, c.content, Stop::FenceClose, fence_line());
}

/// A written block of display math reads back as the block.
proof fn lemma_read_latex(lines: Seq<Seq<char>>, i: int, item: BasicItemView)
    requires
        item is Latex,
        writable_item(item),
        written_at(lines, i, item),
    ensures
        block_at(lines, i) == Ok::<(Option<BasicItemView>, int), ParseError>(
            (Some(item), i + item_lines(item).len()),
        ),
{
    let text = item->Latex_0;
    let own = item_lines(item);
    let inner = split(text, '\n');
    let open = latex_fence_line();
    assert(!is_space('$'));
    assert(lines[i + 0] == own[0]);
    lemma_trim_tight(open);
    assert(run_end(open, 0, '#') == 0);
    assert forall|k: int| 0 <= k < inner.len() implies lines[i + 1 + k] == #[trigger] inner[k] by {
        assert(lines[i + (1 + k)] == own[1 + k]);
    }
    assert(lines[i + (1 + inner.len())] == own[1 + inner.len() as int]);
    lemma_read_between(lines, i, text, Stop::LatexClose, open);
}

/// A written comment reads back as the comment.
proof fn lemma_read_comment(lines: Seq<Seq<char>>, i: int, item: BasicItemView)
    requires
        item is Comment,
        writable_item(item),
        written_at(lines, i, item),
    ensures
        block_at(lines, i) == Ok::<(Option<BasicItemView>, int), ParseError>(
            (Some(item), i + item_lines(item).len()),
        ),
{
    let text = item->Comment_0;
    let own = item_lines(item);
    let inner = split(text, '\n');
    let open = comment_open_line();
    let close = comment_close_line();
    let empty = Seq::<char>::empty();
    assert(!is_space('<') && !is_space('-') && !is_space('>'));
    assert(lines[i + 0] == own[0]);
    lemma_trim_tight(open);
    lemma_trim_tight(close);
    assert(run_end(open, 0, '#') == 0);
    assert forall|k: int| 0 <= k < inner.len() implies lines[i + 1 + k] == #[trigger] inner[k] by {
        assert(lines[i + (1 + k)] == own[1 + k]);
    }
    assert(lines[i + (1 + inner.len())] == own[1 + inner.len() as int]);
    lemma_read_between(lines, i, text, Stop::CommentClose, close);
    let end = i + 1 + inner.len();
    assert(open.subrange(4, open.len() as int) =~= empty);
    assert(close.subrange(0, close.len() - 3) =~= empty);
    let body = seq![empty] + inner + seq![empty];
    lemma_split_nonempty(text, '\n');
    assert(body.drop_last() =~= seq![empty] + inner);
    lemma_join_cons(empty, inner);
    assert(join_lines(body) =~= seq!['\n'] + text + seq!['\n']);
    assert(is_space('\n'));
    lemma_trim_between('\n', text, '\n');
}

/// The cells of a written row are its cells, each with a space on each
/// side.
proof fn lemma_split_cells(cells: Seq<Seq<char>>)
    requires
        cells.len() >= 1,
        writable_cells(cells),
    ensures
        split(cells_text(cells), '|') == Seq::new(cells.len(), |k: int| pad(cells[k])),
    decreases cells.len(),
{
    let padded = Seq::new(cells.len(), |k: int| pad(cells[k]));
    assert(' ' != '|');
    assert(free_of(pad(cells[0]), '|')) by {
        assert(free_of(cells[0], '|'));
        assert forall|j: int| 0 <= j < pad(cells[0]).len() implies pad(cells[0])[j] != '|' by {
            if 1 <= j <= cells[0].len() {
                assert(pad(cells[0])[j] == cells[0][j - 1]);
            }
        }
    }
    if cells.len() == 1 {
        lemma_split_single(pad(cells[0]), '|');
        assert(seq![pad(cells[0])] =~= padded);
    } else {
        let rest = cells.drop_first();
        assert(writable_cells(rest)) by {
            assert forall|k: int| 0 <= k < rest.len() implies tight(#[trigger] rest[k]) && free_of(
                rest[k],
                '|',
            ) && free_of(rest[k], '\n') by {
                assert(rest[k] == cells[k + 1]);
            }
        }
        lemma_split_cells(rest);
        lemma_split_cons(pad(cells[0]), cells_text(rest), '|');
        assert(seq![pad(cells[0])] + Seq::new(rest.len(), |k: int| pad(rest[k])) =~= padded);
    }
}

/// A written row of a table is a line of a table, and its cells are read
/// as they were written.
proof fn lemma_row_line(cells: Seq<Seq<char>>)
    requires
        cells.len() >= 1,
        writable_cells(cells),
    ensures
        line_kind(trim(row_line(cells))) == LineKind::Table,
        cells_of(trim(row_line(cells))) == cells,
{
    let line = row_line(cells);
    let inner = cells_text(cells);
    assert(!is_space('|'));
    assert(is_space(' '));
    assert(inner.len() >= 2) by {
        assert(pad(cells[0]).len() >= 2);
        if cells.len() > 1 {
            assert(inner == pad(cells[0]) + seq!['|'] + cells_text(cells.drop_first()));
        }
    }
    assert(line[0] == '|');
    assert(line[line.len() - 1] == '|');
    lemma_trim_tight(line);
    assert(run_end(line, 0, '#') == 0);
    assert(digits_end(line, 0) == 0);
    assert(line.subrange(1, line.len() - 1) =~= inner);
    lemma_split_cells(cells);
    let padded = Seq::new(cells.len(), |k: int| pad(cells[k]));
    assert(trim_all(padded) =~= cells) by {
        assert forall|k: int| 0 <= k < cells.len() implies trim(#[trigger] padded[k])
            == cells[k] by {
            assert(tight(cells[k]));
            lemma_trim_between(' ', cells[k], ' ');
        }
    }
}

/// A written table reads back as the table.
proof fn lemma_read_table(lines: Seq<Seq<char>>, i: int, item: BasicItemView)
    requires
        item is Table,
        writable_item(item),
        written_at(lines, i, item),
    ensures
        block_at(lines, i) == Ok::<(Option<BasicItemView>, int), ParseError>(
            (Some(item), i + item_lines(item).len()),
        ),
{
    let t = item->Table_0;
    let own = item_lines(item);
    let n = own.len() as int;
    let under = rule_cells(t.header.len());
    let stop = Stop::Other(LineKind::Table);
    assert(n == 2 + t.rows.len());
    assert(writable_cells(under)) by {
        assert(!is_space('-'));
        assert('-' != '|' && '-' != '\n');
    }
    assert forall|k: int| i <= k < i + n implies line_kind(#[trigger] trim(lines[k]))
        == LineKind::Table by {
        assert(lines[i + (k - i)] == own[k - i]);
        if k == i {
            lemma_row_line(t.header);
        } else if k == i + 1 {
            lemma_row_line(under);
        } else {
            assert(own[k - i] == row_line(t.rows[k - i - 2]));
            assert(writable_cells(t.rows[k - i - 2]));
            assert(t.rows[k - i - 2].len() == t.header.len());
            lemma_row_line(t.rows[k - i - 2]);
        }
    }
    lemma_blank(lines[i + n]);
    lemma_find_stop_is(lines, i, stop, i + n);
    assert(lines[i + 0] == own[0]);
    lemma_row_line(t.header);
    assert(rows_of(lines, i + 2, i + n) =~= t.rows) by {
        assert forall|k: int| 0 <= k < t.rows.len() implies cells_of(trim(lines[i + 2 + k]))
            == #[trigger] t.rows[k] by {
            assert(lines[i + (2 + k)] == own[2 + k]);
            assert(writable_cells(t.rows[k]));
            assert(t.rows[k].len() == t.header.len());
            lemma_row_line(t.rows[k]);
        }
    }
}

/// The entries of items at a depth are indented by two spaces for each
/// level at least, and the first of them by exactly as much; and there is
/// an entry where there is an item.
pub proof fn lemma_entries_indent(items: Seq<ListItemView>, depth: nat)
    ensures
        forall|k: int|
            0 <= k < entries_of(items, depth).len() ==> (#[trigger] entries_of(
                items,
                depth,
            )[k]).indent >= 2 * depth,
        items.len() > 0 ==> entries_of(items, depth).len() > 0 && entries_of(
            items,
            depth,
        )[0].indent == 2 * depth,
    decreases items,
{
    if items.len() > 0 {
        lemma_entries_indent(items[0].children, depth + 1);
        lemma_entries_indent(items.drop_first(), depth);
    }
}

/// The entries that items are written as make those items.
pub proof fn lemma_forest_of_entries(items: Seq<ListItemView>, depth: nat)
    ensures
        forest(entries_of(items, depth), 0, entries_of(items, depth).len() as int) == items,
    decreases items,
{
    let all = entries_of(items, depth);
    if items.len() == 0 {
        assert(forest(all, 0, 0) =~= items);
    } else {
        let head = ListEntryView { indent: 2 * depth, kind: items[0].kind, text: items[0].text };
        let below = entries_of(items[0].children, depth + 1);
        let after = entries_of(items.drop_first(), depth);
        let end = 1 + below.len() as int;
        assert(all == seq![head] + below + after);
        lemma_entries_indent(items[0].children, depth + 1);
        lemma_entries_indent(items.drop_first(), depth);
        assert forall|k: int| 1 <= k < end implies (#[trigger] all[k]).indent > head.indent by {
            assert(all[k] == below[k - 1]);
        }
        if end < all.len() {
            assert(all[end] == after[0]);
        }
        lemma_next_not_deeper_is(all, 1, all.len() as int, head.indent, end);
        lemma_forest_of_entries(items[0].children, depth + 1);
        lemma_forest_of_entries(items.drop_first(), depth);
        assert forall|k: int| 0 <= k < below.len() implies all[1 + k] == #[trigger] below[k] by {}
        lemma_forest_local(all, below, 1, 0, below.len() as int);
        assert forall|k: int| 0 <= k < after.len() implies all[end + k] == #[trigger] after[k] by {}
        lemma_forest_local(all, after, end, 0, after.len() as int);
        let first = ListItemView {
            kind: head.kind,
            text: head.text,
            children: forest(all, 1, end),
        };
        assert(first == items[0]);
        assert(forest(all, 0, all.len() as int) == seq![first] + forest(
            all,
            end,
            all.len() as int,
        ));
        assert(seq![items[0]] + items.drop_first() =~= items);
    }
}

/// A written entry of a list is a line of a list, and reads back as the
/// entry.
proof fn lemma_entry_line(e: ListEntryView)
    requires
        tight(e.text),
        e.text.len() > 0,
    ensures
        line_kind(trim(entry_line(e))) == LineKind::List,
        list_entry(entry_line(e)) == e,
{
    let raw = entry_line(e);
    let marker = marker_text(e.kind);
    let n = e.indent as int;
    let full = raw.len() as int;
    assert(is_space(' '));
    assert(!is_space('1') && !is_space('+') && !is_space('-') && !is_space('*'));
    assert(forall|k: int| 0 <= k < n ==> raw[k] == ' ');
    assert(raw[n] == marker[0]);
    lemma_skip_space_is(raw, 0, n);
    assert(raw[full - 1] == e.text[e.text.len() - 1]);
    assert(back_space(raw, n, full) == full);
    let t = trim(raw);
    assert(t =~= marker + seq![' '] + e.text);
    let at = marker.len() as int + 1;
    assert(t.subrange(at, t.len() as int) =~= e.text);
    lemma_trim_tight(e.text);
    assert(run_end(t, 0, '#') == 0);
    match e.kind {
        ListKind::Ordered => {
            assert(t[0] == '1' && t[1] == '.' && t[2] == ' ');
            assert(digits_end(t, 1) == 1);
            assert(digits_end(t, 0) == 1);
            assert(list_marker(t) == Some((ListKind::Ordered, 3int)));
        },
        ListKind::Plus => {
            assert(t[0] == '+' && t[1] == ' ');
        },
        ListKind::Dash => {
            assert(t[0] == '-' && t[1] == ' ');
        },
        ListKind::Star => {
            assert(t[0] == '*' && t[1] == ' ');
        },
    }
}

/// A written list reads back as the list.
proof fn lemma_read_list(lines: Seq<Seq<char>>, i: int, item: BasicItemView)
    requires
        item is List,
        writable_item(item),
        written_at(lines, i, item),
    ensures
        block_at(lines, i) == Ok::<(Option<BasicItemView>, int), ParseError>(
            (Some(item), i + item_lines(item).len()),
        ),
        item_lines(item).len() >= 1,
{
    let items = item->List_0;
    let entries = entries_of(items, 0);
    let own = item_lines(item);
    let n = own.len() as int;
    let stop = Stop::Other(LineKind::List);
    lemma_entries_indent(items, 0);
    assert forall|k: int| i <= k < i + n implies line_kind(#[trigger] trim(lines[k]))
        == LineKind::List && list_entry(lines[k]) == entries[k - i] by {
        assert(lines[i + (k - i)] == own[k - i]);
        assert(tight(entries[k - i].text));
        lemma_entry_line(entries[k - i]);
    }
    lemma_blank(lines[i + n]);
    lemma_find_stop_is(lines, i, stop, i + n);
    assert(list_entries(lines, i, i + n) =~= entries);
    lemma_forest_of_entries(items, 0);
}

/// A written item reads back as the item, up to the blank line after it.
pub proof fn lemma_read_item(lines: Seq<Seq<char>>, i: int, item: BasicItemView)
    requires
        writable_item(item),
        written_at(lines, i, item),
    ensures
        block_at(lines, i) == Ok::<(Option<BasicItemView>, int), ParseError>(
            (Some(item), i + item_lines(item).len()),
        ),
        item_lines(item).len() >= 1,
{
    match item {
        BasicItemView::Tittle(_) => lemma_read_tittle(lines, i, item),
        BasicItemView::HLine => lemma_read_rule(lines, i, item),
        BasicItemView::Qoute(_) => lemma_read_quote(lines, i, item),
        BasicItemView::Code(_) => lemma_read_code(lines, i, item),
        BasicItemView::Comment(_) => lemma_read_comment(lines, i, item),
        BasicItemView::Latex(_) => lemma_read_latex(lines, i, item),
        BasicItemView::Table(_) => lemma_read_table(lines, i, item),
        BasicItemView::List(_) => lemma_read_list(lines, i, item),
        BasicItemView::Paragraph(_) => {},
    }
}

/// Written items read back as the items: in the body of a document, the
/// lines that items are written as are read as those items, after what was
/// read before.
pub proof fn lemma_read_back(
    before: Seq<Seq<char>>,
    items: Seq<BasicItemView>,
    attrs: Seq<(Seq<char>, Seq<char>)>,
    read: Seq<BasicItemView>,
)
    requires
        forall|k: int| 0 <= k < items.len() ==> writable_item(#[trigger] items[k]),
    ensures
        parse_from(
            before + markdown_lines(items),
            before.len() as int,
            ParserState::Document,
            attrs,
            read,
        ) == Ok::<Parsed, ParseError>(
            Parsed { state: ParserState::Document, attrs, items: read + items },
        ),
    decreases items.len(),
{
    let lines = before + markdown_lines(items);
    let i = before.len() as int;
    if items.len() == 0 {
        assert(read + items =~= read);
    } else {
        let item = items[0];
        let rest = items.drop_first();
        let own = item_lines(item);
        let blank = Seq::<char>::empty();
        assert(writable_item(item));
        assert(written_at(lines, i, item)) by {
            assert forall|k: int| 0 <= k < own.len() implies lines[i + k] == #[trigger] own[k] by {
                assert(markdown_lines(items)[k] == own[k]);
            }
            assert(markdown_lines(items)[own.len() as int] == blank);
            assert(lines[i + own.len()] == markdown_lines(items)[own.len() as int]);
        }
        lemma_read_item(lines, i, item);
        let next = i + own.len();
        assert(line_kind(trim(lines[next])) == LineKind::Blank) by {
            assert(lines[next].len() == 0);
            assert(trim(lines[next]).len() == 0) by {
                lemma_trim_is_tight(lines[next]);
            }
        }
        let after = before + own + seq![blank];
        assert(after + markdown_lines(rest) =~= lines);
        assert(after.len() == next + 1);
        assert forall|k: int| 0 <= k < rest.len() implies writable_item(#[trigger] rest[k]) by {
            assert(rest[k] == items[k + 1]);
        }
        lemma_read_back(after, rest, attrs, read.push(item));
        assert(read.push(item) + rest =~= read + items);
        assert(with_item(read, Some(item)) == read.push(item));
        let state = ParserState::Document;
        assert(block_at(lines, next) == Ok::<(Option<BasicItemView>, int), ParseError>(
            (None, next + 1),
        ));
        assert(parse_from(lines, next, state, attrs, read.push(item)) == parse_from(
            lines,
            next + 1,
            state,
            attrs,
            read.push(item),
        ));
        assert(parse_from(lines, i, state, attrs, read) == parse_from(
            lines,
            next,
            state,
            attrs,
            read.push(item),
        ));
    }
}

/// No text of written cells holds a line feed.
proof fn lemma_cells_text_free(cells: Seq<Seq<char>>)
    requires
        writable_cells(cells),
    ensures
        free_of(cells_text(cells), '\n'),
    decreases cells.len(),
{
    if cells.len() > 0 {
        assert(free_of(cells[0], '\n'));
        assert(free_of(pad(cells[0]), '\n')) by {
            assert forall|j: int| 0 <= j < pad(cells[0]).len() implies pad(cells[0])[j] != '\n' by {
                if 1 <= j <= cells[0].len() {
                    assert(pad(cells[0])[j] == cells[0][j - 1]);
                }
            }
        }
        if cells.len() > 1 {
            let rest = cells.drop_first();
            assert(writable_cells(rest)) by {
                assert forall|k: int| 0 <= k < rest.len() implies tight(#[trigger] rest[k])
                    && free_of(rest[k], '|') && free_of(rest[k], '\n') by {
                    assert(rest[k] == cells[k + 1]);
                }
            }
            lemma_cells_text_free(rest);
            let text = cells_text(cells);
            let head = pad(cells[0]);
            assert forall|j: int| 0 <= j < text.len() implies text[j] != '\n' by {
                if j < head.len() {
                    assert(text[j] == head[j]);
                } else if j > head.len() {
                    assert(text[j] == cells_text(rest)[j - head.len() - 1]);
                }
            }
        }
    }
}

/// No line that a writable item is written as holds a line feed.
pub proof fn lemma_item_lines_free(item: BasicItemView)
    requires
        writable_item(item),
    ensures
        forall|k: int| 0 <= k < item_lines(item).len() ==> free_of(#[trigger] item_lines(item)[k], '\n'),
{
    let own = item_lines(item);
    assert forall|k: int| 0 <= k < own.len() implies free_of(#[trigger] own[k], '\n') by {
        match item {
            BasicItemView::Tittle(t) => {
                let line = hashes(t.level) + seq![' '] + t.tittle;
                assert forall|j: int| 0 <= j < line.len() implies line[j] != '\n' by {
                    if j > t.level {
                        assert(line[j] == t.tittle[j - t.level - 1]);
                    }
                }
            },
            BasicItemView::HLine => {},
            BasicItemView::Qoute(items) => {
                let q = items[k];
                let line = quote_line(q);
                assert(free_of(q.text, '\n'));
                assert forall|j: int| 0 <= j < line.len() implies line[j] != '\n' by {
                    if j > q.nesting + 1 {
                        assert(line[j] == q.text[j - q.nesting - 2]);
                    }
                }
            },
            BasicItemView::Code(c) => {
                lemma_split_pieces(c.content, '\n');
                let inner = split(c.content, '\n');
                if k == 0 {
                    let line = fence_line() + c.attr;
                    assert forall|j: int| 0 <= j < line.len() implies line[j] != '\n' by {
                        if j >= 3 {
                            assert(line[j] == c.attr[j - 3]);
                        }
                    }
                } else if k <= inner.len() {
                    assert(own[k] == inner[k - 1]);
                    let piece = inner[k - 1];
                    assert forall|j: int| 0 <= j < piece.len() implies #[trigger] piece[j]
                        != '\n' by {
                        assert(split(c.content, '\n')[k - 1][j] != '\n');
                    }
                }
            },
            BasicItemView::Comment(text) => {
                lemma_split_pieces(text, '\n');
                let inner = split(text, '\n');
                if 1 <= k <= inner.len() {
                    assert(own[k] == inner[k - 1]);
                    let piece = inner[k - 1];
                    assert forall|j: int| 0 <= j < piece.len() implies #[trigger] piece[j]
                        != '\n' by {
                        assert(split(text, '\n')[k - 1][j] != '\n');
                    }
                }
            },
            BasicItemView::Latex(text) => {
                lemma_split_pieces(text, '\n');
                let inner = split(text, '\n');
                if 1 <= k <= inner.len() {
                    assert(own[k] == inner[k - 1]);
                    let piece = inner[k - 1];
                    assert forall|j: int| 0 <= j < piece.len() implies #[trigger] piece[j]
                        != '\n' by {
                        assert(split(text, '\n')[k - 1][j] != '\n');
                    }
                }
            },
            BasicItemView::Table(t) => {
                let cells = if k == 0 {
                    t.header
                } else if k == 1 {
                    rule_cells(t.header.len())
                } else {
                    t.rows[k - 2]
                };
                assert(own[k] == row_line(cells));
                assert(writable_cells(cells)) by {
                    assert(!is_space('-'));
                    if k >= 2 {
                        assert(writable_cells(t.rows[k - 2]));
                    }
                }
                lemma_cells_text_free(cells);
                let line = row_line(cells);
                assert forall|j: int| 0 <= j < line.len() implies line[j] != '\n' by {
                    if 1 <= j < line.len() - 1 {
                        assert(line[j] == cells_text(cells)[j - 1]);
                    }
                }
            },
            BasicItemView::List(items) => {
                let e = entries_of(items, 0)[k];
                let line = entry_line(e);
                let front = e.indent + marker_text(e.kind).len() + 1;
                assert(free_of(e.text, '\n'));
                assert forall|j: int| 0 <= j < line.len() implies line[j] != '\n' by {
                    if j >= front {
                        assert(line[j] == e.text[j - front]);
                    }
                }
            },
            BasicItemView::Paragraph(_) => {},
        }
    }
}

/// No line that writable items are written as holds a line feed.
pub proof fn lemma_markdown_lines_free(items: Seq<BasicItemView>)
    requires
        forall|k: int| 0 <= k < items.len() ==> writable_item(#[trigger] items[k]),
    ensures
        forall|k: int|
            0 <= k < markdown_lines(items).len() ==> free_of(#[trigger] markdown_lines(items)[k], '\n'),
    decreases items.len(),
{
    if items.len() > 0 {
        let own = item_lines(items[0]);
        let rest = items.drop_first();
        assert(writable_item(items[0]));
        lemma_item_lines_free(items[0]);
        assert forall|k: int| 0 <= k < rest.len() implies writable_item(#[trigger] rest[k]) by {
            assert(rest[k] == items[k + 1]);
        }
        lemma_markdown_lines_free(rest);
        let all = markdown_lines(items);
        assert forall|k: int| 0 <= k < all.len() implies free_of(#[trigger] all[k], '\n') by {
            if k < own.len() {
                assert(all[k] == own[k]);
            } else if k > own.len() {
                assert(all[k] == markdown_lines(rest)[k - own.len() - 1]);
            }
        }
    }
}

/// A document that is written as Markdown reads back as the same document:
/// a parse of the text from the beginning ends in the body, and has read
/// the attributes and the items of the document, in order.
pub proof fn lemma_document_reads_back(doc: DocumentView)
    requires
        writable_document(doc),
    ensures
        parse_text(document_text(doc), ParserState::Begin) == Ok::<Parsed, ParseError>(
            Parsed { state: ParserState::Document, attrs: doc.attrs, items: doc.items },
        ),
        upsert_all(Seq::empty(), doc.attrs) == doc.attrs,
{
    let head = seq![rule_line()] + attr_lines(doc.attrs) + seq![rule_line()];
    let body = markdown_lines(doc.items);
    let lines = document_lines(doc);
    lemma_front_matter_lines(doc.attrs);
    lemma_markdown_lines_free(doc.items);
    assert forall|k: int| 0 <= k < lines.len() implies free_of(#[trigger] lines[k], '\n') by {
        if k < head.len() {
            assert(lines[k] == head[k]);
        } else {
            assert(lines[k] == body[k - head.len()]);
        }
    }
    lemma_lines_of_text(lines);
    assert(lines_of(document_text(doc)) == lines);
    lemma_trim_tight(rule_line());
    assert(is_rule(trim(lines[0])));
    assert(doc.attrs.take(0) =~= Seq::<(Seq<char>, Seq<char>)>::empty());
    lemma_front_matter_then(doc.attrs, body, 0);
    lemma_read_back(head, doc.items, doc.attrs, Seq::empty());
    assert(Seq::<BasicItemView>::empty() + doc.items =~= doc.items);
    lemma_distinct_written(doc.attrs);
}

} // verus!
