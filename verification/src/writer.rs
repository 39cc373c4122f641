//! Writing a document as Markdown.

use vstd::prelude::*;
use crate::elems::document::Document;
use crate::elems::items::{BasicItem, BasicItemView, ListItem, ListItemView, ListKind, QouteItem};
use crate::elems::tittle::{hashes, Tittle};
use crate::parser::list::ListEntryView;
use crate::render::{angles, attr_line, attr_lines, cells_text, document_lines, document_text};
use crate::render::{entries_of, entry_line, entry_lines, item_lines, marker_text, markdown_lines};
use crate::render::{pad, quote_line, row_line, rule_cells, rule_line, spaces, text_of_lines};
use crate::text::{chars_of, lemma_chars_deep_view, lemma_deep_view_concat, lemma_deep_view_empty};
use crate::parse::same_text;
use crate::parser::block::{is_stop, lemma_lines, stops, Stop};
use crate::render::{no_line_stops, writable, writable_cells, writable_document, writable_entries};
use crate::render::writable_item;
use crate::text::{find_char, free_of, is_space_char, lemma_deep_view_push, lemma_index_of, split};
use crate::text::{split_chars, string_of, tight, trim, trim_chars};

verus! {

/// Adds the characters of `more` to `out`.
fn push_all(out: &mut Vec<char>, more: &Vec<char>)
    ensures
        final(out)@ == old(out)@ + more@,
{
    let mut i: usize = 0;
    proof {
        assert(out@ =~= old(out)@ + more@.take(0));
    }
    while i < more.len()
        invariant
            i <= more.len(),
            out@ == old(out)@ + more@.take(i as int),
        decreases more.len() - i,
    {
        out.push(more[i]);
        i += 1;
        proof {
            assert(out@ =~= old(out)@ + more@.take(i as int));
        }
    }
    proof {
        assert(more@.take(more.len() as int) =~= more@);
    }
}

/// Adds the characters of `text` to `out`.
fn push_text(out: &mut Vec<char>, text: &String)
    ensures
        final(out)@ == old(out)@ + text@,
{
    let chars = chars_of(text.as_str());
    push_all(out, &chars);
}

/// Adds the line `line` to `out`.
fn push_line(out: &mut Vec<Vec<char>>, line: Vec<char>)
    ensures
        final(out).deep_view() == old(out).deep_view().push(line@),
{
    let ghost before = *out;
    out.push(line);
    proof {
        lemma_deep_view_push(before, *out, line);
        lemma_chars_deep_view(line);
    }
}

/// The line `---`.
fn rule_chars() -> (line: Vec<char>)
    ensures
        line@ == rule_line(),
{
    let mut line: Vec<char> = Vec::new();
    line.push('-');
    line.push('-');
    line.push('-');
    proof {
        assert(line@ =~= rule_line());
    }
    line
}

/// The line that the title `t` is written as.
pub fn tittle_chars(t: &Tittle) -> (line: Vec<char>)
    ensures
        line@ == hashes(t.level as nat) + seq![' '] + t.tittle@,
{
    let mut line: Vec<char> = Vec::new();
    let mut i: usize = 0;
    proof {
        assert(line@ =~= hashes(0));
    }
    while i < t.level
        invariant
            i <= t.level,
            line@ == hashes(i as nat),
        decreases t.level - i,
    {
        line.push('#');
        i += 1;
        proof {
            assert(line@ =~= hashes(i as nat));
        }
    }
    line.push(' ');
    push_text(&mut line, &t.tittle);
    proof {
        assert(line@ =~= hashes(t.level as nat) + seq![' '] + t.tittle@);
    }
    line
}

/// Adds a `>` to `out` for each level that `item` is nested, and returns
/// its text.
fn open_quote<'a>(item: &'a QouteItem, out: &mut Vec<char>) -> (text: &'a String)
    ensures
        final(out)@ == old(out)@ + angles(item.nesting()),
        text@ == item.text(),
    decreases item,
{
    match item {
        QouteItem::Content(s) => {
            proof {
                assert(out@ =~= old(out)@ + angles(0));
            }
            s
        },
        QouteItem::Qoute(inner) => {
            out.push('>');
            let ghost pushed = out@;
            let text = open_quote(inner, out);
            proof {
                assert(out@ =~= old(out)@ + angles(item.nesting()));
            }
            text
        },
    }
}

/// The line that the quoted line `item` is written as.
pub fn quote_chars(item: &QouteItem) -> (line: Vec<char>)
    ensures
        line@ == quote_line(item@),
{
    let mut line: Vec<char> = Vec::new();
    line.push('>');
    let text = open_quote(item, &mut line);
    line.push(' ');
    push_text(&mut line, text);
    proof {
        assert(line@ =~= quote_line(item@));
    }
    line
}

/// The cells `cells` with one more cell after them are written as the
/// cells, `|`, and the cell with a space on each side.
proof fn lemma_cells_text_push(cells: Seq<Seq<char>>, cell: Seq<char>)
    requires
        cells.len() >= 1,
    ensures
        cells_text(cells.push(cell)) == cells_text(cells) + seq!['|'] + pad(cell),
    decreases cells.len(),
{
    let all = cells.push(cell);
    assert(all.drop_first() =~= cells.drop_first().push(cell));
    if cells.len() == 1 {
        assert(all.drop_first() =~= seq![cell]);
        assert(cells_text(seq![cell]) == pad(cell));
    } else {
        lemma_cells_text_push(cells.drop_first(), cell);
        assert(cells_text(all) =~= cells_text(cells) + seq!['|'] + pad(cell));
    }
}

/// The line that a row of a table with the cells `cells` is written as.
pub fn row_chars(cells: &Vec<String>) -> (line: Vec<char>)
    ensures
        line@ == row_line(cells.deep_view()),
{
    let mut line: Vec<char> = Vec::new();
    line.push('|');
    let mut i: usize = 0;
    proof {
        assert(cells.deep_view().take(0).len() == 0);
        assert(line@ =~= seq!['|'] + cells_text(cells.deep_view().take(0)));
    }
    while i < cells.len()
        invariant
            i <= cells.len(),
            line@ == seq!['|'] + cells_text(cells.deep_view().take(i as int)),
        decreases cells.len() - i,
    {
        let ghost before = cells.deep_view().take(i as int);
        let ghost after = cells.deep_view().take(i + 1);
        proof {
            assert(after =~= before.push(cells[i as int]@));
            if i > 0 {
                lemma_cells_text_push(before, cells[i as int]@);
            } else {
                assert(cells_text(after) == pad(cells[i as int]@));
                assert(cells_text(before) =~= Seq::<char>::empty());
            }
        }
        if i > 0 {
            line.push('|');
        }
        line.push(' ');
        push_text(&mut line, &cells[i]);
        line.push(' ');
        proof {
            assert(line@ =~= seq!['|'] + cells_text(after));
        }
        i += 1;
    }
    line.push('|');
    proof {
        assert(cells.deep_view().take(cells.len() as int) =~= cells.deep_view());
    }
    line
}

/// `n` cells of `---`.
fn rule_row(n: usize) -> (cells: Vec<String>)
    ensures
        cells.deep_view() == rule_cells(n as nat),
{
    let mut cells: Vec<String> = Vec::new();
    let mut i: usize = 0;
    proof {
        lemma_deep_view_empty(cells);
        assert(cells.deep_view() =~= rule_cells(0));
    }
    while i < n
        invariant
            i <= n,
            cells.deep_view() == rule_cells(i as nat),
        decreases n - i,
    {
        let ghost before = cells;
        let cell = string_of(&rule_chars());
        cells.push(cell);
        i += 1;
        proof {
            lemma_deep_view_push(before, cells, cell);
            assert(cells.deep_view() =~= rule_cells(i as nat));
        }
    }
    cells
}

/// The marker that a list item of the kind `kind` is written with.
fn marker_chars(kind: ListKind) -> (marker: Vec<char>)
    ensures
        marker@ == marker_text(kind),
{
    let mut marker: Vec<char> = Vec::new();
    match kind {
        ListKind::Ordered => {
            marker.push('1');
            marker.push('.');
        },
        ListKind::Plus => {
            marker.push('+');
        },
        ListKind::Dash => {
            marker.push('-');
        },
        ListKind::Star => {
            marker.push('*');
        },
    }
    proof {
        assert(marker@ =~= marker_text(kind));
    }
    marker
}

/// The kind, the text and the children of a list item.
fn list_parts(item: &ListItem) -> (parts: (ListKind, &String, &Vec<ListItem>))
    ensures
        parts.0 == item@.kind,
        parts.1@ == item@.text,
        parts.2.deep_view() == item@.children,
        parts.2@ == item.children(),
{
    let parts = match item {
        ListItem::Ordered(s, c) => (ListKind::Ordered, s, c),
        ListItem::Plus(s, c) => (ListKind::Plus, s, c),
        ListItem::Dash(s, c) => (ListKind::Dash, s, c),
        ListItem::Star(s, c) => (ListKind::Star, s, c),
    };
    proof {
        assert(parts.2.deep_view() =~= item@.children);
    }
    parts
}

/// The lines of entries in a row are the lines of the first and the lines
/// of the second.
proof fn lemma_entry_lines_concat(a: Seq<ListEntryView>, b: Seq<ListEntryView>)
    ensures
        entry_lines(a + b) == entry_lines(a) + entry_lines(b),
{
    assert(entry_lines(a + b) =~= entry_lines(a) + entry_lines(b));
}

/// Adds the lines that `items` are written as at the depth `depth`, where
/// `indent` is two spaces for each level.
fn write_entries(
    items: &Vec<ListItem>,
    indent: &Vec<char>,
    Ghost(depth): Ghost<nat>,
    out: &mut Vec<Vec<char>>,
)
    requires
        indent@ == spaces(2 * depth),
    ensures
        final(out).deep_view() == old(out).deep_view() + entry_lines(
            entries_of(items.deep_view(), depth),
        ),
    decreases entries_of(items.deep_view(), depth).len(),
{
    let ghost all = items.deep_view();
    let n: usize = items.len();
    let mut i: usize = 0;
    proof {
        assert(all.subrange(0, n as int) =~= all);
    }
    while i < n
        invariant
            i <= n,
            n == items.len(),
            all == items.deep_view(),
            indent@ == spaces(2 * depth),
            out.deep_view().len() >= old(out).deep_view().len(),
            old(out).deep_view() + entry_lines(entries_of(all, depth)) == out.deep_view()
                + entry_lines(entries_of(all.subrange(i as int, n as int), depth)),
        decreases n - i,
    {
        let (kind, text, children) = list_parts(&items[i]);
        let ghost rest = all.subrange(i as int, n as int);
        let ghost head = ListEntryView { indent: 2 * depth, kind: rest[0].kind, text: rest[0].text };
        let ghost below = entries_of(rest[0].children, depth + 1);
        let ghost after = entries_of(all.subrange(i + 1, n as int), depth);
        proof {
            assert(rest[0] == items[i as int]@);
            assert(rest.drop_first() =~= all.subrange(i + 1, n as int));
            assert(entries_of(rest, depth) == seq![head] + below + after);
            lemma_entry_lines_concat(seq![head] + below, after);
            lemma_entry_lines_concat(seq![head], below);
            assert(entry_lines(seq![head]) =~= seq![entry_line(head)]);
        }
        let mut line: Vec<char> = Vec::new();
        push_all(&mut line, indent);
        let marker = marker_chars(kind);
        push_all(&mut line, &marker);
        line.push(' ');
        push_text(&mut line, text);
        proof {
            assert(line@ =~= entry_line(head));
        }
        let ghost before = out.deep_view();
        push_line(out, line);
        let mut deeper: Vec<char> = Vec::new();
        push_all(&mut deeper, indent);
        deeper.push(' ');
        deeper.push(' ');
        proof {
            assert(deeper@ =~= spaces(2 * (depth + 1)));
        }
        proof {
            assert(entry_lines(entries_of(all, depth)).len() == entries_of(all, depth).len());
            assert(entry_lines(entries_of(rest, depth)).len() == entries_of(rest, depth).len());
            assert(entries_of(rest, depth).len() == 1 + below.len() + after.len());
            assert((before + entry_lines(entries_of(rest, depth))).len() >= 1 + below.len());
            assert((old(out).deep_view() + entry_lines(entries_of(all, depth))).len()
                == old(out).deep_view().len() + entries_of(all, depth).len());
            assert(before.len() >= old(out).deep_view().len());
        }
        write_entries(children, &deeper, Ghost(depth + 1), out);
        proof {
            assert(out.deep_view() =~= before + (seq![entry_line(head)] + entry_lines(below)));
            assert(before + entry_lines(entries_of(rest, depth)) =~= out.deep_view() + entry_lines(
                after,
            ));
        }
        i += 1;
    }
    proof {
        assert(all.subrange(n as int, n as int).len() == 0);
        assert(entry_lines(entries_of(all.subrange(n as int, n as int), depth)).len() == 0);
        assert(out.deep_view() + entry_lines(entries_of(all.subrange(n as int, n as int), depth))
            =~= out.deep_view());
    }
}

/// Adds the lines of `text` to `out`.
fn write_text_lines(text: &String, out: &mut Vec<Vec<char>>)
    ensures
        final(out).deep_view() == old(out).deep_view() + split(text@, '\n'),
{
    let mut pieces = split_chars(&chars_of(text.as_str()), '\n');
    let ghost front = *out;
    let ghost back = pieces;
    out.append(&mut pieces);
    proof {
        lemma_deep_view_concat(*out, front, back);
    }
}

/// The line of the characters `a`, `b` and then `more`.
fn line_of(a: char, b: char, more: Option<(char, Option<char>)>) -> (line: Vec<char>)
    ensures
        line@ == match more {
            None => seq![a, b],
            Some((c, None)) => seq![a, b, c],
            Some((c, Some(d))) => seq![a, b, c, d],
        },
{
    let mut line: Vec<char> = Vec::new();
    line.push(a);
    line.push(b);
    match more {
        None => {
            proof {
                assert(line@ =~= seq![a, b]);
            }
        },
        Some((c, None)) => {
            line.push(c);
            proof {
                assert(line@ =~= seq![a, b, c]);
            }
        },
        Some((c, Some(d))) => {
            line.push(c);
            line.push(d);
            proof {
                assert(line@ =~= seq![a, b, c, d]);
            }
        },
    }
    line
}

/// Adds the lines that `item` is written as to `out`. A paragraph is
/// written as nothing.
pub fn write_item(item: &BasicItem, out: &mut Vec<Vec<char>>)
    ensures
        final(out).deep_view() == old(out).deep_view() + item_lines(item@),
{
    let ghost before = out.deep_view();
    match item {
        BasicItem::Tittle(t) => {
            push_line(out, tittle_chars(t));
            proof {
                assert(out.deep_view() =~= before + item_lines(item@));
            }
        },
        BasicItem::HLine => {
            push_line(out, rule_chars());
            proof {
                assert(out.deep_view() =~= before + item_lines(item@));
            }
        },
        BasicItem::Qoute(items) => {
            let mut i: usize = 0;
            proof {
                assert(out.deep_view() =~= before + item_lines(item@).take(0));
            }
            while i < items.len()
                invariant
                    i <= items.len(),
                    item@ == BasicItemView::Qoute(items.deep_view()),
                    out.deep_view() == before + item_lines(item@).take(i as int),
                decreases items.len() - i,
            {
                push_line(out, quote_chars(&items[i]));
                i += 1;
                proof {
                    assert(out.deep_view() =~= before + item_lines(item@).take(i as int));
                }
            }
            proof {
                assert(item_lines(item@).take(items.len() as int) =~= item_lines(item@));
            }
        },
        BasicItem::Code(c) => {
            let mut open = line_of('`', '`', Some(('`', None)));
            push_text(&mut open, &c.attr);
            push_line(out, open);
            write_text_lines(&c.content, out);
            push_line(out, line_of('`', '`', Some(('`', None))));
            proof {
                assert(out.deep_view() =~= before + item_lines(item@));
            }
        },
        BasicItem::Comment(text) => {
            push_line(out, line_of('<', '!', Some(('-', Some('-')))));
            write_text_lines(text, out);
            push_line(out, line_of('-', '-', Some(('>', None))));
            proof {
                assert(out.deep_view() =~= before + item_lines(item@));
            }
        },
        BasicItem::Latex(text) => {
            push_line(out, line_of('$', '$', None));
            write_text_lines(text, out);
            push_line(out, line_of('$', '$', None));
            proof {
                assert(out.deep_view() =~= before + item_lines(item@));
            }
        },
        BasicItem::Table(t) => {
            push_line(out, row_chars(&t.header));
            let under = rule_row(t.header.len());
            push_line(out, row_chars(&under));
            let ghost top = out.deep_view();
            let mut i: usize = 0;
            proof {
                assert(out.deep_view() =~= before + item_lines(item@).take(2));
            }
            while i < t.rows.len()
                invariant
                    i <= t.rows.len(),
                    item@ == BasicItemView::Table(t@),
                    out.deep_view() == before + item_lines(item@).take(2 + i),
                decreases t.rows.len() - i,
            {
                push_line(out, row_chars(&t.rows[i].0));
                i += 1;
                proof {
                    assert(out.deep_view() =~= before + item_lines(item@).take(2 + i));
                }
            }
            proof {
                assert(item_lines(item@).take(2 + t.rows.len()) =~= item_lines(item@));
            }
        },
        BasicItem::List(items) => {
            let indent: Vec<char> = Vec::new();
            proof {
                assert(indent@ =~= spaces(0));
            }
            write_entries(items, &indent, Ghost(0), out);
        },
        BasicItem::Paragraph(_) => {
            proof {
                assert(out.deep_view() =~= before + item_lines(item@));
            }
        },
    }
}

/// The lines that `doc` is written as.
pub fn write_lines(doc: &Document) -> (lines: Vec<Vec<char>>)
    ensures
        lines.deep_view() == document_lines(doc@),
{
    let mut lines: Vec<Vec<char>> = Vec::new();
    proof {
        lemma_deep_view_empty(lines);
    }
    push_line(&mut lines, rule_chars());
    let mut i: usize = 0;
    proof {
        assert(lines.deep_view() =~= seq![rule_line()] + attr_lines(doc@.attrs).take(0));
    }
    while i < doc.attrs.len()
        invariant
            i <= doc.attrs.len(),
            lines.deep_view() == seq![rule_line()] + attr_lines(doc@.attrs).take(i as int),
        decreases doc.attrs.len() - i,
    {
        let mut line: Vec<char> = Vec::new();
        push_text(&mut line, &doc.attrs[i].0);
        line.push(':');
        line.push(' ');
        push_text(&mut line, &doc.attrs[i].1);
        proof {
            assert(doc@.attrs[i as int] == (doc.attrs[i as int].0@, doc.attrs[i as int].1@));
            assert(line@ =~= attr_line(doc@.attrs[i as int]));
        }
        push_line(&mut lines, line);
        i += 1;
        proof {
            assert(lines.deep_view() =~= seq![rule_line()] + attr_lines(doc@.attrs).take(i as int));
        }
    }
    push_line(&mut lines, rule_chars());
    let ghost head = lines.deep_view();
    let ghost all = doc@.items;
    let n: usize = doc.items.len();
    let mut k: usize = 0;
    proof {
        assert(attr_lines(doc@.attrs).take(doc.attrs.len() as int) =~= attr_lines(doc@.attrs));
        assert(head =~= seq![rule_line()] + attr_lines(doc@.attrs) + seq![rule_line()]);
        assert(all.subrange(0, n as int) =~= all);
    }
    while k < n
        invariant
            k <= n,
            n == doc.items.len(),
            all == doc@.items,
            head + markdown_lines(all) == lines.deep_view() + markdown_lines(
                all.subrange(k as int, n as int),
            ),
        decreases n - k,
    {
        let ghost rest = all.subrange(k as int, n as int);
        let ghost before = lines.deep_view();
        proof {
            assert(rest[0] == doc.items[k as int]@);
            assert(rest.drop_first() =~= all.subrange(k + 1, n as int));
        }
        write_item(&doc.items[k], &mut lines);
        push_line(&mut lines, Vec::new());
        proof {
            assert(before + markdown_lines(rest) =~= lines.deep_view() + markdown_lines(
                all.subrange(k + 1, n as int),
            ));
        }
        k += 1;
    }
    proof {
        assert(markdown_lines(all.subrange(n as int, n as int)).len() == 0);
        assert(lines.deep_view() + markdown_lines(all.subrange(n as int, n as int))
            =~= lines.deep_view());
    }
    lines
}

/// The Markdown that `doc` is written as.
pub fn write_markdown(doc: &Document) -> (text: String)
    ensures
        text@ == document_text(doc@),
{
    let lines = write_lines(doc);
    let ghost all = lines.deep_view();
    let mut out: Vec<char> = Vec::new();
    let n: usize = lines.len();
    let mut i: usize = 0;
    proof {
        lemma_lines(lines);
        assert(all.subrange(0, n as int) =~= all);
        assert(out@ + text_of_lines(all) =~= text_of_lines(all));
    }
    while i < n
        invariant
            i <= n,
            n == lines.len(),
            all == lines.deep_view(),
            forall|k: int| 0 <= k < lines.len() ==> #[trigger] lines.deep_view()[k] == lines@[k]@,
            text_of_lines(all) == out@ + text_of_lines(all.subrange(i as int, n as int)),
        decreases n - i,
    {
        let ghost rest = all.subrange(i as int, n as int);
        let ghost before = out@;
        proof {
            assert(rest[0] == lines@[i as int]@);
            assert(rest.drop_first() =~= all.subrange(i + 1, n as int));
        }
        push_all(&mut out, &lines[i]);
        out.push('\n');
        proof {
            assert(before + text_of_lines(rest) =~= out@ + text_of_lines(
                all.subrange(i + 1, n as int),
            ));
        }
        i += 1;
    }
    proof {
        assert(text_of_lines(all.subrange(n as int, n as int)).len() == 0);
        assert(out@ + text_of_lines(all.subrange(n as int, n as int)) =~= out@);
    }
    string_of(&out)
}

/// Whether `v` neither begins nor ends with white space.
fn is_tight(v: &Vec<char>) -> (r: bool)
    ensures
        r == tight(v@),
{
    v.len() == 0 || (!is_space_char(v[0]) && !is_space_char(v[v.len() - 1]))
}

/// Whether `c` does not occur in `v`.
fn is_free_of(v: &Vec<char>, c: char) -> (r: bool)
    ensures
        r == free_of(v@, c),
{
    let at = find_char(v, 0, c);
    proof {
        lemma_index_of(v@, 0, c);
    }
    at == v.len()
}

/// Whether `text` is trimmed and on one line.
fn is_one_tight_line(text: &String) -> (r: bool)
    ensures
        r == (tight(text@) && free_of(text@, '\n')),
{
    let v = chars_of(text.as_str());
    is_tight(&v) && is_free_of(&v, '\n')
}

/// Whether no line of `text` is what `stop` asks for.
fn has_no_stop(text: &String, stop: Stop) -> (r: bool)
    ensures
        r == no_line_stops(text@, stop),
{
    let pieces = split_chars(&chars_of(text.as_str()), '\n');
    proof {
        lemma_lines(pieces);
    }
    let mut i: usize = 0;
    while i < pieces.len()
        invariant
            i <= pieces.len(),
            pieces.deep_view() == split(text@, '\n'),
            pieces.deep_view().len() == pieces.len(),
            forall|k: int| 0 <= k < pieces.len() ==> #[trigger] pieces.deep_view()[k] == pieces@[k]@,
            forall|k: int| 0 <= k < i ==> !stops(stop, trim(#[trigger] split(text@, '\n')[k])),
        decreases pieces.len() - i,
    {
        if is_stop(stop, &trim_chars(&pieces[i])) {
            proof {
                assert(stops(stop, trim(split(text@, '\n')[i as int])));
            }
            return false;
        }
        i += 1;
    }
    true
}

/// Whether each of `cells` can be written and read back.
fn cells_writable(cells: &Vec<String>) -> (r: bool)
    ensures
        r == writable_cells(cells.deep_view()),
{
    let mut i: usize = 0;
    while i < cells.len()
        invariant
            i <= cells.len(),
            forall|k: int|
                0 <= k < i ==> tight(#[trigger] cells.deep_view()[k]) && free_of(
                    cells.deep_view()[k],
                    '|',
                ) && free_of(cells.deep_view()[k], '\n'),
        decreases cells.len() - i,
    {
        let v = chars_of(cells[i].as_str());
        if !(is_tight(&v) && is_free_of(&v, '|') && is_free_of(&v, '\n')) {
            proof {
                assert(cells.deep_view()[i as int] == v@);
            }
            return false;
        }
        i += 1;
    }
    true
}

/// The text of a quoted line.
fn quote_text<'a>(item: &'a QouteItem) -> (text: &'a String)
    ensures
        text@ == item.text(),
    decreases item,
{
    match item {
        QouteItem::Content(s) => s,
        QouteItem::Qoute(inner) => quote_text(inner),
    }
}

/// Entries in a row can be written where the first and the second can.
proof fn lemma_writable_concat(a: Seq<ListEntryView>, b: Seq<ListEntryView>)
    ensures
        writable_entries(a + b) == (writable_entries(a) && writable_entries(b)),
{
    if writable_entries(a + b) {
        assert forall|k: int| 0 <= k < a.len() implies tight((#[trigger] a[k]).text) && a[k].text.len()
            > 0 && free_of(a[k].text, '\n') by {
            assert((a + b)[k] == a[k]);
        }
        assert forall|k: int| 0 <= k < b.len() implies tight((#[trigger] b[k]).text) && b[k].text.len()
            > 0 && free_of(b[k].text, '\n') by {
            assert((a + b)[a.len() + k] == b[k]);
        }
    }
    if writable_entries(a) && writable_entries(b) {
        assert forall|k: int| 0 <= k < (a + b).len() implies tight((#[trigger] (a + b)[k]).text) && (a
            + b)[k].text.len() > 0 && free_of((a + b)[k].text, '\n') by {
            if k < a.len() {
                assert((a + b)[k] == a[k]);
            } else {
                assert((a + b)[k] == b[k - a.len()]);
            }
        }
    }
}

/// The entries of items hold the same texts at whatever depth the items
/// are written.
proof fn lemma_entries_texts(items: Seq<ListItemView>, one: nat, other: nat)
    ensures
        entries_of(items, one).len() == entries_of(items, other).len(),
        forall|k: int|
            0 <= k < entries_of(items, one).len() ==> (#[trigger] entries_of(items, one)[k]).text
                == entries_of(items, other)[k].text,
    decreases items,
{
    if items.len() > 0 {
        lemma_entries_texts(items[0].children, one + 1, other + 1);
        lemma_entries_texts(items.drop_first(), one, other);
        let a = entries_of(items, one);
        let b = entries_of(items, other);
        let below = entries_of(items[0].children, one + 1).len();
        assert forall|k: int| 0 <= k < a.len() implies (#[trigger] a[k]).text == b[k].text by {
            if k == 0 {
            } else if k <= below {
                assert(a[k] == entries_of(items[0].children, one + 1)[k - 1]);
                assert(b[k] == entries_of(items[0].children, other + 1)[k - 1]);
            } else {
                assert(a[k] == entries_of(items.drop_first(), one)[k - 1 - below]);
                assert(b[k] == entries_of(items.drop_first(), other)[k - 1 - below]);
            }
        }
    }
}

/// Whether items can be written does not depend on the depth at which they
/// are written.
proof fn lemma_writable_at_any_depth(items: Seq<ListItemView>, one: nat, other: nat)
    ensures
        writable_entries(entries_of(items, one)) == writable_entries(entries_of(items, other)),
{
    lemma_entries_texts(items, one, other);
    lemma_entries_texts(items, other, one);
    let a = entries_of(items, one);
    let b = entries_of(items, other);
    if writable_entries(a) {
        assert forall|k: int| 0 <= k < b.len() implies tight((#[trigger] b[k]).text) && b[k].text.len()
            > 0 && free_of(b[k].text, '\n') by {
            assert(a[k].text == b[k].text);
        }
    }
    if writable_entries(b) {
        assert forall|k: int| 0 <= k < a.len() implies tight((#[trigger] a[k]).text) && a[k].text.len()
            > 0 && free_of(a[k].text, '\n') by {
            assert(a[k].text == b[k].text);
        }
    }
}

/// Whether the text of each of `items`, at whatever depth, can be written
/// and read back.
fn entries_writable(items: &Vec<ListItem>) -> (r: bool)
    ensures
        r == writable_entries(entries_of(items.deep_view(), 0)),
    decreases entries_of(items.deep_view(), 0).len(),
{
    let ghost all = items.deep_view();
    let n: usize = items.len();
    let mut i: usize = 0;
    proof {
        assert(all.subrange(0, n as int) =~= all);
    }
    while i < n
        invariant
            i <= n,
            n == items.len(),
            all == items.deep_view(),
            entries_of(all.subrange(i as int, n as int), 0).len() <= entries_of(all, 0).len(),
            writable_entries(entries_of(all, 0)) == writable_entries(
                entries_of(all.subrange(i as int, n as int), 0),
            ),
        decreases n - i,
    {
        let (_, text, children) = list_parts(&items[i]);
        let ghost rest = all.subrange(i as int, n as int);
        let ghost head = ListEntryView { indent: 0, kind: rest[0].kind, text: rest[0].text };
        let ghost below = entries_of(rest[0].children, 1);
        let ghost after = entries_of(all.subrange(i + 1, n as int), 0);
        proof {
            assert(rest[0] == items[i as int]@);
            assert(rest.drop_first() =~= all.subrange(i + 1, n as int));
            assert(entries_of(rest, 0) == seq![head] + below + after);
            lemma_writable_concat(seq![head] + below, after);
            lemma_writable_concat(seq![head], below);
            lemma_writable_at_any_depth(rest[0].children, 1, 0);
            lemma_entries_texts(rest[0].children, 1, 0);
            assert(writable_entries(seq![head]) == (tight(head.text) && head.text.len() > 0
                && free_of(head.text, '\n'))) by {
                if tight(head.text) && head.text.len() > 0 && free_of(head.text, '\n') {
                    assert forall|k: int| 0 <= k < 1 implies tight((#[trigger] seq![head][k]).text)
                        && seq![head][k].text.len() > 0 && free_of(seq![head][k].text, '\n') by {}
                } else {
                    assert(seq![head][0] == head);
                }
            }
        }
        let v = chars_of(text.as_str());
        if !(v.len() > 0 && is_tight(&v) && is_free_of(&v, '\n')) {
            return false;
        }
        if !entries_writable(children) {
            return false;
        }
        i += 1;
    }
    proof {
        assert(all.subrange(n as int, n as int).len() == 0);
        assert(entries_of(all.subrange(n as int, n as int), 0).len() == 0);
    }
    true
}

/// Whether `item` can be written as Markdown and read back.
pub fn item_is_writable(item: &BasicItem) -> (r: bool)
    ensures
        r == writable_item(item@),
{
    match item {
        BasicItem::Tittle(t) => {
            let v = chars_of(t.tittle.as_str());
            t.level >= 1 && is_free_of(&v, '\n') && v.len() > 0 && !is_space_char(v[v.len() - 1])
        },
        BasicItem::HLine => true,
        BasicItem::Qoute(items) => {
            if items.len() == 0 {
                return false;
            }
            let mut i: usize = 0;
            while i < items.len()
                invariant
                    i <= items.len(),
                    items.len() >= 1,
                    item@ == BasicItemView::Qoute(items.deep_view()),
                    forall|k: int|
                        0 <= k < i ==> tight((#[trigger] items.deep_view()[k]).text) && free_of(
                            items.deep_view()[k].text,
                            '\n',
                        ),
                decreases items.len() - i,
            {
                proof {
                    assert(items.deep_view()[i as int].text == items[i as int].text());
                }
                if !is_one_tight_line(quote_text(&items[i])) {
                    proof {
                        let q = items.deep_view()[i as int];
                        assert(!(tight(q.text) && free_of(q.text, '\n')));
                    }
                    return false;
                }
                i += 1;
            }
            true
        },
        BasicItem::Code(c) => is_one_tight_line(&c.attr) && has_no_stop(&c.content, Stop::FenceClose),
        BasicItem::Comment(text) => {
            let v = chars_of(text.as_str());
            is_tight(&v) && has_no_stop(text, Stop::CommentClose)
        },
        BasicItem::Latex(text) => has_no_stop(text, Stop::LatexClose),
        BasicItem::Table(t) => {
            if t.header.len() == 0 || !cells_writable(&t.header) {
                return false;
            }
            let mut i: usize = 0;
            while i < t.rows.len()
                invariant
                    i <= t.rows.len(),
                    item@ == BasicItemView::Table(t@),
                    t.header.len() >= 1,
                    writable_cells(t@.header),
                    forall|k: int|
                        0 <= k < i ==> (#[trigger] t@.rows[k]).len() == t@.header.len()
                            && writable_cells(t@.rows[k]),
                decreases t.rows.len() - i,
            {
                proof {
                    assert(t@.rows[i as int] == t.rows[i as int].0.deep_view());
                    assert(t.rows[i as int].0.deep_view().len() == t.rows[i as int].0.len());
                    assert(t@.header.len() == t.header.len());
                }
                if t.rows[i].0.len() != t.header.len() || !cells_writable(&t.rows[i].0) {
                    proof {
                        let row = t@.rows[i as int];
                        assert(row.len() != t@.header.len() || !writable_cells(row));
                    }
                    return false;
                }
                i += 1;
            }
            proof {
                assert(t@.header.len() == t.header.len());
            }
            true
        },
        BasicItem::List(items) => items.len() >= 1 && entries_writable(items),
        BasicItem::Paragraph(_) => false,
    }
}

/// Whether `doc` can be written as Markdown and read back.
pub fn can_write(doc: &Document) -> (r: bool)
    ensures
        r == writable_document(doc@),
{
    let n: usize = doc.attrs.len();
    let mut i: usize = 0;
    while i < n
        invariant
            i <= n,
            n == doc.attrs.len(),
            forall|k: int| 0 <= k < i ==> writable(#[trigger] doc@.attrs[k]),
            forall|a: int, b: int| 0 <= a < b < i ==> doc@.attrs[a].0 != doc@.attrs[b].0,
        decreases n - i,
    {
        proof {
            assert(doc@.attrs[i as int] == (doc.attrs[i as int].0@, doc.attrs[i as int].1@));
        }
        let key = chars_of(doc.attrs[i].0.as_str());
        if !(is_tight(&key) && is_free_of(&key, ':') && is_free_of(&key, '\n') && is_one_tight_line(
            &doc.attrs[i].1,
        )) {
            return false;
        }
        let mut j: usize = 0;
        while j < i
            invariant
                j <= i < n,
                n == doc.attrs.len(),
                forall|a: int| 0 <= a < j ==> doc@.attrs[a].0 != doc@.attrs[i as int].0,
            decreases i - j,
        {
            proof {
                assert(doc@.attrs[j as int].0 == doc.attrs[j as int].0@);
                assert(doc@.attrs[i as int].0 == doc.attrs[i as int].0@);
            }
            if same_text(&doc.attrs[j].0, &doc.attrs[i].0) {
                return false;
            }
            j += 1;
        }
        i += 1;
    }
    let mut k: usize = 0;
    while k < doc.items.len()
        invariant
            k <= doc.items.len(),
            forall|a: int| 0 <= a < k ==> writable_item(#[trigger] doc@.items[a]),
        decreases doc.items.len() - k,
    {
        proof {
            assert(doc@.items[k as int] == doc.items[k as int]@);
        }
        if !item_is_writable(&doc.items[k]) {
            return false;
        }
        k += 1;
    }
    true
}

/// The Markdown that `doc` is written as, where it can be written and read
/// back.
pub fn to_markdown(doc: &Document) -> (text: Option<String>)
    ensures
        text is Some == writable_document(doc@),
        text matches Some(t) ==> t@ == document_text(doc@),
{
    if can_write(doc) {
        Some(write_markdown(doc))
    } else {
        None
    }
}

} // verus!
