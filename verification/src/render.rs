//! The written form of a document: the Markdown that each part of the tree
//! is written as.

use vstd::prelude::*;
use crate::elems::document::DocumentView;
use crate::elems::items::{BasicItemView, ListItemView, ListKind, QouteItemView};
use crate::elems::tittle::hashes;
use crate::parser::block::{stops, Stop};
use crate::parser::list::ListEntryView;
use crate::text::{free_of, is_space, split, tight, trim};
use crate::parse::distinct_keys;

verus! {

/// Whether `pair` can be written as a line of front matter and read back:
/// its key and its value are trimmed and on one line, and the key holds no
/// `:`.
pub open spec fn writable(pair: (Seq<char>, Seq<char>)) -> bool {
    &&& tight(pair.0)
    &&& free_of(pair.0, ':')
    &&& free_of(pair.0, '\n')
    &&& tight(pair.1)
    &&& free_of(pair.1, '\n')
}

/// The line of front matter that holds `pair`: the key, `: ` and the value.
pub open spec fn attr_line(pair: (Seq<char>, Seq<char>)) -> Seq<char> {
    pair.0 + seq![':', ' '] + pair.1
}

/// The line `---`.
pub open spec fn rule_line() -> Seq<char> {
    seq!['-', '-', '-']
}

/// The lines that hold `pairs`, one each.
pub open spec fn attr_lines(pairs: Seq<(Seq<char>, Seq<char>)>) -> Seq<Seq<char>> {
    Seq::new(pairs.len(), |k: int| attr_line(pairs[k]))
}

/// The lines `lines`, each with a line feed after it.
pub open spec fn text_of_lines(lines: Seq<Seq<char>>) -> Seq<char>
    decreases lines.len(),
{
    if lines.len() == 0 {
        Seq::empty()
    } else {
        lines[0] + seq!['\n'] + text_of_lines(lines.drop_first())
    }
}

/// The front matter that holds `pairs`: a line of `---`, a line for each
/// pair, and a line of `---`.
pub open spec fn front_matter(pairs: Seq<(Seq<char>, Seq<char>)>) -> Seq<char> {
    text_of_lines(seq![rule_line()] + attr_lines(pairs) + seq![rule_line()])
}

/// The lines that `item` is written as.
pub open spec fn item_lines(item: BasicItemView) -> Seq<Seq<char>> {
    match item {
        BasicItemView::Tittle(t) => seq![hashes(t.level) + seq![' '] + t.tittle],
        BasicItemView::HLine => seq![rule_line()],
        BasicItemView::Qoute(items) => Seq::new(items.len(), |k: int| quote_line(items[k])),
        BasicItemView::Code(c) => seq![fence_line() + c.attr] + split(c.content, '\n') + seq![
            fence_line(),
        ],
        BasicItemView::Comment(text) => seq![comment_open_line()] + split(text, '\n') + seq![
            comment_close_line(),
        ],
        BasicItemView::Latex(text) => seq![latex_fence_line()] + split(text, '\n') + seq![
            latex_fence_line(),
        ],
        BasicItemView::Table(t) => seq![row_line(t.header), row_line(rule_cells(t.header.len()))]
            + Seq::new(t.rows.len(), |k: int| row_line(t.rows[k])),
        BasicItemView::List(items) => entry_lines(entries_of(items, 0)),
        BasicItemView::Paragraph(_) => Seq::empty(),
    }
}

/// The marker that a list item of the kind `kind` is written with.
pub open spec fn marker_text(kind: ListKind) -> Seq<char> {
    match kind {
        ListKind::Ordered => seq!['1', '.'],
        ListKind::Plus => seq!['+'],
        ListKind::Dash => seq!['-'],
        ListKind::Star => seq!['*'],
    }
}

/// `n` spaces.
pub open spec fn spaces(n: nat) -> Seq<char> {
    Seq::new(n, |i: int| ' ')
}

/// The line that a list entry is written as: its indentation, its marker,
/// a space and its text.
pub open spec fn entry_line(e: ListEntryView) -> Seq<char> {
    spaces(e.indent) + marker_text(e.kind) + seq![' '] + e.text
}

/// The lines that list entries are written as.
pub open spec fn entry_lines(entries: Seq<ListEntryView>) -> Seq<Seq<char>> {
    Seq::new(entries.len(), |k: int| entry_line(entries[k]))
}

/// The entries that `items` are written as at the depth `depth`: each
/// item, indented by two spaces for each level, and its children after it,
/// one level deeper.
pub open spec fn entries_of(items: Seq<ListItemView>, depth: nat) -> Seq<ListEntryView>
    decreases items,
{
    if items.len() == 0 {
        Seq::empty()
    } else {
        seq![ListEntryView { indent: 2 * depth, kind: items[0].kind, text: items[0].text }]
            + entries_of(items[0].children, depth + 1) + entries_of(items.drop_first(), depth)
    }
}

/// Whether the text of each of `entries` can be written and read back: it
/// is trimmed, on one line, and not empty.
pub open spec fn writable_entries(entries: Seq<ListEntryView>) -> bool {
    forall|k: int|
        0 <= k < entries.len() ==> tight((#[trigger] entries[k]).text) && entries[k].text.len() > 0
            && free_of(entries[k].text, '\n')
}

/// A cell with a space on each side.
pub open spec fn pad(cell: Seq<char>) -> Seq<char> {
    seq![' '] + cell + seq![' ']
}

/// The cells `cells`, each with a space on each side, with `|` between
/// each two.
pub open spec fn cells_text(cells: Seq<Seq<char>>) -> Seq<char>
    decreases cells.len(),
{
    if cells.len() == 0 {
        Seq::empty()
    } else if cells.len() == 1 {
        pad(cells[0])
    } else {
        pad(cells[0]) + seq!['|'] + cells_text(cells.drop_first())
    }
}

/// The line that a row of a table is written as: its cells between two
/// `|`.
pub open spec fn row_line(cells: Seq<Seq<char>>) -> Seq<char> {
    seq!['|'] + cells_text(cells) + seq!['|']
}

/// `n` cells of `---`: the row under the header of a table.
pub open spec fn rule_cells(n: nat) -> Seq<Seq<char>> {
    Seq::new(n, |k: int| rule_line())
}

/// Whether each of `cells` can be written and read back: it is trimmed, on
/// one line, and holds no `|`.
pub open spec fn writable_cells(cells: Seq<Seq<char>>) -> bool {
    forall|k: int|
        0 <= k < cells.len() ==> tight(#[trigger] cells[k]) && free_of(cells[k], '|') && free_of(
            cells[k],
            '\n',
        )
}

/// Three backticks.
pub open spec fn fence_line() -> Seq<char> {
    seq!['`', '`', '`']
}

/// `<!--`.
pub open spec fn comment_open_line() -> Seq<char> {
    seq!['<', '!', '-', '-']
}

/// `-->`.
pub open spec fn comment_close_line() -> Seq<char> {
    seq!['-', '-', '>']
}

/// `$$`.
pub open spec fn latex_fence_line() -> Seq<char> {
    seq!['$', '$']
}

/// Whether no line of `text` is what `stop` asks for.
pub open spec fn no_line_stops(text: Seq<char>, stop: Stop) -> bool {
    forall|k: int|
        0 <= k < split(text, '\n').len() ==> !stops(stop, trim(#[trigger] split(text, '\n')[k]))
}

/// `n` times the character `>`.
pub open spec fn angles(n: nat) -> Seq<char> {
    Seq::new(n, |i: int| '>')
}

/// The line that a quoted line is written as: a `>` for each level, a
/// space and the text.
pub open spec fn quote_line(q: QouteItemView) -> Seq<char> {
    angles(q.nesting + 1) + seq![' '] + q.text
}

/// Whether `item` can be written as Markdown and read back.
///
/// A title has a level and a text that is on one line, is not empty and
/// does not end with white space. A quote has a line, and the text of each
/// of its lines is trimmed and on one line. What follows the opening fence
/// of a block of code is trimmed and on one line, and no line of the code
/// is a closing fence. A comment is trimmed, and none of its lines ends
/// with `-->`. No line of display math is `$$`. The header of a table
/// has a cell, each row has as many cells as the header, and each cell is
/// trimmed, on one line, and holds no `|`. A list has an item, and the
/// text of each item, at whatever depth, is trimmed, on one line, and not
/// empty. A paragraph cannot: what its lines are read as is the pattern
/// engine's to say.
pub open spec fn writable_item(item: BasicItemView) -> bool {
    match item {
        BasicItemView::Tittle(t) => t.level >= 1 && free_of(t.tittle, '\n') && t.tittle.len() > 0
            && !is_space(t.tittle[t.tittle.len() - 1]),
        BasicItemView::HLine => true,
        BasicItemView::Qoute(items) => items.len() >= 1 && forall|k: int|
            0 <= k < items.len() ==> tight((#[trigger] items[k]).text) && free_of(
                items[k].text,
                '\n',
            ),
        BasicItemView::Code(c) => tight(c.attr) && free_of(c.attr, '\n') && no_line_stops(
            c.content,
            Stop::FenceClose,
        ),
        BasicItemView::Comment(text) => tight(text) && no_line_stops(text, Stop::CommentClose),
        BasicItemView::Latex(text) => no_line_stops(text, Stop::LatexClose),
        BasicItemView::Table(t) => t.header.len() >= 1 && t.well_formed() && writable_cells(
            t.header,
        ) && forall|k: int| 0 <= k < t.rows.len() ==> writable_cells(#[trigger] t.rows[k]),
        BasicItemView::List(items) => items.len() >= 1 && writable_entries(entries_of(items, 0)),
        BasicItemView::Paragraph(_) => false,
    }
}

/// The lines that `items` are written as: the lines of each item and a
/// blank line after them.
pub open spec fn markdown_lines(items: Seq<BasicItemView>) -> Seq<Seq<char>>
    decreases items.len(),
{
    if items.len() == 0 {
        Seq::empty()
    } else {
        item_lines(items[0]) + seq![Seq::<char>::empty()] + markdown_lines(items.drop_first())
    }
}

/// The lines that a document is written as: its front matter, and then
/// its items.
pub open spec fn document_lines(doc: DocumentView) -> Seq<Seq<char>> {
    seq![rule_line()] + attr_lines(doc.attrs) + seq![rule_line()] + markdown_lines(doc.items)
}

/// The Markdown that a document is written as.
pub open spec fn document_text(doc: DocumentView) -> Seq<char> {
    text_of_lines(document_lines(doc))
}

/// Whether a document can be written as Markdown and read back: no two of
/// its attributes have the same key, and each attribute and each item can
/// be written.
pub open spec fn writable_document(doc: DocumentView) -> bool {
    &&& distinct_keys(doc.attrs)
    &&& forall|k: int| 0 <= k < doc.attrs.len() ==> writable(#[trigger] doc.attrs[k])
    &&& forall|k: int| 0 <= k < doc.items.len() ==> writable_item(#[trigger] doc.items[k])
}

} // verus!
