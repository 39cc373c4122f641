//! Tables: lines that begin with `|`.

use vstd::prelude::*;
use crate::elems::items::{BasicItem, BasicItemView, Table, TableRow, TableView};
use crate::error::ParseError;
use crate::parser::block::{find_stop, find_stop_line, lemma_find_stop, lemma_lines, line_kind};
use crate::parser::block::{LineKind, Stop};
use crate::text::{copy_range, lemma_deep_view_empty, lemma_deep_view_push};
use crate::text::{split, split_chars, string_of, trim, trim_chars};

verus! {

/// Each of the texts `pieces`, trimmed.
pub open spec fn trim_all(pieces: Seq<Seq<char>>) -> Seq<Seq<char>> {
    Seq::new(pieces.len(), |k: int| trim(pieces[k]))
}

/// The cells of the table line `t`: what is between its `|` characters,
/// each trimmed. The `|` that the line begins with opens the first cell,
/// and a `|` that it ends with closes the last.
pub open spec fn cells_of(t: Seq<char>) -> Seq<Seq<char>> {
    let hi = if t.len() >= 2 && t.last() == '|' {
        t.len() - 1
    } else {
        t.len() as int
    };
    trim_all(split(t.subrange(1, hi), '|'))
}

/// The cells of the table lines from `lo` up to `hi`.
pub open spec fn rows_of(lines: Seq<Seq<char>>, lo: int, hi: int) -> Seq<Seq<Seq<char>>> {
    Seq::new((hi - lo) as nat, |k: int| cells_of(trim(lines[lo + k])))
}

/// The table that begins on line `i`: the lines from there on that begin
/// with `|`. The first is the header, the second is left out, and each of
/// the others is a row, which must have as many cells as the header. The
/// next line is the first that does not begin with `|`.
pub open spec fn table_block(lines: Seq<Seq<char>>, i: int) -> Result<(BasicItemView, int), ParseError> {
    let end = find_stop(lines, i, Stop::Other(LineKind::Table));
    let first = if i + 2 <= end {
        i + 2
    } else {
        end
    };
    let table = TableView { header: cells_of(trim(lines[i])), rows: rows_of(lines, first, end) };
    if table.well_formed() {
        Ok((BasicItemView::Table(table), end))
    } else {
        Err(ParseError::TableColumnMismatch)
    }
}

/// The cells of the table line `t`.
pub(crate) fn parse_cells(t: &Vec<char>) -> (cells: Vec<String>)
    requires
        t@.len() >= 1,
    ensures
        cells.deep_view() == cells_of(t@),
{
    let n: usize = t.len();
    let hi: usize = if n >= 2 && t[n - 1] == '|' {
        n - 1
    } else {
        n
    };
    let inner = copy_range(t, 1, hi);
    let pieces = split_chars(&inner, '|');
    proof {
        lemma_lines(pieces);
    }
    let mut cells: Vec<String> = Vec::new();
    proof {
        lemma_deep_view_empty(cells);
    }
    let mut k: usize = 0;
    while k < pieces.len()
        invariant
            k <= pieces.len(),
            pieces.deep_view().len() == pieces.len(),
            forall|j: int| 0 <= j < pieces.len() ==> #[trigger] pieces.deep_view()[j] == pieces@[j]@,
            cells.deep_view() == trim_all(pieces.deep_view()).take(k as int),
        decreases pieces.len() - k,
    {
        let cell = string_of(&trim_chars(&pieces[k]));
        let ghost before = cells;
        cells.push(cell);
        proof {
            lemma_deep_view_push(before, cells, cell);
            assert(cells.deep_view() =~= trim_all(pieces.deep_view()).take(k + 1));
        }
        k += 1;
    }
    proof {
        assert(trim_all(pieces.deep_view()).take(pieces.len() as int) =~= trim_all(
            pieces.deep_view(),
        ));
    }
    cells
}

/// The table that begins on line `i`.
pub(crate) fn parse_table(lines: &Vec<Vec<char>>, i: usize) -> (r: Result<(BasicItem, usize), ParseError>)
    requires
        i < lines.len(),
        line_kind(trim(lines.deep_view()[i as int])) == LineKind::Table,
    ensures
        match r {
            Ok((item, next)) => table_block(lines.deep_view(), i as int) == Ok::<
                (BasicItemView, int),
                ParseError,
            >((item@, next as int)) && i < next <= lines.len(),
            Err(e) => table_block(lines.deep_view(), i as int) == Err::<
                (BasicItemView, int),
                ParseError,
            >(e),
        },
{
    let end = find_stop_line(lines, i, Stop::Other(LineKind::Table));
    proof {
        lemma_lines(*lines);
        lemma_find_stop(lines.deep_view(), i as int, Stop::Other(LineKind::Table));
    }
    let head = trim_chars(&lines[i]);
    let header = parse_cells(&head);
    let first: usize = if end - i >= 2 {
        i + 2
    } else {
        end
    };
    let mut rows: Vec<TableRow> = Vec::new();
    proof {
        lemma_deep_view_empty(rows);
        assert(rows.deep_view() =~= rows_of(lines.deep_view(), first as int, first as int));
    }
    let mut j: usize = first;
    while j < end
        invariant
            i < first <= j <= end <= lines.len(),
            end == find_stop(lines.deep_view(), i as int, Stop::Other(LineKind::Table)),
            first == if i + 2 <= end { i + 2 } else { end as int },
            header.deep_view() == cells_of(trim(lines.deep_view()[i as int])),
            lines.deep_view().len() == lines.len(),
            forall|k: int| 0 <= k < lines.len() ==> #[trigger] lines.deep_view()[k] == lines@[k]@,
            forall|k: int|
                i <= k < end ==> line_kind(#[trigger] trim(lines.deep_view()[k])) == LineKind::Table,
            rows.deep_view() == rows_of(lines.deep_view(), first as int, j as int),
            forall|k: int|
                0 <= k < j - first ==> (#[trigger] rows_of(
                    lines.deep_view(),
                    first as int,
                    end as int,
                )[k]).len() == header.deep_view().len(),
        decreases end - j,
    {
        let t = trim_chars(&lines[j]);
        proof {
            assert(line_kind(trim(lines.deep_view()[j as int])) == LineKind::Table);
        }
        let cells = parse_cells(&t);
        if cells.len() != header.len() {
            proof {
                let all = rows_of(lines.deep_view(), first as int, end as int);
                assert(all[j - first] == cells.deep_view());
                assert(cells.deep_view().len() == cells.len());
                assert(header.deep_view().len() == header.len());
                let table = TableView { header: header.deep_view(), rows: all };
                assert(table.rows[j - first].len() != table.header.len());
                assert(!table.well_formed());
            }
            return Err(ParseError::TableColumnMismatch);
        }
        let row = TableRow(cells);
        let ghost before = rows;
        rows.push(row);
        proof {
            lemma_deep_view_push(before, rows, row);
            assert(rows.deep_view() =~= rows_of(lines.deep_view(), first as int, j + 1));
        }
        j += 1;
    }
    Ok((BasicItem::Table(Table { header, rows }), end))
}

} // verus!
