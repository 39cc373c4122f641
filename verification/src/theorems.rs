//! What holds of every parse: theorems about the block-level parser, proved
//! from its definition.

use vstd::prelude::*;
use crate::elems::items::BasicItemView;
use crate::elems::tittle::{hashes, lemma_tittle_level, TittleView};
use crate::error::ParseError;
use crate::parse::{attr_of, block_at, distinct_keys, key_index, last_written, lemma_block_advances};
use crate::parse::{lemma_key_index, lemma_key_index_is, parse_from, parse_text, upsert, upsert_all};
use crate::parse::{value_of, with_item, Parsed, ParserState};
use crate::parser::block::{is_rule, line_kind, LineKind};
use crate::parser::table::table_block;
use crate::render::{attr_line, attr_lines, front_matter, rule_line, text_of_lines, writable};
use crate::text::{back_space, free_of, is_space, lemma_index_of_is, lemma_split_cons};
use crate::text::{lemma_split_single, lemma_trim_after_space, lemma_trim_tight, lines_of, skip_space};
use crate::text::{split, trim};

verus! {

/// Whether every table among `items` has as many cells in each row as in
/// its header.
pub open spec fn tables_well_formed(items: Seq<BasicItemView>) -> bool {
    forall|k: int|
        0 <= k < items.len() ==> ((#[trigger] items[k]) matches BasicItemView::Table(t)
            ==> t.well_formed())
}

/// A table is read only where each of its rows has as many cells as its
/// header; where one has not, reading it fails with `TableColumnMismatch`.
pub proof fn lemma_table_rows(lines: Seq<Seq<char>>, i: int)
    ensures
        match table_block(lines, i) {
            Ok((item, _)) => item matches BasicItemView::Table(t) && t.well_formed(),
            Err(e) => e == ParseError::TableColumnMismatch,
        },
{
}

/// Every table that a parse reads has as many cells in each row as in its
/// header, from whatever line and in whatever state the parse begins.
pub proof fn lemma_parsed_tables(
    lines: Seq<Seq<char>>,
    i: int,
    state: ParserState,
    attrs: Seq<(Seq<char>, Seq<char>)>,
    items: Seq<BasicItemView>,
)
    requires
        tables_well_formed(items),
    ensures
        parse_from(lines, i, state, attrs, items) matches Ok(parsed) ==> tables_well_formed(
            parsed.items,
        ),
    decreases lines.len() - i,
{
    if 0 <= i < lines.len() {
        let t = trim(lines[i]);
        if state == ParserState::Begin && is_rule(t) {
            lemma_parsed_tables(lines, i + 1, ParserState::DocumentAttr, attrs, items);
        } else if state == ParserState::Begin && t.len() == 0 {
            lemma_parsed_tables(lines, i + 1, ParserState::Begin, attrs, items);
        } else if state == ParserState::DocumentAttr {
            if is_rule(t) {
                lemma_parsed_tables(lines, i + 1, ParserState::Document, attrs, items);
            } else {
                match attr_of(t) {
                    Some(pair) => lemma_parsed_tables(
                        lines,
                        i + 1,
                        ParserState::DocumentAttr,
                        attrs.push(pair),
                        items,
                    ),
                    None => {},
                }
            }
        } else {
            match block_at(lines, i) {
                Ok(block) => {
                    lemma_block_advances(lines, i);
                    let more = with_item(items, block.0);
                    assert(tables_well_formed(more)) by {
                        if line_kind(t) == LineKind::Table {
                            lemma_table_rows(lines, i);
                        }
                    }
                    lemma_parsed_tables(lines, block.1, ParserState::Document, attrs, more);
                },
                Err(_) => {},
            }
        }
    }
}

/// Every table in what is read from a text has as many cells in each row
/// as in its header.
pub proof fn lemma_text_tables(text: Seq<char>, state: ParserState)
    ensures
        parse_text(text, state) matches Ok(parsed) ==> tables_well_formed(parsed.items),
{
    lemma_parsed_tables(lines_of(text), 0, state, Seq::empty(), Seq::empty());
}

/// The lines of a text written line by line are those lines, where none of
/// them holds a line feed.
pub proof fn lemma_lines_of_text(lines: Seq<Seq<char>>)
    requires
        forall|k: int| 0 <= k < lines.len() ==> free_of(#[trigger] lines[k], '\n'),
    ensures
        split(text_of_lines(lines), '\n') == lines + seq![Seq::<char>::empty()],
        lines_of(text_of_lines(lines)) == lines,
    decreases lines.len(),
{
    let empty = Seq::<char>::empty();
    if lines.len() == 0 {
        lemma_split_single(empty, '\n');
        assert(lines + seq![empty] =~= seq![empty]);
    } else {
        let rest = lines.drop_first();
        lemma_lines_of_text(rest);
        lemma_split_cons(lines[0], text_of_lines(rest), '\n');
        assert(seq![lines[0]] + (rest + seq![empty]) =~= lines + seq![empty]);
    }
    assert((lines + seq![empty]).drop_last() =~= lines);
}

/// A line of front matter that holds a pair is no line of `---`, and the
/// attribute read from it is the pair.
pub proof fn lemma_attr_line(pair: (Seq<char>, Seq<char>))
    requires
        writable(pair),
    ensures
        !is_rule(trim(attr_line(pair))),
        attr_of(trim(attr_line(pair))) == Some(pair),
{
    let key = pair.0;
    let value = pair.1;
    let line = attr_line(pair);
    let colon = key.len() as int;
    assert(!is_space(':'));
    assert(is_space(' '));
    assert(line[colon] == ':');
    assert(line[colon + 1] == ' ');
    assert(forall|k: int| 0 <= k < colon ==> line[k] == key[k]);
    assert(skip_space(line, 0) == 0) by {
        if key.len() > 0 {
            assert(line[0] == key[0]);
        }
    }
    let t = trim(line);
    if value.len() > 0 {
        assert(line[line.len() - 1] == value[value.len() - 1]);
        lemma_trim_tight(line);
        assert(t == line);
        assert(t.subrange(colon + 1, t.len() as int) =~= seq![' '] + value);
        lemma_trim_after_space(value);
    } else {
        let full = line.len() as int;
        assert(full == colon + 2);
        assert(back_space(line, 0, full - 1) == full - 1);
        assert(back_space(line, 0, full) == full - 1);
        assert(t =~= key + seq![':']);
        assert(t.subrange(colon + 1, t.len() as int) =~= Seq::<char>::empty());
        assert(trim(Seq::<char>::empty()) =~= value);
    }
    assert(t.len() > colon);
    assert(t[colon] == ':');
    assert(forall|k: int| 0 <= k < colon ==> t[k] == key[k]);
    lemma_index_of_is(t, 0, ':', colon);
    assert(t.subrange(0, colon) =~= key);
    lemma_trim_tight(key);
}

/// In the front matter, the lines that hold pairs are read as those pairs,
/// and the line of `---` after them ends the front matter: the parser
/// goes on in the body with what follows.
pub proof fn lemma_front_matter_then(
    pairs: Seq<(Seq<char>, Seq<char>)>,
    then: Seq<Seq<char>>,
    j: int,
)
    requires
        0 <= j <= pairs.len(),
        forall|k: int| 0 <= k < pairs.len() ==> writable(#[trigger] pairs[k]),
    ensures
        parse_from(
            seq![rule_line()] + attr_lines(pairs) + seq![rule_line()] + then,
            1 + j,
            ParserState::DocumentAttr,
            pairs.take(j),
            Seq::empty(),
        ) == parse_from(
            seq![rule_line()] + attr_lines(pairs) + seq![rule_line()] + then,
            pairs.len() as int + 2,
            ParserState::Document,
            pairs,
            Seq::empty(),
        ),
    decreases pairs.len() - j,
{
    let lines = seq![rule_line()] + attr_lines(pairs) + seq![rule_line()] + then;
    let i = 1 + j;
    if j == pairs.len() {
        assert(lines[i] == rule_line());
        lemma_trim_tight(rule_line());
        assert(is_rule(trim(lines[i])));
        assert(pairs.take(j) =~= pairs);
    } else {
        assert(lines[i] == attr_line(pairs[j]));
        lemma_attr_line(pairs[j]);
        assert(pairs.take(j).push(pairs[j]) =~= pairs.take(j + 1));
        lemma_front_matter_then(pairs, then, j + 1);
    }
}

/// A front matter that holds pairs is read as those pairs, in the order
/// written, and as no block item; the parser is then in the body.
pub proof fn lemma_front_matter(pairs: Seq<(Seq<char>, Seq<char>)>)
    requires
        forall|k: int| 0 <= k < pairs.len() ==> writable(#[trigger] pairs[k]),
    ensures
        parse_text(front_matter(pairs), ParserState::Begin) == Ok::<Parsed, ParseError>(
            Parsed { state: ParserState::Document, attrs: pairs, items: Seq::empty() },
        ),
{
    let then = Seq::<Seq<char>>::empty();
    let lines = seq![rule_line()] + attr_lines(pairs) + seq![rule_line()];
    assert(lines + then =~= lines);
    lemma_front_matter_lines(pairs);
    lemma_lines_of_text(lines);
    lemma_trim_tight(rule_line());
    assert(is_rule(trim(lines[0])));
    assert(pairs.take(0) =~= Seq::<(Seq<char>, Seq<char>)>::empty());
    lemma_front_matter_then(pairs, then, 0);
}

/// No line of a front matter holds a line feed.
pub proof fn lemma_front_matter_lines(pairs: Seq<(Seq<char>, Seq<char>)>)
    requires
        forall|k: int| 0 <= k < pairs.len() ==> writable(#[trigger] pairs[k]),
    ensures
        forall|k: int|
            0 <= k < pairs.len() + 2 ==> free_of(
                #[trigger] (seq![rule_line()] + attr_lines(pairs) + seq![rule_line()])[k],
                '\n',
            ),
{
    let lines = seq![rule_line()] + attr_lines(pairs) + seq![rule_line()];
    assert forall|k: int| 0 <= k < pairs.len() + 2 implies free_of(#[trigger] lines[k], '\n') by {
        if 1 <= k <= pairs.len() {
            assert(lines[k] == attr_line(pairs[k - 1]));
            assert(writable(pairs[k - 1]));
        }
    }
}

/// After a key is written, it has the value written, every other key has
/// the value that it had, and no key occurs twice if none did.
pub proof fn lemma_upsert(
    attrs: Seq<(Seq<char>, Seq<char>)>,
    key: Seq<char>,
    value: Seq<char>,
    other: Seq<char>,
)
    ensures
        value_of(upsert(attrs, key, value), key) == Some(value),
        other != key ==> value_of(upsert(attrs, key, value), other) == value_of(attrs, other),
        distinct_keys(attrs) ==> distinct_keys(upsert(attrs, key, value)),
{
    let at = key_index(attrs, 0, key);
    let after = upsert(attrs, key, value);
    lemma_key_index(attrs, 0, key);
    lemma_key_index(attrs, 0, other);
    let found = key_index(attrs, 0, other);
    if at < attrs.len() {
        lemma_key_index_is(after, 0, key, at);
        if other != key {
            lemma_key_index_is(after, 0, other, found);
        }
    } else {
        lemma_key_index_is(after, 0, key, attrs.len() as int);
        if other != key {
            if found < attrs.len() {
                lemma_key_index_is(after, 0, other, found);
            } else {
                lemma_key_index_is(after, 0, other, after.len() as int);
            }
        }
    }
}

/// The last write wins: after pairs are written in order, a key has the
/// value of the last pair that holds it, or the value that it had where no
/// pair holds it; and no key occurs twice if none did.
pub proof fn lemma_last_write_wins(
    attrs: Seq<(Seq<char>, Seq<char>)>,
    pairs: Seq<(Seq<char>, Seq<char>)>,
    key: Seq<char>,
)
    ensures
        value_of(upsert_all(attrs, pairs), key) == match last_written(pairs, key) {
            Some(value) => Some(value),
            None => value_of(attrs, key),
        },
        distinct_keys(attrs) ==> distinct_keys(upsert_all(attrs, pairs)),
    decreases pairs.len(),
{
    if pairs.len() > 0 {
        lemma_last_write_wins(attrs, pairs.drop_last(), key);
        lemma_upsert(upsert_all(attrs, pairs.drop_last()), pairs.last().0, pairs.last().1, key);
    }
}

/// Pairs with different keys, written in order, are the attributes.
pub proof fn lemma_distinct_written(pairs: Seq<(Seq<char>, Seq<char>)>)
    requires
        distinct_keys(pairs),
    ensures
        upsert_all(Seq::empty(), pairs) == pairs,
    decreases pairs.len(),
{
    if pairs.len() > 0 {
        let front = pairs.drop_last();
        lemma_distinct_written(front);
        lemma_key_index_is(front, 0, pairs.last().0, front.len() as int);
        assert(front.push(pairs.last()) =~= pairs);
    }
}

/// A text of one title line is read as that title: as many levels as the
/// line has `#` characters, and the text after the space.
pub proof fn lemma_tittle_text(n: nat, text: Seq<char>)
    requires
        n >= 1,
        free_of(text, '\n'),
        text.len() > 0,
        !is_space(text[text.len() - 1]),
    ensures
        parse_text(hashes(n) + seq![' '] + text, ParserState::Begin) == Ok::<Parsed, ParseError>(
            Parsed {
                state: ParserState::Document,
                attrs: Seq::empty(),
                items: seq![BasicItemView::Tittle(TittleView { level: n, tittle: text })],
            },
        ),
{
    let line = hashes(n) + seq![' '] + text;
    assert(!is_space('#'));
    assert(line[0] == '#');
    assert(line[line.len() - 1] == text[text.len() - 1]);
    lemma_trim_tight(line);
    lemma_tittle_level(n, text);
    assert(free_of(line, '\n')) by {
        assert forall|i: int| 0 <= i < line.len() implies line[i] != '\n' by {
            if i > n {
                assert(line[i] == text[i - n - 1]);
            }
        }
    }
    lemma_split_single(line, '\n');
    let lines = lines_of(line);
    assert(lines == seq![line]);
    assert(!is_rule(line)) by {
        if is_rule(line) {
            assert(line[0] == '-');
        }
    }
    assert(line_kind(line) == LineKind::Tittle);
    let items = seq![BasicItemView::Tittle(TittleView { level: n, tittle: text })];
    assert(with_item(Seq::empty(), block_at(lines, 0)->Ok_0.0) =~= items);
    assert(parse_from(lines, 1, ParserState::Document, Seq::empty(), items) == Ok::<
        Parsed,
        ParseError,
    >(Parsed { state: ParserState::Document, attrs: Seq::empty(), items }));
}

} // verus!
