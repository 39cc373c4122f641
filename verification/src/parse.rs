//! The block-level parser: from the lines of a text to a document.

use vstd::prelude::*;
use crate::elems::document::{Document, DocumentView};
use crate::elems::items::{BasicItem, BasicItemView};
use crate::elems::tittle::{is_tittle_line, tittle_from_chars, tittle_of, Tittle};
use crate::error::ParseError;
use crate::parser::block::{code_block, comment_block, is_rule, is_rule_line, kind_of, latex_block};
use crate::parser::block::{lemma_find_stop, lemma_lines, line_kind, parse_code, parse_comment};
use crate::parser::block::{parse_latex, LineKind, Stop};
use crate::text::lemma_deep_view_concat;
use crate::parser::list::{list_block, parse_list};
use crate::parser::paragraph::{paragraph_block, parse_paragraph, scan_lines, Scans};
use crate::parser::quote::{parse_quote, quote_block};
use crate::parser::table::{parse_table, table_block};
use crate::text::{find_char, index_of, lemma_deep_view_empty, lemma_deep_view_push, lines_of};
use crate::text::{split_lines, string_of, trim, trim_chars, trim_range};

verus! {

/// Where the parser is in a text.
#[derive(Debug, PartialEq, Eq, Clone, Copy, Structural)]
pub enum ParserState {
    /// Before the first line that is not blank.
    Begin,
    /// In the front matter, between its two lines of `---`.
    DocumentAttr,
    /// In the body of the document.
    Document,
}

/// Whether `s` is a title line.
pub fn is_tittle(s: &str) -> (r: bool)
    ensures
        r == is_tittle_line(s@),
{
    Tittle::is(s)
}

/// The title that the line `s` holds.
pub fn parse_tittle(s: &str) -> (r: Result<Tittle, ParseError>)
    ensures
        match r {
            Ok(t) => is_tittle_line(s@) && t@ == tittle_of(s@),
            Err(e) => !is_tittle_line(s@) && e == ParseError::NoTittle,
        },
{
    Tittle::new(s)
}

/// The attribute that the line `t` of the front matter holds: what is
/// before its first `:` and what is after it, each trimmed.
pub open spec fn attr_of(t: Seq<char>) -> Option<(Seq<char>, Seq<char>)> {
    let at = index_of(t, 0, ':');
    if 0 <= at < t.len() {
        Some((trim(t.subrange(0, at)), trim(t.subrange(at + 1, t.len() as int))))
    } else {
        None
    }
}

/// The attribute that the line `t` of the front matter holds.
pub fn parse_attr(t: &Vec<char>) -> (pair: Option<(String, String)>)
    ensures
        pair.deep_view() == attr_of(t@),
{
    let at = find_char(t, 0, ':');
    if at < t.len() {
        let key = trim_range(t, 0, at);
        let value = trim_range(t, at + 1, t.len());
        Some((string_of(&key), string_of(&value)))
    } else {
        None
    }
}

/// The index of the first attribute at or after `from` whose key is `key`,
/// or the number of attributes.
pub open spec fn key_index(attrs: Seq<(Seq<char>, Seq<char>)>, from: int, key: Seq<char>) -> int
    decreases attrs.len() - from,
{
    if 0 <= from < attrs.len() && attrs[from].0 != key {
        key_index(attrs, from + 1, key)
    } else {
        from
    }
}

/// The attributes `attrs` after `key` is written with `value`: the value
/// takes the place of the one that the key had, or the pair is added at
/// the end.
pub open spec fn upsert(attrs: Seq<(Seq<char>, Seq<char>)>, key: Seq<char>, value: Seq<char>) -> Seq<
    (Seq<char>, Seq<char>),
> {
    let at = key_index(attrs, 0, key);
    if 0 <= at < attrs.len() {
        attrs.update(at, (key, value))
    } else {
        attrs.push((key, value))
    }
}

/// The attributes `attrs` after each of `pairs` is written, in order.
pub open spec fn upsert_all(
    attrs: Seq<(Seq<char>, Seq<char>)>,
    pairs: Seq<(Seq<char>, Seq<char>)>,
) -> Seq<(Seq<char>, Seq<char>)>
    decreases pairs.len(),
{
    if pairs.len() == 0 {
        attrs
    } else {
        upsert(upsert_all(attrs, pairs.drop_last()), pairs.last().0, pairs.last().1)
    }
}

/// The value that `attrs` holds for `key`.
pub open spec fn value_of(attrs: Seq<(Seq<char>, Seq<char>)>, key: Seq<char>) -> Option<Seq<char>> {
    let at = key_index(attrs, 0, key);
    if 0 <= at < attrs.len() {
        Some(attrs[at].1)
    } else {
        None
    }
}

/// The value that the last of `pairs` with the key `key` holds.
pub open spec fn last_written(pairs: Seq<(Seq<char>, Seq<char>)>, key: Seq<char>) -> Option<
    Seq<char>,
>
    decreases pairs.len(),
{
    if pairs.len() == 0 {
        None
    } else if pairs.last().0 == key {
        Some(pairs.last().1)
    } else {
        last_written(pairs.drop_last(), key)
    }
}

/// Whether no two of `attrs` have the same key.
pub open spec fn distinct_keys(attrs: Seq<(Seq<char>, Seq<char>)>) -> bool {
    forall|i: int, j: int| 0 <= i < j < attrs.len() ==> attrs[i].0 != attrs[j].0
}

/// The first attribute with a key is found in the attributes, none before it
/// has the key, and it has the key.
pub proof fn lemma_key_index(attrs: Seq<(Seq<char>, Seq<char>)>, from: int, key: Seq<char>)
    requires
        0 <= from <= attrs.len(),
    ensures
        from <= key_index(attrs, from, key) <= attrs.len(),
        forall|k: int| from <= k < key_index(attrs, from, key) ==> attrs[k].0 != key,
        key_index(attrs, from, key) < attrs.len() ==> attrs[key_index(attrs, from, key)].0 == key,
    decreases attrs.len() - from,
{
    if from < attrs.len() && attrs[from].0 != key {
        lemma_key_index(attrs, from + 1, key);
    }
}

/// The first attribute with a key is found by the attributes before it and
/// the attribute at it.
pub proof fn lemma_key_index_is(attrs: Seq<(Seq<char>, Seq<char>)>, from: int, key: Seq<char>, at: int)
    requires
        0 <= from <= at <= attrs.len(),
        forall|k: int| from <= k < at ==> attrs[k].0 != key,
        at < attrs.len() ==> attrs[at].0 == key,
    ensures
        key_index(attrs, from, key) == at,
    decreases at - from,
{
    if from < at {
        lemma_key_index_is(attrs, from + 1, key, at);
    }
}

/// Writes `key` with `value` into `attrs`.
pub fn upsert_attr(attrs: &mut Vec<(String, String)>, key: String, value: String)
    ensures
        final(attrs).deep_view() == upsert(old(attrs).deep_view(), key@, value@),
{
    let mut at: usize = 0;
    while at < attrs.len() && !same_text(&attrs[at].0, &key)
        invariant
            at <= attrs.len(),
            key_index(attrs.deep_view(), 0, key@) == key_index(attrs.deep_view(), at as int, key@),
        decreases attrs.len() - at,
    {
        at += 1;
    }
    let ghost before = *attrs;
    if at < attrs.len() {
        attrs[at] = (key, value);
        proof {
            assert(attrs.deep_view() =~= before.deep_view().update(at as int, (key@, value@)));
        }
    } else {
        attrs.push((key, value));
        proof {
            lemma_deep_view_push(before, *attrs, (key, value));
        }
    }
}

pub(crate) fn same_text(a: &String, b: &String) -> (r: bool)
    ensures
        r == (a@ == b@),
{
    *a == *b
}

/// The block that begins on line `i`, if the line is not blank, and the
/// line after the block.
pub open spec fn block_at(lines: Seq<Seq<char>>, i: int) -> Result<(Option<BasicItemView>, int), ParseError> {
    let t = trim(lines[i]);
    match line_kind(t) {
        LineKind::Blank => Ok((None, i + 1)),
        LineKind::Tittle => Ok((Some(BasicItemView::Tittle(tittle_of(t))), i + 1)),
        LineKind::Fence => some_block(code_block(lines, i)),
        LineKind::HLine => Ok((Some(BasicItemView::HLine), i + 1)),
        LineKind::Comment => some_block(comment_block(lines, i)),
        LineKind::Latex => some_block(Ok(latex_block(lines, i))),
        LineKind::Qoute => some_block(Ok(quote_block(lines, i))),
        LineKind::List => some_block(Ok(list_block(lines, i))),
        LineKind::Table => some_block(table_block(lines, i)),
        LineKind::Text => some_block(paragraph_block(lines, i)),
    }
}

/// A block that holds an item.
pub open spec fn some_block(r: Result<(BasicItemView, int), ParseError>) -> Result<
    (Option<BasicItemView>, int),
    ParseError,
> {
    match r {
        Ok((item, next)) => Ok((Some(item), next)),
        Err(e) => Err(e),
    }
}

/// The block that begins on line `i`, whose trimmed form is `t`.
pub(crate) fn parse_block(lines: &Vec<Vec<char>>, scans: &Scans, i: usize, t: &Vec<char>) -> (r:
    Result<(Option<BasicItem>, usize), ParseError>)
    requires
        i < lines.len(),
        scans.of(lines.deep_view()),
        t@ == trim(lines.deep_view()[i as int]),
    ensures
        match r {
            Ok((item, next)) => block_at(lines.deep_view(), i as int) == Ok::<
                (Option<BasicItemView>, int),
                ParseError,
            >((item.deep_view(), next as int)) && i < next <= lines.len(),
            Err(e) => block_at(lines.deep_view(), i as int) == Err::<
                (Option<BasicItemView>, int),
                ParseError,
            >(e),
        },
{
    match kind_of(t) {
        LineKind::Blank => Ok((None, i + 1)),
        LineKind::Tittle => match tittle_from_chars(t) {
            Some(tittle) => Ok((Some(BasicItem::Tittle(tittle)), i + 1)),
            None => Ok((None, i + 1)),
        },
        LineKind::Fence => match parse_code(lines, i, t) {
            Ok((item, next)) => Ok((Some(item), next)),
            Err(e) => Err(e),
        },
        LineKind::HLine => Ok((Some(BasicItem::HLine), i + 1)),
        LineKind::Comment => match parse_comment(lines, i, t) {
            Ok((item, next)) => Ok((Some(item), next)),
            Err(e) => Err(e),
        },
        LineKind::Latex => {
            let (item, next) = parse_latex(lines, i, t);
            Ok((Some(item), next))
        },
        LineKind::Qoute => {
            let (item, next) = parse_quote(lines, i);
            Ok((Some(item), next))
        },
        LineKind::List => {
            let (item, next) = parse_list(lines, i);
            Ok((Some(item), next))
        },
        LineKind::Table => match parse_table(lines, i) {
            Ok((item, next)) => Ok((Some(item), next)),
            Err(e) => Err(e),
        },
        LineKind::Text => match parse_paragraph(lines, scans, i) {
            Ok((item, next)) => Ok((Some(item), next)),
            Err(e) => Err(e),
        },
    }
}

/// What a parse has read: the state it ended in, the attributes it read in
/// the front matter, in the order written, and the block items it read.
pub struct Parsed {
    pub state: ParserState,
    pub attrs: Seq<(Seq<char>, Seq<char>)>,
    pub items: Seq<BasicItemView>,
}

/// The items `items` and then `item`, where there is one.
pub open spec fn with_item(items: Seq<BasicItemView>, item: Option<BasicItemView>) -> Seq<
    BasicItemView,
> {
    match item {
        Some(x) => items.push(x),
        None => items,
    }
}

/// What the parser reads from line `i` on, in the state `state`, having
/// read `attrs` and `items` before.
///
/// At the beginning, blank lines are passed over, and a line of `---`
/// opens the front matter. In the front matter, a line of `---` closes it
/// and any other line holds an attribute. Every other line begins a block
/// of the body, and the parser goes on after the block.
pub open spec fn parse_from(
    lines: Seq<Seq<char>>,
    i: int,
    state: ParserState,
    attrs: Seq<(Seq<char>, Seq<char>)>,
    items: Seq<BasicItemView>,
) -> Result<Parsed, ParseError>
    decreases lines.len() - i,
    via parse_goes_on
{
    if !(0 <= i < lines.len()) {
        Ok(Parsed { state, attrs, items })
    } else {
        let t = trim(lines[i]);
        if state == ParserState::Begin && is_rule(t) {
            parse_from(lines, i + 1, ParserState::DocumentAttr, attrs, items)
        } else if state == ParserState::Begin && t.len() == 0 {
            parse_from(lines, i + 1, ParserState::Begin, attrs, items)
        } else if state == ParserState::DocumentAttr {
            if is_rule(t) {
                parse_from(lines, i + 1, ParserState::Document, attrs, items)
            } else {
                match attr_of(t) {
                    Some(pair) => parse_from(
                        lines,
                        i + 1,
                        ParserState::DocumentAttr,
                        attrs.push(pair),
                        items,
                    ),
                    None => Err(ParseError::MalformedFrontMatter),
                }
            }
        } else {
            match block_at(lines, i) {
                Ok((item, next)) => parse_from(
                    lines,
                    next,
                    ParserState::Document,
                    attrs,
                    with_item(items, item),
                ),
                Err(e) => Err(e),
            }
        }
    }
}

#[via_fn]
proof fn parse_goes_on(
    lines: Seq<Seq<char>>,
    i: int,
    state: ParserState,
    attrs: Seq<(Seq<char>, Seq<char>)>,
    items: Seq<BasicItemView>,
) {
    if 0 <= i < lines.len() {
        lemma_block_advances(lines, i);
    }
}

/// A block ends after the line that it begins on, and in the text.
pub proof fn lemma_block_advances(lines: Seq<Seq<char>>, i: int)
    requires
        0 <= i < lines.len(),
    ensures
        block_at(lines, i) matches Ok((_, next)) ==> i < next <= lines.len(),
{
    let kind = line_kind(trim(lines[i]));
    lemma_find_stop(lines, i + 1, Stop::FenceClose);
    lemma_find_stop(lines, i + 1, Stop::CommentClose);
    lemma_find_stop(lines, i + 1, Stop::LatexClose);
    lemma_find_stop(lines, i, Stop::Other(kind));
}

/// What the parser reads from the text `text` in the state `state`.
pub open spec fn parse_text(text: Seq<char>, state: ParserState) -> Result<Parsed, ParseError> {
    parse_from(lines_of(text), 0, state, Seq::empty(), Seq::empty())
}

/// A parser of Markdown text: the state it is in and the document read so
/// far.
#[derive(Debug)]
pub struct MarkdownParser {
    state: ParserState,
    document: Document,
}

impl Default for MarkdownParser {
    fn default() -> (parser: Self)
        ensures
            parser.state() == ParserState::Begin,
            parser.read().attrs.len() == 0,
            parser.read().items.len() == 0,
    {
        Self { state: ParserState::Begin, document: Document::default() }
    }
}

impl MarkdownParser {
    /// The state that the parser is in.
    pub closed spec fn state(&self) -> ParserState {
        self.state
    }

    /// The document read so far.
    pub closed spec fn read(&self) -> DocumentView {
        self.document@
    }

    /// Reads the text `text`, line by line, into the document.
    ///
    /// The items read are added after those read before, and each
    /// attribute read is written into the attributes read before. Where
    /// the text cannot be read, the parser is left as it was.
    pub fn parse_markdown(&mut self, text: &str) -> (r: Result<(), ParseError>)
        ensures
            match parse_text(text@, old(self).state()) {
                Ok(parsed) => r is Ok && final(self).state() == parsed.state && final(self).read()
                    == (DocumentView {
                    attrs: upsert_all(old(self).read().attrs, parsed.attrs),
                    items: old(self).read().items + parsed.items,
                }),
                Err(e) => r == Err::<(), ParseError>(e) && final(self).state() == old(self).state()
                    && final(self).read() == old(self).read(),
            },
    {
        let lines = split_lines(text);
        let scans = scan_lines(&lines);
        let mut state = self.state;
        let mut attrs: Vec<(String, String)> = Vec::new();
        let mut items: Vec<BasicItem> = Vec::new();
        proof {
            lemma_lines(lines);
            lemma_deep_view_empty(attrs);
            lemma_deep_view_empty(items);
        }
        let mut i: usize = 0;
        while i < lines.len()
            invariant
                i <= lines.len(),
                scans.of(lines.deep_view()),
                lines.deep_view().len() == lines.len(),
                forall|k: int|
                    0 <= k < lines.len() ==> #[trigger] lines.deep_view()[k] == lines@[k]@,
                parse_text(text@, old(self).state()) == parse_from(
                    lines.deep_view(),
                    i as int,
                    state,
                    attrs.deep_view(),
                    items.deep_view(),
                ),
                *self == *old(self),
            decreases lines.len() - i,
        {
            let t = trim_chars(&lines[i]);
            if is_state(state, ParserState::Begin) && is_rule_line(&t) {
                state = ParserState::DocumentAttr;
                i += 1;
            } else if is_state(state, ParserState::Begin) && t.len() == 0 {
                i += 1;
            } else if is_state(state, ParserState::DocumentAttr) {
                if is_rule_line(&t) {
                    state = ParserState::Document;
                } else {
                    match parse_attr(&t) {
                        Some(pair) => {
                            let ghost before = attrs;
                            attrs.push(pair);
                            proof {
                                lemma_deep_view_push(before, attrs, pair);
                            }
                        },
                        None => {
                            return Err(ParseError::MalformedFrontMatter);
                        },
                    }
                }
                i += 1;
            } else {
                match parse_block(&lines, &scans, i, &t) {
                    Ok((item, next)) => {
                        match item {
                            Some(x) => {
                                let ghost before = items;
                                items.push(x);
                                proof {
                                    lemma_deep_view_push(before, items, x);
                                }
                            },
                            None => {},
                        }
                        state = ParserState::Document;
                        i = next;
                    },
                    Err(e) => {
                        return Err(e);
                    },
                }
            }
        }
        self.state = state;
        write_all(&mut self.document.attrs, &attrs);
        let ghost front = self.document.items;
        let ghost back = items;
        self.document.items.append(&mut items);
        proof {
            lemma_deep_view_concat(self.document.items, front, back);
        }
        Ok(())
    }

    /// The document read.
    pub fn document(self) -> (doc: Document)
        ensures
            doc@ == self.read(),
    {
        self.document
    }
}

fn is_state(a: ParserState, b: ParserState) -> (r: bool)
    ensures
        r == (a == b),
{
    a == b
}

/// Writes each of `pairs` into `attrs`, in order.
pub fn write_all(attrs: &mut Vec<(String, String)>, pairs: &Vec<(String, String)>)
    ensures
        final(attrs).deep_view() == upsert_all(old(attrs).deep_view(), pairs.deep_view()),
{
    let mut k: usize = 0;
    proof {
        assert(pairs.deep_view().take(0).len() == 0);
    }
    while k < pairs.len()
        invariant
            k <= pairs.len(),
            attrs.deep_view() == upsert_all(old(attrs).deep_view(), pairs.deep_view().take(k as int)),
        decreases pairs.len() - k,
    {
        let key = pairs[k].0.clone();
        let value = pairs[k].1.clone();
        proof {
            let now = pairs.deep_view().take(k + 1);
            assert(now.drop_last() =~= pairs.deep_view().take(k as int));
            assert(now.last() == (key@, value@));
        }
        upsert_attr(attrs, key, value);
        k += 1;
    }
    proof {
        assert(pairs.deep_view().take(pairs.len() as int) =~= pairs.deep_view());
    }
}

} // verus!
