//! Lines and the blocks that need no more than their own lines: code,
//! comments, display math.

use vstd::prelude::*;
use crate::elems::items::{BasicItem, BasicItemView, Code, CodeView, ListKind};
use crate::elems::tittle::is_tittle_line;
use crate::error::ParseError;
use crate::text::{copy_range, count_run, is_digit, is_digit_char, lemma_chars_deep_view};
use crate::text::{lemma_deep_view_empty, lemma_deep_view_push, string_of, trim, trim_chars};
use crate::text::{index_of, lemma_index_of, lemma_split_nonempty, lemma_trim_is_tight, split};
use crate::text::trim_range;

verus! {

/// What a line is, by how its trimmed form begins.
#[derive(Debug, PartialEq, Eq, Clone, Copy, Structural)]
pub enum LineKind {
    /// Nothing but white space.
    Blank,
    /// `#` characters and a space.
    Tittle,
    /// Three backticks.
    Fence,
    /// Exactly `---`.
    HLine,
    /// `<!--`.
    Comment,
    /// `$$` alone, or `$$` at both ends.
    Latex,
    /// `>`.
    Qoute,
    /// A list marker and a space.
    List,
    /// `|`.
    Table,
    /// Anything else.
    Text,
}

/// Whether `t` begins with three backticks.
pub open spec fn is_fence(t: Seq<char>) -> bool {
    t.len() >= 3 && t[0] == '`' && t[1] == '`' && t[2] == '`'
}

/// Whether `t` is exactly three backticks.
pub open spec fn is_fence_close(t: Seq<char>) -> bool {
    t.len() == 3 && is_fence(t)
}

/// Whether `t` is exactly `---`.
pub open spec fn is_rule(t: Seq<char>) -> bool {
    t.len() == 3 && t[0] == '-' && t[1] == '-' && t[2] == '-'
}

/// Whether `t` begins with `<!--`.
pub open spec fn opens_comment(t: Seq<char>) -> bool {
    t.len() >= 4 && t[0] == '<' && t[1] == '!' && t[2] == '-' && t[3] == '-'
}

/// Whether `t` ends with `-->`.
pub open spec fn ends_comment(t: Seq<char>) -> bool {
    t.len() >= 3 && t[t.len() - 3] == '-' && t[t.len() - 2] == '-' && t[t.len() - 1] == '>'
}

/// Whether `t` is exactly `$$`.
pub open spec fn is_latex_fence(t: Seq<char>) -> bool {
    t.len() == 2 && t[0] == '$' && t[1] == '$'
}

/// Whether `t` holds display math on one line: `$$` at both ends.
pub open spec fn is_latex_line(t: Seq<char>) -> bool {
    t.len() >= 4 && t[0] == '$' && t[1] == '$' && t[t.len() - 2] == '$' && t[t.len() - 1] == '$'
}

/// The index of the first character of `t` at or after `from` that is no
/// digit, or the length of `t`.
pub open spec fn digits_end(t: Seq<char>, from: int) -> int
    decreases t.len() - from,
{
    if 0 <= from < t.len() && is_digit(t[from]) {
        digits_end(t, from + 1)
    } else {
        from
    }
}

/// The list marker that `t` begins with, and where the text after it
/// starts: `+`, `-` or `*` and a space, or digits, `.` and a space.
pub open spec fn list_marker(t: Seq<char>) -> Option<(ListKind, int)> {
    let d = digits_end(t, 0);
    if t.len() >= 2 && t[1] == ' ' && t[0] == '+' {
        Some((ListKind::Plus, 2))
    } else if t.len() >= 2 && t[1] == ' ' && t[0] == '-' {
        Some((ListKind::Dash, 2))
    } else if t.len() >= 2 && t[1] == ' ' && t[0] == '*' {
        Some((ListKind::Star, 2))
    } else if 1 <= d && d + 1 < t.len() && t[d] == '.' && t[d + 1] == ' ' {
        Some((ListKind::Ordered, d + 2))
    } else {
        None
    }
}

/// What the trimmed line `t` is. Where a line could be two things, it is
/// the one that stands first in `LineKind`.
pub open spec fn line_kind(t: Seq<char>) -> LineKind {
    if t.len() == 0 {
        LineKind::Blank
    } else if is_tittle_line(t) {
        LineKind::Tittle
    } else if is_fence(t) {
        LineKind::Fence
    } else if is_rule(t) {
        LineKind::HLine
    } else if opens_comment(t) {
        LineKind::Comment
    } else if is_latex_fence(t) || is_latex_line(t) {
        LineKind::Latex
    } else if t[0] == '>' {
        LineKind::Qoute
    } else if list_marker(t) is Some {
        LineKind::List
    } else if t[0] == '|' {
        LineKind::Table
    } else {
        LineKind::Text
    }
}

/// Whether `t` begins with three backticks.
pub fn is_fence_line(t: &Vec<char>) -> (r: bool)
    ensures
        r == is_fence(t@),
{
    t.len() >= 3 && t[0] == '`' && t[1] == '`' && t[2] == '`'
}

/// Whether `t` is exactly `---`.
pub fn is_rule_line(t: &Vec<char>) -> (r: bool)
    ensures
        r == is_rule(t@),
{
    t.len() == 3 && t[0] == '-' && t[1] == '-' && t[2] == '-'
}

/// Whether `t` begins with `<!--`.
pub fn is_comment_open(t: &Vec<char>) -> (r: bool)
    ensures
        r == opens_comment(t@),
{
    t.len() >= 4 && t[0] == '<' && t[1] == '!' && t[2] == '-' && t[3] == '-'
}

/// Whether `t` ends with `-->`.
pub fn is_comment_end(t: &Vec<char>) -> (r: bool)
    ensures
        r == ends_comment(t@),
{
    let n: usize = t.len();
    n >= 3 && t[n - 3] == '-' && t[n - 2] == '-' && t[n - 1] == '>'
}

/// Whether `t` is exactly `$$`.
pub fn is_latex_fence_line(t: &Vec<char>) -> (r: bool)
    ensures
        r == is_latex_fence(t@),
{
    t.len() == 2 && t[0] == '$' && t[1] == '$'
}

/// Whether `t` holds display math on one line.
pub fn is_latex_one_line(t: &Vec<char>) -> (r: bool)
    ensures
        r == is_latex_line(t@),
{
    let n: usize = t.len();
    n >= 4 && t[0] == '$' && t[1] == '$' && t[n - 2] == '$' && t[n - 1] == '$'
}

/// The index of the first character of `t` at or after `from` that is no
/// digit, or the length of `t`.
pub(crate) fn count_digits(t: &Vec<char>, from: usize) -> (end: usize)
    requires
        from <= t.len(),
    ensures
        end == digits_end(t@, from as int),
        from <= end <= t.len(),
{
    let mut i: usize = from;
    while i < t.len() && is_digit_char(t[i])
        invariant
            from <= i <= t.len(),
            digits_end(t@, from as int) == digits_end(t@, i as int),
        decreases t.len() - i,
    {
        i += 1;
    }
    i
}

/// The list marker that `t` begins with, and where the text after it
/// starts.
pub fn list_marker_of(t: &Vec<char>) -> (m: Option<(ListKind, usize)>)
    ensures
        match m {
            Some((kind, at)) => list_marker(t@) == Some((kind, at as int)) && 2 <= at <= t.len(),
            None => list_marker(t@) is None,
        },
{
    let n: usize = t.len();
    let d = count_digits(t, 0);
    if n >= 2 && t[1] == ' ' && t[0] == '+' {
        Some((ListKind::Plus, 2))
    } else if n >= 2 && t[1] == ' ' && t[0] == '-' {
        Some((ListKind::Dash, 2))
    } else if n >= 2 && t[1] == ' ' && t[0] == '*' {
        Some((ListKind::Star, 2))
    } else if 1 <= d && d < n - 1 && t[d] == '.' && t[d + 1] == ' ' {
        Some((ListKind::Ordered, d + 2))
    } else {
        None
    }
}

/// What the trimmed line `t` is.
pub fn kind_of(t: &Vec<char>) -> (kind: LineKind)
    ensures
        kind == line_kind(t@),
{
    if t.len() == 0 {
        return LineKind::Blank;
    }
    let hashes = count_run(t, 0, '#');
    if hashes >= 1 && hashes < t.len() && t[hashes] == ' ' {
        LineKind::Tittle
    } else if is_fence_line(t) {
        LineKind::Fence
    } else if is_rule_line(t) {
        LineKind::HLine
    } else if is_comment_open(t) {
        LineKind::Comment
    } else if is_latex_fence_line(t) || is_latex_one_line(t) {
        LineKind::Latex
    } else if t[0] == '>' {
        LineKind::Qoute
    } else if list_marker_of(t).is_some() {
        LineKind::List
    } else if t[0] == '|' {
        LineKind::Table
    } else {
        LineKind::Text
    }
}

/// What ends a block of several lines.
#[derive(Debug, PartialEq, Eq, Clone, Copy, Structural)]
pub enum Stop {
    /// A line of exactly three backticks.
    FenceClose,
    /// A line that ends with `-->`.
    CommentClose,
    /// A line of exactly `$$`.
    LatexClose,
    /// A line of another kind than the given one.
    Other(LineKind),
}

/// Whether the trimmed line `t` is what `stop` asks for.
pub open spec fn stops(stop: Stop, t: Seq<char>) -> bool {
    match stop {
        Stop::FenceClose => is_fence_close(t),
        Stop::CommentClose => ends_comment(t),
        Stop::LatexClose => is_latex_fence(t),
        Stop::Other(kind) => line_kind(t) != kind,
    }
}

/// The index of the first line at or after `from` whose trimmed form is
/// what `stop` asks for, or the number of lines.
pub open spec fn find_stop(lines: Seq<Seq<char>>, from: int, stop: Stop) -> int
    decreases lines.len() - from,
{
    if 0 <= from < lines.len() && !stops(stop, trim(lines[from])) {
        find_stop(lines, from + 1, stop)
    } else {
        from
    }
}

/// A stop is found at or after where the search begins; no line before it
/// is what the stop asks for, and the line at it is.
pub proof fn lemma_find_stop(lines: Seq<Seq<char>>, from: int, stop: Stop)
    requires
        0 <= from <= lines.len(),
    ensures
        from <= find_stop(lines, from, stop) <= lines.len(),
        forall|k: int|
            from <= k < find_stop(lines, from, stop) ==> !stops(stop, #[trigger] trim(lines[k])),
        find_stop(lines, from, stop) < lines.len() ==> stops(
            stop,
            trim(lines[find_stop(lines, from, stop)]),
        ),
    decreases lines.len() - from,
{
    if from < lines.len() && !stops(stop, trim(lines[from])) {
        lemma_find_stop(lines, from + 1, stop);
    }
}

/// The deep view of a vector of lines holds the view of each line.
pub proof fn lemma_lines(lines: Vec<Vec<char>>)
    ensures
        lines.deep_view().len() == lines.len(),
        forall|i: int| 0 <= i < lines.len() ==> #[trigger] lines.deep_view()[i] == lines@[i]@,
{
    assert forall|i: int| 0 <= i < lines.len() implies #[trigger] lines.deep_view()[i]
        == lines@[i]@ by {
        lemma_chars_deep_view(lines@[i]);
    }
}

pub(crate) fn is_stop(stop: Stop, t: &Vec<char>) -> (r: bool)
    ensures
        r == stops(stop, t@),
{
    match stop {
        Stop::FenceClose => t.len() == 3 && is_fence_line(t),
        Stop::CommentClose => is_comment_end(t),
        Stop::LatexClose => is_latex_fence_line(t),
        Stop::Other(kind) => {
            let found = kind_of(t);
            !same_kind(found, kind)
        },
    }
}

/// Whether two line kinds are the same.
pub fn same_kind(a: LineKind, b: LineKind) -> (r: bool)
    ensures
        r == (a == b),
{
    a == b
}

/// The index of the first line at or after `from` whose trimmed form is
/// what `stop` asks for, or the number of lines.
pub(crate) fn find_stop_line(lines: &Vec<Vec<char>>, from: usize, stop: Stop) -> (at: usize)
    requires
        from <= lines.len(),
    ensures
        at == find_stop(lines.deep_view(), from as int, stop),
        from <= at <= lines.len(),
{
    proof {
        lemma_lines(*lines);
    }
    let mut i: usize = from;
    while i < lines.len()
        invariant
            from <= i <= lines.len(),
            lines.deep_view().len() == lines.len(),
            forall|k: int| 0 <= k < lines.len() ==> #[trigger] lines.deep_view()[k] == lines@[k]@,
            find_stop(lines.deep_view(), from as int, stop) == find_stop(
                lines.deep_view(),
                i as int,
                stop,
            ),
        decreases lines.len() - i,
    {
        let t = trim_chars(&lines[i]);
        if is_stop(stop, &t) {
            return i;
        }
        i += 1;
    }
    i
}

/// The lines `ls` in a row, with a line feed between each two.
pub open spec fn join_lines(ls: Seq<Seq<char>>) -> Seq<char>
    decreases ls.len(),
{
    if ls.len() == 0 {
        Seq::empty()
    } else if ls.len() == 1 {
        ls[0]
    } else {
        join_lines(ls.drop_last()) + seq!['\n'] + ls.last()
    }
}

/// The lines from `lo` up to `hi` in a row, with a line feed between each
/// two.
pub(crate) fn join_range(lines: &Vec<Vec<char>>, lo: usize, hi: usize) -> (out: Vec<char>)
    requires
        lo <= hi <= lines.len(),
    ensures
        out@ == join_lines(lines.deep_view().subrange(lo as int, hi as int)),
{
    proof {
        lemma_lines(*lines);
    }
    let mut out: Vec<char> = Vec::new();
    let mut i: usize = lo;
    while i < hi
        invariant
            lo <= i <= hi <= lines.len(),
            lines.deep_view().len() == lines.len(),
            forall|k: int| 0 <= k < lines.len() ==> #[trigger] lines.deep_view()[k] == lines@[k]@,
            out@ == join_lines(lines.deep_view().subrange(lo as int, i as int)),
        decreases hi - i,
    {
        let ghost before = lines.deep_view().subrange(lo as int, i as int);
        let ghost after = lines.deep_view().subrange(lo as int, i + 1);
        proof {
            assert(after.drop_last() =~= before);
            assert(after.last() == lines@[i as int]@);
        }
        if i > lo {
            out.push('\n');
        }
        let line = &lines[i];
        let mut j: usize = 0;
        let ghost head = out@;
        while j < line.len()
            invariant
                j <= line.len(),
                out@ == head + line@.take(j as int),
            decreases line.len() - j,
        {
            out.push(line[j]);
            j += 1;
            assert(out@ =~= head + line@.take(j as int));
        }
        proof {
            assert(line@.take(line.len() as int) =~= line@);
            if i > lo {
                assert(out@ =~= join_lines(before) + seq!['\n'] + line@);
            } else {
                assert(before.len() == 0);
                assert(out@ =~= line@);
            }
        }
        i += 1;
    }
    out
}

/// The block of code that the fence on line `i` opens: the trimmed rest of
/// the opening line, and the lines up to the closing fence as they are.
/// The next line is the one after the closing fence.
pub open spec fn code_block(lines: Seq<Seq<char>>, i: int) -> Result<(BasicItemView, int), ParseError> {
    let t = trim(lines[i]);
    let close = find_stop(lines, i + 1, Stop::FenceClose);
    if close < lines.len() {
        Ok(
            (
                BasicItemView::Code(
                    CodeView {
                        attr: trim(t.subrange(3, t.len() as int)),
                        content: join_lines(lines.subrange(i + 1, close)),
                    },
                ),
                close + 1,
            ),
        )
    } else {
        Err(ParseError::UnterminatedCodeBlock)
    }
}

/// The block of code that the fence on line `i` opens.
pub(crate) fn parse_code(lines: &Vec<Vec<char>>, i: usize, t: &Vec<char>) -> (r: Result<
    (BasicItem, usize),
    ParseError,
>)
    requires
        i < lines.len(),
        t@ == trim(lines.deep_view()[i as int]),
        is_fence(t@),
    ensures
        match r {
            Ok((item, next)) => code_block(lines.deep_view(), i as int) == Ok::<
                (BasicItemView, int),
                ParseError,
            >((item@, next as int)) && i < next <= lines.len(),
            Err(e) => code_block(lines.deep_view(), i as int) == Err::<
                (BasicItemView, int),
                ParseError,
            >(e),
        },
{
    let close = find_stop_line(lines, i + 1, Stop::FenceClose);
    if close < lines.len() {
        let attr = trim_range(t, 3, t.len());
        let content = join_range(lines, i + 1, close);
        Ok(
            (
                BasicItem::Code(Code { attr: string_of(&attr), content: string_of(&content) }),
                close + 1,
            ),
        )
    } else {
        Err(ParseError::UnterminatedCodeBlock)
    }
}

/// The comment that line `i` opens. Closed on its own line, it is what is
/// between `<!--` and `-->`, trimmed. Else it runs to the first later line
/// that ends with `-->`: the rest of the opening line, the lines between
/// as they are, and the closing line without `-->`, trimmed as a whole.
pub open spec fn comment_block(lines: Seq<Seq<char>>, i: int) -> Result<
    (BasicItemView, int),
    ParseError,
> {
    let t = trim(lines[i]);
    let rest = t.subrange(4, t.len() as int);
    if ends_comment(rest) {
        Ok((BasicItemView::Comment(trim(rest.subrange(0, rest.len() - 3))), i + 1))
    } else {
        let close = find_stop(lines, i + 1, Stop::CommentClose);
        if close < lines.len() {
            let last = trim(lines[close]);
            let body = seq![rest] + lines.subrange(i + 1, close) + seq![
                last.subrange(0, last.len() - 3),
            ];
            Ok((BasicItemView::Comment(trim(join_lines(body))), close + 1))
        } else {
            Err(ParseError::UnterminatedComment)
        }
    }
}

/// The comment that line `i` opens.
pub(crate) fn parse_comment(lines: &Vec<Vec<char>>, i: usize, t: &Vec<char>) -> (r: Result<
    (BasicItem, usize),
    ParseError,
>)
    requires
        i < lines.len(),
        t@ == trim(lines.deep_view()[i as int]),
        opens_comment(t@),
    ensures
        match r {
            Ok((item, next)) => comment_block(lines.deep_view(), i as int) == Ok::<
                (BasicItemView, int),
                ParseError,
            >((item@, next as int)) && i < next <= lines.len(),
            Err(e) => comment_block(lines.deep_view(), i as int) == Err::<
                (BasicItemView, int),
                ParseError,
            >(e),
        },
{
    proof {
        lemma_lines(*lines);
    }
    let rest = copy_range(t, 4, t.len());
    if is_comment_end(&rest) {
        let text = trim_range(&rest, 0, rest.len() - 3);
        return Ok((BasicItem::Comment(string_of(&text)), i + 1));
    }
    let close = find_stop_line(lines, i + 1, Stop::CommentClose);
    if close >= lines.len() {
        return Err(ParseError::UnterminatedComment);
    }
    proof {
        lemma_find_stop(lines.deep_view(), i + 1, Stop::CommentClose);
    }
    let last = trim_chars(&lines[close]);
    let mut body: Vec<Vec<char>> = Vec::new();
    proof {
        lemma_deep_view_empty(body);
    }
    let ghost b0 = body;
    body.push(rest);
    proof {
        lemma_deep_view_push(b0, body, rest);
        lemma_chars_deep_view(rest);
        assert(body.deep_view() =~= seq![rest@]);
    }
    let mut j: usize = i + 1;
    while j < close
        invariant
            i + 1 <= j <= close < lines.len(),
            lines.deep_view().len() == lines.len(),
            forall|k: int| 0 <= k < lines.len() ==> #[trigger] lines.deep_view()[k] == lines@[k]@,
            body.deep_view() == seq![rest@] + lines.deep_view().subrange(i + 1, j as int),
        decreases close - j,
    {
        let ghost before = body;
        let line = copy_range(&lines[j], 0, lines[j].len());
        body.push(line);
        proof {
            lemma_deep_view_push(before, body, line);
            lemma_chars_deep_view(line);
            assert(line@ =~= lines@[j as int]@);
            assert(body.deep_view() =~= seq![rest@] + lines.deep_view().subrange(i + 1, j + 1));
        }
        j += 1;
    }
    let tail = copy_range(&last, 0, last.len() - 3);
    let ghost before = body;
    body.push(tail);
    proof {
        lemma_deep_view_push(before, body, tail);
        lemma_chars_deep_view(tail);
        lemma_lines(body);
        assert(body.deep_view().subrange(0, body.len() as int) =~= body.deep_view());
        assert(last@ == trim(lines.deep_view()[close as int]));
        assert(body.deep_view() =~= seq![rest@] + lines.deep_view().subrange(i + 1, close as int)
            + seq![last@.subrange(0, last@.len() - 3)]);
    }
    let joined = join_range(&body, 0, body.len());
    let text = trim_chars(&joined);
    Ok((BasicItem::Comment(string_of(&text)), close + 1))
}

/// The display math that line `i` holds or opens. On one line, it is what
/// is between the two `$$`, trimmed. Else it is the lines up to the next
/// line of `$$`, or up to the end of the text, as they are.
pub open spec fn latex_block(lines: Seq<Seq<char>>, i: int) -> (BasicItemView, int) {
    let t = trim(lines[i]);
    if is_latex_line(t) {
        (BasicItemView::Latex(trim(t.subrange(2, t.len() - 2))), i + 1)
    } else {
        let close = find_stop(lines, i + 1, Stop::LatexClose);
        (
            BasicItemView::Latex(join_lines(lines.subrange(i + 1, close))),
            if close < lines.len() {
                close + 1
            } else {
                close
            },
        )
    }
}

/// The display math that line `i` holds or opens.
pub(crate) fn parse_latex(lines: &Vec<Vec<char>>, i: usize, t: &Vec<char>) -> (r: (BasicItem, usize))
    requires
        i < lines.len(),
        t@ == trim(lines.deep_view()[i as int]),
        is_latex_fence(t@) || is_latex_line(t@),
    ensures
        latex_block(lines.deep_view(), i as int) == (r.0@, r.1 as int),
        i < r.1 <= lines.len(),
{
    if is_latex_one_line(t) {
        let text = trim_range(t, 2, t.len() - 2);
        (BasicItem::Latex(string_of(&text)), i + 1)
    } else {
        let close = find_stop_line(lines, i + 1, Stop::LatexClose);
        let content = join_range(lines, i + 1, close);
        let next: usize = if close < lines.len() {
            close + 1
        } else {
            close
        };
        (BasicItem::Latex(string_of(&content)), next)
    }
}

/// A stop is found by the lines before it and the line at it.
pub proof fn lemma_find_stop_is(lines: Seq<Seq<char>>, from: int, stop: Stop, at: int)
    requires
        0 <= from <= at <= lines.len(),
        forall|k: int| from <= k < at ==> !stops(stop, #[trigger] trim(lines[k])),
        at < lines.len() ==> stops(stop, trim(lines[at])),
    ensures
        find_stop(lines, from, stop) == at,
    decreases at - from,
{
    if from < at {
        assert(!stops(stop, trim(lines[from])));
        lemma_find_stop_is(lines, from + 1, stop, at);
    }
}

/// A line in front of lines joins them after itself and a line feed.
pub proof fn lemma_join_cons(first: Seq<char>, rest: Seq<Seq<char>>)
    requires
        rest.len() >= 1,
    ensures
        join_lines(seq![first] + rest) == first + seq!['\n'] + join_lines(rest),
    decreases rest.len(),
{
    let whole = seq![first] + rest;
    assert(whole.last() == rest.last());
    if rest.len() == 1 {
        assert(whole.drop_last() =~= seq![first]);
        assert(join_lines(seq![first]) == first);
        assert(join_lines(rest) == rest[0]);
        assert(join_lines(whole) == join_lines(whole.drop_last()) + seq!['\n'] + whole.last());
    } else {
        assert(whole.drop_last() =~= seq![first] + rest.drop_last());
        lemma_join_cons(first, rest.drop_last());
        assert(join_lines(whole) == join_lines(whole.drop_last()) + seq!['\n'] + whole.last());
        assert(join_lines(rest) == join_lines(rest.drop_last()) + seq!['\n'] + rest.last());
        assert(join_lines(whole) =~= first + seq!['\n'] + join_lines(rest));
    }
}

/// The lines of a text, joined, are the text.
pub proof fn lemma_join_split(text: Seq<char>)
    ensures
        join_lines(split(text, '\n')) == text,
    decreases text.len(),
{
    let k = index_of(text, 0, '\n');
    lemma_index_of(text, 0, '\n');
    if 0 <= k < text.len() {
        let rest = text.subrange(k + 1, text.len() as int);
        lemma_join_split(rest);
        lemma_split_nonempty(rest, '\n');
        lemma_join_cons(text.subrange(0, k), split(rest, '\n'));
        assert(text.subrange(0, k) + seq!['\n'] + rest =~= text);
    }
}

/// A line without characters is blank.
pub proof fn lemma_blank(line: Seq<char>)
    requires
        line.len() == 0,
    ensures
        trim(line).len() == 0,
        line_kind(trim(line)) == LineKind::Blank,
{
    lemma_trim_is_tight(line);
}

} // verus!
