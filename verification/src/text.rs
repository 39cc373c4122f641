//! Characters, lines and strings: the plain-text layer under both parsers.

use vstd::prelude::*;
use vstd::string::StringSliceAdditionalSpecFns;
use vstd::utf8::{decode_utf8, encode_utf8, is_char_boundary, is_continuation_byte};

verus! {

/// `String::push` appends one character.
pub assume_specification[ String::push ](s: &mut String, ch: char)
    ensures
        final(s)@ == old(s)@.push(ch),
;

/// Whether `c` is white space: one of the characters that Unicode calls
/// `White_Space`.
pub open spec fn is_space(c: char) -> bool {
    let u = c as u32;
    (0x09 <= u <= 0x0D) || u == 0x20 || u == 0x85 || u == 0xA0 || u == 0x1680 || (0x2000 <= u
        <= 0x200A) || u == 0x2028 || u == 0x2029 || u == 0x202F || u == 0x205F || u == 0x3000
}

/// Whether `c` is white space.
pub fn is_space_char(c: char) -> (r: bool)
    ensures
        r == is_space(c),
{
    let u: u32 = c as u32;
    (0x09 <= u && u <= 0x0D) || u == 0x20 || u == 0x85 || u == 0xA0 || u == 0x1680 || (0x2000 <= u
        && u <= 0x200A) || u == 0x2028 || u == 0x2029 || u == 0x202F || u == 0x205F || u == 0x3000
}

/// Whether `c` is one of the decimal digits `0` to `9`.
pub open spec fn is_digit(c: char) -> bool {
    '0' <= c <= '9'
}

/// Whether `c` is one of the decimal digits `0` to `9`.
pub fn is_digit_char(c: char) -> (r: bool)
    ensures
        r == is_digit(c),
{
    let u: u32 = c as u32;
    0x30 <= u && u <= 0x39
}

/// The index of the first character at or after `from` that is not `c`, or
/// the length of `s` where every later character is `c`.
pub open spec fn run_end(s: Seq<char>, from: int, c: char) -> int
    decreases s.len() - from,
{
    if 0 <= from < s.len() && s[from] == c {
        run_end(s, from + 1, c)
    } else {
        from
    }
}

/// A run ends at or after where it begins: every character in it is `c`, and
/// the one after it, where there is one, is not.
pub proof fn lemma_run_end(s: Seq<char>, from: int, c: char)
    requires
        0 <= from <= s.len(),
    ensures
        from <= run_end(s, from, c) <= s.len(),
        forall|k: int| from <= k < run_end(s, from, c) ==> s[k] == c,
        run_end(s, from, c) < s.len() ==> s[run_end(s, from, c)] != c,
    decreases s.len() - from,
{
    if from < s.len() && s[from] == c {
        lemma_run_end(s, from + 1, c);
    }
}

/// A run is found by its two ends: every character in it is `c`, and the
/// one after it, where there is one, is not.
pub proof fn lemma_run_end_is(s: Seq<char>, from: int, c: char, end: int)
    requires
        0 <= from <= end <= s.len(),
        forall|k: int| from <= k < end ==> s[k] == c,
        end < s.len() ==> s[end] != c,
    ensures
        run_end(s, from, c) == end,
    decreases end - from,
{
    if from < end {
        lemma_run_end_is(s, from + 1, c, end);
    }
}

/// The index of the first character of `v` at or after `from` that is not
/// `c`, or the length of `v`.
pub fn count_run(v: &Vec<char>, from: usize, c: char) -> (end: usize)
    requires
        from <= v.len(),
    ensures
        end == run_end(v@, from as int, c),
        from <= end <= v.len(),
{
    let mut i: usize = from;
    while i < v.len() && v[i] == c
        invariant
            from <= i <= v.len(),
            run_end(v@, from as int, c) == run_end(v@, i as int, c),
        decreases v.len() - i,
    {
        i += 1;
    }
    proof {
        lemma_run_end(v@, i as int, c);
    }
    i
}

/// The index of the first occurrence of `c` at or after `from`, or the
/// length of `s` where there is none.
pub open spec fn index_of(s: Seq<char>, from: int, c: char) -> int
    decreases s.len() - from,
{
    if 0 <= from < s.len() && s[from] != c {
        index_of(s, from + 1, c)
    } else {
        from
    }
}

/// The first occurrence of `c` is at or after where the search begins: no
/// character before it is `c`, and the one at it is.
pub proof fn lemma_index_of(s: Seq<char>, from: int, c: char)
    requires
        0 <= from <= s.len(),
    ensures
        from <= index_of(s, from, c) <= s.len(),
        forall|k: int| from <= k < index_of(s, from, c) ==> s[k] != c,
        index_of(s, from, c) < s.len() ==> s[index_of(s, from, c)] == c,
    decreases s.len() - from,
{
    if from < s.len() && s[from] != c {
        lemma_index_of(s, from + 1, c);
    }
}

/// The first occurrence of `c` is found by the characters before it and the
/// character at it.
pub proof fn lemma_index_of_is(s: Seq<char>, from: int, c: char, at: int)
    requires
        0 <= from <= at <= s.len(),
        forall|k: int| from <= k < at ==> s[k] != c,
        at < s.len() ==> s[at] == c,
    ensures
        index_of(s, from, c) == at,
    decreases at - from,
{
    if from < at {
        lemma_index_of_is(s, from + 1, c, at);
    }
}

/// The index of the first occurrence of `c` in `v` at or after `from`, or the
/// length of `v` where there is none.
pub fn find_char(v: &Vec<char>, from: usize, c: char) -> (at: usize)
    requires
        from <= v.len(),
    ensures
        at == index_of(v@, from as int, c),
        from <= at <= v.len(),
{
    let mut i: usize = from;
    while i < v.len() && v[i] != c
        invariant
            from <= i <= v.len(),
            index_of(v@, from as int, c) == index_of(v@, i as int, c),
        decreases v.len() - i,
    {
        i += 1;
    }
    proof {
        lemma_index_of(v@, i as int, c);
    }
    i
}

/// The index of the first character at or after `from` that is not white
/// space, or the length of `s`.
pub open spec fn skip_space(s: Seq<char>, from: int) -> int
    decreases s.len() - from,
{
    if 0 <= from < s.len() && is_space(s[from]) {
        skip_space(s, from + 1)
    } else {
        from
    }
}

/// The end of `s` without its trailing white space, never below `floor`.
pub open spec fn back_space(s: Seq<char>, floor: int, end: int) -> int
    decreases end - floor,
{
    if floor < end <= s.len() && is_space(s[end - 1]) {
        back_space(s, floor, end - 1)
    } else {
        end
    }
}

/// White space is skipped up to a character that is none, or to the end.
pub proof fn lemma_skip_space(s: Seq<char>, from: int)
    requires
        0 <= from <= s.len(),
    ensures
        from <= skip_space(s, from) <= s.len(),
        forall|k: int| from <= k < skip_space(s, from) ==> is_space(s[k]),
        skip_space(s, from) < s.len() ==> !is_space(s[skip_space(s, from)]),
    decreases s.len() - from,
{
    if from < s.len() && is_space(s[from]) {
        lemma_skip_space(s, from + 1);
    }
}

/// Trailing white space is dropped back to a character that is none, or to
/// the floor.
pub proof fn lemma_back_space(s: Seq<char>, floor: int, end: int)
    requires
        0 <= floor <= end <= s.len(),
    ensures
        floor <= back_space(s, floor, end) <= end,
        forall|k: int| back_space(s, floor, end) <= k < end ==> is_space(s[k]),
        back_space(s, floor, end) > floor ==> !is_space(s[back_space(s, floor, end) - 1]),
    decreases end - floor,
{
    if floor < end && is_space(s[end - 1]) {
        lemma_back_space(s, floor, end - 1);
    }
}

/// `s` without the white space at its two ends.
pub open spec fn trim(s: Seq<char>) -> Seq<char> {
    let lo = skip_space(s, 0);
    s.subrange(lo, back_space(s, lo, s.len() as int))
}

/// Trimming a text that neither starts nor ends with white space leaves it
/// as it is.
pub proof fn lemma_trim_tight(s: Seq<char>)
    requires
        tight(s),
    ensures
        trim(s) == s,
{
    assert(s.subrange(0, s.len() as int) =~= s);
}

/// Whether `s` neither begins nor ends with white space.
pub open spec fn tight(s: Seq<char>) -> bool {
    s.len() > 0 ==> !is_space(s[0]) && !is_space(s[s.len() - 1])
}

/// Whether `c` does not occur in `s`.
pub open spec fn free_of(s: Seq<char>, c: char) -> bool {
    forall|i: int| 0 <= i < s.len() ==> s[i] != c
}

/// A space and a trimmed text, trimmed, is the text.
pub proof fn lemma_trim_after_space(v: Seq<char>)
    requires
        tight(v),
    ensures
        trim(seq![' '] + v) == v,
{
    let s = seq![' '] + v;
    assert(is_space(' '));
    if v.len() == 0 {
        assert(skip_space(s, 1) == 1);
        assert(skip_space(s, 0) == 1);
        assert(trim(s) =~= v);
    } else {
        assert(s[1] == v[0]);
        assert(skip_space(s, 1) == 1);
        assert(skip_space(s, 0) == 1);
        assert(s[s.len() - 1] == v[v.len() - 1]);
        assert(trim(s) =~= v);
    }
}

/// What trimming leaves neither starts nor ends with white space.
pub proof fn lemma_trim_is_tight(s: Seq<char>)
    ensures
        tight(trim(s)),
        trim(s).len() <= s.len(),
{
    lemma_skip_space(s, 0);
    lemma_back_space(s, skip_space(s, 0), s.len() as int);
}

/// The index of the first character of `v` at or after `from` that is not
/// white space, or the length of `v`.
pub fn skip_space_from(v: &Vec<char>, from: usize) -> (at: usize)
    requires
        from <= v.len(),
    ensures
        at == skip_space(v@, from as int),
        from <= at <= v.len(),
{
    let mut i: usize = from;
    while i < v.len() && is_space_char(v[i])
        invariant
            from <= i <= v.len(),
            skip_space(v@, from as int) == skip_space(v@, i as int),
        decreases v.len() - i,
    {
        i += 1;
    }
    i
}

/// The end of `v` up to `end` without its trailing white space, never below
/// `floor`.
pub fn back_space_from(v: &Vec<char>, floor: usize, end: usize) -> (at: usize)
    requires
        floor <= end <= v.len(),
    ensures
        at == back_space(v@, floor as int, end as int),
        floor <= at <= end,
{
    let mut i: usize = end;
    while i > floor && is_space_char(v[i - 1])
        invariant
            floor <= i <= end <= v.len(),
            back_space(v@, floor as int, end as int) == back_space(v@, floor as int, i as int),
        decreases i - floor,
    {
        i -= 1;
    }
    i
}

/// A copy of the characters of `v` from `lo` up to `hi`.
pub fn copy_range(v: &Vec<char>, lo: usize, hi: usize) -> (out: Vec<char>)
    requires
        lo <= hi <= v.len(),
    ensures
        out@ == v@.subrange(lo as int, hi as int),
{
    let mut out: Vec<char> = Vec::new();
    let mut i: usize = lo;
    while i < hi
        invariant
            lo <= i <= hi <= v.len(),
            out@ == v@.subrange(lo as int, i as int),
        decreases hi - i,
    {
        out.push(v[i]);
        i += 1;
        assert(out@ =~= v@.subrange(lo as int, i as int));
    }
    out
}

/// The characters of `v` without the white space at the two ends.
pub fn trim_chars(v: &Vec<char>) -> (out: Vec<char>)
    ensures
        out@ == trim(v@),
{
    let lo = skip_space_from(v, 0);
    let hi = back_space_from(v, lo, v.len());
    copy_range(v, lo, hi)
}

/// The characters of `v` from `lo` up to `hi`, trimmed.
pub fn trim_range(v: &Vec<char>, lo: usize, hi: usize) -> (out: Vec<char>)
    requires
        lo <= hi <= v.len(),
    ensures
        out@ == trim(v@.subrange(lo as int, hi as int)),
{
    let part = copy_range(v, lo, hi);
    trim_chars(&part)
}

/// The characters of a string, in order.
pub fn chars_of(s: &str) -> (v: Vec<char>)
    ensures
        v@ == s@,
{
    broadcast use vstd::string::group_string_axioms;

    let mut v: Vec<char> = Vec::new();
    for c in it: s.chars()
        invariant
            v@ == it.seq().take(it.index() as int),
            it.seq() == s@,
    {
        v.push(c);
    }
    v
}

/// The string made of the characters of `v`.
pub fn string_of(v: &Vec<char>) -> (s: String)
    ensures
        s@ == v@,
{
    let mut s = String::new();
    let mut i: usize = 0;
    while i < v.len()
        invariant
            i <= v.len(),
            s@ == v@.take(i as int),
        decreases v.len() - i,
    {
        s.push(v[i]);
        i += 1;
    }
    s
}

/// The string made of the characters of `v` from `lo` up to `hi`.
pub fn string_of_range(v: &Vec<char>, lo: usize, hi: usize) -> (s: String)
    requires
        lo <= hi <= v.len(),
    ensures
        s@ == v@.subrange(lo as int, hi as int),
{
    let mut s = String::new();
    let mut i: usize = lo;
    while i < hi
        invariant
            lo <= i <= hi <= v.len(),
            s@ == v@.subrange(lo as int, i as int),
        decreases hi - i,
    {
        s.push(v[i]);
        i += 1;
        assert(s@ =~= v@.subrange(lo as int, i as int));
    }
    s
}

/// The number of bytes in the UTF-8 form of `s`.
pub open spec fn byte_len(s: Seq<char>) -> int {
    encode_utf8(s).len() as int
}

/// Whether the bytes from `a` up to `b` of the UTF-8 form of `s` are a
/// piece of its text: both offsets lie in it and between two characters.
pub open spec fn valid_span(s: Seq<char>, a: int, b: int) -> bool {
    let bytes = encode_utf8(s);
    0 <= a <= b <= bytes.len() && is_char_boundary(bytes, a) && is_char_boundary(bytes, b)
}

/// The text that the bytes from `a` up to `b` of the UTF-8 form of `s` hold.
pub open spec fn span_text(s: Seq<char>, a: int, b: int) -> Seq<char> {
    decode_utf8(encode_utf8(s).subrange(a, b))
}

/// A boundary of a text is a boundary of each prefix that reaches it.
proof fn lemma_boundary_in_prefix(bytes: Seq<u8>, a: int, b: int)
    requires
        vstd::utf8::valid_utf8(bytes),
        0 <= a <= b <= bytes.len(),
        is_char_boundary(bytes, a),
        is_char_boundary(bytes, b),
    ensures
        is_char_boundary(bytes.subrange(0, b), a),
{
    broadcast use vstd::utf8::group_utf8_lib;

    let head = bytes.subrange(0, b);
    assert(vstd::utf8::valid_utf8(head));
    if a == b {
        assert(is_char_boundary(head, head.len() as int));
    } else {
        assert(head[a] == bytes[a]);
        assert(!is_continuation_byte(bytes[a]));
    }
}

/// The number of bytes in `s`.
pub fn byte_count(s: &str) -> (n: usize)
    ensures
        n == byte_len(s@),
{
    s.as_bytes().len()
}

/// The piece of `s` from byte `a` up to byte `b`, where the two offsets lie
/// in `s` and between two characters.
pub fn byte_slice<'a>(s: &'a str, a: usize, b: usize) -> (piece: Option<&'a str>)
    ensures
        piece is Some == valid_span(s@, a as int, b as int),
        piece matches Some(t) ==> t@ == span_text(s@, a as int, b as int),
{
    broadcast use vstd::utf8::group_utf8_lib;

    if a <= b && b <= byte_count(s) && s.is_char_boundary(a) && s.is_char_boundary(b) {
        let (head, _) = s.split_at(b);
        proof {
            lemma_boundary_in_prefix(s.spec_bytes(), a as int, b as int);
        }
        let (_, mid) = head.split_at(a);
        proof {
            assert(mid.spec_bytes() =~= s.spec_bytes().subrange(a as int, b as int));
        }
        Some(mid)
    } else {
        None
    }
}

/// The pieces of `s` between the occurrences of `c`: one more than `c`
/// occurs, each without `c`.
pub open spec fn split(s: Seq<char>, c: char) -> Seq<Seq<char>>
    decreases s.len(),
{
    let k = index_of(s, 0, c);
    if 0 <= k < s.len() {
        seq![s.subrange(0, k)] + split(s.subrange(k + 1, s.len() as int), c)
    } else {
        seq![s]
    }
}

/// The lines of a text: its pieces between line feeds, without the empty
/// piece after a last line feed.
pub open spec fn lines_of(s: Seq<char>) -> Seq<Seq<char>> {
    let pieces = split(s, '\n');
    if pieces.last().len() == 0 {
        pieces.drop_last()
    } else {
        pieces
    }
}

/// Searching a tail of `s` from its start is searching `s` from where the
/// tail begins.
pub proof fn lemma_index_of_tail(s: Seq<char>, start: int, from: int, c: char)
    requires
        0 <= start <= from <= s.len(),
    ensures
        index_of(s.subrange(start, s.len() as int), from - start, c) + start == index_of(s, from, c),
    decreases s.len() - from,
{
    let tail = s.subrange(start, s.len() as int);
    if from < s.len() && s[from] != c {
        assert(tail[from - start] == s[from]);
        lemma_index_of_tail(s, start, from + 1, c);
    } else if from < s.len() {
        assert(tail[from - start] == s[from]);
    }
}

/// A text has at least one piece.
pub proof fn lemma_split_nonempty(s: Seq<char>, c: char)
    ensures
        split(s, c).len() >= 1,
    decreases s.len(),
{
    let k = index_of(s, 0, c);
    if 0 <= k < s.len() {
        lemma_split_nonempty(s.subrange(k + 1, s.len() as int), c);
    }
}

/// No piece of a split holds the character that it was split at.
pub proof fn lemma_split_pieces(s: Seq<char>, c: char)
    ensures
        forall|i: int, j: int|
            0 <= i < split(s, c).len() && 0 <= j < split(s, c)[i].len() ==> #[trigger] split(
                s,
                c,
            )[i][j] != c,
    decreases s.len(),
{
    let k = index_of(s, 0, c);
    lemma_index_of(s, 0, c);
    if 0 <= k < s.len() {
        let rest = s.subrange(k + 1, s.len() as int);
        lemma_split_pieces(rest, c);
        assert forall|i: int, j: int|
            0 <= i < split(s, c).len() && 0 <= j < split(s, c)[i].len() implies #[trigger] split(
            s,
            c,
        )[i][j] != c by {
            if i > 0 {
                assert(split(s, c)[i] == split(rest, c)[i - 1]);
            }
        }
    }
}

/// A text without `c` is its own single piece.
pub proof fn lemma_split_single(s: Seq<char>, c: char)
    requires
        forall|i: int| 0 <= i < s.len() ==> s[i] != c,
    ensures
        split(s, c) == seq![s],
{
    lemma_index_of_is(s, 0, c, s.len() as int);
}

/// The pieces of a text, a `c` and a text without `c` before it: the first
/// text is the first piece, and the rest are the pieces of the second.
pub proof fn lemma_split_cons(head: Seq<char>, rest: Seq<char>, c: char)
    requires
        forall|i: int| 0 <= i < head.len() ==> head[i] != c,
    ensures
        split(head + seq![c] + rest, c) == seq![head] + split(rest, c),
{
    let s = head + seq![c] + rest;
    lemma_index_of_is(s, 0, c, head.len() as int);
    assert(s.subrange(0, head.len() as int) =~= head);
    assert(s.subrange(head.len() as int + 1, s.len() as int) =~= rest);
}

/// The deep view of a vector of characters is its view.
pub proof fn lemma_chars_deep_view(v: Vec<char>)
    ensures
        v.deep_view() == v@,
{
    assert(v.deep_view() =~= v@);
}

/// Pushing onto a vector pushes the item's deep view onto the vector's.
pub proof fn lemma_deep_view_push<T: DeepView>(before: Vec<T>, after: Vec<T>, item: T)
    requires
        after@ == before@.push(item),
    ensures
        after.deep_view() == before.deep_view().push(item.deep_view()),
{
    assert(after.deep_view() =~= before.deep_view().push(item.deep_view()));
}

/// The deep view of two vectors in a row is their deep views in a row.
pub proof fn lemma_deep_view_concat<T: DeepView>(whole: Vec<T>, front: Vec<T>, back: Vec<T>)
    requires
        whole@ == front@ + back@,
    ensures
        whole.deep_view() == front.deep_view() + back.deep_view(),
{
    assert(whole.deep_view() =~= front.deep_view() + back.deep_view());
}

/// The deep view of an empty vector is empty.
pub proof fn lemma_deep_view_empty<T: DeepView>(v: Vec<T>)
    requires
        v@.len() == 0,
    ensures
        v.deep_view() == Seq::<T::V>::empty(),
{
    assert(v.deep_view() =~= Seq::<T::V>::empty());
}

/// The pieces of `v` between the occurrences of `c`.
pub fn split_chars(v: &Vec<char>, c: char) -> (pieces: Vec<Vec<char>>)
    ensures
        pieces.deep_view() == split(v@, c),
        pieces.len() >= 1,
{
    let mut pieces: Vec<Vec<char>> = Vec::new();
    let mut start: usize = 0;
    proof {
        lemma_deep_view_empty(pieces);
        assert(v@.subrange(0, v.len() as int) =~= v@);
        assert(pieces.deep_view() + split(v@, c) =~= split(v@, c));
    }
    loop
        invariant
            start <= v.len(),
            split(v@, c) == pieces.deep_view() + split(v@.subrange(start as int, v.len() as int), c),
        decreases v.len() - start,
    {
        let at = find_char(v, start, c);
        let piece = copy_range(v, start, at);
        proof {
            let tail = v@.subrange(start as int, v.len() as int);
            lemma_index_of_tail(v@, start as int, start as int, c);
            assert(index_of(tail, 0, c) == at - start);
            assert(tail.subrange(0, at - start) =~= piece@);
            if at < v.len() {
                assert(tail.subrange(at - start + 1, tail.len() as int) =~= v@.subrange(
                    at + 1,
                    v.len() as int,
                ));
            } else {
                assert(tail =~= piece@);
            }
        }
        let ghost before = pieces;
        let ghost tail = v@.subrange(start as int, v.len() as int);
        pieces.push(piece);
        proof {
            lemma_chars_deep_view(piece);
            lemma_deep_view_push(before, pieces, piece);
        }
        if at >= v.len() {
            proof {
                assert(split(tail, c) == seq![tail]);
                assert(split(v@, c) =~= pieces.deep_view());
            }
            return pieces;
        }
        proof {
            let next = v@.subrange(at + 1, v.len() as int);
            assert(split(tail, c) == seq![piece@] + split(next, c));
            assert(before.deep_view() + (seq![piece@] + split(next, c)) =~= pieces.deep_view()
                + split(next, c));
        }
        start = at + 1;
    }
}

/// The lines of `s`.
pub fn split_lines(s: &str) -> (lines: Vec<Vec<char>>)
    ensures
        lines.deep_view() == lines_of(s@),
{
    let text = chars_of(s);
    let mut lines = split_chars(&text, '\n');
    let n = lines.len();
    proof {
        lemma_chars_deep_view(lines[n - 1]);
    }
    if lines[n - 1].len() == 0 {
        let ghost before = lines.deep_view();
        lines.pop();
        proof {
            assert(lines.deep_view() =~= before.drop_last());
        }
    }
    lines
}

/// White space is skipped up to the first character that is none.
pub proof fn lemma_skip_space_is(s: Seq<char>, from: int, at: int)
    requires
        0 <= from <= at <= s.len(),
        forall|k: int| from <= k < at ==> is_space(#[trigger] s[k]),
        at < s.len() ==> !is_space(s[at]),
    ensures
        skip_space(s, from) == at,
    decreases at - from,
{
    if from < at {
        assert(is_space(s[from]));
        lemma_skip_space_is(s, from + 1, at);
    }
}

/// A trimmed text between two characters of white space, trimmed, is the
/// text.
pub proof fn lemma_trim_between(a: char, text: Seq<char>, b: char)
    requires
        tight(text),
        is_space(a),
        is_space(b),
    ensures
        trim(seq![a] + text + seq![b]) == text,
{
    let s = seq![a] + text + seq![b];
    let full = s.len() as int;
    if text.len() > 0 {
        assert(s[1] == text[0]);
        assert(skip_space(s, 1) == 1);
        assert(skip_space(s, 0) == 1);
        assert(s[full - 2] == text[text.len() - 1]);
        assert(back_space(s, 1, full - 1) == full - 1);
        assert(back_space(s, 1, full) == full - 1);
        assert(trim(s) =~= text);
    } else {
        assert(skip_space(s, 2) == 2);
        assert(skip_space(s, 1) == 2);
        assert(skip_space(s, 0) == 2);
        assert(back_space(s, 2, 2) == 2);
        assert(trim(s) =~= text);
    }
}

} // verus!
