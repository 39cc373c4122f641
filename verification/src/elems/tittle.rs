//! Titles: a line of `#` characters, a space and the title's text.

use vstd::prelude::*;
use crate::error::ParseError;
use crate::text::{chars_of, count_run, lemma_run_end_is, run_end, string_of_range};

verus! {

/// A title of the document.
///
/// ```markdown
/// # Header 1
/// ## Header 2
/// ### Header 3
/// ```
#[derive(Debug, PartialEq, Eq)]
pub struct Tittle {
    /// The number of `#` characters that the line began with.
    pub level: usize,
    /// What followed the space after them.
    pub tittle: String,
}

/// A title as plain data.
pub struct TittleView {
    pub level: nat,
    pub tittle: Seq<char>,
}

impl View for Tittle {
    type V = TittleView;

    open spec fn view(&self) -> TittleView {
        TittleView { level: self.level as nat, tittle: self.tittle@ }
    }
}

/// Whether `line` is a title: one `#` or more at its start, then a space.
pub open spec fn is_tittle_line(line: Seq<char>) -> bool {
    let n = run_end(line, 0, '#');
    1 <= n < line.len() && line[n] == ' '
}

/// The title that a title line holds: as many levels as it has `#`
/// characters at its start, and the text after the space that follows them.
pub open spec fn tittle_of(line: Seq<char>) -> TittleView {
    let n = run_end(line, 0, '#');
    TittleView { level: n as nat, tittle: line.subrange(n + 1, line.len() as int) }
}

/// `n` times the character `#`.
pub open spec fn hashes(n: nat) -> Seq<char> {
    Seq::new(n, |i: int| '#')
}

/// For every `n` of at least 1, a line of `n` `#` characters, a space and a
/// text is a title of level `n` with that text.
pub proof fn lemma_tittle_level(n: nat, text: Seq<char>)
    requires
        n >= 1,
    ensures
        is_tittle_line(hashes(n) + seq![' '] + text),
        tittle_of(hashes(n) + seq![' '] + text) == (TittleView { level: n, tittle: text }),
{
    let line = hashes(n) + seq![' '] + text;
    lemma_run_end_is(line, 0, '#', n as int);
    assert(line.subrange(n as int + 1, line.len() as int) =~= text);
}

/// A title has at least one level, and its line is its `#` characters, a
/// space and its text.
pub proof fn lemma_tittle_line(line: Seq<char>)
    requires
        is_tittle_line(line),
    ensures
        tittle_of(line).level >= 1,
        line == hashes(tittle_of(line).level) + seq![' '] + tittle_of(line).tittle,
{
    crate::text::lemma_run_end(line, 0, '#');
    let t = tittle_of(line);
    assert(line =~= hashes(t.level) + seq![' '] + t.tittle);
}

/// The title on `line`, if it is a title line.
pub fn tittle_from_chars(line: &Vec<char>) -> (found: Option<Tittle>)
    ensures
        found is Some == is_tittle_line(line@),
        found matches Some(t) ==> t@ == tittle_of(line@),
{
    let n = count_run(line, 0, '#');
    if n >= 1 && n < line.len() && line[n] == ' ' {
        Some(Tittle { level: n, tittle: string_of_range(line, n + 1, line.len()) })
    } else {
        None
    }
}

impl Tittle {
    /// Whether `s` is a title line.
    pub fn is(s: &str) -> (r: bool)
        ensures
            r == is_tittle_line(s@),
    {
        let line = chars_of(s);
        let n = count_run(&line, 0, '#');
        n >= 1 && n < line.len() && line[n] == ' '
    }

    /// The title that the line `s` holds.
    pub fn new(s: &str) -> (r: Result<Tittle, ParseError>)
        ensures
            match r {
                Ok(t) => is_tittle_line(s@) && t@ == tittle_of(s@),
                Err(e) => !is_tittle_line(s@) && e == ParseError::NoTittle,
            },
    {
        let line = chars_of(s);
        match tittle_from_chars(&line) {
            Some(t) => Ok(t),
            None => Err(ParseError::NoTittle),
        }
    }
}

} // verus!
