//! Splitting a text into physical lines, accepting `\n`, `\r\n` and
//! lone `\r` as terminators.  A trailing segment without a terminator
//! is not yielded, as the line-oriented dialects expect.

use vstd::prelude::*;

use crate::text::{chars_of, string_of, subvec};

verus! {

/// The position of the first line terminator at or after `i`, or the
/// length when there is none.
pub open spec fn newline_pos(s: Seq<char>, i: int) -> int
    decreases s.len() - i,
{
    if i < 0 || i >= s.len() {
        s.len() as int
    } else if s[i] == '\n' || s[i] == '\r' {
        i
    } else {
        newline_pos(s, i + 1)
    }
}

pub proof fn lemma_newline_pos_bounds(s: Seq<char>, i: int)
    requires
        0 <= i <= s.len(),
    ensures
        i <= newline_pos(s, i) <= s.len(),
        newline_pos(s, i) < s.len() ==> (s[newline_pos(s, i)] == '\n' || s[newline_pos(s, i)]
            == '\r'),
    decreases s.len() - i,
{
    if i < s.len() && s[i] != '\n' && s[i] != '\r' {
        lemma_newline_pos_bounds(s, i + 1);
    }
}

/// The position just after the terminator starting at `j`: two
/// characters for `\r\n`, one otherwise.
pub open spec fn after_newline(s: Seq<char>, j: int) -> int {
    if j < s.len() && s[j] == '\r' && j + 1 < s.len() && s[j + 1] == '\n' {
        j + 2
    } else {
        j + 1
    }
}

/// The lines of `s` from position `i` on, without their terminators.
pub open spec fn split_lines_from(s: Seq<char>, i: int) -> Seq<Seq<char>>
    decreases s.len() - i,
        via split_lines_from_decreases
{
    if i < 0 || i > s.len() {
        Seq::empty()
    } else {
        let j = newline_pos(s, i);
        if j >= s.len() {
            Seq::empty()
        } else {
            seq![s.subrange(i, j)] + split_lines_from(s, after_newline(s, j))
        }
    }
}

#[via_fn]
proof fn split_lines_from_decreases(s: Seq<char>, i: int) {
    if 0 <= i <= s.len() {
        lemma_newline_pos_bounds(s, i);
    }
}

/// The lines of a text.
pub open spec fn spec_split_lines(s: Seq<char>) -> Seq<Seq<char>> {
    split_lines_from(s, 0)
}

/// There are no more lines than characters from `i` on.
pub proof fn lemma_split_lines_count(s: Seq<char>, i: int)
    requires
        0 <= i <= s.len(),
    ensures
        split_lines_from(s, i).len() <= s.len() - i,
    decreases s.len() - i,
{
    lemma_newline_pos_bounds(s, i);
    let j = newline_pos(s, i);
    if j < s.len() {
        lemma_split_lines_count(s, after_newline(s, j));
    }
}

/// Yields the lines of a text one by one.
#[derive(Debug)]
pub struct AgnostigLineSplitter {
    src: Vec<char>,
    pos: usize,
}

impl AgnostigLineSplitter {
    /// The text being split.
    pub closed spec fn text(&self) -> Seq<char> {
        self.src@
    }

    /// The current read position.
    pub closed spec fn at(&self) -> int {
        self.pos as int
    }

    pub fn new(lines: &str) -> (r: Self)
        ensures
            r.text() == lines@,
            r.at() == 0,
    {
        Self { src: chars_of(lines), pos: 0 }
    }

    /// The next line, without its terminator, or nothing when no
    /// further terminator follows.
    pub fn next(&mut self) -> (r: Option<String>)
        requires
            old(self).at() <= old(self).text().len(),
        ensures
            final(self).text() == old(self).text(),
            ({
                let s = old(self).text();
                let i = old(self).at();
                let j = newline_pos(s, i);
                if j >= s.len() {
                    r is None && final(self).at() == i
                } else {
                    &&& r is Some
                    &&& r->0@ == s.subrange(i, j)
                    &&& final(self).at() == after_newline(s, j)
                    &&& final(self).at() <= s.len()
                }
            }),
    {
        let n = self.src.len();
        let mut j = self.pos;
        while j < n
            invariant
                self.src@ == old(self).src@,
                self.pos == old(self).pos,
                self.pos <= j <= n,
                n == self.src@.len(),
                newline_pos(self.src@, self.pos as int) == newline_pos(self.src@, j as int),
            decreases n - j,
        {
            let c = self.src[j];
            if c == '\n' || c == '\r' {
                let line = subvec(&self.src, self.pos, j);
                let next = if c == '\r' && j + 1 < n && self.src[j + 1] == '\n' {
                    j + 2
                } else {
                    j + 1
                };
                self.pos = next;
                return Some(string_of(&line));
            }
            j = j + 1;
        }
        None
    }
}

/// Splits a text into its terminated lines.
pub fn split_lines(src: &str) -> (r: Vec<String>)
    ensures
        r.deep_view() == spec_split_lines(src@),
{
    let mut splitter = AgnostigLineSplitter::new(src);
    let mut r: Vec<String> = Vec::new();
    proof {
        assert(r.deep_view() =~= Seq::<Seq<char>>::empty());
    }
    loop
        invariant
            splitter.text() == src@,
            0 <= splitter.at() <= src@.len(),
            spec_split_lines(src@) =~= r.deep_view() + split_lines_from(src@, splitter.at()),
        decreases src@.len() - splitter.at(),
    {
        proof {
            lemma_newline_pos_bounds(src@, splitter.at());
        }
        let ghost i = splitter.at();
        let ghost prev = r.deep_view();
        match splitter.next() {
            Some(line) => {
                let ghost line_view = line@;
                r.push(line);
                proof {
                    let s = src@;
                    let j = newline_pos(s, i);
                    assert(split_lines_from(s, i) == seq![s.subrange(i, j)] + split_lines_from(
                        s,
                        after_newline(s, j),
                    ));
                    assert(r.deep_view() =~= prev.push(line_view));
                    assert(prev.push(line_view) + split_lines_from(s, splitter.at()) =~= prev + (
                    seq![line_view] + split_lines_from(s, splitter.at())));
                }
            },
            None => {
                return r;
            },
        }
    }
}

} // verus!
