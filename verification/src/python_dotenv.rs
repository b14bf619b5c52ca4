//! The Python dotenv dialect: a whole-buffer reader with a cursor
//! and a mark, binding patterns matched in sequence (whitespace, an
//! `export` prefix, a quoted or unquoted key, `=`, a quoted or
//! unquoted value, a comment, the line end), regex-style
//! backtracking in the closing-quote search, a rich escape table
//! inside double quotes, `${NAME}` interpolation with `:-` defaults,
//! and null-byte truncation before writing.  Some of the upstream
//! patterns match against the buffer start rather than the cursor;
//! those quirks are kept.

use vstd::prelude::*;

use crate::env::MemoryEnv;
use crate::error::{Error, spec_syntax_error};
use crate::model::{EnvModel, ParseOut, apply_writes, char_pos, cut_nul, lemma_char_pos, spec_set_var};
use crate::options::Options;
use crate::text::{
    char_from_u32, chars_of, from_radix, is_unicode_whitespace, push_all, push_range,
    spec_from_radix, subvec, unicode_whitespace,
};

verus! {

use vstd::utf8::is_scalar;

/// Inline whitespace: Unicode whitespace except the line breaks.
pub open spec fn is_py_inline_ws(c: char) -> bool {
    c != '\r' && c != '\n' && is_unicode_whitespace(c)
}

/// The first position that is not Unicode whitespace.
pub open spec fn py_multiline_ws_end(s: Seq<char>, i: int) -> int
    decreases s.len() - i,
{
    if i < 0 || i >= s.len() {
        s.len() as int
    } else if is_unicode_whitespace(s[i]) {
        py_multiline_ws_end(s, i + 1)
    } else {
        i
    }
}

pub proof fn lemma_py_multiline_ws_end(s: Seq<char>, i: int)
    requires
        0 <= i <= s.len(),
    ensures
        i <= py_multiline_ws_end(s, i) <= s.len(),
    decreases s.len() - i,
{
    if i < s.len() && is_unicode_whitespace(s[i]) {
        lemma_py_multiline_ws_end(s, i + 1);
    }
}

/// The first position that is not inline whitespace.
pub open spec fn py_ws_end(s: Seq<char>, i: int) -> int
    decreases s.len() - i,
{
    if i < 0 || i >= s.len() {
        s.len() as int
    } else if is_py_inline_ws(s[i]) {
        py_ws_end(s, i + 1)
    } else {
        i
    }
}

pub proof fn lemma_py_ws_end(s: Seq<char>, i: int)
    requires
        0 <= i <= s.len(),
    ensures
        i <= py_ws_end(s, i) <= s.len(),
    decreases s.len() - i,
{
    if i < s.len() && is_py_inline_ws(s[i]) {
        lemma_py_ws_end(s, i + 1);
    }
}

/// The end of an `export` prefix with following inline whitespace,
/// or `i` unchanged.
pub open spec fn py_export_end(s: Seq<char>, i: int) -> int {
    if i + 6 < s.len() && s[i] == 'e' && s[i + 1] == 'x' && s[i + 2] == 'p' && s[i + 3] == 'o'
        && s[i + 4] == 'r' && s[i + 5] == 't' && is_py_inline_ws(s[i + 6]) {
        py_ws_end(s, i + 6)
    } else {
        i
    }
}

/// The first line break or end of text at or after `i`.
pub open spec fn py_line_break(s: Seq<char>, i: int) -> int
    decreases s.len() - i,
{
    if i < 0 || i >= s.len() {
        s.len() as int
    } else if s[i] == '\n' || s[i] == '\r' {
        i
    } else {
        py_line_break(s, i + 1)
    }
}

pub proof fn lemma_py_line_break(s: Seq<char>, i: int)
    requires
        0 <= i <= s.len(),
    ensures
        i <= py_line_break(s, i) <= s.len(),
        py_line_break(s, i) < s.len() ==> (s[py_line_break(s, i)] == '\n' || s[py_line_break(
            s,
            i,
        )] == '\r'),
    decreases s.len() - i,
{
    if i < s.len() && s[i] != '\n' && s[i] != '\r' {
        lemma_py_line_break(s, i + 1);
    }
}

/// The end of an unquoted key: up to `=`, `#` or Unicode whitespace.
pub open spec fn py_unquoted_key_end(s: Seq<char>, i: int) -> int
    decreases s.len() - i,
{
    if i < 0 || i >= s.len() {
        s.len() as int
    } else if s[i] == '=' || s[i] == '#' || is_unicode_whitespace(s[i]) {
        i
    } else {
        py_unquoted_key_end(s, i + 1)
    }
}

pub proof fn lemma_py_unquoted_key_end(s: Seq<char>, i: int)
    requires
        0 <= i <= s.len(),
    ensures
        i <= py_unquoted_key_end(s, i) <= s.len(),
    decreases s.len() - i,
{
    if i < s.len() && !(s[i] == '=' || s[i] == '#' || is_unicode_whitespace(s[i])) {
        lemma_py_unquoted_key_end(s, i + 1);
    }
}

/// The closing-quote search with regex backtracking: the first quote
/// whose preceding character is no backslash, or the last candidate
/// when every one is escaped.
pub open spec fn py_quote_end(s: Seq<char>, i: int, quote: char) -> Option<int>
    decreases s.len() - i,
        via py_quote_end_decreases
{
    if i < 0 || i > s.len() {
        None
    } else {
        let q = char_pos(s, i, quote);
        if q >= s.len() {
            None
        } else if q > i && s[q - 1] == '\\' {
            match py_quote_end(s, q + 1, quote) {
                Some(q2) => Some(q2),
                None => Some(q),
            }
        } else {
            Some(q)
        }
    }
}

#[via_fn]
proof fn py_quote_end_decreases(s: Seq<char>, i: int, quote: char) {
    if 0 <= i <= s.len() {
        lemma_char_pos(s, i, quote);
    }
}

pub proof fn lemma_py_quote_end(s: Seq<char>, i: int, quote: char)
    requires
        0 <= i <= s.len(),
    ensures
        match py_quote_end(s, i, quote) {
            Some(q) => i <= q < s.len() && s[q] == quote,
            None => true,
        },
    decreases s.len() - i,
{
    lemma_char_pos(s, i, quote);
    let q = char_pos(s, i, quote);
    if q < s.len() && q > i && s[q - 1] == '\\' {
        lemma_py_quote_end(s, q + 1, quote);
    }
}

/// The number of line breaks in `[a, b)`, a `\r\n` pair counting
/// once.
pub open spec fn py_nl_count(s: Seq<char>, a: int, b: int) -> int
    decreases b - a,
{
    if a < 0 || a >= b || b > s.len() {
        0
    } else if s[a] == '\r' && a + 1 < b && s[a + 1] == '\n' {
        1 + py_nl_count(s, a + 2, b)
    } else if s[a] == '\r' || s[a] == '\n' {
        1 + py_nl_count(s, a + 1, b)
    } else {
        py_nl_count(s, a + 1, b)
    }
}

pub proof fn lemma_py_nl_count(s: Seq<char>, a: int, b: int)
    requires
        0 <= a <= b <= s.len(),
    ensures
        0 <= py_nl_count(s, a, b) <= b - a,
    decreases b - a,
{
    if a < b {
        if s[a] == '\r' && a + 1 < b && s[a + 1] == '\n' {
            lemma_py_nl_count(s, a + 2, b);
        } else {
            lemma_py_nl_count(s, a + 1, b);
        }
    }
}

/// The start of the line holding `i`: just after the previous line
/// break, or the start of the text.
pub open spec fn py_line_start(s: Seq<char>, i: int) -> int
    decreases i,
{
    if i <= 0 {
        0
    } else if s[i - 1] == '\n' || s[i - 1] == '\r' {
        i
    } else {
        py_line_start(s, i - 1)
    }
}

pub proof fn lemma_py_line_start(s: Seq<char>, i: int)
    requires
        0 <= i,
    ensures
        0 <= py_line_start(s, i) <= i,
    decreases i,
{
    if i > 0 && s[i - 1] != '\n' && s[i - 1] != '\r' {
        lemma_py_line_start(s, i - 1);
    }
}

/// The single-quote escape decoding: `\\` and `\'` decode, every
/// other backslash stays.
pub open spec fn py_decode_single(v: Seq<char>, i: int) -> Seq<char>
    decreases v.len() - i,
        via py_decode_single_decreases
{
    if i < 0 || i > v.len() {
        Seq::empty()
    } else {
        let b = char_pos(v, i, '\\');
        if b >= v.len() {
            v.subrange(i, v.len() as int)
        } else {
            let prefix = v.subrange(i, b);
            if b + 1 < v.len() && (v[b + 1] == '\\' || v[b + 1] == '\'') {
                prefix + seq![v[b + 1]] + py_decode_single(v, b + 2)
            } else {
                prefix + seq!['\\'] + py_decode_single(v, b + 1)
            }
        }
    }
}

#[via_fn]
proof fn py_decode_single_decreases(v: Seq<char>, i: int) {
    if 0 <= i <= v.len() {
        lemma_char_pos(v, i, '\\');
    }
}

/// The greedy octal run after a first octal digit: one to three
/// digits.
pub open spec fn py_oct_len(v: Seq<char>, r: int) -> int {
    if r + 1 < v.len() && '0' <= v[r + 1] && v[r + 1] <= '7' {
        if r + 2 < v.len() && '0' <= v[r + 2] && v[r + 2] <= '7' {
            3
        } else {
            2
        }
    } else {
        1
    }
}

/// The double-quote escape decoding of this dialect: the control
/// escapes, a dropped escaped line feed, greedy octal, `\xNN`,
/// `\uNNNN` and a six-digit `\U` form, every malformed escape
/// keeping its backslash.
pub open spec fn py_decode_double(v: Seq<char>, i: int) -> Seq<char>
    decreases v.len() - i, 0int
        via py_decode_double_decreases
{
    if i < 0 || i > v.len() {
        Seq::empty()
    } else {
        let b = char_pos(v, i, '\\');
        if b >= v.len() {
            v.subrange(i, v.len() as int)
        } else {
            let prefix = v.subrange(i, b);
            let r = b + 1;
            if r >= v.len() {
                prefix + seq!['\\']
            } else {
                let c = v[r];
                if c == '\n' {
                    prefix + py_decode_double(v, r + 1)
                } else if c == '\\' || c == '\'' || c == '"' {
                    prefix + seq![c] + py_decode_double(v, r + 1)
                } else if c == 'a' {
                    prefix + seq!['\u{7}'] + py_decode_double(v, r + 1)
                } else if c == 'b' {
                    prefix + seq!['\u{8}'] + py_decode_double(v, r + 1)
                } else if c == 'f' {
                    prefix + seq!['\u{C}'] + py_decode_double(v, r + 1)
                } else if c == 'n' {
                    prefix + seq!['\n'] + py_decode_double(v, r + 1)
                } else if c == 'r' {
                    prefix + seq!['\r'] + py_decode_double(v, r + 1)
                } else if c == 't' {
                    prefix + seq!['\t'] + py_decode_double(v, r + 1)
                } else if c == 'v' {
                    prefix + seq!['\u{B}'] + py_decode_double(v, r + 1)
                } else if '0' <= c && c <= '7' {
                    let k = py_oct_len(v, r);
                    match spec_from_radix(v.subrange(r, r + k), 8) {
                        Some(x) => if x <= 255 {
                            prefix + seq![((x as u32) as char)] + py_decode_double(v, r + k)
                        } else {
                            prefix + seq!['\\'] + py_decode_cont(v, r)
                        },
                        None => prefix + seq!['\\'] + py_decode_cont(v, r),
                    }
                } else if c == 'x' {
                    if v.len() - r < 3 {
                        prefix + seq!['\\'] + py_decode_cont(v, r)
                    } else {
                        match spec_from_radix(v.subrange(r + 1, r + 3), 16) {
                            Some(x) => prefix + seq![((x as u32) as char)] + py_decode_double(
                                v,
                                r + 3,
                            ),
                            None => prefix + seq!['\\'] + py_decode_cont(v, r),
                        }
                    }
                } else if c == 'u' {
                    if v.len() - r < 5 {
                        prefix + seq!['\\'] + py_decode_cont(v, r)
                    } else {
                        match spec_from_radix(v.subrange(r + 1, r + 5), 16) {
                            Some(x) => if is_scalar(x as u32) {
                                prefix + seq![((x as u32) as char)] + py_decode_double(v, r + 5)
                            } else {
                                prefix + seq!['\\'] + py_decode_cont(v, r)
                            },
                            None => prefix + seq!['\\'] + py_decode_cont(v, r),
                        }
                    }
                } else if c == 'U' {
                    if v.len() - r < 7 {
                        prefix + seq!['\\'] + py_decode_cont(v, r)
                    } else {
                        match spec_from_radix(v.subrange(r + 1, r + 7), 16) {
                            Some(x) => if is_scalar(x as u32) {
                                prefix + seq![((x as u32) as char)] + py_decode_double(v, r + 7)
                            } else {
                                prefix + seq!['\\'] + py_decode_cont(v, r)
                            },
                            None => prefix + seq!['\\'] + py_decode_cont(v, r),
                        }
                    }
                } else {
                    prefix + seq!['\\'] + py_decode_cont(v, r)
                }
            }
        }
    }
}

/// The decoding continued at a position just after a kept backslash.
pub open spec fn py_decode_cont(v: Seq<char>, r: int) -> Seq<char>
    decreases v.len() - r, 1int
{
    py_decode_double(v, r)
}

#[via_fn]
proof fn py_decode_double_decreases(v: Seq<char>, i: int) {
    if 0 <= i <= v.len() {
        lemma_char_pos(v, i, '\\');
    }
}

/// The interpolation pass: `$` or `${`, a name up to `:` or `}`, an
/// optional `:-` default, the store's value or the default.
pub open spec fn py_interpolate(v: Seq<char>, i: int, envm: EnvModel) -> Seq<char>
    decreases v.len() - i,
        via py_interpolate_decreases
{
    if i < 0 || i > v.len() {
        Seq::empty()
    } else {
        let d = char_pos(v, i, '$');
        if d >= v.len() {
            v.subrange(i, v.len() as int)
        } else {
            let prefix = v.subrange(i, d);
            let p0 = if d + 1 < v.len() && v[d + 1] == '{' {
                d + 2
            } else {
                d + 1
            };
            let ke = py_colon_brace(v, p0);
            let key = v.subrange(p0, ke);
            let has_default = ke + 1 < v.len() && v[ke] == ':' && v[ke + 1] == '-';
            let de = if has_default {
                char_pos(v, ke + 2, '}')
            } else {
                ke
            };
            let dflt: Seq<char> = if has_default {
                v.subrange(ke + 2, de)
            } else {
                Seq::empty()
            };
            let after = if de < v.len() && v[de] == '}' {
                de + 1
            } else {
                de
            };
            let piece: Seq<char> = if envm.contains_key(key) {
                envm[key]
            } else {
                dflt
            };
            if after > d {
                prefix + piece + py_interpolate(v, after, envm)
            } else {
                prefix + piece
            }
        }
    }
}

/// The first `:` or `}` at or after `i`.
pub open spec fn py_colon_brace(s: Seq<char>, i: int) -> int
    decreases s.len() - i,
{
    if i < 0 || i >= s.len() {
        s.len() as int
    } else if s[i] == ':' || s[i] == '}' {
        i
    } else {
        py_colon_brace(s, i + 1)
    }
}

pub proof fn lemma_py_colon_brace(s: Seq<char>, i: int)
    requires
        0 <= i <= s.len(),
    ensures
        i <= py_colon_brace(s, i) <= s.len(),
    decreases s.len() - i,
{
    if i < s.len() && s[i] != ':' && s[i] != '}' {
        lemma_py_colon_brace(s, i + 1);
    }
}

#[via_fn]
proof fn py_interpolate_decreases(v: Seq<char>, i: int, envm: EnvModel) {
    if 0 <= i <= v.len() {
        lemma_char_pos(v, i, '$');
        let d = char_pos(v, i, '$');
        if d < v.len() {
            lemma_py_colon_brace(v, d + 1);
            if d + 2 <= v.len() {
                lemma_py_colon_brace(v, d + 2);
            }
            let p0 = if d + 1 < v.len() && v[d + 1] == '{' {
                d + 2
            } else {
                d + 1
            };
            if 0 <= p0 <= v.len() {
                let ke = py_colon_brace(v, p0);
                lemma_py_colon_brace(v, p0);
                if ke + 2 <= v.len() {
                    lemma_char_pos(v, ke + 2, '}');
                }
            }
        }
    }
}


/// What one binding attempt produced: the end of the input, a
/// failure with its recovery position, or a binding (whose key or
/// value may be missing) with the next position.
pub enum PyStep {
    Finished,
    Failed(Error, int, int),
    Bound(Option<Seq<char>>, Option<Seq<char>>, int, int, int),
}

/// The recovery move after a failed pattern: the rest of the line is
/// consumed, its terminator included.
pub open spec fn py_recover(s: Seq<char>, i: int, lineno: int) -> (int, int) {
    let p = py_line_break(s, i);
    if p >= s.len() {
        (s.len() as int, lineno)
    } else if s[p] == '\r' && p + 1 < s.len() && s[p + 1] == '\n' {
        (p + 2, lineno + 1)
    } else {
        (p + 1, lineno + 1)
    }
}

/// The error a failed pattern reports: the 1-based line and the
/// column from the line start.
pub open spec fn py_fail(s: Seq<char>, i: int, lineno: int) -> PyStep {
    let e = spec_syntax_error(lineno as usize, (1 + i - py_line_start(s, i)) as usize);
    let (rp, rl) = py_recover(s, i, lineno);
    PyStep::Failed(e, rp, rl)
}

/// One binding attempt from the cursor: the pattern sequence of this
/// dialect, with the upstream quirks (the single-quoted key and the
/// spacing after `=` matched against the buffer start).
pub open spec fn py_binding(s: Seq<char>, pos: int, lineno: int) -> PyStep {
    let w1 = py_multiline_ws_end(s, pos);
    let l1 = lineno + py_nl_count(s, pos, w1);
    if w1 >= s.len() {
        PyStep::Finished
    } else {
        let e1 = py_export_end(s, w1);
        if e1 >= s.len() {
            py_key_done(s, e1, l1, lineno, None)
        } else if s[e1] == '#' {
            py_key_done(s, e1, l1, lineno, None)
        } else if s[e1] == '\'' {
            // the upstream single-quoted key pattern searches from the
            // buffer start
            let q = char_pos(s, 1, '\'');
            if q >= s.len() || q == 1 {
                py_fail(s, e1, l1)
            } else {
                let kend0 = e1 + q + 1;
                let kend = if kend0 > s.len() {
                    s.len() as int
                } else {
                    kend0
                };
                py_key_done(
                    s,
                    kend,
                    l1 + py_nl_count(s, e1, kend),
                    lineno,
                    Some(s.subrange(1, q)),
                )
            }
        } else {
            let ke = py_unquoted_key_end(s, e1);
            if ke == e1 {
                py_fail(s, e1, l1)
            } else {
                py_key_done(s, ke, l1, lineno, Some(s.subrange(e1, ke)))
            }
        }
    }
}

/// The steps after the key: inline whitespace, `=`, the value, the
/// comment, and the line end.
pub open spec fn py_key_done(
    s: Seq<char>,
    kpos: int,
    l1: int,
    mark_lineno: int,
    key: Option<Seq<char>>,
) -> PyStep {
    let w2 = py_ws_end(s, kpos);
    if w2 < s.len() && s[w2] == '=' {
        // the upstream spacing pattern after `=` measures from the
        // buffer start
        let p_rel = py_ws_end(s, 1) - 1;
        let vpos0 = w2 + 1 + p_rel;
        let vpos = if vpos0 > s.len() {
            s.len() as int
        } else {
            vpos0
        };
        let l2 = l1 + py_nl_count(s, w2, vpos);
        if vpos >= s.len() {
            py_value_done(s, vpos, l2, mark_lineno, key, Some(Seq::empty()))
        } else if s[vpos] == '\'' || s[vpos] == '"' {
            match py_quote_end(s, vpos + 1, s[vpos]) {
                Some(q) => {
                    let inner = s.subrange(vpos + 1, q);
                    let value = if s[vpos] == '\'' {
                        py_decode_single(inner, 0)
                    } else {
                        py_decode_double(inner, 0)
                    };
                    py_value_done(
                        s,
                        q + 1,
                        l2 + py_nl_count(s, vpos, q + 1),
                        mark_lineno,
                        key,
                        Some(value),
                    )
                },
                None => py_fail(s, vpos, l2),
            }
        } else if s[vpos] == '\n' || s[vpos] == '\r' {
            py_value_done(s, vpos, l2, mark_lineno, key, Some(Seq::empty()))
        } else {
            let uend = py_line_break(s, vpos);
            let h = char_pos(s, vpos, '#');
            let ve = if h < uend {
                h
            } else {
                uend
            };
            let raw = s.subrange(vpos, ve);
            let value = raw.subrange(0, py_uni_trim_end(raw, raw.len() as int));
            py_value_done(s, uend, l2, mark_lineno, key, Some(value))
        }
    } else {
        py_value_done(s, w2, l1, mark_lineno, key, None)
    }
}

/// Trailing Unicode whitespace stripped.
pub open spec fn py_uni_trim_end(v: Seq<char>, j: int) -> int
    decreases j,
{
    if j <= 0 {
        0
    } else if is_unicode_whitespace(v[j - 1]) {
        py_uni_trim_end(v, j - 1)
    } else {
        j
    }
}

pub proof fn lemma_py_uni_trim_end(v: Seq<char>, j: int)
    requires
        0 <= j,
    ensures
        0 <= py_uni_trim_end(v, j) <= j,
    decreases j,
{
    if j > 0 && is_unicode_whitespace(v[j - 1]) {
        lemma_py_uni_trim_end(v, j - 1);
    }
}

/// The comment and line-end steps after the value.
pub open spec fn py_value_done(
    s: Seq<char>,
    vend: int,
    l2: int,
    mark_lineno: int,
    key: Option<Seq<char>>,
    value: Option<Seq<char>>,
) -> PyStep {
    let h = py_ws_end(s, vend);
    let cend = if h < s.len() && s[h] == '#' {
        py_line_break(s, h)
    } else {
        vend
    };
    let p = py_ws_end(s, cend);
    if p >= s.len() {
        PyStep::Bound(key, value, s.len() as int, l2, mark_lineno)
    } else if s[p] == '\r' && p + 1 < s.len() && s[p + 1] == '\n' {
        PyStep::Bound(key, value, p + 2, l2 + 1, mark_lineno)
    } else if s[p] == '\n' || s[p] == '\r' {
        PyStep::Bound(key, value, p + 1, l2 + 1, mark_lineno)
    } else {
        py_fail(s, cend, l2)
    }
}

/// The outcome of this dialect from the cursor on.
pub open spec fn py_from(
    s: Seq<char>,
    pos: int,
    lineno: int,
    env: EnvModel,
    ovr: bool,
    strict: bool,
) -> ParseOut
    decreases s.len() - pos,
        via py_from_decreases
{
    if !(0 <= pos && pos < s.len()) {
        ParseOut::done(env, Seq::empty())
    } else {
        match py_binding(s, pos, lineno) {
            PyStep::Finished => ParseOut::done(env, Seq::empty()),
            PyStep::Failed(e, rp, rl) => if strict {
                ParseOut::fail(e, env, Seq::empty())
            } else {
                if rp > pos && rp <= s.len() {
                    py_from(s, rp, rl, env, ovr, strict)
                } else {
                    ParseOut::done(env, Seq::empty())
                }
            },
            PyStep::Bound(key, value, nxt, l2, markl) => match key {
                None => if strict {
                    ParseOut::fail(spec_syntax_error(markl as usize, 1), env, Seq::empty())
                } else {
                    if nxt > pos && nxt <= s.len() {
                        py_from(s, nxt, l2, env, ovr, strict)
                    } else {
                        ParseOut::done(env, Seq::empty())
                    }
                },
                Some(k) => {
                    if value is None && strict {
                        ParseOut::fail(spec_syntax_error(markl as usize, 1), env, Seq::empty())
                    } else {
                        let vv = match value {
                            Some(v) => v,
                            None => Seq::empty(),
                        };
                        let val2 = py_interpolate(vv, 0, env);
                        let kk = cut_nul(k);
                        let vv2 = cut_nul(val2);
                        let env2 = spec_set_var(env, kk, vv2, ovr);
                        let rest = if nxt > pos && nxt <= s.len() {
                            py_from(s, nxt, l2, env2, ovr, strict)
                        } else {
                            ParseOut::done(env2, Seq::empty())
                        };
                        ParseOut {
                            err: rest.err,
                            env: rest.env,
                            writes: seq![(kk, vv2)] + rest.writes,
                        }
                    }
                },
            },
        }
    }
}

#[via_fn]
proof fn py_from_decreases(
    s: Seq<char>,
    pos: int,
    lineno: int,
    env: EnvModel,
    ovr: bool,
    strict: bool,
) {
}

/// The outcome of this dialect on a whole source.
pub open spec fn py_dotenv_spec(
    src: Seq<char>,
    env: EnvModel,
    ovr: bool,
    strict: bool,
) -> ParseOut {
    if src.len() == 0 {
        ParseOut::done(env, Seq::empty())
    } else {
        py_from(src, 0, 1, env, ovr, strict)
    }
}

/// Skips Unicode whitespace, counting line breaks.
fn epy_mws_end(v: &Vec<char>, i: usize) -> (r: usize)
    requires
        i <= v@.len(),
    ensures
        r == py_multiline_ws_end(v@, i as int),
        i <= r <= v@.len(),
{
    let n = v.len();
    let mut j = i;
    while j < n
        invariant
            i <= j <= n,
            n == v@.len(),
            py_multiline_ws_end(v@, i as int) == py_multiline_ws_end(v@, j as int),
        decreases n - j,
    {
        if !unicode_whitespace(v[j]) {
            return j;
        }
        j = j + 1;
    }
    j
}

fn epy_mws(v: &Vec<char>, i: usize, lineno: usize) -> (r: (usize, usize))
    requires
        i <= v@.len(),
        lineno + (v@.len() - i) < usize::MAX,
    ensures
        r.0 == py_multiline_ws_end(v@, i as int),
        r.1 as int == lineno + py_nl_count(v@, i as int, r.0 as int),
        i <= r.0 <= v@.len(),
        lineno <= r.1 <= lineno + (r.0 - i),
{
    let j = epy_mws_end(v, i);
    proof {
        lemma_py_nl_count(v@, i as int, j as int);
    }
    let l = epy_count(v, i, j, lineno);
    (j, l)
}

/// Counts line breaks in `[a, b)`, `\r\n` once.
fn epy_count(v: &Vec<char>, a: usize, b: usize, lineno: usize) -> (r: usize)
    requires
        a <= b <= v@.len(),
        lineno + (b - a) < usize::MAX,
    ensures
        r as int == lineno + py_nl_count(v@, a as int, b as int),
        lineno <= r <= lineno + (b - a),
{
    let mut j = a;
    let mut l = lineno;
    while j < b
        invariant
            a <= j <= b <= v@.len(),
            lineno <= l <= lineno + (j - a),
            lineno + (b - a) < usize::MAX,
            lineno + py_nl_count(v@, a as int, b as int) == l + py_nl_count(
                v@,
                j as int,
                b as int,
            ),
        decreases b - j,
    {
        proof {
            lemma_py_nl_count(v@, j as int, b as int);
        }
        if v[j] == '\r' && j + 1 < b && v[j + 1] == '\n' {
            l = l + 1;
            j = j + 2;
        } else if v[j] == '\r' || v[j] == '\n' {
            l = l + 1;
            j = j + 1;
        } else {
            j = j + 1;
        }
    }
    l
}

/// Skips inline whitespace.
fn epy_ws(v: &Vec<char>, i: usize) -> (r: usize)
    requires
        i <= v@.len(),
    ensures
        r == py_ws_end(v@, i as int),
        i <= r <= v@.len(),
{
    let n = v.len();
    let mut j = i;
    while j < n
        invariant
            i <= j <= n,
            n == v@.len(),
            py_ws_end(v@, i as int) == py_ws_end(v@, j as int),
        decreases n - j,
    {
        let c = v[j];
        if c == '\r' || c == '\n' {
            return j;
        }
        if !unicode_whitespace(c) {
            return j;
        }
        j = j + 1;
    }
    j
}

/// Finds the first line break.
fn epy_line_break(v: &Vec<char>, i: usize) -> (r: usize)
    requires
        i <= v@.len(),
    ensures
        r == py_line_break(v@, i as int),
        i <= r <= v@.len(),
        r < v@.len() ==> (v@[r as int] == '\n' || v@[r as int] == '\r'),
{
    let n = v.len();
    let mut j = i;
    while j < n
        invariant
            i <= j <= n,
            n == v@.len(),
            py_line_break(v@, i as int) == py_line_break(v@, j as int),
        decreases n - j,
    {
        if v[j] == '\n' || v[j] == '\r' {
            return j;
        }
        j = j + 1;
    }
    j
}

/// Finds the end of an unquoted key.
fn epy_key_end(v: &Vec<char>, i: usize) -> (r: usize)
    requires
        i <= v@.len(),
    ensures
        r == py_unquoted_key_end(v@, i as int),
        i <= r <= v@.len(),
{
    let n = v.len();
    let mut j = i;
    while j < n
        invariant
            i <= j <= n,
            n == v@.len(),
            py_unquoted_key_end(v@, i as int) == py_unquoted_key_end(v@, j as int),
        decreases n - j,
    {
        let c = v[j];
        if c == '=' || c == '#' || unicode_whitespace(c) {
            return j;
        }
        j = j + 1;
    }
    j
}

/// Finds the first occurrence of `t` at or after `i`.
fn epy_find(v: &Vec<char>, i: usize, t: char) -> (r: usize)
    requires
        i <= v@.len(),
    ensures
        r == char_pos(v@, i as int, t),
        i <= r <= v@.len(),
        r < v@.len() ==> v@[r as int] == t,
{
    let n = v.len();
    let mut j = i;
    while j < n
        invariant
            i <= j <= n,
            n == v@.len(),
            char_pos(v@, i as int, t) == char_pos(v@, j as int, t),
        decreases n - j,
    {
        if v[j] == t {
            return j;
        }
        j = j + 1;
    }
    j
}

/// The closing-quote search with backtracking.
fn epy_quote_end(v: &Vec<char>, i: usize, quote: char) -> (r: Option<usize>)
    requires
        i <= v@.len(),
    ensures
        ({
            let sp = py_quote_end(v@, i as int, quote);
            match r {
                Some(q) => sp == Some(q as int) && i <= q < v@.len(),
                None => sp is None,
            }
        }),
    decreases v@.len() - i,
{
    let q = epy_find(v, i, quote);
    if q >= v.len() {
        return None;
    }
    if q > i && v[q - 1] == '\\' {
        proof {
            lemma_py_quote_end(v@, i as int, quote);
        }
        match epy_quote_end(v, q + 1, quote) {
            Some(q2) => Some(q2),
            None => Some(q),
        }
    } else {
        Some(q)
    }
}

/// Strips trailing Unicode whitespace.
fn epy_trim_end(v: &Vec<char>) -> (r: Vec<char>)
    ensures
        r@ == v@.subrange(0, py_uni_trim_end(v@, v@.len() as int)),
{
    let n = v.len();
    let mut b: usize = n;
    while b > 0 && unicode_whitespace(v[b - 1])
        invariant
            b <= n,
            n == v@.len(),
            py_uni_trim_end(v@, n as int) == py_uni_trim_end(v@, b as int),
        decreases b,
    {
        b = b - 1;
    }
    proof {
        lemma_py_uni_trim_end(v@, b as int);
    }
    subvec(v, 0, b)
}

/// The single-quote escape decoding.
fn epy_decode_single(v: &Vec<char>) -> (r: Vec<char>)
    ensures
        r@ == py_decode_single(v@, 0),
{
    let n = v.len();
    let mut out: Vec<char> = Vec::new();
    let mut i: usize = 0;
    while i < n
        invariant
            i <= n,
            n == v@.len(),
            py_decode_single(v@, 0) == out@ + py_decode_single(v@, i as int),
        decreases n - i,
    {
        let b = epy_find(v, i, '\\');
        push_range(&mut out, v, i, b);
        if b >= n {
            proof {
                assert(py_decode_single(v@, 0) =~= out@);
            }
            return out;
        }
        if b + 1 < n && (v[b + 1] == '\\' || v[b + 1] == '\'') {
            out.push(v[b + 1]);
            i = b + 2;
        } else {
            out.push('\\');
            i = b + 1;
        }
    }
    proof {
        assert(py_decode_single(v@, i as int) =~= Seq::<char>::empty());
        assert(py_decode_single(v@, 0) =~= out@);
    }
    out
}


/// Appends one character, stated as a one-element concatenation.
fn push1(out: &mut Vec<char>, c: char)
    ensures
        final(out)@ == old(out)@ + seq![c],
{
    let ghost p = out@;
    out.push(c);
    proof {
        assert(out@ =~= p + seq![c]);
    }
}

/// The double-quote escape decoding.
#[verifier::rlimit(100)]
fn epy_decode_double(v: &Vec<char>) -> (r: Vec<char>)
    ensures
        r@ == py_decode_double(v@, 0),
{
    let n = v.len();
    let mut out: Vec<char> = Vec::new();
    let mut i: usize = 0;
    while i < n
        invariant
            i <= n,
            n == v@.len(),
            py_decode_double(v@, 0) == out@ + py_decode_double(v@, i as int),
        decreases n - i,
    {
        proof {
            reveal_with_fuel(py_decode_double, 3);
            reveal_with_fuel(py_decode_cont, 3);
        }
        let b = epy_find(v, i, '\\');
        push_range(&mut out, v, i, b);
        if b >= n {
            proof {
                assert(py_decode_double(v@, 0) =~= out@);
            }
            return out;
        }
        let r1 = b + 1;
        if r1 >= n {
            push1(&mut out, '\\');
            proof {
                assert(py_decode_double(v@, 0) =~= out@);
            }
            return out;
        }
        let c = v[r1];
        if c == '\n' {
            i = r1 + 1;
        } else if c == '\\' || c == '\'' || c == '"' {
            push1(&mut out, c);
            i = r1 + 1;
        } else if c == 'a' {
            push1(&mut out, '\u{7}');
            i = r1 + 1;
        } else if c == 'b' {
            push1(&mut out, '\u{8}');
            i = r1 + 1;
        } else if c == 'f' {
            push1(&mut out, '\u{C}');
            i = r1 + 1;
        } else if c == 'n' {
            push1(&mut out, '\n');
            i = r1 + 1;
        } else if c == 'r' {
            push1(&mut out, '\r');
            i = r1 + 1;
        } else if c == 't' {
            push1(&mut out, '\t');
            i = r1 + 1;
        } else if c == 'v' {
            push1(&mut out, '\u{B}');
            i = r1 + 1;
        } else if '0' <= c && c <= '7' {
            let mut k: usize = 1;
            if r1 + 1 < n && '0' <= v[r1 + 1] && v[r1 + 1] <= '7' {
                if r1 + 2 < n && '0' <= v[r1 + 2] && v[r1 + 2] <= '7' {
                    k = 3;
                } else {
                    k = 2;
                }
            }
            let parsed = from_radix(v, r1, r1 + k, 8);
            let mut ok = false;
            match parsed {
                Some(x) => {
                    if x <= 255 {
                        match char_from_u32(x) {
                            Some(ch) => {
                                push1(&mut out, ch);
                                i = r1 + k;
                                ok = true;
                            },
                            None => {
                                proof {
                                    assert(false);
                                }
                            },
                        }
                    }
                },
                None => {
                },
            }
            if !ok {
                push1(&mut out, '\\');
                i = r1;
            }
        } else if c == 'x' {
            if n - r1 < 3 {
                push1(&mut out, '\\');
                i = r1;
            } else {
                let parsed = from_radix(v, r1 + 1, r1 + 3, 16);
                match parsed {
                    Some(x) => {
                        proof {
                            crate::text::lemma_from_radix_byte(v@.subrange(r1 + 1, r1 + 3));
                        }
                        match char_from_u32(x) {
                            Some(ch) => {
                                push1(&mut out, ch);
                                i = r1 + 3;
                            },
                            None => {
                                proof {
                                    assert(false);
                                }
                                i = r1 + 3;
                            },
                        }
                    },
                    None => {
                        push1(&mut out, '\\');
                        i = r1;
                    },
                }
            }
        } else if c == 'u' {
            if n - r1 < 5 {
                push1(&mut out, '\\');
                i = r1;
            } else {
                let parsed = from_radix(v, r1 + 1, r1 + 5, 16);
                let mut ok = false;
                match parsed {
                    Some(x) => {
                        match char_from_u32(x) {
                            Some(ch) => {
                                push1(&mut out, ch);
                                i = r1 + 5;
                                ok = true;
                            },
                            None => {
                            },
                        }
                    },
                    None => {
                    },
                }
                if !ok {
                    push1(&mut out, '\\');
                    i = r1;
                }
            }
        } else if c == 'U' {
            if n - r1 < 7 {
                push1(&mut out, '\\');
                i = r1;
            } else {
                let parsed = from_radix(v, r1 + 1, r1 + 7, 16);
                let mut ok = false;
                match parsed {
                    Some(x) => {
                        match char_from_u32(x) {
                            Some(ch) => {
                                push1(&mut out, ch);
                                i = r1 + 7;
                                ok = true;
                            },
                            None => {
                            },
                        }
                    },
                    None => {
                    },
                }
                if !ok {
                    push1(&mut out, '\\');
                    i = r1;
                }
            }
        } else {
            push1(&mut out, '\\');
            i = r1;
        }
    }
    proof {
        assert(py_decode_double(v@, i as int) =~= Seq::<char>::empty());
        assert(py_decode_double(v@, 0) =~= out@);
    }
    out
}

/// The first `:` or `}`.
fn epy_colon_brace(v: &Vec<char>, i: usize) -> (r: usize)
    requires
        i <= v@.len(),
    ensures
        r == py_colon_brace(v@, i as int),
        i <= r <= v@.len(),
{
    let n = v.len();
    let mut j = i;
    while j < n
        invariant
            i <= j <= n,
            n == v@.len(),
            py_colon_brace(v@, i as int) == py_colon_brace(v@, j as int),
        decreases n - j,
    {
        if v[j] == ':' || v[j] == '}' {
            return j;
        }
        j = j + 1;
    }
    j
}

/// The interpolation pass against the store.
#[verifier::rlimit(100)]
fn epy_interpolate(v: &Vec<char>, env: &MemoryEnv) -> (r: Vec<char>)
    requires
        env.wf(),
    ensures
        r@ == py_interpolate(v@, 0, env.as_map()),
{
    let n = v.len();
    let mut out: Vec<char> = Vec::new();
    let mut i: usize = 0;
    while i < n
        invariant
            env.wf(),
            i <= n,
            n == v@.len(),
            py_interpolate(v@, 0, env.as_map()) == out@ + py_interpolate(
                v@,
                i as int,
                env.as_map(),
            ),
        decreases n - i,
    {
        let d = epy_find(v, i, '$');
        push_range(&mut out, v, i, d);
        if d >= n {
            proof {
                assert(py_interpolate(v@, 0, env.as_map()) =~= out@);
            }
            return out;
        }
        let p0 = if d + 1 < n && v[d + 1] == '{' {
            d + 2
        } else {
            d + 1
        };
        let ke = epy_colon_brace(v, p0);
        let key = subvec(v, p0, ke);
        let has_default = n - ke > 1 && v[ke] == ':' && v[ke + 1] == '-';
        let de = if has_default {
            epy_find(v, ke + 2, '}')
        } else {
            ke
        };
        let dflt = if has_default {
            subvec(v, ke + 2, de)
        } else {
            let emp: Vec<char> = Vec::new();
            proof {
                assert(emp@ =~= Seq::<char>::empty());
            }
            emp
        };
        let after = if de < n && v[de] == '}' {
            de + 1
        } else {
            de
        };
        match env.get_chars(&key) {
            Some(val) => {
                push_all(&mut out, &val);
            },
            None => {
                push_all(&mut out, &dflt);
            },
        }
        if after > d {
            i = after;
        } else {
            // the scan always advances past the dollar sign
            proof {
                assert(false);
            }
            return out;
        }
    }
    proof {
        assert(py_interpolate(v@, i as int, env.as_map()) =~= Seq::<char>::empty());
        assert(py_interpolate(v@, 0, env.as_map()) =~= out@);
    }
    out
}

/// The executable outcome of one binding attempt.
pub(crate) enum PyStepExec {
    Finished,
    Failed(Error, usize, usize),
    Bound(Option<Vec<char>>, Option<Vec<char>>, usize, usize, usize),
}

/// One binding attempt from the cursor.
#[verifier::rlimit(100)]
#[verifier::spinoff_prover]
fn epy_binding(v: &Vec<char>, pos: usize, lineno: usize) -> (r: PyStepExec)
    requires
        pos < v@.len(),
        1 <= lineno,
        v@.len() < 0x40000000,
        lineno + v@.len() < usize::MAX - 4,
    ensures
        ({
            let sp = py_binding(v@, pos as int, lineno as int);
            match r {
                PyStepExec::Finished => sp == PyStep::Finished,
                PyStepExec::Failed(e, rp, rl) => sp == PyStep::Failed(e, rp as int, rl as int)
                    && pos <= rp <= v@.len() && lineno <= rl <= lineno + (rp - pos),
                PyStepExec::Bound(k, vv, nxt, l2, ml) => {
                    let kk = match k {
                        Some(x) => Some(x@),
                        None => None,
                    };
                    let vvv = match vv {
                        Some(x) => Some(x@),
                        None => None,
                    };
                    sp == PyStep::Bound(kk, vvv, nxt as int, l2 as int, ml as int) && pos < nxt
                        <= v@.len() && lineno <= l2 <= lineno + (nxt - pos) && ml == lineno
                },
            }
        }),
{
    let n = v.len();
    let (w1, l1) = epy_mws(v, pos, lineno);
    if w1 >= n {
        return PyStepExec::Finished;
    }
    let e1 = py_export_skip(v, w1);
    if e1 >= n || v[e1] == '#' {
        epy_key_done(v, pos, e1, l1, lineno, None)
    } else if v[e1] == '\'' {
        let q = epy_find(v, 1, '\'');
        if q >= n || q == 1 {
            epy_fail(v, pos, e1, l1, lineno)
        } else {
            let kend0 = e1 + q + 1;
            let kend = if kend0 > n {
                n
            } else {
                kend0
            };
            let l1b = epy_count(v, e1, kend, l1);
            let key = subvec(v, 1, q);
            epy_key_done(v, pos, kend, l1b, lineno, Some(key))
        }
    } else {
        let ke = epy_key_end(v, e1);
        if ke == e1 {
            epy_fail(v, pos, e1, l1, lineno)
        } else {
            let key = subvec(v, e1, ke);
            epy_key_done(v, pos, ke, l1, lineno, Some(key))
        }
    }
}

/// The `export` prefix skip.
fn py_export_skip(v: &Vec<char>, i: usize) -> (r: usize)
    requires
        i <= v@.len(),
    ensures
        r == py_export_end(v@, i as int),
        i <= r <= v@.len(),
{
    if v.len() > 6 && i < v.len() - 6 && v[i] == 'e' && v[i + 1] == 'x' && v[i + 2] == 'p' && v[i + 3] == 'o'
        && v[i + 4] == 'r' && v[i + 5] == 't' {
        let c = v[i + 6];
        let inline = c != '\r' && c != '\n' && unicode_whitespace(c);
        if inline {
            epy_ws(v, i + 6)
        } else {
            i
        }
    } else {
        i
    }
}

/// A failed pattern: the error and the recovery position.
fn epy_fail(v: &Vec<char>, pos: usize, i: usize, lineno: usize, mark: usize) -> (r: PyStepExec)
    requires
        pos <= i <= v@.len(),
        lineno + 2 < usize::MAX,
        v@.len() + 2 < usize::MAX,
    ensures
        ({
            let sp = py_fail(v@, i as int, lineno as int);
            match r {
                PyStepExec::Failed(e, rp, rl) => sp == PyStep::Failed(e, rp as int, rl as int)
                    && i <= rp <= v@.len() && lineno <= rl && rl <= lineno + (if rp > i {
                    rp - i
                } else {
                    0
                }),
                _ => false,
            }
        }),
{
    let ls = epy_line_start_find(v, i);
    let e = Error::syntax_error(lineno, 1 + i - ls);
    let p = epy_line_break(v, i);
    if p >= v.len() {
        PyStepExec::Failed(e, v.len(), lineno)
    } else if v[p] == '\r' && p + 1 < v.len() && v[p + 1] == '\n' {
        PyStepExec::Failed(e, p + 2, lineno + 1)
    } else {
        PyStepExec::Failed(e, p + 1, lineno + 1)
    }
}

/// The start of the line holding `i`.
fn epy_line_start_find(v: &Vec<char>, i: usize) -> (r: usize)
    requires
        i <= v@.len(),
    ensures
        r == py_line_start(v@, i as int),
        r <= i,
{
    let mut j = i;
    while j > 0
        invariant
            j <= i <= v@.len(),
            py_line_start(v@, i as int) == py_line_start(v@, j as int),
        decreases j,
    {
        if v[j - 1] == '\n' || v[j - 1] == '\r' {
            return j;
        }
        j = j - 1;
    }
    0
}

/// The steps after the key.
#[verifier::rlimit(100)]
#[verifier::spinoff_prover]
fn epy_key_done(
    v: &Vec<char>,
    pos: usize,
    kpos: usize,
    l1: usize,
    mark: usize,
    key: Option<Vec<char>>,
) -> (r: PyStepExec)
    requires
        pos < v@.len(),
        pos <= kpos <= v@.len(),
        v@.len() < 0x40000000,
        1 <= mark <= l1,
        l1 + (v@.len() - kpos) < usize::MAX - 4,
    ensures
        ({
            let kk = match key {
                Some(x) => Some(x@),
                None => None::<Seq<char>>,
            };
            let sp = py_key_done(v@, kpos as int, l1 as int, mark as int, kk);
            match r {
                PyStepExec::Finished => false,
                PyStepExec::Failed(e, rp, rl) => sp == PyStep::Failed(e, rp as int, rl as int)
                    && pos <= rp <= v@.len() && kpos <= rp && l1 <= rl && rl <= l1 + (if rp > kpos {
                    rp - kpos
                } else {
                    0
                }),
                PyStepExec::Bound(k2, vv, nxt, l2, ml) => {
                    let kk2 = match k2 {
                        Some(x) => Some(x@),
                        None => None,
                    };
                    let vvv = match vv {
                        Some(x) => Some(x@),
                        None => None,
                    };
                    sp == PyStep::Bound(kk2, vvv, nxt as int, l2 as int, ml as int) && pos < nxt
                        <= v@.len() && l1 <= l2 && l2 <= l1 + (nxt - kpos) && ml == mark
                },
            }
        }),
{
    let n = v.len();
    let w2 = epy_ws(v, kpos);
    if w2 < n && v[w2] == '=' {
        let pr = epy_ws(v, 1);
        let p_rel = pr - 1;
        let vpos0 = w2 + 1 + p_rel;
        let vpos = if vpos0 > n {
            n
        } else {
            vpos0
        };
        let l2 = epy_count(v, w2, vpos, l1);
        if vpos >= n {
            let emp: Vec<char> = Vec::new();
            proof {
                assert(emp@ =~= Seq::<char>::empty());
            }
            epy_value_done(v, pos, vpos, l2, mark, key, Some(emp))
        } else if v[vpos] == '\'' || v[vpos] == '"' {
            match epy_quote_end(v, vpos + 1, v[vpos]) {
                Some(q) => {
                    let inner = subvec(v, vpos + 1, q);
                    let value = if v[vpos] == '\'' {
                        epy_decode_single(&inner)
                    } else {
                        epy_decode_double(&inner)
                    };
                    let l3 = epy_count(v, vpos, q + 1, l2);
                    epy_value_done(v, pos, q + 1, l3, mark, key, Some(value))
                },
                None => epy_fail(v, pos, vpos, l2, mark),
            }
        } else if v[vpos] == '\n' || v[vpos] == '\r' {
            let emp: Vec<char> = Vec::new();
            proof {
                assert(emp@ =~= Seq::<char>::empty());
            }
            epy_value_done(v, pos, vpos, l2, mark, key, Some(emp))
        } else {
            let uend = epy_line_break(v, vpos);
            let h = epy_find(v, vpos, '#');
            let ve = if h < uend {
                h
            } else {
                uend
            };
            let raw = subvec(v, vpos, ve);
            let value = epy_trim_end(&raw);
            epy_value_done(v, pos, uend, l2, mark, key, Some(value))
        }
    } else {
        epy_value_done(v, pos, w2, l1, mark, key, None)
    }
}

/// The comment and line-end steps.
#[verifier::rlimit(100)]
fn epy_value_done(
    v: &Vec<char>,
    pos: usize,
    vend: usize,
    l2: usize,
    mark: usize,
    key: Option<Vec<char>>,
    value: Option<Vec<char>>,
) -> (r: PyStepExec)
    requires
        pos < v@.len(),
        pos <= vend <= v@.len(),
        1 <= mark <= l2,
        l2 + 2 < usize::MAX,
        v@.len() < 0x40000000,
    ensures
        ({
            let kk = match key {
                Some(x) => Some(x@),
                None => None::<Seq<char>>,
            };
            let vvx = match value {
                Some(x) => Some(x@),
                None => None::<Seq<char>>,
            };
            let sp = py_value_done(v@, vend as int, l2 as int, mark as int, kk, vvx);
            match r {
                PyStepExec::Finished => false,
                PyStepExec::Failed(e, rp, rl) => sp == PyStep::Failed(e, rp as int, rl as int)
                    && pos <= rp <= v@.len() && vend <= rp && l2 <= rl && rl <= l2 + (if rp > vend {
                    rp - vend
                } else {
                    0
                }),
                PyStepExec::Bound(k2, vv, nxt, l3, ml) => {
                    let kk2 = match k2 {
                        Some(x) => Some(x@),
                        None => None,
                    };
                    let vvv = match vv {
                        Some(x) => Some(x@),
                        None => None,
                    };
                    sp == PyStep::Bound(kk2, vvv, nxt as int, l3 as int, ml as int) && pos < nxt
                        <= v@.len() && l2 <= l3 && l3 <= l2 + (nxt - vend) && ml == mark
                },
            }
        }),
{
    let n = v.len();
    let h = epy_ws(v, vend);
    let cend = if h < n && v[h] == '#' {
        epy_line_break(v, h)
    } else {
        vend
    };
    let p = epy_ws(v, cend);
    if p >= n {
        PyStepExec::Bound(key, value, n, l2, mark)
    } else if v[p] == '\r' && p + 1 < n && v[p + 1] == '\n' {
        PyStepExec::Bound(key, value, p + 2, l2 + 1, mark)
    } else if v[p] == '\n' || v[p] == '\r' {
        PyStepExec::Bound(key, value, p + 1, l2 + 1, mark)
    } else {
        epy_fail(v, pos, cend, l2, mark)
    }
}

/// Parses a source in the Python dotenv dialect.  The outcome, store
/// included, is exactly `py_dotenv_spec`.
#[verifier::rlimit(100)]
#[verifier::spinoff_prover]
pub fn config_python_dotenv(src: &str, env: &mut MemoryEnv, options: &Options) -> (r: Result<
    (),
    Error,
>)
    requires
        old(env).wf(),
        // the scanner re-reads parts of failed lines, so the line
        // counter can grow quadratically; this bound keeps it within
        // a 32-bit usize
        src@.len() < 0x8000,
    ensures
        final(env).wf(),
        ({
            let out = py_dotenv_spec(src@, old(env).as_map(), options.override_env, options.strict);
            &&& final(env).as_map() == out.env
            &&& final(env).entries_seq() == apply_writes(
                old(env).entries_seq(),
                out.writes,
                0,
                options.override_env,
            )
            &&& (match r {
                Ok(()) => out.err is None,
                Err(e) => out.err == Some(e),
            })
        }),
{
    let all = chars_of(src);
    let n = all.len();
    if n == 0 {
        return Ok(());
    }
    let ghost target = py_dotenv_spec(
        src@,
        old(env).as_map(),
        options.override_env,
        options.strict,
    );
    let mut pos: usize = 0;
    let mut lineno: usize = 1;
    while pos < n
        invariant
            env.wf(),
            n == all@.len(),
            n == src@.len() < 0x8000,
            pos <= n,
            1 <= lineno <= pos + 1,
            all@ == src@,
            target == py_dotenv_spec(
                src@,
                old(env).as_map(),
                options.override_env,
                options.strict,
            ),
            ({
                let cur = py_from(
                    all@,
                    pos as int,
                    lineno as int,
                    env.as_map(),
                    options.override_env,
                    options.strict,
                );
                &&& target.err == cur.err
                &&& target.env == cur.env
                &&& apply_writes(old(env).entries_seq(), target.writes, 0, options.override_env)
                    == apply_writes(env.entries_seq(), cur.writes, 0, options.override_env)
            }),
        decreases n - pos,
    {
        match epy_binding(&all, pos, lineno) {
            PyStepExec::Finished => {
                return Ok(());
            },
            PyStepExec::Failed(e, rp, rl) => {
                if options.strict {
                    return Err(e);
                }
                if rp > pos && rp <= n {
                    pos = rp;
                    lineno = rl;
                } else {
                    return Ok(());
                }
            },
            PyStepExec::Bound(k, vv, nxt, l2, ml) => {
                match k {
                    None => {
                        if options.strict {
                            return Err(Error::syntax_error(ml, 1));
                        }
                        if nxt > pos && nxt <= n {
                            pos = nxt;
                            lineno = l2;
                        } else {
                            return Ok(());
                        }
                    },
                    Some(key) => {
                        if matches!(vv, None) && options.strict {
                            return Err(Error::syntax_error(ml, 1));
                        }
                        let value = match vv {
                            Some(x) => x,
                            None => {
                                let emp: Vec<char> = Vec::new();
                                proof {
                                    assert(emp@ =~= Seq::<char>::empty());
                                }
                                emp
                            },
                        };
                        let val2 = epy_interpolate(&value, env);
                        let ghost envb = env.as_map();
                        let ghost eb = env.entries_seq();
                        options.set_var_cut_nul(env, &key, &val2);
                        proof {
                            let cb = all@;
                            let cur = py_from(
                                cb,
                                pos as int,
                                lineno as int,
                                envb,
                                options.override_env,
                                options.strict,
                            );
                            let w = (cut_nul(key@), cut_nul(val2@));
                            let env2 = spec_set_var(envb, w.0, w.1, options.override_env);
                            let rest = if nxt as int > pos as int && nxt as int <= cb.len() {
                                py_from(
                                    cb,
                                    nxt as int,
                                    l2 as int,
                                    env2,
                                    options.override_env,
                                    options.strict,
                                )
                            } else {
                                ParseOut::done(env2, Seq::empty())
                            };
                            assert(cur.writes == seq![w] + rest.writes);
                            crate::model::lemma_apply_writes_step(
                                eb,
                                w,
                                rest.writes,
                                options.override_env,
                            );
                        }
                        if nxt > pos && nxt <= n {
                            pos = nxt;
                            lineno = l2;
                        } else {
                            return Ok(());
                        }
                    },
                }
            },
        }
    }
    Ok(())
}

/// A cursor into the source: the position and the 1-based line.
#[derive(Debug, Clone, Copy)]
pub struct Position {
    pub index: usize,
    pub lineno: usize,
}

impl Position {
    /// The cursor at the start of the source.
    pub fn start() -> (r: Self)
        ensures
            r.index == 0 && r.lineno == 1,
    {
        Self { index: 0, lineno: 1 }
    }

    /// Copies another cursor.
    pub fn set(&mut self, other: &Position)
        ensures
            *final(self) == *other,
    {
        self.index = other.index;
        self.lineno = other.lineno;
    }

    /// Advances over a matched piece of text, counting its line
    /// breaks.
    pub fn advance(&mut self, string: &str)
        requires
            old(self).index + string@.len() < usize::MAX,
            old(self).lineno + string@.len() < usize::MAX,
        ensures
            final(self).index == old(self).index + string@.len(),
            final(self).lineno as int == old(self).lineno + py_nl_count(
                string@,
                0,
                string@.len() as int,
            ),
    {
        let v = chars_of(string);
        self.index = self.index + v.len();
        let l = epy_count(&v, 0, v.len(), self.lineno);
        self.lineno = l;
    }
}

/// The patterns the reader can be asked to match.
#[derive(Debug, Clone, Copy)]
pub enum Pattern {
    MultilineWhitespace,
    Whitespace,
    RestOfLine,
}

/// A whole-buffer reader with a cursor and a mark.
#[derive(Debug)]
pub struct Reader {
    pub src: Vec<char>,
    pub position: Position,
    pub mark: Position,
}

impl Reader {
    /// The text being read.
    pub open spec fn text(&self) -> Seq<char> {
        self.src@
    }

    /// A reader over the given text.
    pub fn new(string: &str) -> (r: Self)
        ensures
            r.text() == string@,
            r.position.index == 0 && r.position.lineno == 1,
            r.mark.index == 0 && r.mark.lineno == 1,
    {
        Self { src: chars_of(string), position: Position::start(), mark: Position::start() }
    }

    /// Whether any text is left.
    pub fn has_next(&self) -> (r: bool)
        ensures
            r == (self.position.index < self.text().len()),
    {
        self.position.index < self.src.len()
    }

    /// Remembers the current cursor as the binding start.
    pub fn set_mark(&mut self)
        ensures
            final(self).mark == old(self).position,
            final(self).position == old(self).position,
            final(self).text() == old(self).text(),
    {
        let p = self.position;
        self.mark.set(&p);
    }

    /// The character at the cursor.
    pub fn peek(&self) -> (r: Option<char>)
        requires
            self.position.index <= self.text().len(),
        ensures
            match r {
                Some(c) => self.position.index < self.text().len() && c == self.text()[
                    self.position.index as int
                ],
                None => self.position.index >= self.text().len(),
            },
    {
        if self.position.index < self.src.len() {
            Some(self.src[self.position.index])
        } else {
            None
        }
    }

    /// Matches one of the always-matching skip patterns at the
    /// cursor and advances past it.
    pub fn read_pattern(&mut self, pattern: Pattern) -> (r: Result<(usize, usize), Error>)
        requires
            old(self).position.index <= old(self).text().len(),
            old(self).position.lineno + old(self).text().len() < usize::MAX - 2,
        ensures
            final(self).text() == old(self).text(),
            final(self).mark == old(self).mark,
            ({
                let s = old(self).text();
                let i = old(self).position.index as int;
                let l = old(self).position.lineno as int;
                match r {
                    Ok((a, b)) => a == i && final(self).position.index == b && (match pattern {
                        Pattern::MultilineWhitespace => {
                            &&& b as int == py_multiline_ws_end(s, i)
                            &&& final(self).position.lineno as int == l + py_nl_count(
                                s,
                                i,
                                b as int,
                            )
                        },
                        Pattern::Whitespace => {
                            &&& b as int == py_ws_end(s, i)
                            &&& final(self).position.lineno == old(self).position.lineno
                        },
                        Pattern::RestOfLine => {
                            &&& b as int == py_recover(s, i, l).0
                            &&& final(self).position.lineno as int == py_recover(s, i, l).1
                        },
                    }),
                    Err(_) => false,
                }
            }),
    {
        let i = self.position.index;
        match pattern {
            Pattern::MultilineWhitespace => {
                let (j, l) = epy_mws(&self.src, i, self.position.lineno);
                self.position.index = j;
                self.position.lineno = l;
                Ok((i, j))
            },
            Pattern::Whitespace => {
                let j = epy_ws(&self.src, i);
                self.position.index = j;
                Ok((i, j))
            },
            Pattern::RestOfLine => {
                let p = epy_line_break(&self.src, i);
                let n = self.src.len();
                let (j, l2) = if p >= n {
                    (n, self.position.lineno)
                } else if self.src[p] == '\r' && p + 1 < n && self.src[p + 1] == '\n' {
                    (p + 2, self.position.lineno + 1)
                } else {
                    (p + 1, self.position.lineno + 1)
                };
                self.position.index = j;
                self.position.lineno = l2;
                Ok((i, j))
            },
        }
    }
}
} // verus!
