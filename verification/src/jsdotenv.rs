//! The JavaScript dotenv dialects: whole-buffer scanning with `\r\n`
//! normalised away, keys of word characters with `.` and `-`, `=` or
//! `:` separators, single-, double- and backtick-quoted values with
//! regex-style backtracking when trailing content follows the closing
//! quote, `\n` and `\r` expanded inside double quotes, and keys and
//! values truncated at the first null byte.  Two variants are
//! emulated: the library variant writes a binding before checking the
//! line end, the re-implemented engine variant only writes when the
//! line end check passes, and their closing-quote searches differ on
//! escaped quotes.

use vstd::prelude::*;

use crate::env::MemoryEnv;
use crate::error::{Error, spec_syntax_error};
use crate::model::{
    EnvModel, ParseOut, apply_writes, char_pos, cut_nul, lemma_char_pos, spec_set_var,
};
use crate::options::Options;
use crate::punktum::{fix_newlines, fix_nl};
use crate::text::{chars_of, push_all, push_range, subvec};

verus! {

/// A key character of these dialects.
pub open spec fn is_js_word(c: char) -> bool {
    ('a' <= c && c <= 'z') || ('A' <= c && c <= 'Z') || ('0' <= c && c <= '9') || c == '_' || c
        == '.' || c == '-'
}

/// The inline whitespace set (a line feed is not inline).
pub open spec fn is_js_inline_ws(c: char) -> bool {
    c == '\t' || c == '\u{B}' || c == '\u{C}' || c == ' '
}

/// Whitespace skipping across lines: line feeds advance the line
/// counter and the line start.  The result is the new position, line
/// start and line counter.
pub open spec fn js_ws(s: Seq<char>, i: int, lstart: int, lineno: int) -> (int, int, int)
    decreases s.len() - i,
{
    if i < 0 || i >= s.len() {
        (s.len() as int, lstart, lineno)
    } else if s[i] == '\n' {
        js_ws(s, i + 1, i + 1, lineno + 1)
    } else if is_js_inline_ws(s[i]) {
        js_ws(s, i + 1, lstart, lineno)
    } else {
        (i, lstart, lineno)
    }
}

pub proof fn lemma_js_ws(s: Seq<char>, i: int, lstart: int, lineno: int)
    requires
        0 <= i <= s.len(),
        lstart <= i,
    ensures
        ({
            let (j, ls2, l2) = js_ws(s, i, lstart, lineno);
            &&& i <= j <= s.len()
            &&& ls2 <= j
            &&& l2 <= lineno + (j - i)
            &&& lineno <= l2
            &&& (j < s.len() ==> s[j] != '\n' && !is_js_inline_ws(s[j]))
        }),
    decreases s.len() - i,
{
    if i < s.len() {
        if s[i] == '\n' {
            lemma_js_ws(s, i + 1, i + 1, lineno + 1);
        } else if is_js_inline_ws(s[i]) {
            lemma_js_ws(s, i + 1, lstart, lineno);
        }
    }
}

/// Inline whitespace skipping within a line.
pub open spec fn js_ws_inline(s: Seq<char>, i: int) -> int
    decreases s.len() - i,
{
    if i < 0 || i >= s.len() {
        s.len() as int
    } else if is_js_inline_ws(s[i]) {
        js_ws_inline(s, i + 1)
    } else {
        i
    }
}

pub proof fn lemma_js_ws_inline(s: Seq<char>, i: int)
    requires
        0 <= i <= s.len(),
    ensures
        i <= js_ws_inline(s, i) <= s.len(),
    decreases s.len() - i,
{
    if i < s.len() && is_js_inline_ws(s[i]) {
        lemma_js_ws_inline(s, i + 1);
    }
}

/// The end of a key word.
pub open spec fn js_word_end(s: Seq<char>, i: int) -> int
    decreases s.len() - i,
{
    if i < 0 || i >= s.len() {
        s.len() as int
    } else if is_js_word(s[i]) {
        js_word_end(s, i + 1)
    } else {
        i
    }
}

pub proof fn lemma_js_word_end(s: Seq<char>, i: int)
    requires
        0 <= i <= s.len(),
    ensures
        i <= js_word_end(s, i) <= s.len(),
    decreases s.len() - i,
{
    if i < s.len() && is_js_word(s[i]) {
        lemma_js_word_end(s, i + 1);
    }
}

/// The first `\n` or `#` at or after `i`, the end of an unquoted
/// value.
pub open spec fn js_value_end(s: Seq<char>, i: int) -> int
    decreases s.len() - i,
{
    if i < 0 || i >= s.len() {
        s.len() as int
    } else if s[i] == '\n' || s[i] == '#' {
        i
    } else {
        js_value_end(s, i + 1)
    }
}

pub proof fn lemma_js_value_end(s: Seq<char>, i: int)
    requires
        0 <= i <= s.len(),
    ensures
        i <= js_value_end(s, i) <= s.len(),
        js_value_end(s, i) < s.len() ==> (s[js_value_end(s, i)] == '\n' || s[js_value_end(s, i)]
            == '#'),
    decreases s.len() - i,
{
    if i < s.len() && s[i] != '\n' && s[i] != '#' {
        lemma_js_value_end(s, i + 1);
    }
}

/// The start of the line holding position `i`: just after the
/// previous line feed.
pub open spec fn js_line_start(s: Seq<char>, i: int) -> int
    decreases i,
{
    if i <= 0 {
        0
    } else if s[i - 1] == '\n' {
        i - 1  // the position of the feed itself, as the upstream search finds it
    } else {
        js_line_start(s, i - 1)
    }
}

/// The closing-quote search of the library variant: a backslash
/// escapes the directly following quote; `None` when the quote never
/// closes.
pub open spec fn js_quote_end_lib(s: Seq<char>, i: int, quote: char) -> Option<int>
    decreases s.len() - i,
{
    if i < 0 || i >= s.len() {
        None
    } else if s[i] == '\\' {
        if i + 1 < s.len() && s[i + 1] == quote {
            js_quote_end_lib(s, i + 2, quote)
        } else {
            js_quote_end_lib(s, i + 1, quote)
        }
    } else if s[i] == quote {
        Some(i)
    } else {
        js_quote_end_lib(s, i + 1, quote)
    }
}

pub proof fn lemma_js_quote_end_lib(s: Seq<char>, i: int, quote: char)
    requires
        0 <= i <= s.len(),
    ensures
        match js_quote_end_lib(s, i, quote) {
            Some(q) => i <= q < s.len() && s[q] == quote,
            None => true,
        },
    decreases s.len() - i,
{
    if i < s.len() {
        if s[i] == '\\' {
            if i + 1 < s.len() && s[i + 1] == quote {
                lemma_js_quote_end_lib(s, i + 2, quote);
            } else {
                lemma_js_quote_end_lib(s, i + 1, quote);
            }
        } else if s[i] != quote {
            lemma_js_quote_end_lib(s, i + 1, quote);
        }
    }
}

/// The closing-quote search of the engine variant: the first quote
/// whose directly preceding character is no backslash; when every
/// candidate is escaped, the last candidate closes anyway.
pub open spec fn js_quote_end_engine(s: Seq<char>, i: int, quote: char) -> Option<int>
    decreases s.len() - i,
        via js_quote_end_engine_decreases
{
    if i < 0 || i > s.len() {
        None
    } else {
        let q = char_pos(s, i, quote);
        if q >= s.len() {
            None
        } else if q > i && s[q - 1] == '\\' {
            match js_quote_end_engine(s, q + 1, quote) {
                Some(q2) => Some(q2),
                None => Some(q),
            }
        } else {
            Some(q)
        }
    }
}

#[via_fn]
proof fn js_quote_end_engine_decreases(s: Seq<char>, i: int, quote: char) {
    if 0 <= i <= s.len() {
        lemma_char_pos(s, i, quote);
    }
}

pub proof fn lemma_js_quote_end_engine(s: Seq<char>, i: int, quote: char)
    requires
        0 <= i <= s.len(),
    ensures
        match js_quote_end_engine(s, i, quote) {
            Some(q) => i <= q < s.len() && s[q] == quote,
            None => true,
        },
    decreases s.len() - i,
{
    lemma_char_pos(s, i, quote);
    let q = char_pos(s, i, quote);
    if q < s.len() && q > i && s[q - 1] == '\\' {
        lemma_js_quote_end_engine(s, q + 1, quote);
    }
}

/// The number of line feeds in `[a, b)`.
pub open spec fn nl_count(s: Seq<char>, a: int, b: int) -> int
    decreases b - a,
{
    if a < 0 || a >= b || b > s.len() {
        0
    } else if s[a] == '\n' {
        1 + nl_count(s, a + 1, b)
    } else {
        nl_count(s, a + 1, b)
    }
}

pub proof fn lemma_nl_count(s: Seq<char>, a: int, b: int)
    requires
        0 <= a <= b <= s.len(),
    ensures
        0 <= nl_count(s, a, b) <= b - a,
    decreases b - a,
{
    if a < b {
        lemma_nl_count(s, a + 1, b);
    }
}

/// Trailing inline whitespace stripped.
pub open spec fn js_trim_end(s: Seq<char>, j: int) -> int
    decreases j,
{
    if j <= 0 {
        0
    } else if is_js_inline_ws(s[j - 1]) {
        js_trim_end(s, j - 1)
    } else {
        j
    }
}

pub proof fn lemma_js_trim_end(s: Seq<char>, j: int)
    requires
        0 <= j,
    ensures
        0 <= js_trim_end(s, j) <= j,
    decreases j,
{
    if j > 0 && is_js_inline_ws(s[j - 1]) {
        lemma_js_trim_end(s, j - 1);
    }
}

/// One replacement pass: every two-character backslash-`x` pair
/// becomes `repl`, as `str::replace` would do.
pub open spec fn js_replace(s: Seq<char>, i: int, x: char, repl: char) -> Seq<char>
    decreases s.len() - i,
{
    if i < 0 || i >= s.len() {
        Seq::empty()
    } else if s[i] == '\\' && i + 1 < s.len() && s[i + 1] == x {
        seq![repl] + js_replace(s, i + 2, x, repl)
    } else {
        seq![s[i]] + js_replace(s, i + 1, x, repl)
    }
}

/// The double-quote expansion of these dialects: `\n` pairs become
/// line feeds, then `\r` pairs become carriage returns.
pub open spec fn js_unescape(s: Seq<char>) -> Seq<char> {
    js_replace(js_replace(s, 0, 'n', '\n'), 0, 'r', '\r')
}


/// The line start after scanning `[a, b)`, starting from `dflt`.
pub open spec fn last_nl_ls(s: Seq<char>, a: int, b: int, dflt: int) -> int
    decreases b - a,
{
    if a < 0 || a >= b || b > s.len() {
        dflt
    } else if s[a] == '\n' {
        last_nl_ls(s, a + 1, b, a + 1)
    } else {
        last_nl_ls(s, a + 1, b, dflt)
    }
}

pub proof fn lemma_last_nl_ls(s: Seq<char>, a: int, b: int, dflt: int)
    requires
        0 <= a <= b <= s.len(),
        dflt <= a,
    ensures
        last_nl_ls(s, a, b, dflt) <= b,
    decreases b - a,
{
    if a < b {
        if s[a] == '\n' {
            lemma_last_nl_ls(s, a + 1, b, a + 1);
        } else {
            lemma_last_nl_ls(s, a + 1, b, dflt);
        }
    }
}

/// One write of these dialects, key and value truncated at null
/// bytes, and the scan of the rest.
pub open spec fn js_write(
    s: Seq<char>,
    lstart: int,
    idx: int,
    lineno: int,
    key: Seq<char>,
    value: Seq<char>,
    env: EnvModel,
    ovr: bool,
    strict: bool,
    engine: bool,
) -> ParseOut
    decreases s.len() - idx, 2int
        via js_write_decreases
{
    let kk = cut_nul(key);
    let vv = cut_nul(value);
    let env2 = spec_set_var(env, kk, vv, ovr);
    let rest = js_from(s, lstart, idx, lineno, env2, ovr, strict, engine);
    ParseOut { err: rest.err, env: rest.env, writes: seq![(kk, vv)] + rest.writes }
}

/// The outcome of a JavaScript dotenv dialect from position `idx`,
/// with the current line start and counter.  The `engine` flag picks
/// the re-implemented engine's closing-quote search.
pub open spec fn js_from(
    s: Seq<char>,
    lstart: int,
    idx: int,
    lineno: int,
    env: EnvModel,
    ovr: bool,
    strict: bool,
    engine: bool,
) -> ParseOut
    decreases s.len() - idx, 1int
        via js_from_decreases
{
    if !(0 <= lstart <= idx && idx < s.len() && lineno >= 0) {
        ParseOut::done(env, Seq::empty())
    } else {
        let (i1, ls1, l1) = js_ws(s, idx, lstart, lineno);
        if i1 < s.len() && s[i1] == '#' {
            let nx = char_pos(s, i1, '\n');
            if nx < s.len() {
                js_from(s, ls1, nx, l1, env, ovr, strict, engine)
            } else {
                ParseOut::done(env, Seq::empty())
            }
        } else if i1 >= s.len() {
            ParseOut::done(env, Seq::empty())
        } else {
            let ks0 = i1;
            let ke0 = js_word_end(s, ks0);
            let (i2, ls2, l2) = js_ws(s, ke0, ls1, l1);
            let exported = i2 < s.len() && is_js_word(s[i2]) && s.subrange(ks0, ke0)
                == crate::punktum::export_word();
            let ks = if exported {
                i2
            } else {
                ks0
            };
            let ke = if exported {
                js_word_end(s, i2)
            } else {
                ke0
            };
            let (i3, ls3, l3) = if exported {
                js_ws(s, js_word_end(s, i2), ls2, l2)
            } else {
                (i2, ls2, l2)
            };
            if ks == ke {
                let col = if engine {
                    i3 - ls3 + 1
                } else {
                    ke - js_line_start(s, ke) + 1
                };
                if strict {
                    ParseOut::fail(spec_syntax_error(l3 as usize, col as usize), env, Seq::empty())
                } else {
                    let nx = char_pos(s, i3, '\n');
                    if nx < s.len() {
                        js_from(s, ls3, nx, l3, env, ovr, strict, engine)
                    } else {
                        ParseOut::done(env, Seq::empty())
                    }
                }
            } else if !(i3 < s.len() && (s[i3] == '=' || s[i3] == ':')) {
                if strict {
                    ParseOut::fail(
                        spec_syntax_error(l3 as usize, (i3 - ls3 + 1) as usize),
                        env,
                        Seq::empty(),
                    )
                } else if ke < ls3 && i3 < s.len() && is_js_word(s[i3]) {
                    // the separator sat on a later line: the scan retries
                    // from the word standing here
                    js_from(s, ls3, i3, l3, env, ovr, strict, engine)
                } else {
                    let nx = char_pos(s, i3, '\n');
                    if nx < s.len() {
                        js_from(s, ls3, nx, l3, env, ovr, strict, engine)
                    } else {
                        ParseOut::done(env, Seq::empty())
                    }
                }
            } else if i3 != ke && s[i3] == ':' {
                if strict {
                    ParseOut::fail(
                        spec_syntax_error(l3 as usize, (i3 - ls3 + 1) as usize),
                        env,
                        Seq::empty(),
                    )
                } else {
                    let nx = char_pos(s, i3, '\n');
                    if nx < s.len() {
                        js_from(s, ls3, nx, l3, env, ovr, strict, engine)
                    } else {
                        ParseOut::done(env, Seq::empty())
                    }
                }
            } else {
                js_value_case(s, ls3, i3, l3, ks, ke, env, ovr, strict, engine)
            }
        }
    }
}

/// The value of one binding and the scan of the rest, from the
/// separator at `i3` with the key `[ks, ke)`.
pub open spec fn js_value_case(
    s: Seq<char>,
    ls3: int,
    i3: int,
    l3: int,
    ks: int,
    ke: int,
    env: EnvModel,
    ovr: bool,
    strict: bool,
    engine: bool,
) -> ParseOut
    decreases s.len() - i3, 0int
        via js_value_case_decreases
{
    if !(0 <= ks <= ke <= s.len() && 0 <= ls3 <= i3 < s.len()) {
        ParseOut::done(env, Seq::empty())
    } else {
        let key = s.subrange(ks, ke);
        let j = js_ws_inline(s, i3 + 1);
        let quoted: Option<int> = if j < s.len() && (s[j] == '"' || s[j] == '\'' || s[j]
            == '`') {
            let qe = if engine {
                js_quote_end_engine(s, j + 1, s[j])
            } else {
                js_quote_end_lib(s, j + 1, s[j])
            };
            match qe {
                Some(q) => {
                    let t = js_ws_inline(s, q + 1);
                    if t < s.len() && s[t] == '#' {
                        Some(q)
                    } else if t < s.len() && s[t] != '\n' {
                        None  // backtrack to an unquoted reading
                    } else {
                        Some(q)
                    }
                },
                None => None,
            }
        } else {
            None
        };
        match quoted {
            Some(q) => {
                let ls4 = last_nl_ls(s, j + 1, q, ls3);
                let l4 = l3 + nl_count(s, j + 1, q);
                let t = js_ws_inline(s, q + 1);
                let after = if t < s.len() && s[t] == '#' {
                    char_pos(s, t, '\n')
                } else {
                    t
                };
                let inner = s.subrange(j + 1, q);
                let value = if s[j] == '"' {
                    js_unescape(inner)
                } else {
                    inner
                };
                if after < s.len() {
                    js_write(s, ls4, after, l4, key, value, env, ovr, strict, engine)
                } else {
                    let kk = cut_nul(key);
                    let vv = cut_nul(value);
                    ParseOut {
                        err: None,
                        env: spec_set_var(env, kk, vv, ovr),
                        writes: seq![(kk, vv)],
                    }
                }
            },
            None => {
                let ve = js_value_end(s, j);
                let raw = s.subrange(j, ve);
                let stripped = if raw.len() > 1 && (s[j] == '"' || s[j] == '\'' || s[j]
                    == '`') && raw.last() == s[j] {
                    s.subrange(j + 1, ve - 1)
                } else {
                    let te0 = js_trim_end(s, ve);
                    let te = if te0 < j {
                        j
                    } else {
                        te0
                    };
                    s.subrange(j, te)
                };
                let value = if s.subrange(j, ve).len() > 0 && s[j] == '"' {
                    js_unescape(stripped)
                } else {
                    stripped
                };
                let after = if ve < s.len() && s[ve] == '#' {
                    char_pos(s, ve, '\n')
                } else {
                    ve
                };
                if after < s.len() {
                    js_write(s, ls3, after, l3, key, value, env, ovr, strict, engine)
                } else {
                    let kk = cut_nul(key);
                    let vv = cut_nul(value);
                    ParseOut {
                        err: None,
                        env: spec_set_var(env, kk, vv, ovr),
                        writes: seq![(kk, vv)],
                    }
                }
            },
        }
    }
}

#[via_fn]
proof fn js_value_case_decreases(
    s: Seq<char>,
    ls3: int,
    i3: int,
    l3: int,
    ks: int,
    ke: int,
    env: EnvModel,
    ovr: bool,
    strict: bool,
    engine: bool,
) {
    if 0 <= ls3 <= i3 < s.len() {
        lemma_js_ws_inline(s, i3 + 1);
        let j = js_ws_inline(s, i3 + 1);
        js_value_lemmas(s, j);
    }
}

#[via_fn]
proof fn js_write_decreases(
    s: Seq<char>,
    lstart: int,
    idx: int,
    lineno: int,
    key: Seq<char>,
    value: Seq<char>,
    env: EnvModel,
    ovr: bool,
    strict: bool,
    engine: bool,
) {
}

#[via_fn]
proof fn js_from_decreases(
    s: Seq<char>,
    lstart: int,
    idx: int,
    lineno: int,
    env: EnvModel,
    ovr: bool,
    strict: bool,
    engine: bool,
) {
    if 0 <= lstart <= idx && idx < s.len() {
        lemma_js_ws(s, idx, lstart, lineno);
        let (i1, ls1, l1) = js_ws(s, idx, lstart, lineno);
        lemma_char_pos(s, i1, '\n');
        if i1 < s.len() {
            lemma_js_word_end(s, i1);
            if is_js_word(s[i1]) {
                lemma_js_word_end(s, i1 + 1);
            }
            let ke0 = js_word_end(s, i1);
            lemma_js_ws(s, ke0, ls1, l1);
            let (i2, ls2, l2) = js_ws(s, ke0, ls1, l1);
            lemma_char_pos(s, i2, '\n');
            if i2 < s.len() {
                lemma_js_word_end(s, i2);
                if is_js_word(s[i2]) {
                    lemma_js_word_end(s, i2 + 1);
                }
                let ke2 = js_word_end(s, i2);
                lemma_js_ws(s, ke2, ls2, l2);
                let (i3, ls3, l3) = js_ws(s, ke2, ls2, l2);
                lemma_char_pos(s, i3, '\n');
                if i3 + 1 <= s.len() {
                    lemma_js_ws_inline(s, i3 + 1);
                    let j = js_ws_inline(s, i3 + 1);
                    js_value_lemmas(s, j);
                }
                if i2 + 1 <= s.len() {
                    lemma_js_ws_inline(s, i2 + 1);
                    let j = js_ws_inline(s, i2 + 1);
                    js_value_lemmas(s, j);
                }
            }
        }
    }
}

proof fn js_value_lemmas(s: Seq<char>, j: int)
    requires
        0 <= j <= s.len(),
    ensures
        j <= js_value_end(s, j) <= s.len(),
        js_value_end(s, j) < s.len() ==> (s[js_value_end(s, j)] == '\n' || s[js_value_end(s, j)]
            == '#'),
        js_value_end(s, j) < s.len() && s[js_value_end(s, j)] == '#' ==> char_pos(
            s,
            js_value_end(s, j),
            '\n',
        ) > js_value_end(s, j) && char_pos(s, js_value_end(s, j), '\n') <= s.len(),
        j < s.len() ==> ({
            let lib = js_quote_end_lib(s, j + 1, s[j]);
            let eng = js_quote_end_engine(s, j + 1, s[j]);
            &&& (lib matches Some(q) ==> j + 1 <= q < s.len() && js_ws_inline(s, q + 1) <= s.len()
                && js_ws_inline(s, q + 1) >= q + 1 && char_pos(s, js_ws_inline(s, q + 1), '\n')
                <= s.len() && char_pos(s, js_ws_inline(s, q + 1), '\n') >= js_ws_inline(s, q + 1))
            &&& (eng matches Some(q) ==> j + 1 <= q < s.len() && js_ws_inline(s, q + 1) <= s.len()
                && js_ws_inline(s, q + 1) >= q + 1 && char_pos(s, js_ws_inline(s, q + 1), '\n')
                <= s.len() && char_pos(s, js_ws_inline(s, q + 1), '\n') >= js_ws_inline(s, q + 1))
        }),
{
    lemma_js_value_end(s, j);
    let ve = js_value_end(s, j);
    lemma_char_pos(s, ve, '\n');
    if j < s.len() {
        lemma_js_quote_end_lib(s, j + 1, s[j]);
        lemma_js_quote_end_engine(s, j + 1, s[j]);
        match js_quote_end_lib(s, j + 1, s[j]) {
            Some(q) => {
                lemma_js_ws_inline(s, q + 1);
                lemma_char_pos(s, js_ws_inline(s, q + 1), '\n');
            },
            None => {},
        }
        match js_quote_end_engine(s, j + 1, s[j]) {
            Some(q) => {
                lemma_js_ws_inline(s, q + 1);
                lemma_char_pos(s, js_ws_inline(s, q + 1), '\n');
            },
            None => {},
        }
    }
}

/// The outcome of a JavaScript dotenv dialect on a whole source.
pub open spec fn js_spec(
    src: Seq<char>,
    env: EnvModel,
    ovr: bool,
    strict: bool,
    engine: bool,
) -> ParseOut {
    let f = fix_nl(src, 0);
    if f.len() == 0 {
        ParseOut::done(env, Seq::empty())
    } else {
        js_from(f, 0, 0, 1, env, ovr, strict, engine)
    }
}

/// Skips whitespace across lines, tracking the line start and count.
pub(crate) fn ews(v: &Vec<char>, i: usize, lstart: usize, lineno: usize) -> (r: (usize, usize, usize))
    requires
        lstart <= i <= v@.len(),
        lineno + (v@.len() - i) < usize::MAX,
    ensures
        js_ws(v@, i as int, lstart as int, lineno as int) == (r.0 as int, r.1 as int, r.2 as int),
        i <= r.0 <= v@.len(),
        r.1 <= r.0,
        lineno <= r.2 <= lineno + (r.0 - i),
        r.0 < v@.len() ==> v@[r.0 as int] != '\n' && !is_js_inline_ws(v@[r.0 as int]),
{
    let n = v.len();
    let mut j = i;
    let mut ls = lstart;
    let mut l = lineno;
    while j < n
        invariant
            i <= j <= n,
            n == v@.len(),
            ls <= j,
            lineno <= l <= lineno + (j - i),
            lineno + (n - i) < usize::MAX,
            js_ws(v@, i as int, lstart as int, lineno as int) == js_ws(
                v@,
                j as int,
                ls as int,
                l as int,
            ),
        decreases n - j,
    {
        let c = v[j];
        if c == '\n' {
            ls = j + 1;
            l = l + 1;
        } else if !(c == '\t' || c == '\u{B}' || c == '\u{C}' || c == ' ') {
            return (j, ls, l);
        }
        j = j + 1;
    }
    (j, ls, l)
}

/// Skips inline whitespace.
pub(crate) fn ews_inline(v: &Vec<char>, i: usize) -> (r: usize)
    requires
        i <= v@.len(),
    ensures
        r == js_ws_inline(v@, i as int),
        i <= r <= v@.len(),
{
    let n = v.len();
    let mut j = i;
    while j < n
        invariant
            i <= j <= n,
            n == v@.len(),
            js_ws_inline(v@, i as int) == js_ws_inline(v@, j as int),
        decreases n - j,
    {
        let c = v[j];
        if !(c == '\t' || c == '\u{B}' || c == '\u{C}' || c == ' ') {
            return j;
        }
        j = j + 1;
    }
    j
}

/// Finds the end of a key word.
pub(crate) fn eword_end(v: &Vec<char>, i: usize) -> (r: usize)
    requires
        i <= v@.len(),
    ensures
        r == js_word_end(v@, i as int),
        i <= r <= v@.len(),
{
    let n = v.len();
    let mut j = i;
    while j < n
        invariant
            i <= j <= n,
            n == v@.len(),
            js_word_end(v@, i as int) == js_word_end(v@, j as int),
        decreases n - j,
    {
        let c = v[j];
        let w = ('a' <= c && c <= 'z') || ('A' <= c && c <= 'Z') || ('0' <= c && c <= '9') || c
            == '_' || c == '.' || c == '-';
        if !w {
            return j;
        }
        j = j + 1;
    }
    j
}

/// Finds the end of an unquoted value.
pub(crate) fn evalue_end(v: &Vec<char>, i: usize) -> (r: usize)
    requires
        i <= v@.len(),
    ensures
        r == js_value_end(v@, i as int),
        i <= r <= v@.len(),
{
    let n = v.len();
    let mut j = i;
    while j < n
        invariant
            i <= j <= n,
            n == v@.len(),
            js_value_end(v@, i as int) == js_value_end(v@, j as int),
        decreases n - j,
    {
        if v[j] == '\n' || v[j] == '#' {
            return j;
        }
        j = j + 1;
    }
    j
}

/// Finds the first occurrence of `t` at or after `i`.
pub(crate) fn efind(v: &Vec<char>, i: usize, t: char) -> (r: usize)
    requires
        i <= v@.len(),
    ensures
        r == char_pos(v@, i as int, t),
        i <= r <= v@.len(),
        r < v@.len() ==> v@[r as int] == t,
{
    let n = v.len();
    let mut j = i;
    while j < n
        invariant
            i <= j <= n,
            n == v@.len(),
            char_pos(v@, i as int, t) == char_pos(v@, j as int, t),
        decreases n - j,
    {
        if v[j] == t {
            return j;
        }
        j = j + 1;
    }
    j
}

/// The line start of the upstream library's backward search.
fn eline_start(v: &Vec<char>, i: usize) -> (r: usize)
    requires
        i <= v@.len(),
    ensures
        r == js_line_start(v@, i as int),
        r <= i,
{
    let mut j = i;
    while j > 0
        invariant
            j <= i <= v@.len(),
            js_line_start(v@, i as int) == js_line_start(v@, j as int),
        decreases j,
    {
        if v[j - 1] == '\n' {
            return j - 1;
        }
        j = j - 1;
    }
    0
}

/// The library variant's closing-quote search.
pub(crate) fn equote_end_lib(v: &Vec<char>, i: usize, quote: char) -> (r: Option<usize>)
    requires
        i <= v@.len(),
    ensures
        ({
            let sp = js_quote_end_lib(v@, i as int, quote);
            match r {
                Some(q) => sp == Some(q as int) && i <= q < v@.len(),
                None => sp is None,
            }
        }),
{
    let n = v.len();
    let mut j = i;
    while j < n
        invariant
            i <= j <= n,
            n == v@.len(),
            js_quote_end_lib(v@, i as int, quote) == js_quote_end_lib(v@, j as int, quote),
        decreases n - j,
    {
        let c = v[j];
        if c == '\\' {
            if j + 1 < n && v[j + 1] == quote {
                j = j + 2;
            } else {
                j = j + 1;
            }
        } else if c == quote {
            proof {
                lemma_js_quote_end_lib(v@, i as int, quote);
            }
            return Some(j);
        } else {
            j = j + 1;
        }
    }
    None
}

/// The engine variant's closing-quote search.
fn equote_end_engine(v: &Vec<char>, i: usize, quote: char) -> (r: Option<usize>)
    requires
        i <= v@.len(),
    ensures
        ({
            let sp = js_quote_end_engine(v@, i as int, quote);
            match r {
                Some(q) => sp == Some(q as int) && i <= q < v@.len(),
                None => sp is None,
            }
        }),
    decreases v@.len() - i,
{
    let q = efind(v, i, quote);
    if q >= v.len() {
        return None;
    }
    if q > i && v[q - 1] == '\\' {
        proof {
            lemma_js_quote_end_engine(v@, i as int, quote);
        }
        match equote_end_engine(v, q + 1, quote) {
            Some(q2) => Some(q2),
            None => Some(q),
        }
    } else {
        Some(q)
    }
}

/// Counts line feeds in `[a, b)` and tracks the last line start.
pub(crate) fn etrack_nl(v: &Vec<char>, a: usize, b: usize, ls: usize, lineno: usize) -> (r: (usize, usize))
    requires
        a <= b <= v@.len(),
        ls <= a,
        lineno + (b - a) < usize::MAX,
    ensures
        r.0 as int == last_nl_ls(v@, a as int, b as int, ls as int),
        r.1 as int == lineno + nl_count(v@, a as int, b as int),
        r.0 <= b,
        lineno <= r.1 <= lineno + (b - a),
{
    let mut j = a;
    let mut cls = ls;
    let mut l = lineno;
    proof {
        lemma_nl_count(v@, a as int, b as int);
    }
    while j < b
        invariant
            a <= j <= b <= v@.len(),
            cls <= j,
            lineno <= l <= lineno + (j - a),
            lineno + (b - a) < usize::MAX,
            last_nl_ls(v@, a as int, b as int, ls as int) == last_nl_ls(
                v@,
                j as int,
                b as int,
                cls as int,
            ),
            lineno + nl_count(v@, a as int, b as int) == l + nl_count(v@, j as int, b as int),
        decreases b - j,
    {
        proof {
            lemma_nl_count(v@, j as int, b as int);
        }
        if v[j] == '\n' {
            cls = j + 1;
            l = l + 1;
        }
        j = j + 1;
    }
    (cls, l)
}

/// Trailing inline whitespace stripped.
pub(crate) fn etrim_end(v: &Vec<char>, j: usize) -> (r: usize)
    requires
        j <= v@.len(),
    ensures
        r == js_trim_end(v@, j as int),
        r <= j,
{
    let mut b = j;
    while b > 0 && (v[b - 1] == '\t' || v[b - 1] == '\u{B}' || v[b - 1] == '\u{C}' || v[b - 1]
        == ' ')
        invariant
            b <= j <= v@.len(),
            js_trim_end(v@, j as int) == js_trim_end(v@, b as int),
        decreases b,
    {
        b = b - 1;
    }
    b
}

/// One replacement pass of a backslash pair.
pub(crate) fn ereplace(v: &Vec<char>, x: char, repl: char) -> (r: Vec<char>)
    ensures
        r@ == js_replace(v@, 0, x, repl),
{
    let n = v.len();
    let mut r: Vec<char> = Vec::new();
    let mut i: usize = 0;
    while i < n
        invariant
            i <= n,
            n == v@.len(),
            js_replace(v@, 0, x, repl) == r@ + js_replace(v@, i as int, x, repl),
        decreases n - i,
    {
        let ghost prev = r@;
        if v[i] == '\\' && i + 1 < n && v[i + 1] == x {
            r.push(repl);
            i = i + 2;
            proof {
                assert(r@ =~= prev.push(repl));
                assert(prev + (seq![repl] + js_replace(v@, i as int, x, repl)) =~= r@
                    + js_replace(v@, i as int, x, repl));
            }
        } else {
            r.push(v[i]);
            proof {
                assert(r@ =~= prev.push(v@[i as int]));
                assert(prev + (seq![v@[i as int]] + js_replace(v@, i + 1, x, repl)) =~= r@
                    + js_replace(v@, i + 1, x, repl));
            }
            i = i + 1;
        }
    }
    proof {
        assert(js_replace(v@, n as int, x, repl) =~= Seq::<char>::empty());
        assert(js_replace(v@, 0, x, repl) =~= r@);
    }
    r
}

/// The double-quote expansion.
pub(crate) fn eunescape(v: &Vec<char>) -> (r: Vec<char>)
    ensures
        r@ == js_unescape(v@),
{
    let pass1 = ereplace(v, 'n', '\n');
    ereplace(&pass1, 'r', '\r')
}

/// One scanning step of the JavaScript dotenv dialects: from the
/// state `(lstart, idx, lineno)` it handles one statement or skip,
/// and hands back the next state, the end of the scan, or the error.
#[verifier::rlimit(100)]
#[verifier::spinoff_prover]
fn js_step(
    v: &Vec<char>,
    lstart: usize,
    idx: usize,
    lineno: usize,
    env: &mut MemoryEnv,
    options: &Options,
    engine: bool,
) -> (r: Result<Option<(usize, usize, usize)>, Error>)
    requires
        old(env).wf(),
        lstart <= idx < v@.len(),
        1 <= lineno <= idx + 1,
        v@.len() < usize::MAX - 2,
    ensures
        final(env).wf(),
        ({
            let pre = js_from(
                v@,
                lstart as int,
                idx as int,
                lineno as int,
                old(env).as_map(),
                options.override_env,
                options.strict,
                engine,
            );
            match r {
                Ok(Some((ls2, idx2, l2))) => {
                    let post = js_from(
                        v@,
                        ls2 as int,
                        idx2 as int,
                        l2 as int,
                        final(env).as_map(),
                        options.override_env,
                        options.strict,
                        engine,
                    );
                    &&& pre.err == post.err
                    &&& pre.env == post.env
                    &&& apply_writes(old(env).entries_seq(), pre.writes, 0, options.override_env)
                        == apply_writes(
                        final(env).entries_seq(),
                        post.writes,
                        0,
                        options.override_env,
                    )
                    &&& idx < idx2 <= v@.len()
                    &&& ls2 <= idx2
                    &&& 1 <= l2 <= idx2 + 1
                },
                Ok(None) => pre.err is None && pre.env == final(env).as_map() && apply_writes(
                    old(env).entries_seq(),
                    pre.writes,
                    0,
                    options.override_env,
                ) == final(env).entries_seq(),
                Err(e) => pre.err == Some(e) && pre.env == final(env).as_map() && apply_writes(
                    old(env).entries_seq(),
                    pre.writes,
                    0,
                    options.override_env,
                ) == final(env).entries_seq(),
            }
        }),
{
    let n = v.len();
    let all = v;
    let (i1, ls1, l1) = ews(all, idx, lstart, lineno);
    if i1 < n && all[i1] == '#' {
        let nx = efind(all, i1, '\n');
        if nx >= n {
            return Ok(None);
        }
        return Ok(Some((ls1, nx, l1)));
    }
    if i1 >= n {
        return Ok(None);
    }
    let ks0 = i1;
    let ke0 = eword_end(all, ks0);
    let (i2, ls2, l2) = ews(all, ke0, ls1, l1);
    let is_export = ke0 - ks0 == 6 && all[ks0] == 'e' && all[ks0 + 1] == 'x' && all[ks0 + 2]
        == 'p' && all[ks0 + 3] == 'o' && all[ks0 + 4] == 'r' && all[ks0 + 5] == 't';
    proof {
        let sub = all@.subrange(ks0 as int, ke0 as int);
        assert(crate::punktum::export_word().len() == 6);
        assert(crate::punktum::export_word()[0] == 'e');
        assert(crate::punktum::export_word()[1] == 'x');
        assert(crate::punktum::export_word()[2] == 'p');
        assert(crate::punktum::export_word()[3] == 'o');
        assert(crate::punktum::export_word()[4] == 'r');
        assert(crate::punktum::export_word()[5] == 't');
        if is_export {
            assert(sub =~= crate::punktum::export_word());
        } else {
            if ke0 - ks0 == 6 {
                assert(sub[0] == all@[ks0 as int]);
                assert(sub[1] == all@[ks0 + 1]);
                assert(sub[2] == all@[ks0 + 2]);
                assert(sub[3] == all@[ks0 + 3]);
                assert(sub[4] == all@[ks0 + 4]);
                assert(sub[5] == all@[ks0 + 5]);
            }
            assert(sub != crate::punktum::export_word());
        }
    }
    let exported = i2 < n && {
        let c = all[i2];
        ('a' <= c && c <= 'z') || ('A' <= c && c <= 'Z') || ('0' <= c && c <= '9') || c == '_'
            || c == '.' || c == '-'
    } && is_export;
    let ks = if exported {
        i2
    } else {
        ks0
    };
    let ke = if exported {
        eword_end(all, i2)
    } else {
        ke0
    };
    let (i3, ls3, l3) = if exported {
        let ket = eword_end(all, i2);
        ews(all, ket, ls2, l2)
    } else {
        (i2, ls2, l2)
    };
    proof {
        assert(l3 <= lineno + (i3 - idx));
        assert(ls3 <= i3);
        assert(idx <= i3 <= n);
    }
    if ks == ke {
        let col = if engine {
            i3 - ls3 + 1
        } else {
            let lsx = eline_start(all, ke);
            ke - lsx + 1
        };
        if options.strict {
            return Err(Error::syntax_error(l3, col));
        }
        let nx = efind(all, i3, '\n');
        if nx >= n {
            return Ok(None);
        }
        return Ok(Some((ls3, nx, l3)));
    }
    if !(i3 < n && (all[i3] == '=' || all[i3] == ':')) {
        if options.strict {
            return Err(Error::syntax_error(l3, i3 - ls3 + 1));
        }
        if ke < ls3 && i3 < n && {
            let c = all[i3];
            ('a' <= c && c <= 'z') || ('A' <= c && c <= 'Z') || ('0' <= c && c <= '9') || c == '_'
                || c == '.' || c == '-'
        } {
            return Ok(Some((ls3, i3, l3)));
        }
        let nx = efind(all, i3, '\n');
        if nx >= n {
            return Ok(None);
        }
        return Ok(Some((ls3, nx, l3)));
    }
    if i3 != ke && all[i3] == ':' {
        if options.strict {
            return Err(Error::syntax_error(l3, i3 - ls3 + 1));
        }
        let nx = efind(all, i3, '\n');
        if nx >= n {
            return Ok(None);
        }
        return Ok(Some((ls3, nx, l3)));
    }
    proof {
        let pre = js_from(
            all@,
            lstart as int,
            idx as int,
            lineno as int,
            old(env).as_map(),
            options.override_env,
            options.strict,
            engine,
        );
        assert(pre == js_value_case(
            all@,
            ls3 as int,
            i3 as int,
            l3 as int,
            ks as int,
            ke as int,
            old(env).as_map(),
            options.override_env,
            options.strict,
            engine,
        ));
    }
    let stepped = js_value_step(all, ls3, i3, l3, ks, ke, env, options, engine);
    Ok(stepped)
}

/// The value of one binding: parses, writes, and hands back the next
/// scan state, or the end of the scan.
#[verifier::rlimit(100)]
#[verifier::spinoff_prover]
fn js_value_step(
    v: &Vec<char>,
    ls3: usize,
    i3: usize,
    l3: usize,
    ks: usize,
    ke: usize,
    env: &mut MemoryEnv,
    options: &Options,
    engine: bool,
) -> (r: Option<(usize, usize, usize)>)
    requires
        old(env).wf(),
        ks <= ke <= v@.len(),
        ls3 <= i3 < v@.len(),
        1 <= l3 <= i3 + 1,
        v@.len() < usize::MAX - 2,
    ensures
        final(env).wf(),
        ({
            let pre = js_value_case(
                v@,
                ls3 as int,
                i3 as int,
                l3 as int,
                ks as int,
                ke as int,
                old(env).as_map(),
                options.override_env,
                options.strict,
                engine,
            );
            match r {
                Some((ls2, idx2, l2)) => {
                    let post = js_from(
                        v@,
                        ls2 as int,
                        idx2 as int,
                        l2 as int,
                        final(env).as_map(),
                        options.override_env,
                        options.strict,
                        engine,
                    );
                    &&& pre.err == post.err
                    &&& pre.env == post.env
                    &&& apply_writes(old(env).entries_seq(), pre.writes, 0, options.override_env)
                        == apply_writes(
                        final(env).entries_seq(),
                        post.writes,
                        0,
                        options.override_env,
                    )
                    &&& i3 < idx2 <= v@.len()
                    &&& ls2 <= idx2
                    &&& 1 <= l2 <= idx2 + 1
                },
                None => pre.err is None && pre.env == final(env).as_map() && apply_writes(
                    old(env).entries_seq(),
                    pre.writes,
                    0,
                    options.override_env,
                ) == final(env).entries_seq(),
            }
        }),
{
    let all = v;
    let n = all.len();
    let key = subvec(all, ks, ke);
    let j = ews_inline(all, i3 + 1);
    let mut qpos: usize = 0;
    let mut have_quote = false;
    if j < n && (all[j] == '"' || all[j] == '\'' || all[j] == '`') {
        let qe = if engine {
            equote_end_engine(all, j + 1, all[j])
        } else {
            equote_end_lib(all, j + 1, all[j])
        };
        match qe {
            Some(q) => {
                let t = ews_inline(all, q + 1);
                if t < n && all[t] == '#' {
                    qpos = q;
                    have_quote = true;
                } else if t < n && all[t] != '\n' {
                    // trailing content: fall back to an unquoted reading
                } else {
                    qpos = q;
                    have_quote = true;
                }
            },
            None => {
            },
        }
    }
    if have_quote {
        let q = qpos;
        let (ls4, l4) = etrack_nl(all, j + 1, q, ls3, l3);
        let t = ews_inline(all, q + 1);
        let after = if t < n && all[t] == '#' {
            efind(all, t, '\n')
        } else {
            t
        };
        let inner = subvec(all, j + 1, q);
        let value = if all[j] == '"' {
            eunescape(&inner)
        } else {
            inner
        };
        let ghost envb = env.as_map();
        let ghost eb = env.entries_seq();
        options.set_var_cut_nul(env, &key, &value);
        proof {
            let cb = all@;
            let w = (cut_nul(key@), cut_nul(value@));
            let env2 = spec_set_var(envb, w.0, w.1, options.override_env);
            if (after as int) < cb.len() {
                let rest = js_from(
                    cb,
                    ls4 as int,
                    after as int,
                    l4 as int,
                    env2,
                    options.override_env,
                    options.strict,
                    engine,
                );
                crate::model::lemma_apply_writes_step(eb, w, rest.writes, options.override_env);
            } else {
                crate::model::lemma_apply_writes_one(eb, w, options.override_env);
            }
        }
        if after >= n {
            return None;
        }
        Some((ls4, after, l4))
    } else {
        let ve = evalue_end(all, j);
        let raw_len = ve - j;
        let first_is_quote = j < n && (all[j] == '"' || all[j] == '\'' || all[j] == '`');
        let value = if raw_len > 1 && first_is_quote && all[ve - 1] == all[j] {
            let stripped = subvec(all, j + 1, ve - 1);
            if all[j] == '"' {
                eunescape(&stripped)
            } else {
                stripped
            }
        } else {
            let te0 = etrim_end(all, ve);
            let te = if te0 < j {
                j
            } else {
                te0
            };
            let stripped = subvec(all, j, te);
            if raw_len > 0 && all[j] == '"' {
                eunescape(&stripped)
            } else {
                stripped
            }
        };
        let ghost envb = env.as_map();
        let ghost eb = env.entries_seq();
        options.set_var_cut_nul(env, &key, &value);
        let after = if ve < n && all[ve] == '#' {
            efind(all, ve, '\n')
        } else {
            ve
        };
        proof {
            let cb = all@;
            let w = (cut_nul(key@), cut_nul(value@));
            let env2 = spec_set_var(envb, w.0, w.1, options.override_env);
            if (after as int) < cb.len() {
                let rest = js_from(
                    cb,
                    ls3 as int,
                    after as int,
                    l3 as int,
                    env2,
                    options.override_env,
                    options.strict,
                    engine,
                );
                crate::model::lemma_apply_writes_step(eb, w, rest.writes, options.override_env);
            } else {
                crate::model::lemma_apply_writes_one(eb, w, options.override_env);
            }
        }
        if after >= n {
            return None;
        }
        Some((ls3, after, l3))
    }
}

/// The shared scanner of the two JavaScript dotenv dialects.
pub(crate) fn config_js(
    src: &str,
    env: &mut MemoryEnv,
    options: &Options,
    engine: bool,
) -> (r: Result<(), Error>)
    requires
        old(env).wf(),
        src@.len() < usize::MAX - 2,
    ensures
        final(env).wf(),
        ({
            let out = js_spec(
                src@,
                old(env).as_map(),
                options.override_env,
                options.strict,
                engine,
            );
            &&& final(env).as_map() == out.env
            &&& final(env).entries_seq() == apply_writes(
                old(env).entries_seq(),
                out.writes,
                0,
                options.override_env,
            )
            &&& (match r {
                Ok(()) => out.err is None,
                Err(e) => out.err == Some(e),
            })
        }),
{
    let all0 = chars_of(src);
    let all = fix_newlines(&all0);
    let n = all.len();
    if n == 0 {
        return Ok(());
    }
    let ghost target = js_spec(
        src@,
        old(env).as_map(),
        options.override_env,
        options.strict,
        engine,
    );
    let mut lstart: usize = 0;
    let mut idx: usize = 0;
    let mut lineno: usize = 1;
    while idx < n
        invariant
            env.wf(),
            n == all@.len(),
            n <= src@.len() < usize::MAX - 2,
            lstart <= idx <= n,
            1 <= lineno <= idx + 1,
            all@ == fix_nl(src@, 0),
            target == js_spec(
                src@,
                old(env).as_map(),
                options.override_env,
                options.strict,
                engine,
            ),
            ({
                let cur = js_from(
                    all@,
                    lstart as int,
                    idx as int,
                    lineno as int,
                    env.as_map(),
                    options.override_env,
                    options.strict,
                    engine,
                );
                &&& target.err == cur.err
                &&& target.env == cur.env
                &&& apply_writes(old(env).entries_seq(), target.writes, 0, options.override_env)
                    == apply_writes(env.entries_seq(), cur.writes, 0, options.override_env)
            }),
        decreases n - idx,
    {
        match js_step(&all, lstart, idx, lineno, env, options, engine) {
            Ok(Some((a, b, c))) => {
                lstart = a;
                idx = b;
                lineno = c;
            },
            Ok(None) => {
                return Ok(());
            },
            Err(e) => {
                return Err(e);
            },
        }
    }
    Ok(())
}

/// Parses a source in the JavaScript dotenv library dialect.  The
/// outcome, store included, is exactly `js_spec` without the engine
/// flag.
pub fn config_jsdotenv(src: &str, env: &mut MemoryEnv, options: &Options) -> (r: Result<
    (),
    Error,
>)
    requires
        old(env).wf(),
        src@.len() < usize::MAX - 2,
    ensures
        final(env).wf(),
        ({
            let out = js_spec(src@, old(env).as_map(), options.override_env, options.strict, false);
            &&& final(env).as_map() == out.env
            &&& (match r {
                Ok(()) => out.err is None,
                Err(e) => out.err == Some(e),
            })
        }),
{
    config_js(src, env, options, false)
}
} // verus!
