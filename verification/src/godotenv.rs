//! The Go dotenv dialect: whole-buffer scanning with `\r\n`
//! normalised away, Unicode whitespace between statements, keys of
//! letters, digits, `_` and `.`, `=` or `:` separators, a
//! backward-scanned ` #` comment in unquoted values, quoted values
//! closed by the first unescaped quote, a small escape table, and
//! `$NAME` / `${NAME}` substitution without modifier forms.  Every
//! malformed construct aborts the parse, whatever the mode.

use vstd::prelude::*;

use crate::composego::{
    KeyScan, cg_space_skip, cg_stmt_start, cg_trim_export, is_cg_space, lemma_cg_space_skip,
    lemma_cg_stmt_start, ident_end, lemma_ident_end,
};
use crate::env::MemoryEnv;
use crate::error::{Error, spec_syntax_error};
use crate::model::{EnvModel, ParseOut, apply_writes, char_pos, cut_nul, lemma_char_pos, spec_set_var};
use crate::options::Options;
use crate::punktum::fix_nl;
use crate::text::{
    chars_of, cut_nul_vec, is_unicode_alphanumeric, push_all, push_range, subvec,
    unicode_alphanumeric,
};

verus! {

/// Scans a key: spaces and key characters pass, `=` and `:`
/// separate, anything else is illegal.
pub open spec fn go_key_scan(s: Seq<char>, j: int) -> KeyScan
    decreases s.len() - j,
{
    if j < 0 || j >= s.len() {
        KeyScan::End
    } else {
        let c = s[j];
        if is_cg_space(c) {
            go_key_scan(s, j + 1)
        } else if c == '=' || c == ':' {
            KeyScan::Sep(j)
        } else if c == '_' {
            go_key_scan(s, j + 1)
        } else if is_unicode_alphanumeric(c) || c == '.' {
            go_key_scan(s, j + 1)
        } else {
            KeyScan::Bad(j)
        }
    }
}

pub proof fn lemma_go_key_scan(s: Seq<char>, j: int)
    requires
        0 <= j <= s.len(),
    ensures
        match go_key_scan(s, j) {
            KeyScan::Sep(p) => j <= p < s.len(),
            KeyScan::Bad(p) => j <= p < s.len(),
            KeyScan::End => true,
        },
    decreases s.len() - j,
{
    if j < s.len() {
        lemma_go_key_scan(s, j + 1);
    }
}

/// The end of a key after trailing dialect spaces are removed.
pub open spec fn go_trim_end(s: Seq<char>, j: int) -> int
    decreases j,
{
    if j <= 0 {
        0
    } else if is_cg_space(s[j - 1]) {
        go_trim_end(s, j - 1)
    } else {
        j
    }
}

pub proof fn lemma_go_trim_end(s: Seq<char>, j: int)
    requires
        0 <= j,
    ensures
        0 <= go_trim_end(s, j) <= j,
    decreases j,
{
    if j > 0 && is_cg_space(s[j - 1]) {
        lemma_go_trim_end(s, j - 1);
    }
}

/// The located key: its text, the position after the separator with
/// leading spaces skipped.
pub open spec fn go_locate_key(s: Seq<char>, a: int, lineno: int) -> Result<
    (Seq<char>, int),
    Error,
> {
    let a0 = cg_trim_export(s, a);
    match go_key_scan(s, a0) {
        KeyScan::Bad(_) => Err(spec_syntax_error(lineno as usize, 1)),
        KeyScan::End => if a0 >= s.len() {
            Err(spec_syntax_error(lineno as usize, 1))
        } else {
            Ok((Seq::empty(), cg_space_skip(s, a0)))
        },
        KeyScan::Sep(j) => {
            let key = s.subrange(a0, j);
            Ok((key.subrange(0, go_trim_end(key, key.len() as int)), cg_space_skip(s, j + 1)))
        },
    }
}

pub proof fn lemma_go_locate(s: Seq<char>, a: int, lineno: int)
    requires
        0 <= a <= s.len(),
    ensures
        match go_locate_key(s, a, lineno) {
            Ok((k, left)) => a <= left <= s.len(),
            Err(_) => true,
        },
{
    if a + 6 <= s.len() {
        lemma_cg_space_skip(s, a + 6);
    }
    let a0 = cg_trim_export(s, a);
    lemma_go_key_scan(s, a0);
    lemma_cg_space_skip(s, a0);
    match go_key_scan(s, a0) {
        KeyScan::Sep(j) => {
            lemma_cg_space_skip(s, j + 1);
        },
        _ => {},
    }
}

/// The first `\r` or `\n` at or after `i`.
pub open spec fn rn_pos(s: Seq<char>, i: int) -> int
    decreases s.len() - i,
{
    if i < 0 || i >= s.len() {
        s.len() as int
    } else if s[i] == '\r' || s[i] == '\n' {
        i
    } else {
        rn_pos(s, i + 1)
    }
}

pub proof fn lemma_rn_pos(s: Seq<char>, i: int)
    requires
        0 <= i <= s.len(),
    ensures
        i <= rn_pos(s, i) <= s.len(),
    decreases s.len() - i,
{
    if i < s.len() && s[i] != '\r' && s[i] != '\n' {
        lemma_rn_pos(s, i + 1);
    }
}

/// The backward comment search of this dialect: the largest position
/// of a `#` in `[a, end)` whose preceding character is a space, or
/// `end` when there is none.
pub open spec fn go_hash_back(s: Seq<char>, a: int, end: int, k: int) -> int
    decreases k - a,
{
    if k <= a || a < 0 || end > s.len() || k > end {
        end
    } else if s[k - 1] == '#' && k - 1 > a && is_cg_space(s[k - 2]) {
        k - 1
    } else {
        go_hash_back(s, a, end, k - 1)
    }
}

pub proof fn lemma_go_hash_back(s: Seq<char>, a: int, end: int, k: int)
    requires
        0 <= a <= k <= end <= s.len(),
    ensures
        a <= go_hash_back(s, a, end, k) <= end,
    decreases k - a,
{
    if k > a && !(s[k - 1] == '#' && k - 1 > a && is_cg_space(s[k - 2])) {
        lemma_go_hash_back(s, a, end, k - 1);
    }
}

/// The closing quote of a quoted value: the first position holding
/// the quote not directly preceded by a backslash.
pub open spec fn go_quote_end(s: Seq<char>, i: int, quote: char) -> Option<int>
    decreases s.len() - i,
{
    if i < 0 || i >= s.len() {
        None
    } else if s[i] == quote && !(i > 0 && s[i - 1] == '\\') {
        Some(i)
    } else {
        go_quote_end(s, i + 1, quote)
    }
}

pub proof fn lemma_go_quote_end(s: Seq<char>, i: int, quote: char)
    requires
        0 <= i <= s.len(),
    ensures
        match go_quote_end(s, i, quote) {
            Some(q) => i <= q < s.len() && s[q] == quote,
            None => true,
        },
    decreases s.len() - i,
{
    if i < s.len() && !(s[i] == quote && !(i > 0 && s[i - 1] == '\\')) {
        lemma_go_quote_end(s, i + 1, quote);
    }
}

/// The number of line feeds in `[a, b)`.
pub open spec fn go_nl_count(s: Seq<char>, a: int, b: int) -> int
    decreases b - a,
{
    if a < 0 || a >= b || b > s.len() {
        0
    } else if s[a] == '\n' {
        1 + go_nl_count(s, a + 1, b)
    } else {
        go_nl_count(s, a + 1, b)
    }
}

pub proof fn lemma_go_nl_count(s: Seq<char>, a: int, b: int)
    requires
        0 <= a <= b <= s.len(),
    ensures
        0 <= go_nl_count(s, a, b) <= b - a,
    decreases b - a,
{
    if a < b {
        lemma_go_nl_count(s, a + 1, b);
    }
}

/// Quote characters stripped from both ends.
pub open spec fn q_trim_start(v: Seq<char>, i: int, q: char) -> int
    decreases v.len() - i,
{
    if i < 0 || i >= v.len() {
        v.len() as int
    } else if v[i] == q {
        q_trim_start(v, i + 1, q)
    } else {
        i
    }
}

pub open spec fn q_trim_end(v: Seq<char>, j: int, q: char) -> int
    decreases j,
{
    if j <= 0 {
        0
    } else if v[j - 1] == q {
        q_trim_end(v, j - 1, q)
    } else {
        j
    }
}

/// The behaviour of `trim_matches` with the quote character.
pub open spec fn q_trim(v: Seq<char>, q: char) -> Seq<char> {
    let a = q_trim_start(v, 0, q);
    if a >= v.len() {
        Seq::empty()
    } else {
        v.subrange(a, q_trim_end(v, v.len() as int, q))
    }
}

/// The escape table of this dialect: `\n` and `\r` decode, `\$`
/// stays escaped, every other escape drops its backslash, and a
/// trailing backslash stays.
pub open spec fn go_escapes(v: Seq<char>, i: int) -> Seq<char>
    decreases v.len() - i,
        via go_escapes_decreases
{
    if i < 0 || i > v.len() {
        Seq::empty()
    } else {
        let b = char_pos(v, i, '\\');
        if b >= v.len() {
            v.subrange(i, v.len() as int)
        } else {
            let prefix = v.subrange(i, b);
            if b + 1 >= v.len() {
                prefix + seq!['\\']
            } else {
                let c = v[b + 1];
                let piece: Seq<char> = if c == 'n' {
                    seq!['\n']
                } else if c == 'r' {
                    seq!['\r']
                } else if c == '$' {
                    seq!['\\', '$']
                } else {
                    seq![c]
                };
                prefix + piece + go_escapes(v, b + 2)
            }
        }
    }
}

#[via_fn]
proof fn go_escapes_decreases(v: Seq<char>, i: int) {
    if 0 <= i <= v.len() {
        lemma_char_pos(v, i, '\\');
    }
}

/// The first `$` at or after `i` not directly preceded by a
/// backslash is found by the expansion below via `char_pos` and a
/// backslash test, as the upstream code does.
pub open spec fn go_expand(v: Seq<char>, i: int, envm: EnvModel, strict: bool, lineno: int) -> Result<
    Seq<char>,
    Error,
>
    decreases v.len() - i,
        via go_expand_decreases
{
    if i < 0 || i > v.len() {
        Ok(Seq::empty())
    } else {
        let d = char_pos(v, i, '$');
        if d >= v.len() {
            Ok(v.subrange(i, v.len() as int))
        } else if d > i && v[d - 1] == '\\' {
            match go_expand(v, d + 1, envm, strict, lineno) {
                Ok(rest) => Ok(v.subrange(i, d - 1) + seq!['$'] + rest),
                Err(e) => Err(e),
            }
        } else {
            let prefix = v.subrange(i, d);
            let r = d + 1;
            if r >= v.len() {
                Ok(prefix + seq!['$'])
            } else if v[r] == '{' {
                let q = r + 1;
                let idend = ident_end(v, q, v.len() as int);
                if idend == q {
                    Err(spec_syntax_error(lineno as usize, 1))
                } else {
                    let name = cut_nul(v.subrange(q, idend));
                    if !(idend < v.len() && v[idend] == '}') {
                        if strict {
                            Err(spec_syntax_error(lineno as usize, 1))
                        } else {
                            match go_expand(v, idend, envm, strict, lineno) {
                                Ok(rest) => Ok(prefix + seq!['$', '{'] + name + rest),
                                Err(e) => Err(e),
                            }
                        }
                    } else {
                        let piece: Seq<char> = if envm.contains_key(name) {
                            envm[name]
                        } else {
                            Seq::empty()
                        };
                        match go_expand(v, idend + 1, envm, strict, lineno) {
                            Ok(rest) => Ok(prefix + piece + rest),
                            Err(e) => Err(e),
                        }
                    }
                }
            } else {
                let idend = ident_end(v, r, v.len() as int);
                if idend == r {
                    Err(spec_syntax_error(lineno as usize, 1))
                } else {
                    let name = cut_nul(v.subrange(r, idend));
                    let piece: Seq<char> = if envm.contains_key(name) {
                        envm[name]
                    } else {
                        Seq::empty()
                    };
                    match go_expand(v, idend, envm, strict, lineno) {
                        Ok(rest) => Ok(prefix + piece + rest),
                        Err(e) => Err(e),
                    }
                }
            }
        }
    }
}

#[via_fn]
proof fn go_expand_decreases(v: Seq<char>, i: int, envm: EnvModel, strict: bool, lineno: int) {
    if 0 <= i <= v.len() {
        lemma_char_pos(v, i, '$');
        let d = char_pos(v, i, '$');
        if d < v.len() {
            if d + 2 <= v.len() {
                lemma_ident_end(v, d + 2, v.len() as int);
            }
            if d + 1 <= v.len() {
                lemma_ident_end(v, d + 1, v.len() as int);
            }
        }
    }
}

/// The extracted value: quoted values to their closing quote with
/// escapes and substitution inside double quotes, unquoted values to
/// the line end with the backward comment search and an end trim.
pub open spec fn go_extract(
    s: Seq<char>,
    a: int,
    lineno: int,
    envm: EnvModel,
    strict: bool,
) -> Result<(Seq<char>, int, int), (Error, int)> {
    if 0 <= a && a < s.len() && (s[a] == '"' || s[a] == '\'') {
        let quote = s[a];
        match go_quote_end(s, a + 1, quote) {
            Some(k) => {
                let l2 = lineno + go_nl_count(s, a + 1, k);
                let raw = q_trim(s.subrange(a + 1, k), quote);
                if quote == '"' {
                    match go_expand(go_escapes(raw, 0), 0, envm, strict, l2) {
                        Ok(vv) => Ok((vv, k + 1, l2)),
                        Err(e) => Err((e, l2)),
                    }
                } else {
                    Ok((raw, k + 1, l2))
                }
            },
            None => {
                let l2 = lineno + go_nl_count(s, a + 1, s.len() as int);
                Err((spec_syntax_error(l2 as usize, 1), l2))
            },
        }
    } else {
        if a >= s.len() {
            Ok((Seq::empty(), s.len() as int, lineno))
        } else {
            let eol = rn_pos(s, a);
            if eol == a {
                Ok((Seq::empty(), a, lineno))
            } else {
                let ev = go_hash_back(s, a, eol, eol);
                let raw = s.subrange(a, ev);
                Ok((raw.subrange(0, go_trim_end(raw, raw.len() as int)), eol, lineno))
            }
        }
    }
}

pub proof fn lemma_go_extract(s: Seq<char>, a: int, lineno: int, envm: EnvModel, strict: bool)
    requires
        0 <= a <= s.len(),
    ensures
        match go_extract(s, a, lineno, envm, strict) {
            Ok((vv, rest, l2)) => a <= rest <= s.len(),
            Err(_) => true,
        },
{
    if a < s.len() && (s[a] == '"' || s[a] == '\'') {
        lemma_go_quote_end(s, a + 1, s[a]);
    } else if a < s.len() {
        lemma_rn_pos(s, a);
    }
}

/// The outcome of this dialect from position `i` on.
pub open spec fn go_statements(
    s: Seq<char>,
    i: int,
    lineno: int,
    env: EnvModel,
    override_env: bool,
    strict: bool,
) -> ParseOut
    decreases s.len() - i,
        via go_statements_decreases
{
    match cg_stmt_start(s, i, lineno) {
        None => ParseOut::done(env, Seq::empty()),
        Some((a, l)) => match go_locate_key(s, a, l) {
            Err(e) => ParseOut::fail(e, env, Seq::empty()),
            Ok((key_raw, left)) => {
                let key = cut_nul(key_raw);
                if key.len() != key_raw.len() && strict {
                    ParseOut::fail(spec_syntax_error(l as usize, 1), env, Seq::empty())
                } else {
                    match go_extract(s, left, l, env, strict) {
                        Err((e, l3)) => ParseOut::fail(e, env, Seq::empty()),
                        Ok((value_raw, left2, l3)) => {
                            let value = cut_nul(value_raw);
                            if value.len() != value_raw.len() && strict {
                                ParseOut::fail(
                                    spec_syntax_error(l3 as usize, 1),
                                    env,
                                    Seq::empty(),
                                )
                            } else {
                                let env2 = spec_set_var(env, key, value, override_env);
                                let rest = if left2 > i && left2 <= s.len() {
                                    go_statements(s, left2, l3, env2, override_env, strict)
                                } else {
                                    ParseOut::done(env2, Seq::empty())
                                };
                                ParseOut {
                                    err: rest.err,
                                    env: rest.env,
                                    writes: seq![(key, value)] + rest.writes,
                                }
                            }
                        },
                    }
                }
            },
        },
    }
}

#[via_fn]
proof fn go_statements_decreases(
    s: Seq<char>,
    i: int,
    lineno: int,
    env: EnvModel,
    override_env: bool,
    strict: bool,
) {
    if 0 <= i <= s.len() {
        lemma_cg_stmt_start(s, i, lineno);
        match cg_stmt_start(s, i, lineno) {
            None => {},
            Some((a, l)) => {
                lemma_go_locate(s, a, l);
                match go_locate_key(s, a, l) {
                    Err(_) => {},
                    Ok((key_raw, left)) => {
                        lemma_go_extract(s, left, l, env, strict);
                        let key = cut_nul(key_raw);
                        let env2 = spec_set_var(env, key, Seq::empty(), override_env);
                    },
                }
            },
        }
    }
}

/// The outcome of this dialect on a whole source, whose `\r\n` pairs
/// read as plain line feeds.
pub open spec fn godotenv_spec(
    src: Seq<char>,
    env: EnvModel,
    override_env: bool,
    strict: bool,
) -> ParseOut {
    go_statements(fix_nl(src, 0), 0, 1, env, override_env, strict)
}


/// Scans a key for its separator or an illegal character.
enum GoScan {
    Sep(usize),
    Bad(usize),
    End,
}

fn ekey_scan(v: &Vec<char>, a0: usize) -> (r: GoScan)
    requires
        a0 <= v@.len(),
    ensures
        ({
            let sp = go_key_scan(v@, a0 as int);
            match r {
                GoScan::Sep(p) => sp == KeyScan::Sep(p as int) && a0 <= p < v@.len(),
                GoScan::Bad(p) => sp == KeyScan::Bad(p as int) && a0 <= p < v@.len(),
                GoScan::End => sp == KeyScan::End,
            }
        }),
{
    let n = v.len();
    let mut j = a0;
    while j < n
        invariant
            a0 <= j <= n,
            n == v@.len(),
            go_key_scan(v@, a0 as int) == go_key_scan(v@, j as int),
        decreases n - j,
    {
        let c = v[j];
        let space = c == '\t' || c == '\u{B}' || c == '\u{C}' || c == '\r' || c == ' ' || c
            == '\u{85}' || c == '\u{A0}';
        if space {
            j = j + 1;
        } else if c == '=' || c == ':' {
            return GoScan::Sep(j);
        } else if c == '_' {
            j = j + 1;
        } else if unicode_alphanumeric(c) || c == '.' {
            j = j + 1;
        } else {
            return GoScan::Bad(j);
        }
    }
    GoScan::End
}

/// Strips trailing dialect spaces.
fn etrim_end_cg(v: &Vec<char>) -> (r: Vec<char>)
    ensures
        r@ == v@.subrange(0, go_trim_end(v@, v@.len() as int)),
{
    let n = v.len();
    let mut b: usize = n;
    while b > 0 && (v[b - 1] == '\t' || v[b - 1] == '\u{B}' || v[b - 1] == '\u{C}' || v[b - 1]
        == '\r' || v[b - 1] == ' ' || v[b - 1] == '\u{85}' || v[b - 1] == '\u{A0}')
        invariant
            b <= n,
            n == v@.len(),
            go_trim_end(v@, n as int) == go_trim_end(v@, b as int),
        decreases b,
    {
        b = b - 1;
    }
    proof {
        lemma_go_trim_end(v@, b as int);
    }
    subvec(v, 0, b)
}

/// Locates the key of the statement at `a`.
fn elocate_key(v: &Vec<char>, a: usize, lineno: usize) -> (r: Result<(Vec<char>, usize), Error>)
    requires
        a <= v@.len(),
        v@.len() < usize::MAX - 6,
        lineno < usize::MAX,
    ensures
        ({
            let sp: Result<(Seq<char>, int), Error> = go_locate_key(v@, a as int, lineno as int);
            match r {
                Ok((key, left)) => (sp matches Ok(t) && t == (key@, left as int)) && a <= left
                    <= v@.len(),
                Err(e) => sp matches Err(se) && se == e,
            }
        }),
{
    let a0 = if crate::composego::export_at(v, a) {
        crate::composego::space_skip(v, a + 6)
    } else {
        a
    };
    proof {
        assert(a0 as int == cg_trim_export(v@, a as int));
        lemma_cg_space_skip(v@, a0 as int);
    }
    match ekey_scan(v, a0) {
        GoScan::Bad(_) => Err(Error::syntax_error(lineno, 1)),
        GoScan::End => {
            if a0 >= v.len() {
                Err(Error::syntax_error(lineno, 1))
            } else {
                let key: Vec<char> = Vec::new();
                let left = crate::composego::space_skip(v, a0);
                proof {
                    assert(key@ =~= Seq::<char>::empty());
                }
                Ok((key, left))
            }
        },
        GoScan::Sep(j) => {
            let raw = subvec(v, a0, j);
            let key = etrim_end_cg(&raw);
            let left = crate::composego::space_skip(v, j + 1);
            Ok((key, left))
        },
    }
}

/// Finds the first `\r` or `\n`.
fn ern_pos(v: &Vec<char>, i: usize) -> (r: usize)
    requires
        i <= v@.len(),
    ensures
        r == rn_pos(v@, i as int),
        i <= r <= v@.len(),
{
    let n = v.len();
    let mut j = i;
    while j < n
        invariant
            i <= j <= n,
            n == v@.len(),
            rn_pos(v@, i as int) == rn_pos(v@, j as int),
        decreases n - j,
    {
        if v[j] == '\r' || v[j] == '\n' {
            return j;
        }
        j = j + 1;
    }
    j
}

/// The backward comment search.
fn ehash_back(v: &Vec<char>, a: usize, end: usize) -> (r: usize)
    requires
        a <= end <= v@.len(),
    ensures
        r == go_hash_back(v@, a as int, end as int, end as int),
        a <= r <= end,
{
    let mut k = end;
    while k > a
        invariant
            a <= k <= end <= v@.len(),
            go_hash_back(v@, a as int, end as int, end as int) == go_hash_back(
                v@,
                a as int,
                end as int,
                k as int,
            ),
        decreases k,
    {
        if v[k - 1] == '#' && k - 1 > a && (v[k - 2] == '\t' || v[k - 2] == '\u{B}' || v[k - 2]
            == '\u{C}' || v[k - 2] == '\r' || v[k - 2] == ' ' || v[k - 2] == '\u{85}' || v[k - 2]
            == '\u{A0}') {
            return k - 1;
        }
        k = k - 1;
    }
    end
}

/// The closing-quote search.
fn equote_end(v: &Vec<char>, i: usize, quote: char) -> (r: Option<usize>)
    requires
        i <= v@.len(),
    ensures
        ({
            let sp = go_quote_end(v@, i as int, quote);
            match r {
                Some(q) => sp == Some(q as int) && i <= q < v@.len(),
                None => sp is None,
            }
        }),
{
    let n = v.len();
    let mut j = i;
    while j < n
        invariant
            i <= j <= n,
            n == v@.len(),
            go_quote_end(v@, i as int, quote) == go_quote_end(v@, j as int, quote),
        decreases n - j,
    {
        if v[j] == quote && !(j > 0 && v[j - 1] == '\\') {
            proof {
                lemma_go_quote_end(v@, i as int, quote);
            }
            return Some(j);
        }
        j = j + 1;
    }
    None
}

/// Counts line feeds in `[a, b)`.
fn enl_count(v: &Vec<char>, a: usize, b: usize, lineno: usize) -> (r: usize)
    requires
        a <= b <= v@.len(),
        lineno + (b - a) < usize::MAX,
    ensures
        r as int == lineno + go_nl_count(v@, a as int, b as int),
        lineno <= r <= lineno + (b - a),
{
    let mut j = a;
    let mut l = lineno;
    while j < b
        invariant
            a <= j <= b <= v@.len(),
            lineno <= l <= lineno + (j - a),
            lineno + (b - a) < usize::MAX,
            lineno + go_nl_count(v@, a as int, b as int) == l + go_nl_count(
                v@,
                j as int,
                b as int,
            ),
        decreases b - j,
    {
        proof {
            lemma_go_nl_count(v@, j as int, b as int);
        }
        if v[j] == '\n' {
            l = l + 1;
        }
        j = j + 1;
    }
    l
}

/// Strips quote characters from both ends.
fn eq_trim(v: &Vec<char>, q: char) -> (r: Vec<char>)
    ensures
        r@ == q_trim(v@, q),
{
    let n = v.len();
    let mut a: usize = 0;
    while a < n && v[a] == q
        invariant
            a <= n,
            n == v@.len(),
            q_trim_start(v@, 0, q) == q_trim_start(v@, a as int, q),
        decreases n - a,
    {
        a = a + 1;
    }
    if a >= n {
        let r: Vec<char> = Vec::new();
        proof {
            assert(r@ =~= q_trim(v@, q));
        }
        return r;
    }
    let mut b: usize = n;
    while b > 0 && v[b - 1] == q
        invariant
            b <= n,
            n == v@.len(),
            q_trim_end(v@, n as int, q) == q_trim_end(v@, b as int, q),
        decreases b,
    {
        b = b - 1;
    }
    proof {
        lemma_q_trim_end_above(v@, n as int, a as int, q);
        lemma_q_trim_end_le(v@, b as int, q);
    }
    subvec(v, a, b)
}

proof fn lemma_q_trim_end_above(s: Seq<char>, j: int, a: int, q: char)
    requires
        0 <= a < s.len(),
        s[a] != q,
        a < j <= s.len(),
    ensures
        q_trim_end(s, j, q) > a,
    decreases j,
{
    if s[j - 1] == q {
        if j - 1 > a {
            lemma_q_trim_end_above(s, j - 1, a, q);
        }
    }
}

proof fn lemma_q_trim_end_le(s: Seq<char>, j: int, q: char)
    requires
        0 <= j,
    ensures
        q_trim_end(s, j, q) <= j,
    decreases j,
{
    if j > 0 && s[j - 1] == q {
        lemma_q_trim_end_le(s, j - 1, q);
    }
}

/// Decodes the escape table.
fn eescapes(v: &Vec<char>) -> (r: Vec<char>)
    ensures
        r@ == go_escapes(v@, 0),
{
    let n = v.len();
    let mut out: Vec<char> = Vec::new();
    let mut i: usize = 0;
    while i < n
        invariant
            i <= n,
            n == v@.len(),
            go_escapes(v@, 0) == out@ + go_escapes(v@, i as int),
        decreases n - i,
    {
        let b = crate::composego::find_char(v, i, '\\');
        push_range(&mut out, v, i, b);
        if b >= n {
            proof {
                assert(go_escapes(v@, 0) =~= out@);
            }
            return out;
        }
        if b + 1 >= n {
            out.push('\\');
            proof {
                assert(go_escapes(v@, 0) =~= out@);
            }
            return out;
        }
        let c = v[b + 1];
        if c == 'n' {
            out.push('\n');
        } else if c == 'r' {
            out.push('\r');
        } else if c == '$' {
            out.push('\\');
            out.push('$');
        } else {
            out.push(c);
        }
        i = b + 2;
    }
    proof {
        assert(go_escapes(v@, i as int) =~= Seq::<char>::empty());
        assert(go_escapes(v@, 0) =~= out@);
    }
    out
}

/// Expands substitution against the store.
#[verifier::rlimit(100)]
fn eexpand(v: &Vec<char>, env: &MemoryEnv, strict: bool, lineno: usize) -> (r: Result<
    Vec<char>,
    Error,
>)
    requires
        env.wf(),
    ensures
        ({
            let sp: Result<Seq<char>, Error> = go_expand(
                v@,
                0,
                env.as_map(),
                strict,
                lineno as int,
            );
            match r {
                Ok(out) => sp matches Ok(t) && t == out@,
                Err(e) => sp matches Err(se) && se == e,
            }
        }),
{
    let n = v.len();
    let mut out: Vec<char> = Vec::new();
    let mut i: usize = 0;
    while i < n
        invariant
            env.wf(),
            i <= n,
            n == v@.len(),
            ({
                let total: Result<Seq<char>, Error> = go_expand(
                    v@,
                    0,
                    env.as_map(),
                    strict,
                    lineno as int,
                );
                let here: Result<Seq<char>, Error> = go_expand(
                    v@,
                    i as int,
                    env.as_map(),
                    strict,
                    lineno as int,
                );
                match (total, here) {
                    (Ok(t), Ok(h)) => t == out@ + h,
                    (Err(te), Err(he)) => te == he,
                    (Err(te), Ok(_)) => false,
                    (Ok(_), Err(_)) => false,
                }
            }),
        decreases n - i,
    {
        let d = crate::composego::find_char(v, i, '$');
        if d >= n {
            push_range(&mut out, v, i, n);
            proof {
                let total = go_expand(v@, 0, env.as_map(), strict, lineno as int);
                assert(total matches Ok(t) && t =~= out@);
            }
            return Ok(out);
        }
        if d > i && v[d - 1] == '\\' {
            push_range(&mut out, v, i, d - 1);
            out.push('$');
            i = d + 1;
            continue;
        }
        push_range(&mut out, v, i, d);
        let r1 = d + 1;
        if r1 >= n {
            out.push('$');
            proof {
                let total = go_expand(v@, 0, env.as_map(), strict, lineno as int);
                assert(total matches Ok(t) && t =~= out@);
            }
            return Ok(out);
        }
        if v[r1] == '{' {
            let q = r1 + 1;
            let idend = crate::composego::ident_end_find(v, q, n);
            if idend == q {
                return Err(Error::syntax_error(lineno, 1));
            }
            let raw_name = subvec(v, q, idend);
            let name = cut_nul_vec(&raw_name);
            if !(idend < n && v[idend] == '}') {
                if strict {
                    return Err(Error::syntax_error(lineno, 1));
                }
                out.push('$');
                out.push('{');
                push_all(&mut out, &name);
                i = idend;
            } else {
                match env.get_chars(&name) {
                    Some(val) => {
                        push_all(&mut out, &val);
                    },
                    None => {
                    },
                }
                i = idend + 1;
            }
        } else {
            let idend = crate::composego::ident_end_find(v, r1, n);
            if idend == r1 {
                return Err(Error::syntax_error(lineno, 1));
            }
            let raw_name = subvec(v, r1, idend);
            let name = cut_nul_vec(&raw_name);
            match env.get_chars(&name) {
                Some(val) => {
                    push_all(&mut out, &val);
                },
                None => {
                },
            }
            i = idend;
        }
    }
    proof {
        let total = go_expand(v@, 0, env.as_map(), strict, lineno as int);
        assert(go_expand(v@, i as int, env.as_map(), strict, lineno as int) matches Ok(h) && h
            =~= Seq::<char>::empty());
        assert(total matches Ok(t) && t =~= out@);
    }
    Ok(out)
}

/// Extracts the value of one binding.
#[verifier::rlimit(100)]
fn eextract(v: &Vec<char>, a: usize, lineno: usize, env: &MemoryEnv, strict: bool) -> (r: Result<
    (Vec<char>, usize, usize),
    (Error, usize),
>)
    requires
        a <= v@.len(),
        env.wf(),
        lineno + v@.len() + 1 < usize::MAX,
    ensures
        ({
            let sp: Result<(Seq<char>, int, int), (Error, int)> = go_extract(
                v@,
                a as int,
                lineno as int,
                env.as_map(),
                strict,
            );
            match r {
                Ok((vv, rest, l2)) => (sp matches Ok(t) && t == (vv@, rest as int, l2 as int))
                    && a <= rest <= v@.len() && l2 <= lineno + (rest - a),
                Err((e, l2)) => (sp matches Err(t) && t == (e, l2 as int)) && l2 <= lineno + (
                v@.len() - a),
            }
        }),
{
    let n = v.len();
    if a < n && (v[a] == '"' || v[a] == '\'') {
        let quote = v[a];
        match equote_end(v, a + 1, quote) {
            Some(k) => {
                let l2 = enl_count(v, a + 1, k, lineno);
                let inner = subvec(v, a + 1, k);
                let raw = eq_trim(&inner, quote);
                if quote == '"' {
                    let esc = eescapes(&raw);
                    match eexpand(&esc, env, strict, l2) {
                        Ok(vv) => Ok((vv, k + 1, l2)),
                        Err(e) => Err((e, l2)),
                    }
                } else {
                    Ok((raw, k + 1, l2))
                }
            },
            None => {
                let l2 = enl_count(v, a + 1, n, lineno);
                Err((Error::syntax_error(l2, 1), l2))
            },
        }
    } else {
        if a >= n {
            let r: Vec<char> = Vec::new();
            proof {
                assert(r@ =~= Seq::<char>::empty());
            }
            return Ok((r, n, lineno));
        }
        let eol = ern_pos(v, a);
        if eol == a {
            let r: Vec<char> = Vec::new();
            proof {
                assert(r@ =~= Seq::<char>::empty());
            }
            return Ok((r, a, lineno));
        }
        let ev = ehash_back(v, a, eol);
        let raw = subvec(v, a, ev);
        let trimmed = etrim_end_cg(&raw);
        Ok((trimmed, eol, lineno))
    }
}

/// Parses a source in the Go dotenv dialect.  The outcome, store
/// included, is exactly `godotenv_spec`.
#[verifier::rlimit(100)]
#[verifier::spinoff_prover]
pub fn config_godotenv(src: &str, env: &mut MemoryEnv, options: &Options) -> (r: Result<
    (),
    Error,
>)
    requires
        old(env).wf(),
        src@.len() < 0x8000,
    ensures
        final(env).wf(),
        ({
            let out = godotenv_spec(src@, old(env).as_map(), options.override_env, options.strict);
            &&& final(env).as_map() == out.env
            &&& final(env).entries_seq() == apply_writes(
                old(env).entries_seq(),
                out.writes,
                0,
                options.override_env,
            )
            &&& (match r {
                Ok(()) => out.err is None,
                Err(e) => out.err == Some(e),
            })
        }),
{
    let all0 = chars_of(src);
    let all = crate::punktum::fix_newlines(&all0);
    let n = all.len();
    let ghost target = godotenv_spec(
        src@,
        old(env).as_map(),
        options.override_env,
        options.strict,
    );
    let mut pos: usize = 0;
    let mut lineno: usize = 1;
    while pos < n
        invariant
            env.wf(),
            n == all@.len(),
            n <= src@.len() < 0x8000,
            pos <= n,
            lineno <= pos + 1,
            all@ == fix_nl(src@, 0),
            target == godotenv_spec(
                src@,
                old(env).as_map(),
                options.override_env,
                options.strict,
            ),
            ({
                let cur = go_statements(
                    all@,
                    pos as int,
                    lineno as int,
                    env.as_map(),
                    options.override_env,
                    options.strict,
                );
                &&& target.err == cur.err
                &&& target.env == cur.env
                &&& apply_writes(old(env).entries_seq(), target.writes, 0, options.override_env)
                    == apply_writes(env.entries_seq(), cur.writes, 0, options.override_env)
            }),
        decreases n - pos,
    {
        let st = crate::composego::stmt_start(&all, pos, lineno);
        match st {
            None => {
                return Ok(());
            },
            Some((a, l)) => {
                let ghost envb = env.as_map();
                match elocate_key(&all, a, l) {
                    Err(e) => {
                        return Err(e);
                    },
                    Ok((key_raw, left)) => {
                        let key = cut_nul_vec(&key_raw);
                        if key.len() != key_raw.len() && options.strict {
                            return Err(Error::syntax_error(l, 1));
                        }
                        match eextract(&all, left, l, env, options.strict) {
                            Err((e, _)) => {
                                return Err(e);
                            },
                            Ok((value_raw, left2, l3)) => {
                                let value = cut_nul_vec(&value_raw);
                                if value.len() != value_raw.len() && options.strict {
                                    return Err(Error::syntax_error(l3, 1));
                                }
                                let ghost envb = env.as_map();
                                let ghost eb = env.entries_seq();
                                options.set_var(env, &key, &value);
                                proof {
                                    let w = (key@, value@);
                                    let cur = go_statements(
                                        all@,
                                        pos as int,
                                        lineno as int,
                                        envb,
                                        options.override_env,
                                        options.strict,
                                    );
                                    let env2 = spec_set_var(
                                        envb,
                                        w.0,
                                        w.1,
                                        options.override_env,
                                    );
                                    let rest = if left2 > pos && left2 <= n {
                                        go_statements(
                                            all@,
                                            left2 as int,
                                            l3 as int,
                                            env2,
                                            options.override_env,
                                            options.strict,
                                        )
                                    } else {
                                        ParseOut::done(env2, Seq::empty())
                                    };
                                    assert(cur.writes == seq![w] + rest.writes);
                                    crate::model::lemma_apply_writes_step(
                                        eb,
                                        w,
                                        rest.writes,
                                        options.override_env,
                                    );
                                }
                                if left2 > pos && left2 <= n {
                                    pos = left2;
                                    lineno = l3;
                                } else {
                                    return Ok(());
                                }
                            },
                        }
                    },
                }
            },
        }
    }
    Ok(())
}
} // verus!
