//! The Ruby dotenv dialect: the whole-buffer scanner with keys of
//! word characters and dots, inheritance from the parent store for
//! bare keys and `export KEY...` lines, quoted values with
//! backtracking,
//! `$NAME` / `${NAME}` substitution against the sink, and a legacy
//! line-break mode (read from the parent store's
//! `DOTENV_LINEBREAK_MODE`, overridden by the sink's) that decides
//! whether `\n` and `\r` escapes decode inside double quotes.

use vstd::prelude::*;

use crate::env::MemoryEnv;
use crate::error::{Error, spec_syntax_error};
use crate::jsdotenv::{
    etrack_nl, etrim_end, efind, equote_end_lib, ews, ews_inline, evalue_end, is_js_inline_ws,
    js_quote_end_lib, js_trim_end, js_value_end, js_ws, js_ws_inline, last_nl_ls, nl_count,
};
use crate::model::{
    EnvModel, ParseOut, WriteEntry, apply_writes, char_pos, cut_nul, lemma_char_pos, spec_set_var,
};
use crate::options::Options;
use crate::punktum::{fix_newlines, fix_nl};
use crate::text::{chars_of, push_all, push_range, subvec};

verus! {

/// A key character of this dialect.
pub open spec fn is_rb_word(c: char) -> bool {
    ('a' <= c && c <= 'z') || ('A' <= c && c <= 'Z') || ('0' <= c && c <= '9') || c == '_' || c
        == '.'
}

/// A substitution name character.
pub open spec fn is_rb_subst(c: char) -> bool {
    ('a' <= c && c <= 'z') || ('A' <= c && c <= 'Z') || ('0' <= c && c <= '9') || c == '_'
}

/// The end of a key word.
pub open spec fn rb_word_end(s: Seq<char>, i: int) -> int
    decreases s.len() - i,
{
    if i < 0 || i >= s.len() {
        s.len() as int
    } else if is_rb_word(s[i]) {
        rb_word_end(s, i + 1)
    } else {
        i
    }
}

pub proof fn lemma_rb_word_end(s: Seq<char>, i: int)
    requires
        0 <= i <= s.len(),
    ensures
        i <= rb_word_end(s, i) <= s.len(),
    decreases s.len() - i,
{
    if i < s.len() && is_rb_word(s[i]) {
        lemma_rb_word_end(s, i + 1);
    }
}

/// The end of a substitution name.
pub open spec fn rb_subst_end(s: Seq<char>, i: int) -> int
    decreases s.len() - i,
{
    if i < 0 || i >= s.len() {
        s.len() as int
    } else if is_rb_subst(s[i]) {
        rb_subst_end(s, i + 1)
    } else {
        i
    }
}

pub proof fn lemma_rb_subst_end(s: Seq<char>, i: int)
    requires
        0 <= i <= s.len(),
    ensures
        i <= rb_subst_end(s, i) <= s.len(),
    decreases s.len() - i,
{
    if i < s.len() && is_rb_subst(s[i]) {
        lemma_rb_subst_end(s, i + 1);
    }
}

/// The sequence of characters of the legacy mode marker value.
pub open spec fn legacy_word() -> Seq<char> {
    seq!['l', 'e', 'g', 'a', 'c', 'y']
}

/// The name of the line-break mode variable.
pub open spec fn linebreak_key() -> Seq<char> {
    seq![
        'D',
        'O',
        'T',
        'E',
        'N',
        'V',
        '_',
        'L',
        'I',
        'N',
        'E',
        'B',
        'R',
        'E',
        'A',
        'K',
        '_',
        'M',
        'O',
        'D',
        'E',
    ]
}

/// Whether the store asks for the legacy line-break mode, falling
/// back to the parent store's answer.
pub open spec fn rb_legacy(envm: EnvModel, parent_flag: bool) -> bool {
    if envm.contains_key(linebreak_key()) {
        envm[linebreak_key()] == legacy_word()
    } else {
        parent_flag
    }
}

/// The double-quote unescape of this dialect: `\$` stays escaped,
/// `\n` and `\r` decode only in legacy mode, every other escape drops
/// its backslash, and a trailing backslash keeps the rest unchanged.
pub open spec fn rb_unescape_double(v: Seq<char>, i: int, legacy: bool) -> Seq<char>
    decreases v.len() - i,
        via rb_unescape_double_decreases
{
    if i < 0 || i > v.len() {
        Seq::empty()
    } else {
        let b = char_pos(v, i, '\\');
        if b >= v.len() {
            v.subrange(i, v.len() as int)
        } else if b + 1 >= v.len() {
            v.subrange(i, v.len() as int)
        } else {
            let c = v[b + 1];
            let prefix = v.subrange(i, b);
            let piece: Seq<char> = if c == '$' {
                seq!['\\', '$']
            } else if c == 'n' {
                if legacy {
                    seq!['\n']
                } else {
                    seq!['\\', 'n']
                }
            } else if c == 'r' {
                if legacy {
                    seq!['\r']
                } else {
                    seq!['\\', 'r']
                }
            } else {
                seq![c]
            };
            prefix + piece + rb_unescape_double(v, b + 2, legacy)
        }
    }
}

#[via_fn]
proof fn rb_unescape_double_decreases(v: Seq<char>, i: int, legacy: bool) {
    if 0 <= i <= v.len() {
        lemma_char_pos(v, i, '\\');
    }
}

/// The unquoted unescape: only `\$` stays escaped, every other
/// escape drops its backslash.
pub open spec fn rb_unescape_unquoted(v: Seq<char>, i: int) -> Seq<char>
    decreases v.len() - i,
        via rb_unescape_unquoted_decreases
{
    if i < 0 || i > v.len() {
        Seq::empty()
    } else {
        let b = char_pos(v, i, '\\');
        if b >= v.len() {
            v.subrange(i, v.len() as int)
        } else if b + 1 >= v.len() {
            v.subrange(i, v.len() as int)
        } else {
            let c = v[b + 1];
            let prefix = v.subrange(i, b);
            let piece: Seq<char> = if c == '$' {
                seq!['\\', '$']
            } else {
                seq![c]
            };
            prefix + piece + rb_unescape_unquoted(v, b + 2)
        }
    }
}

#[via_fn]
proof fn rb_unescape_unquoted_decreases(v: Seq<char>, i: int) {
    if 0 <= i <= v.len() {
        lemma_char_pos(v, i, '\\');
    }
}

/// The first `$` or `\` at or after `i`.
pub open spec fn rb_subst_start_pos(v: Seq<char>, i: int) -> int
    decreases v.len() - i,
{
    if i < 0 || i >= v.len() {
        v.len() as int
    } else if v[i] == '$' || v[i] == '\\' {
        i
    } else {
        rb_subst_start_pos(v, i + 1)
    }
}

pub proof fn lemma_rb_subst_start_pos(v: Seq<char>, i: int)
    requires
        0 <= i <= v.len(),
    ensures
        i <= rb_subst_start_pos(v, i) <= v.len(),
        rb_subst_start_pos(v, i) < v.len() ==> (v[rb_subst_start_pos(v, i)] == '$'
            || v[rb_subst_start_pos(v, i)] == '\\'),
    decreases v.len() - i,
{
    if i < v.len() && v[i] != '$' && v[i] != '\\' {
        lemma_rb_subst_start_pos(v, i + 1);
    }
}

/// The substitution pass of this dialect: `\$` escapes a dollar,
/// `$NAME` and `${NAME}` are looked up in the store (nothing for
/// unset names), a lone `$` or empty braces pass through.
pub open spec fn rb_subst(v: Seq<char>, i: int, envm: EnvModel) -> Seq<char>
    decreases v.len() - i,
        via rb_subst_decreases
{
    if i < 0 || i > v.len() {
        Seq::empty()
    } else {
        let b = rb_subst_start_pos(v, i);
        if b >= v.len() {
            v.subrange(i, v.len() as int)
        } else {
            let prefix = v.subrange(i, b);
            if v[b] == '\\' {
                if b + 1 >= v.len() {
                    prefix + seq!['\\']
                } else {
                    let c = v[b + 1];
                    let piece: Seq<char> = if c == '$' {
                        seq!['$']
                    } else {
                        seq!['\\', c]
                    };
                    prefix + piece + rb_subst(v, b + 2, envm)
                }
            } else {
                let braced = b + 1 < v.len() && v[b + 1] == '{';
                let vstart = if braced {
                    b + 2
                } else {
                    b + 1
                };
                let vend = rb_subst_end(v, vstart);
                if vstart == vend {
                    prefix + v.subrange(b, vend) + rb_subst(v, vend, envm)
                } else {
                    let name = v.subrange(vstart, vend);
                    let piece: Seq<char> = if envm.contains_key(name) {
                        envm[name]
                    } else {
                        Seq::empty()
                    };
                    let after = if vend < v.len() && v[vend] == '}' {
                        vend + 1
                    } else {
                        vend
                    };
                    prefix + piece + rb_subst(v, after, envm)
                }
            }
        }
    }
}

#[via_fn]
proof fn rb_subst_decreases(v: Seq<char>, i: int, envm: EnvModel) {
    if 0 <= i <= v.len() {
        lemma_rb_subst_start_pos(v, i);
        let b = rb_subst_start_pos(v, i);
        if b < v.len() {
            lemma_rb_subst_end(v, b + 1);
            if b + 2 <= v.len() {
                lemma_rb_subst_end(v, b + 2);
            }
        }
    }
}

/// The inherit run of an `export KEY...` line: each named key whose
/// value the parent store holds is copied into the sink under the
/// override policy; an absent key writes nothing.  The result is the
/// error (an empty key name, under strict), the position to continue
/// from, the store after the copies, and the writes made.
pub open spec fn rb_inherit_run(
    s: Seq<char>,
    ks: int,
    ke: int,
    i: int,
    ls: int,
    l: int,
    env: EnvModel,
    parentm: EnvModel,
    ovr: bool,
    strict: bool,
) -> (Option<Error>, int, EnvModel, Seq<WriteEntry>)
    decreases s.len() - ke,
        via rb_inherit_run_decreases
{
    if !(0 <= ks <= ke <= i && i <= s.len() && 0 <= ls) {
        (None, s.len() as int, env, Seq::empty())
    } else {
        let key = s.subrange(ks, ke);
        let env1 = if parentm.contains_key(key) {
            spec_set_var(env, key, parentm[key], ovr)
        } else {
            env
        };
        let w1: Seq<WriteEntry> = if parentm.contains_key(key) {
            seq![(key, parentm[key])]
        } else {
            Seq::empty()
        };
        let j = js_ws_inline(s, i);
        if j < s.len() && (s[j] == '#' || s[j] == '\n') {
            (None, char_pos(s, j, '\n'), env1, w1)
        } else if j >= s.len() {
            (None, s.len() as int, env1, w1)
        } else {
            let ks2 = j;
            let ke2 = rb_word_end(s, j);
            if ks2 == ke2 {
                if strict {
                    (
                        Some(spec_syntax_error(l as usize, (ke2 - ls + 1) as usize)),
                        ke2,
                        env1,
                        w1,
                    )
                } else {
                    (None, char_pos(s, ke2, '\n'), env1, w1)
                }
            } else {
                let (oe, nx, env2, w2) = rb_inherit_run(
                    s,
                    ks2,
                    ke2,
                    ke2,
                    ls,
                    l,
                    env1,
                    parentm,
                    ovr,
                    strict,
                );
                (oe, nx, env2, w1 + w2)
            }
        }
    }
}

#[via_fn]
proof fn rb_inherit_run_decreases(
    s: Seq<char>,
    ks: int,
    ke: int,
    i: int,
    ls: int,
    l: int,
    env: EnvModel,
    parentm: EnvModel,
    ovr: bool,
    strict: bool,
) {
    if 0 <= ks <= ke <= i && i <= s.len() {
        crate::jsdotenv::lemma_js_ws_inline(s, i);
        let j = js_ws_inline(s, i);
        if 0 <= j <= s.len() {
            lemma_rb_word_end(s, j);
            if j < s.len() && is_rb_word(s[j]) {
                lemma_rb_word_end(s, j + 1);
            }
        }
    }
}

pub proof fn lemma_rb_inherit_run(
    s: Seq<char>,
    ks: int,
    ke: int,
    i: int,
    ls: int,
    l: int,
    env: EnvModel,
    parentm: EnvModel,
    ovr: bool,
    strict: bool,
)
    requires
        0 <= ks <= ke <= i <= s.len(),
        0 <= ls,
    ensures
        ({
            let (oe, nx, env2, w) = rb_inherit_run(s, ks, ke, i, ls, l, env, parentm, ovr, strict);
            i <= nx <= s.len()
        }),
    decreases s.len() - ke,
{
    crate::jsdotenv::lemma_js_ws_inline(s, i);
    let j = js_ws_inline(s, i);
    lemma_char_pos(s, j, '\n');
    let key = s.subrange(ks, ke);
    let env1 = if parentm.contains_key(key) {
        spec_set_var(env, key, parentm[key], ovr)
    } else {
        env
    };
    if j < s.len() && (s[j] == '#' || s[j] == '\n') {
    } else if j < s.len() {
        let ke2 = rb_word_end(s, j);
        lemma_rb_word_end(s, j);
        lemma_char_pos(s, ke2, '\n');
        if j != ke2 {
            if is_rb_word(s[j]) {
                lemma_rb_word_end(s, j + 1);
            }
            lemma_rb_inherit_run(s, j, ke2, ke2, ls, l, env1, parentm, ovr, strict);
        }
    }
}

/// One write of this dialect and the scan of the rest.
pub open spec fn rb_write(
    s: Seq<char>,
    lstart: int,
    idx: int,
    lineno: int,
    key: Seq<char>,
    value: Seq<char>,
    env: EnvModel,
    parentm: EnvModel,
    ovr: bool,
    strict: bool,
) -> ParseOut
    decreases s.len() - idx, 2int
        via rb_write_decreases
{
    let kk = cut_nul(key);
    let vv = cut_nul(value);
    let env2 = spec_set_var(env, kk, vv, ovr);
    let rest = rb_from(s, lstart, idx, lineno, env2, parentm, ovr, strict);
    ParseOut { err: rest.err, env: rest.env, writes: seq![(kk, vv)] + rest.writes }
}

/// The outcome of this dialect from position `idx`.
pub open spec fn rb_from(
    s: Seq<char>,
    lstart: int,
    idx: int,
    lineno: int,
    env: EnvModel,
    parentm: EnvModel,
    ovr: bool,
    strict: bool,
) -> ParseOut
    decreases s.len() - idx, 1int
        via rb_from_decreases
{
    if !(0 <= lstart <= idx && idx < s.len() && lineno >= 0) {
        ParseOut::done(env, Seq::empty())
    } else {
        let (i1, ls1, l1) = js_ws(s, idx, lstart, lineno);
        if i1 < s.len() && s[i1] == '#' {
            let nx = char_pos(s, i1, '\n');
            if nx < s.len() {
                rb_from(s, ls1, nx, l1, env, parentm, ovr, strict)
            } else {
                ParseOut::done(env, Seq::empty())
            }
        } else if i1 >= s.len() {
            ParseOut::done(env, Seq::empty())
        } else {
            let ks0 = i1;
            let ke0 = rb_word_end(s, ks0);
            let i2 = js_ws_inline(s, ke0);
            let exported = i2 < s.len() && is_rb_word(s[i2]) && s.subrange(ks0, ke0)
                == crate::punktum::export_word();
            let ks = if exported {
                i2
            } else {
                ks0
            };
            let ke = if exported {
                rb_word_end(s, i2)
            } else {
                ke0
            };
            let i3 = if exported {
                js_ws_inline(s, rb_word_end(s, i2))
            } else {
                i2
            };
            if ks == ke {
                if strict {
                    ParseOut::fail(
                        spec_syntax_error(l1 as usize, (ke - ls1 + 1) as usize),
                        env,
                        Seq::empty(),
                    )
                } else {
                    let nx = char_pos(s, i3, '\n');
                    if nx < s.len() {
                        rb_from(s, ls1, nx, l1, env, parentm, ovr, strict)
                    } else {
                        ParseOut::done(env, Seq::empty())
                    }
                }
            } else if exported && i3 < s.len() && is_rb_word(s[i3]) {
                let (oe, nx, env1, w1) = rb_inherit_run(
                    s,
                    ks,
                    ke,
                    ke,
                    ls1,
                    l1,
                    env,
                    parentm,
                    ovr,
                    strict,
                );
                match oe {
                    Some(e) => ParseOut { err: Some(e), env: env1, writes: w1 },
                    None => {
                        if nx < s.len() {
                            let rest = rb_from(s, ls1, nx, l1, env1, parentm, ovr, strict);
                            ParseOut { err: rest.err, env: rest.env, writes: w1 + rest.writes }
                        } else {
                            ParseOut { err: None, env: env1, writes: w1 }
                        }
                    },
                }
            } else if i3 >= s.len() || s[i3] == '\n' || s[i3] == '#' {
                // a bare key (or a lone exported key): the parent's
                // value is copied into the sink when it is there
                let key = s.subrange(ks, ke);
                let env1 = if parentm.contains_key(key) {
                    spec_set_var(env, key, parentm[key], ovr)
                } else {
                    env
                };
                let w1: Seq<WriteEntry> = if parentm.contains_key(key) {
                    seq![(key, parentm[key])]
                } else {
                    Seq::empty()
                };
                let nx = char_pos(s, i3, '\n');
                if nx < s.len() {
                    let rest = rb_from(s, ls1, nx, l1, env1, parentm, ovr, strict);
                    ParseOut { err: rest.err, env: rest.env, writes: w1 + rest.writes }
                } else {
                    ParseOut { err: None, env: env1, writes: w1 }
                }
            } else if !(i3 < s.len() && (s[i3] == '=' || s[i3] == ':')) {
                if strict {
                    ParseOut::fail(
                        spec_syntax_error(l1 as usize, (i3 - ls1 + 1) as usize),
                        env,
                        Seq::empty(),
                    )
                } else {
                    let nx = char_pos(s, i3, '\n');
                    if nx < s.len() {
                        rb_from(s, ls1, nx, l1, env, parentm, ovr, strict)
                    } else {
                        ParseOut::done(env, Seq::empty())
                    }
                }
            } else {
                rb_value_case(s, ls1, i3, l1, ks, ke, env, parentm, ovr, strict)
            }
        }
    }
}

/// The value of one binding and the scan of the rest.
pub open spec fn rb_value_case(
    s: Seq<char>,
    ls3: int,
    i3: int,
    l3: int,
    ks: int,
    ke: int,
    env: EnvModel,
    parentm: EnvModel,
    ovr: bool,
    strict: bool,
) -> ParseOut
    decreases s.len() - i3, 0int
        via rb_value_case_decreases
{
    if !(0 <= ks <= ke <= s.len() && 0 <= ls3 <= i3 < s.len()) {
        ParseOut::done(env, Seq::empty())
    } else {
        let key = s.subrange(ks, ke);
        let j = js_ws_inline(s, i3 + 1);
        let quoted: Option<int> = if j < s.len() && (s[j] == '"' || s[j] == '\'') {
            match js_quote_end_lib(s, j + 1, s[j]) {
                Some(q) => {
                    let t = js_ws_inline(s, q + 1);
                    if t < s.len() && s[t] == '#' {
                        Some(q)
                    } else if t < s.len() && s[t] != '\n' {
                        None  // backtrack to an unquoted reading
                    } else {
                        Some(q)
                    }
                },
                None => None,
            }
        } else {
            None
        };
        match quoted {
            Some(q) => {
                let ls4 = last_nl_ls(s, j + 1, q, ls3);
                let l4 = l3 + nl_count(s, j + 1, q);
                let t = js_ws_inline(s, q + 1);
                let after = if t < s.len() && s[t] == '#' {
                    char_pos(s, t, '\n')
                } else {
                    t
                };
                let inner = s.subrange(j + 1, q);
                let value = if s[j] == '"' {
                    rb_subst(
                        rb_unescape_double(inner, 0, rb_legacy(env, rb_parent_flag(parentm))),
                        0,
                        env,
                    )
                } else {
                    inner
                };
                if after < s.len() {
                    rb_write(s, ls4, after, l4, key, value, env, parentm, ovr, strict)
                } else {
                    let kk = cut_nul(key);
                    let vv = cut_nul(value);
                    ParseOut {
                        err: None,
                        env: spec_set_var(env, kk, vv, ovr),
                        writes: seq![(kk, vv)],
                    }
                }
            },
            None => {
                let ve = js_value_end(s, j);
                let raw = s.subrange(j, ve);
                let value = if raw.len() > 1 && s[j] == '\'' && raw.last() == '\'' {
                    s.subrange(j + 1, ve - 1)
                } else if raw.len() > 1 && s[j] == '"' && raw.last() == '"' {
                    rb_subst(
                        rb_unescape_double(
                            s.subrange(j + 1, ve - 1),
                            0,
                            rb_legacy(env, rb_parent_flag(parentm)),
                        ),
                        0,
                        env,
                    )
                } else {
                    let te0 = js_trim_end(s, ve);
                    let te = if te0 < j {
                        j
                    } else {
                        te0
                    };
                    rb_subst(rb_unescape_unquoted(s.subrange(j, te), 0), 0, env)
                };
                let after = if ve < s.len() && s[ve] == '#' {
                    char_pos(s, ve, '\n')
                } else {
                    ve
                };
                if after < s.len() {
                    rb_write(s, ls3, after, l3, key, value, env, parentm, ovr, strict)
                } else {
                    let kk = cut_nul(key);
                    let vv = cut_nul(value);
                    ParseOut {
                        err: None,
                        env: spec_set_var(env, kk, vv, ovr),
                        writes: seq![(kk, vv)],
                    }
                }
            },
        }
    }
}

#[via_fn]
proof fn rb_write_decreases(
    s: Seq<char>,
    lstart: int,
    idx: int,
    lineno: int,
    key: Seq<char>,
    value: Seq<char>,
    env: EnvModel,
    parentm: EnvModel,
    ovr: bool,
    strict: bool,
) {
}

#[via_fn]
proof fn rb_from_decreases(
    s: Seq<char>,
    lstart: int,
    idx: int,
    lineno: int,
    env: EnvModel,
    parentm: EnvModel,
    ovr: bool,
    strict: bool,
) {
    if 0 <= lstart <= idx && idx < s.len() {
        crate::jsdotenv::lemma_js_ws(s, idx, lstart, lineno);
        let (i1, ls1, l1) = js_ws(s, idx, lstart, lineno);
        lemma_char_pos(s, i1, '\n');
        if i1 < s.len() {
            lemma_rb_word_end(s, i1);
            if is_rb_word(s[i1]) {
                lemma_rb_word_end(s, i1 + 1);
            }
            let ke0 = rb_word_end(s, i1);
            crate::jsdotenv::lemma_js_ws_inline(s, ke0);
            let i2 = js_ws_inline(s, ke0);
            lemma_char_pos(s, i2, '\n');
            if ke0 == i1 {
                assert(js_ws_inline(s, ke0) == i1);
            }
            if i2 < s.len() && ls1 >= 0 {
                lemma_rb_word_end(s, i2);
                let kex = rb_word_end(s, i2);
                lemma_rb_inherit_run(s, i2, kex, kex, ls1, l1, env, parentm, ovr, strict);
            }
            if i2 < s.len() {
                lemma_rb_word_end(s, i2);
                if is_rb_word(s[i2]) {
                    lemma_rb_word_end(s, i2 + 1);
                }
                let ke2 = rb_word_end(s, i2);
                crate::jsdotenv::lemma_js_ws_inline(s, ke2);
                let i3 = js_ws_inline(s, ke2);
                lemma_char_pos(s, i3, '\n');
            }
        }
    }
}

#[via_fn]
proof fn rb_value_case_decreases(
    s: Seq<char>,
    ls3: int,
    i3: int,
    l3: int,
    ks: int,
    ke: int,
    env: EnvModel,
    parentm: EnvModel,
    ovr: bool,
    strict: bool,
) {
    if 0 <= ls3 <= i3 < s.len() {
        crate::jsdotenv::lemma_js_ws_inline(s, i3 + 1);
        let j = js_ws_inline(s, i3 + 1);
        if 0 <= j <= s.len() {
            crate::jsdotenv::lemma_js_value_end(s, j);
            let ve = js_value_end(s, j);
            lemma_char_pos(s, ve, '\n');
            if j < s.len() {
                crate::jsdotenv::lemma_js_quote_end_lib(s, j + 1, s[j]);
                match js_quote_end_lib(s, j + 1, s[j]) {
                    Some(q) => {
                        crate::jsdotenv::lemma_js_ws_inline(s, q + 1);
                        let t = js_ws_inline(s, q + 1);
                        lemma_char_pos(s, t, '\n');
                    },
                    None => {},
                }
            }
        }
    }
}

/// The outcome of this dialect on a whole source against the sink
/// and the parent store.
pub open spec fn rb_spec(
    src: Seq<char>,
    env: EnvModel,
    parentm: EnvModel,
    ovr: bool,
    strict: bool,
) -> ParseOut {
    let f = fix_nl(src, 0);
    if f.len() == 0 {
        ParseOut::done(env, Seq::empty())
    } else {
        rb_from(f, 0, 0, 1, env, parentm, ovr, strict)
    }
}

/// Whether the parent store asks for the legacy line-break mode.
pub open spec fn rb_parent_flag(parentm: EnvModel) -> bool {
    parentm.contains_key(linebreak_key()) && parentm[linebreak_key()] == legacy_word()
}

/// Builds the name of the line-break mode variable.
fn linebreak_key_vec() -> (r: Vec<char>)
    ensures
        r@ == linebreak_key(),
{
    let v = chars_of("DOTENV_LINEBREAK_MODE");
    proof {
        reveal_strlit("DOTENV_LINEBREAK_MODE");
        assert(v@ =~= linebreak_key());
    }
    v
}

/// Builds the legacy marker value.
fn legacy_word_vec() -> (r: Vec<char>)
    ensures
        r@ == legacy_word(),
{
    let v = chars_of("legacy");
    proof {
        reveal_strlit("legacy");
        assert(v@ =~= legacy_word());
    }
    v
}

/// The parent store's legacy line-break answer.
fn eparent_flag(parent: &MemoryEnv) -> (r: bool)
    requires
        parent.wf(),
    ensures
        r == rb_parent_flag(parent.as_map()),
{
    let key = linebreak_key_vec();
    match parent.get_chars(&key) {
        Some(val) => {
            let lg = legacy_word_vec();
            crate::text::chars_eq(&val, &lg)
        },
        None => false,
    }
}

/// Whether the store asks for the legacy mode, with the parent's
/// answer as fallback.
fn elegacy(env: &MemoryEnv, parent_flag: bool) -> (r: bool)
    requires
        env.wf(),
    ensures
        r == rb_legacy(env.as_map(), parent_flag),
{
    let key = linebreak_key_vec();
    match env.get_chars(&key) {
        Some(val) => {
            let lg = legacy_word_vec();
            crate::text::chars_eq(&val, &lg)
        },
        None => parent_flag,
    }
}

/// Finds the end of a key word.
fn erb_word_end(v: &Vec<char>, i: usize) -> (r: usize)
    requires
        i <= v@.len(),
    ensures
        r == rb_word_end(v@, i as int),
        i <= r <= v@.len(),
{
    let n = v.len();
    let mut j = i;
    while j < n
        invariant
            i <= j <= n,
            n == v@.len(),
            rb_word_end(v@, i as int) == rb_word_end(v@, j as int),
        decreases n - j,
    {
        let c = v[j];
        let w = ('a' <= c && c <= 'z') || ('A' <= c && c <= 'Z') || ('0' <= c && c <= '9') || c
            == '_' || c == '.';
        if !w {
            return j;
        }
        j = j + 1;
    }
    j
}

/// Finds the end of a substitution name.
fn erb_subst_end(v: &Vec<char>, i: usize) -> (r: usize)
    requires
        i <= v@.len(),
    ensures
        r == rb_subst_end(v@, i as int),
        i <= r <= v@.len(),
{
    let n = v.len();
    let mut j = i;
    while j < n
        invariant
            i <= j <= n,
            n == v@.len(),
            rb_subst_end(v@, i as int) == rb_subst_end(v@, j as int),
        decreases n - j,
    {
        let c = v[j];
        let w = ('a' <= c && c <= 'z') || ('A' <= c && c <= 'Z') || ('0' <= c && c <= '9') || c
            == '_';
        if !w {
            return j;
        }
        j = j + 1;
    }
    j
}

/// The double-quote unescape.
fn erb_unescape_double(v: &Vec<char>, legacy: bool) -> (r: Vec<char>)
    ensures
        r@ == rb_unescape_double(v@, 0, legacy),
{
    let n = v.len();
    let mut out: Vec<char> = Vec::new();
    let mut i: usize = 0;
    while i < n
        invariant
            i <= n,
            n == v@.len(),
            rb_unescape_double(v@, 0, legacy) == out@ + rb_unescape_double(v@, i as int, legacy),
        decreases n - i,
    {
        let b = efind(v, i, '\\');
        if b >= n || b + 1 >= n {
            push_range(&mut out, v, i, n);
            proof {
                assert(rb_unescape_double(v@, 0, legacy) =~= out@);
            }
            return out;
        }
        push_range(&mut out, v, i, b);
        let c = v[b + 1];
        if c == '$' {
            out.push('\\');
            out.push('$');
        } else if c == 'n' {
            if legacy {
                out.push('\n');
            } else {
                out.push('\\');
                out.push('n');
            }
        } else if c == 'r' {
            if legacy {
                out.push('\r');
            } else {
                out.push('\\');
                out.push('r');
            }
        } else {
            out.push(c);
        }
        i = b + 2;
    }
    proof {
        assert(rb_unescape_double(v@, i as int, legacy) =~= Seq::<char>::empty());
        assert(rb_unescape_double(v@, 0, legacy) =~= out@);
    }
    out
}

/// The unquoted unescape.
fn erb_unescape_unquoted(v: &Vec<char>) -> (r: Vec<char>)
    ensures
        r@ == rb_unescape_unquoted(v@, 0),
{
    let n = v.len();
    let mut out: Vec<char> = Vec::new();
    let mut i: usize = 0;
    while i < n
        invariant
            i <= n,
            n == v@.len(),
            rb_unescape_unquoted(v@, 0) == out@ + rb_unescape_unquoted(v@, i as int),
        decreases n - i,
    {
        let b = efind(v, i, '\\');
        if b >= n || b + 1 >= n {
            push_range(&mut out, v, i, n);
            proof {
                assert(rb_unescape_unquoted(v@, 0) =~= out@);
            }
            return out;
        }
        push_range(&mut out, v, i, b);
        let c = v[b + 1];
        if c == '$' {
            out.push('\\');
            out.push('$');
        } else {
            out.push(c);
        }
        i = b + 2;
    }
    proof {
        assert(rb_unescape_unquoted(v@, i as int) =~= Seq::<char>::empty());
        assert(rb_unescape_unquoted(v@, 0) =~= out@);
    }
    out
}

/// Finds the first `$` or `\`.
fn erb_subst_start(v: &Vec<char>, i: usize) -> (r: usize)
    requires
        i <= v@.len(),
    ensures
        r == rb_subst_start_pos(v@, i as int),
        i <= r <= v@.len(),
        r < v@.len() ==> (v@[r as int] == '$' || v@[r as int] == '\\'),
{
    let n = v.len();
    let mut j = i;
    while j < n
        invariant
            i <= j <= n,
            n == v@.len(),
            rb_subst_start_pos(v@, i as int) == rb_subst_start_pos(v@, j as int),
        decreases n - j,
    {
        if v[j] == '$' || v[j] == '\\' {
            return j;
        }
        j = j + 1;
    }
    j
}

/// The substitution pass.
#[verifier::rlimit(100)]
fn erb_subst(v: &Vec<char>, env: &MemoryEnv) -> (r: Vec<char>)
    requires
        env.wf(),
    ensures
        r@ == rb_subst(v@, 0, env.as_map()),
{
    let n = v.len();
    let mut out: Vec<char> = Vec::new();
    let mut i: usize = 0;
    while i < n
        invariant
            env.wf(),
            i <= n,
            n == v@.len(),
            rb_subst(v@, 0, env.as_map()) == out@ + rb_subst(v@, i as int, env.as_map()),
        decreases n - i,
    {
        let b = erb_subst_start(v, i);
        push_range(&mut out, v, i, b);
        if b >= n {
            proof {
                assert(rb_subst(v@, 0, env.as_map()) =~= out@);
            }
            return out;
        }
        if v[b] == '\\' {
            if b + 1 >= n {
                out.push('\\');
                proof {
                    assert(rb_subst(v@, 0, env.as_map()) =~= out@);
                }
                return out;
            }
            let c = v[b + 1];
            if c == '$' {
                out.push('$');
            } else {
                out.push('\\');
                out.push(c);
            }
            i = b + 2;
        } else {
            let braced = b + 1 < n && v[b + 1] == '{';
            let vstart = if braced {
                b + 2
            } else {
                b + 1
            };
            if vstart > n {
                // a `${` pair standing at the very end
                proof {
                    assert(false);
                }
                return out;
            }
            let vend = erb_subst_end(v, vstart);
            if vstart == vend {
                push_range(&mut out, v, b, vend);
                i = vend;
            } else {
                let name = subvec(v, vstart, vend);
                match env.get_chars(&name) {
                    Some(val) => {
                        push_all(&mut out, &val);
                    },
                    None => {
                    },
                }
                let after = if vend < n && v[vend] == '}' {
                    vend + 1
                } else {
                    vend
                };
                i = after;
            }
        }
    }
    proof {
        assert(rb_subst(v@, i as int, env.as_map()) =~= Seq::<char>::empty());
        assert(rb_subst(v@, 0, env.as_map()) =~= out@);
    }
    out
}

/// The inherit run of an `export KEY...` line: each named key the
/// parent store holds is copied into the sink.
fn erb_inherit_run(
    v: &Vec<char>,
    ks: usize,
    ke: usize,
    env: &mut MemoryEnv,
    parent: &MemoryEnv,
    options: &Options,
    ls: usize,
    l: usize,
) -> (r: Result<usize, Error>)
    requires
        old(env).wf(),
        parent.wf(),
        ks <= ke <= v@.len(),
        ls <= ks,
        v@.len() < usize::MAX - 2,
    ensures
        final(env).wf(),
        ({
            let (oe, nx, env2, w) = rb_inherit_run(
                v@,
                ks as int,
                ke as int,
                ke as int,
                ls as int,
                l as int,
                old(env).as_map(),
                parent.as_map(),
                options.override_env,
                options.strict,
            );
            &&& final(env).as_map() == env2
            &&& final(env).entries_seq() == apply_writes(
                old(env).entries_seq(),
                w,
                0,
                options.override_env,
            )
            &&& (match r {
                Ok(nxe) => oe is None && nxe as int == nx && ke <= nxe <= v@.len(),
                Err(e) => oe == Some(e),
            })
        }),
    decreases v@.len() - ke,
{
    let n = v.len();
    let key = subvec(v, ks, ke);
    let ghost eb = env.entries_seq();
    match parent.get_chars(&key) {
        Some(val) => {
            options.set_var(env, &key, &val);
        },
        None => {
        },
    }
    proof {
        if parent.as_map().contains_key(key@) {
            crate::model::lemma_apply_writes_one(
                eb,
                (key@, parent.as_map()[key@]),
                options.override_env,
            );
        }
    }
    let j = ews_inline(v, ke);
    if j < n && (v[j] == '#' || v[j] == '\n') {
        let nx = efind(v, j, '\n');
        return Ok(nx);
    }
    if j >= n {
        return Ok(n);
    }
    let ke2 = erb_word_end(v, j);
    if j == ke2 {
        if options.strict {
            return Err(Error::syntax_error(l, ke2 - ls + 1));
        }
        let nx = efind(v, ke2, '\n');
        return Ok(nx);
    }
    proof {
        let (oe2, nx2, e2, w2) = rb_inherit_run(
            v@,
            j as int,
            ke2 as int,
            ke2 as int,
            ls as int,
            l as int,
            env.as_map(),
            parent.as_map(),
            options.override_env,
            options.strict,
        );
        if parent.as_map().contains_key(key@) {
            crate::model::lemma_apply_writes_step(
                eb,
                (key@, parent.as_map()[key@]),
                w2,
                options.override_env,
            );
        } else {
            assert(Seq::<WriteEntry>::empty() + w2 =~= w2);
        }
    }
    erb_inherit_run(v, j, ke2, env, parent, options, ls, l)
}

/// The value of one binding: parses, writes, and hands back the next
/// scan state, or the end of the scan.
#[verifier::rlimit(100)]
#[verifier::spinoff_prover]
fn rb_value_step(
    v: &Vec<char>,
    ls3: usize,
    i3: usize,
    l3: usize,
    ks: usize,
    ke: usize,
    env: &mut MemoryEnv,
    parent: &MemoryEnv,
    options: &Options,
) -> (r: Option<(usize, usize, usize)>)
    requires
        old(env).wf(),
        parent.wf(),
        ks <= ke <= v@.len(),
        ls3 <= i3 < v@.len(),
        1 <= l3 <= i3 + 1,
        v@.len() < usize::MAX - 2,
    ensures
        final(env).wf(),
        ({
            let pre = rb_value_case(
                v@,
                ls3 as int,
                i3 as int,
                l3 as int,
                ks as int,
                ke as int,
                old(env).as_map(),
                parent.as_map(),
                options.override_env,
                options.strict,
            );
            match r {
                Some((ls2, idx2, l2)) => {
                    let post = rb_from(
                        v@,
                        ls2 as int,
                        idx2 as int,
                        l2 as int,
                        final(env).as_map(),
                        parent.as_map(),
                        options.override_env,
                        options.strict,
                    );
                    &&& pre.err == post.err
                    &&& pre.env == post.env
                    &&& apply_writes(old(env).entries_seq(), pre.writes, 0, options.override_env)
                        == apply_writes(
                        final(env).entries_seq(),
                        post.writes,
                        0,
                        options.override_env,
                    )
                    &&& i3 < idx2 <= v@.len()
                    &&& ls2 <= idx2
                    &&& 1 <= l2 <= idx2 + 1
                },
                None => pre.err is None && pre.env == final(env).as_map() && apply_writes(
                    old(env).entries_seq(),
                    pre.writes,
                    0,
                    options.override_env,
                ) == final(env).entries_seq(),
            }
        }),
{
    let all = v;
    let n = all.len();
    let key = subvec(all, ks, ke);
    let j = ews_inline(all, i3 + 1);
    let mut qpos: usize = 0;
    let mut have_quote = false;
    if j < n && (all[j] == '"' || all[j] == '\'') {
        match equote_end_lib(all, j + 1, all[j]) {
            Some(q) => {
                let t = ews_inline(all, q + 1);
                if t < n && all[t] == '#' {
                    qpos = q;
                    have_quote = true;
                } else if t < n && all[t] != '\n' {
                    // trailing content: fall back to an unquoted reading
                } else {
                    qpos = q;
                    have_quote = true;
                }
            },
            None => {
            },
        }
    }
    if have_quote {
        let q = qpos;
        let (ls4, l4) = etrack_nl(all, j + 1, q, ls3, l3);
        let t = ews_inline(all, q + 1);
        let after = if t < n && all[t] == '#' {
            efind(all, t, '\n')
        } else {
            t
        };
        let inner = subvec(all, j + 1, q);
        let value = if all[j] == '"' {
            let pf = eparent_flag(parent);
            let legacy = elegacy(env, pf);
            let un = erb_unescape_double(&inner, legacy);
            erb_subst(&un, env)
        } else {
            inner
        };
        let ghost envb = env.as_map();
        let ghost eb = env.entries_seq();
        options.set_var_cut_nul(env, &key, &value);
        proof {
            let cb = all@;
            let w = (cut_nul(key@), cut_nul(value@));
            let env2 = spec_set_var(envb, w.0, w.1, options.override_env);
            if (after as int) < cb.len() {
                let rest = rb_from(
                    cb,
                    ls4 as int,
                    after as int,
                    l4 as int,
                    env2,
                    parent.as_map(),
                    options.override_env,
                    options.strict,
                );
                crate::model::lemma_apply_writes_step(eb, w, rest.writes, options.override_env);
            } else {
                crate::model::lemma_apply_writes_one(eb, w, options.override_env);
            }
        }
        if after >= n {
            return None;
        }
        Some((ls4, after, l4))
    } else {
        let ve = evalue_end(all, j);
        let raw_len = ve - j;
        let value = if raw_len > 1 && all[j] == '\'' && all[ve - 1] == '\'' {
            subvec(all, j + 1, ve - 1)
        } else if raw_len > 1 && all[j] == '"' && all[ve - 1] == '"' {
            let inner = subvec(all, j + 1, ve - 1);
            let pf = eparent_flag(parent);
            let legacy = elegacy(env, pf);
            let un = erb_unescape_double(&inner, legacy);
            erb_subst(&un, env)
        } else {
            let te0 = etrim_end(all, ve);
            let te = if te0 < j {
                j
            } else {
                te0
            };
            let stripped = subvec(all, j, te);
            let un = erb_unescape_unquoted(&stripped);
            erb_subst(&un, env)
        };
        let ghost envb = env.as_map();
        let ghost eb = env.entries_seq();
        options.set_var_cut_nul(env, &key, &value);
        let after = if ve < n && all[ve] == '#' {
            efind(all, ve, '\n')
        } else {
            ve
        };
        proof {
            let cb = all@;
            let w = (cut_nul(key@), cut_nul(value@));
            let env2 = spec_set_var(envb, w.0, w.1, options.override_env);
            if (after as int) < cb.len() {
                let rest = rb_from(
                    cb,
                    ls3 as int,
                    after as int,
                    l3 as int,
                    env2,
                    parent.as_map(),
                    options.override_env,
                    options.strict,
                );
                crate::model::lemma_apply_writes_step(eb, w, rest.writes, options.override_env);
            } else {
                crate::model::lemma_apply_writes_one(eb, w, options.override_env);
            }
        }
        if after >= n {
            return None;
        }
        Some((ls3, after, l3))
    }
}

/// One scanning step of this dialect.
#[verifier::rlimit(100)]
#[verifier::spinoff_prover]
fn rb_step(
    v: &Vec<char>,
    lstart: usize,
    idx: usize,
    lineno: usize,
    env: &mut MemoryEnv,
    parent: &MemoryEnv,
    options: &Options,
) -> (r: Result<Option<(usize, usize, usize)>, Error>)
    requires
        old(env).wf(),
        parent.wf(),
        lstart <= idx < v@.len(),
        1 <= lineno <= idx + 1,
        v@.len() < usize::MAX - 2,
    ensures
        final(env).wf(),
        ({
            let pre = rb_from(
                v@,
                lstart as int,
                idx as int,
                lineno as int,
                old(env).as_map(),
                parent.as_map(),
                options.override_env,
                options.strict,
            );
            match r {
                Ok(Some((ls2, idx2, l2))) => {
                    let post = rb_from(
                        v@,
                        ls2 as int,
                        idx2 as int,
                        l2 as int,
                        final(env).as_map(),
                        parent.as_map(),
                        options.override_env,
                        options.strict,
                    );
                    &&& pre.err == post.err
                    &&& pre.env == post.env
                    &&& apply_writes(old(env).entries_seq(), pre.writes, 0, options.override_env)
                        == apply_writes(
                        final(env).entries_seq(),
                        post.writes,
                        0,
                        options.override_env,
                    )
                    &&& idx < idx2 <= v@.len()
                    &&& ls2 <= idx2
                    &&& 1 <= l2 <= idx2 + 1
                },
                Ok(None) => pre.err is None && pre.env == final(env).as_map() && apply_writes(
                    old(env).entries_seq(),
                    pre.writes,
                    0,
                    options.override_env,
                ) == final(env).entries_seq(),
                Err(e) => pre.err == Some(e) && pre.env == final(env).as_map() && apply_writes(
                    old(env).entries_seq(),
                    pre.writes,
                    0,
                    options.override_env,
                ) == final(env).entries_seq(),
            }
        }),
{
    let all = v;
    let n = all.len();
    let (i1, ls1, l1) = ews(all, idx, lstart, lineno);
    if i1 < n && all[i1] == '#' {
        let nx = efind(all, i1, '\n');
        if nx >= n {
            return Ok(None);
        }
        return Ok(Some((ls1, nx, l1)));
    }
    if i1 >= n {
        return Ok(None);
    }
    let ks0 = i1;
    let ke0 = erb_word_end(all, ks0);
    let i2 = ews_inline(all, ke0);
    let is_export = ke0 - ks0 == 6 && all[ks0] == 'e' && all[ks0 + 1] == 'x' && all[ks0 + 2]
        == 'p' && all[ks0 + 3] == 'o' && all[ks0 + 4] == 'r' && all[ks0 + 5] == 't';
    proof {
        let sub = all@.subrange(ks0 as int, ke0 as int);
        assert(crate::punktum::export_word().len() == 6);
        assert(crate::punktum::export_word()[0] == 'e');
        assert(crate::punktum::export_word()[1] == 'x');
        assert(crate::punktum::export_word()[2] == 'p');
        assert(crate::punktum::export_word()[3] == 'o');
        assert(crate::punktum::export_word()[4] == 'r');
        assert(crate::punktum::export_word()[5] == 't');
        if is_export {
            assert(sub =~= crate::punktum::export_word());
        } else {
            if ke0 - ks0 == 6 {
                assert(sub[0] == all@[ks0 as int]);
                assert(sub[1] == all@[ks0 + 1]);
                assert(sub[2] == all@[ks0 + 2]);
                assert(sub[3] == all@[ks0 + 3]);
                assert(sub[4] == all@[ks0 + 4]);
                assert(sub[5] == all@[ks0 + 5]);
            }
            assert(sub != crate::punktum::export_word());
        }
    }
    let exported = i2 < n && {
        let c = all[i2];
        ('a' <= c && c <= 'z') || ('A' <= c && c <= 'Z') || ('0' <= c && c <= '9') || c == '_'
            || c == '.'
    } && is_export;
    let ks = if exported {
        i2
    } else {
        ks0
    };
    let ke = if exported {
        erb_word_end(all, i2)
    } else {
        ke0
    };
    let i3 = if exported {
        let ket = erb_word_end(all, i2);
        ews_inline(all, ket)
    } else {
        i2
    };
    if ks == ke {
        if options.strict {
            return Err(Error::syntax_error(l1, ke - ls1 + 1));
        }
        let nx = efind(all, i3, '\n');
        if nx >= n {
            return Ok(None);
        }
        return Ok(Some((ls1, nx, l1)));
    }
    if exported && i3 < n && {
        let c = all[i3];
        ('a' <= c && c <= 'z') || ('A' <= c && c <= 'Z') || ('0' <= c && c <= '9') || c == '_'
            || c == '.'
    } {
        match erb_inherit_run(all, ks, ke, env, parent, options, ls1, l1) {
            Err(e) => {
                return Err(e);
            },
            Ok(nx) => {
                if nx >= n {
                    return Ok(None);
                }
                proof {
                    let (oe2, nx2, e2, w1r) = rb_inherit_run(
                        all@,
                        ks as int,
                        ke as int,
                        ke as int,
                        ls1 as int,
                        l1 as int,
                        old(env).as_map(),
                        parent.as_map(),
                        options.override_env,
                        options.strict,
                    );
                    let rest = rb_from(
                        all@,
                        ls1 as int,
                        nx as int,
                        l1 as int,
                        e2,
                        parent.as_map(),
                        options.override_env,
                        options.strict,
                    );
                    crate::model::lemma_apply_writes_concat(
                        old(env).entries_seq(),
                        w1r,
                        rest.writes,
                        0,
                        options.override_env,
                    );
                }
                return Ok(Some((ls1, nx, l1)));
            },
        }
    }
    if i3 >= n || all[i3] == '\n' || all[i3] == '#' {
        // a bare key (or a lone exported key): inherit from the parent
        let key = subvec(all, ks, ke);
        match parent.get_chars(&key) {
            Some(val) => {
                options.set_var(env, &key, &val);
            },
            None => {
            },
        }
        let nx = efind(all, i3, '\n');
        proof {
            let keysp = all@.subrange(ks as int, ke as int);
            if nx < n {
                let env1 = if parent.as_map().contains_key(keysp) {
                    spec_set_var(
                        old(env).as_map(),
                        keysp,
                        parent.as_map()[keysp],
                        options.override_env,
                    )
                } else {
                    old(env).as_map()
                };
                let rest = rb_from(
                    all@,
                    ls1 as int,
                    nx as int,
                    l1 as int,
                    env1,
                    parent.as_map(),
                    options.override_env,
                    options.strict,
                );
                if parent.as_map().contains_key(keysp) {
                    crate::model::lemma_apply_writes_step(
                        old(env).entries_seq(),
                        (keysp, parent.as_map()[keysp]),
                        rest.writes,
                        options.override_env,
                    );
                } else {
                    assert(Seq::<WriteEntry>::empty() + rest.writes =~= rest.writes);
                }
            } else {
                if parent.as_map().contains_key(keysp) {
                    crate::model::lemma_apply_writes_one(
                        old(env).entries_seq(),
                        (keysp, parent.as_map()[keysp]),
                        options.override_env,
                    );
                }
            }
        }
        if nx >= n {
            return Ok(None);
        }
        return Ok(Some((ls1, nx, l1)));
    }
    if !(i3 < n && (all[i3] == '=' || all[i3] == ':')) {
        if options.strict {
            return Err(Error::syntax_error(l1, i3 - ls1 + 1));
        }
        let nx = efind(all, i3, '\n');
        if nx >= n {
            return Ok(None);
        }
        return Ok(Some((ls1, nx, l1)));
    }
    proof {
        let pre = rb_from(
            all@,
            lstart as int,
            idx as int,
            lineno as int,
            old(env).as_map(),
            parent.as_map(),
            options.override_env,
            options.strict,
        );
        assert(pre == rb_value_case(
            all@,
            ls1 as int,
            i3 as int,
            l1 as int,
            ks as int,
            ke as int,
            old(env).as_map(),
            parent.as_map(),
            options.override_env,
            options.strict,
        ));
    }
    let stepped = rb_value_step(all, ls1, i3, l1, ks, ke, env, parent, options);
    Ok(stepped)
}

/// Parses a source in the Ruby dotenv dialect against the sink and
/// the parent store (consulted for the legacy line-break mode).  The
/// outcome, store included, is exactly `rb_spec`.
pub fn config_rbdotenv(
    src: &str,
    env: &mut MemoryEnv,
    parent: &MemoryEnv,
    options: &Options,
) -> (r: Result<(), Error>)
    requires
        old(env).wf(),
        parent.wf(),
        src@.len() < usize::MAX - 2,
    ensures
        final(env).wf(),
        ({
            let out = rb_spec(
                src@,
                old(env).as_map(),
                parent.as_map(),
                options.override_env,
                options.strict,
            );
            &&& final(env).as_map() == out.env
            &&& final(env).entries_seq() == apply_writes(
                old(env).entries_seq(),
                out.writes,
                0,
                options.override_env,
            )
            &&& (match r {
                Ok(()) => out.err is None,
                Err(e) => out.err == Some(e),
            })
        }),
{
    let all0 = chars_of(src);
    let all = fix_newlines(&all0);
    let n = all.len();
    if n == 0 {
        return Ok(());
    }
    let ghost target = rb_spec(
        src@,
        old(env).as_map(),
        parent.as_map(),
        options.override_env,
        options.strict,
    );
    let mut lstart: usize = 0;
    let mut idx: usize = 0;
    let mut lineno: usize = 1;
    while idx < n
        invariant
            env.wf(),
            n == all@.len(),
            n <= src@.len() < usize::MAX - 2,
            parent.wf(),
            lstart <= idx <= n,
            1 <= lineno <= idx + 1,
            all@ == fix_nl(src@, 0),
            target == rb_spec(
                src@,
                old(env).as_map(),
                parent.as_map(),
                options.override_env,
                options.strict,
            ),
            ({
                let cur = rb_from(
                    all@,
                    lstart as int,
                    idx as int,
                    lineno as int,
                    env.as_map(),
                    parent.as_map(),
                    options.override_env,
                    options.strict,
                );
                &&& target.err == cur.err
                &&& target.env == cur.env
                &&& apply_writes(old(env).entries_seq(), target.writes, 0, options.override_env)
                    == apply_writes(env.entries_seq(), cur.writes, 0, options.override_env)
            }),
        decreases n - idx,
    {
        match rb_step(&all, lstart, idx, lineno, env, parent, options) {
            Ok(Some((a, b, c))) => {
                lstart = a;
                idx = b;
                lineno = c;
            },
            Ok(None) => {
                return Ok(());
            },
            Err(e) => {
                return Err(e);
            },
        }
    }
    Ok(())
}
} // verus!
