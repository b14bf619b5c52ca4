//! The Compose-Go dialect: whole-buffer scanning with a byte-order
//! mark stripped, Unicode whitespace between statements, keys of
//! letters, digits and `_.-[]`, inheritance for bare keys, quoted
//! values with an escape table, and `${...}` substitution with the
//! POSIX modifier forms, including the upstream tool's brace-balance
//! quirk for the modifier operand.  A binding whose key or value
//! holds an embedded null byte is a syntax error under strict and is
//! skipped otherwise, never truncated.

use vstd::prelude::*;

use crate::env::MemoryEnv;
use crate::error::{Error, spec_syntax_error};
use crate::model::{EnvModel, ParseOut, apply_writes, char_pos, cut_nul, lemma_char_pos, spec_set_var};
use crate::options::Options;
use crate::text::{
    chars_of, cut_nul_vec, from_radix, is_unicode_alphanumeric, is_unicode_whitespace,
    push_all, push_range, spec_from_radix, subvec, unicode_alphanumeric, unicode_whitespace,
    uni_trim_end,
};

verus! {

/// The whitespace set of this dialect's key scanner (line feeds are
/// separators, not spaces).
pub open spec fn is_cg_space(c: char) -> bool {
    c == '\t' || c == '\u{B}' || c == '\u{C}' || c == '\r' || c == ' ' || c == '\u{85}' || c
        == '\u{A0}'
}

/// A character that may start an unbraced substitution name.
pub open spec fn is_subst_start(c: char) -> bool {
    ('a' <= c && c <= 'z') || ('A' <= c && c <= 'Z') || c == '_'
}

/// A character of a substitution name.
pub open spec fn is_subst_char(c: char) -> bool {
    ('a' <= c && c <= 'z') || ('A' <= c && c <= 'Z') || ('0' <= c && c <= '9') || c == '_'
}

/// Skips Unicode whitespace from `i` on, counting line feeds.
pub open spec fn cg_ws(s: Seq<char>, i: int, lineno: int) -> (int, int)
    decreases s.len() - i,
{
    if i < 0 || i >= s.len() {
        (s.len() as int, lineno)
    } else if is_unicode_whitespace(s[i]) {
        cg_ws(s, i + 1, lineno + if s[i] == '\n' {
            1int
        } else {
            0int
        })
    } else {
        (i, lineno)
    }
}

pub proof fn lemma_cg_ws(s: Seq<char>, i: int, lineno: int)
    requires
        0 <= i <= s.len(),
    ensures
        i <= cg_ws(s, i, lineno).0 <= s.len(),
        cg_ws(s, i, lineno).0 < s.len() ==> !is_unicode_whitespace(s[cg_ws(s, i, lineno).0]),
    decreases s.len() - i,
{
    if i < s.len() && is_unicode_whitespace(s[i]) {
        lemma_cg_ws(s, i + 1, lineno + if s[i] == '\n' {
            1int
        } else {
            0int
        });
    }
}

/// The next statement start: whitespace and comment lines skipped,
/// or nothing when the source is exhausted.
pub open spec fn cg_stmt_start(s: Seq<char>, i: int, lineno: int) -> Option<(int, int)>
    decreases s.len() - i,
        via cg_stmt_start_decreases
{
    if i < 0 || i > s.len() {
        None
    } else {
        let (j, l) = cg_ws(s, i, lineno);
        if j >= s.len() {
            None
        } else if s[j] == '#' {
            let m = char_pos(s, j, '\n');
            if m >= s.len() {
                None
            } else {
                cg_stmt_start(s, m, l)
            }
        } else {
            Some((j, l))
        }
    }
}

#[via_fn]
proof fn cg_stmt_start_decreases(s: Seq<char>, i: int, lineno: int) {
    if 0 <= i <= s.len() {
        lemma_cg_ws(s, i, lineno);
        let (j, l) = cg_ws(s, i, lineno);
        if j < s.len() {
            lemma_char_pos(s, j, '\n');
        }
    }
}

/// The position after an `export` prefix and its mandatory spaces, or
/// `a` unchanged when there is none.
pub open spec fn cg_trim_export(s: Seq<char>, a: int) -> int {
    if a + 6 <= s.len() && s[a] == 'e' && s[a + 1] == 'x' && s[a + 2] == 'p' && s[a + 3] == 'o'
        && s[a + 4] == 'r' && s[a + 5] == 't' && a + 6 < s.len() && is_cg_space(s[a + 6]) {
        cg_space_skip(s, a + 6)
    } else {
        a
    }
}

/// Skips this dialect's space set.
pub open spec fn cg_space_skip(s: Seq<char>, i: int) -> int
    decreases s.len() - i,
{
    if i < 0 || i >= s.len() {
        s.len() as int
    } else if is_cg_space(s[i]) {
        cg_space_skip(s, i + 1)
    } else {
        i
    }
}

pub proof fn lemma_cg_space_skip(s: Seq<char>, i: int)
    requires
        0 <= i <= s.len(),
    ensures
        i <= cg_space_skip(s, i) <= s.len(),
        cg_space_skip(s, i) < s.len() ==> !is_cg_space(s[cg_space_skip(s, i)]),
    decreases s.len() - i,
{
    if i < s.len() && is_cg_space(s[i]) {
        lemma_cg_space_skip(s, i + 1);
    }
}

/// How the key scan ends: at a separator, at an illegal character,
/// or at the end of the source.
pub enum KeyScan {
    Sep(int),
    Bad(int),
    End,
}

/// Scans a key: spaces and key characters pass, `=`, `:` and a line
/// feed separate, anything else is illegal.
pub open spec fn cg_key_scan(s: Seq<char>, j: int) -> KeyScan
    decreases s.len() - j,
{
    if j < 0 || j >= s.len() {
        KeyScan::End
    } else {
        let c = s[j];
        if is_cg_space(c) {
            cg_key_scan(s, j + 1)
        } else if c == '=' || c == ':' || c == '\n' {
            KeyScan::Sep(j)
        } else if c == '_' || c == '.' || c == '-' || c == '[' || c == ']' {
            cg_key_scan(s, j + 1)
        } else if is_unicode_alphanumeric(c) {
            cg_key_scan(s, j + 1)
        } else {
            KeyScan::Bad(j)
        }
    }
}

pub proof fn lemma_cg_key_scan(s: Seq<char>, j: int)
    requires
        0 <= j <= s.len(),
    ensures
        match cg_key_scan(s, j) {
            KeyScan::Sep(p) => j <= p < s.len(),
            KeyScan::Bad(p) => j <= p < s.len(),
            KeyScan::End => true,
        },
    decreases s.len() - j,
{
    if j < s.len() {
        lemma_cg_key_scan(s, j + 1);
    }
}

/// The text with trailing Unicode whitespace removed.
pub open spec fn cg_trim_end(k: Seq<char>) -> Seq<char> {
    k.subrange(0, uni_trim_end(k, k.len() as int))
}

/// The located key: its text, the position after the separator with
/// leading spaces skipped, whether the binding inherits from the
/// parent store, and the line counter after it.
pub open spec fn cg_locate_key(s: Seq<char>, a: int, lineno: int) -> Result<
    (Seq<char>, int, bool, int),
    Error,
> {
    let a0 = cg_trim_export(s, a);
    match cg_key_scan(s, a0) {
        KeyScan::Bad(_) => Err(spec_syntax_error(lineno as usize, 1)),
        KeyScan::End => if a0 >= s.len() {
            Err(spec_syntax_error(lineno as usize, 1))
        } else {
            Ok((Seq::empty(), cg_space_skip(s, a0), false, lineno))
        },
        KeyScan::Sep(j) => {
            let key = cg_trim_end(s.subrange(a0, j));
            let inherited = s[j] == '\n';
            Ok(
                (
                    key,
                    cg_space_skip(s, j + 1),
                    inherited,
                    lineno + if inherited {
                        1int
                    } else {
                        0int
                    },
                ),
            )
        },
    }
}

/// Whether the key holds a space.
pub open spec fn has_space(k: Seq<char>) -> bool {
    exists|j: int| 0 <= j < k.len() && k[j] == ' '
}

/// The first position of `t` at or after `i` but before `end`.
pub open spec fn rpos(s: Seq<char>, i: int, end: int, t: char) -> int
    decreases end - i,
{
    if i < 0 || i >= end || end > s.len() {
        end
    } else if s[i] == t {
        i
    } else {
        rpos(s, i + 1, end, t)
    }
}

pub proof fn lemma_rpos(s: Seq<char>, i: int, end: int, t: char)
    requires
        0 <= i <= end <= s.len(),
    ensures
        i <= rpos(s, i, end, t) <= end,
        rpos(s, i, end, t) < end ==> s[rpos(s, i, end, t)] == t,
    decreases end - i,
{
    if i < end && s[i] != t {
        lemma_rpos(s, i + 1, end, t);
    }
}

/// The end of a substitution name run, before `end`.
pub open spec fn ident_end(s: Seq<char>, i: int, end: int) -> int
    decreases end - i,
{
    if i < 0 || i >= end || end > s.len() {
        end
    } else if is_subst_char(s[i]) {
        ident_end(s, i + 1, end)
    } else {
        i
    }
}

pub proof fn lemma_ident_end(s: Seq<char>, i: int, end: int)
    requires
        0 <= i <= end <= s.len(),
    ensures
        i <= ident_end(s, i, end) <= end,
    decreases end - i,
{
    if i < end && is_subst_char(s[i]) {
        lemma_ident_end(s, i + 1, end);
    }
}

/// The end of a braced modifier operand: the first unbalanced closing
/// brace, nested pairs skipped, stopping at a line feed, and falling
/// back to the last closing brace seen (or the end).
pub open spec fn braced_end_scan(
    s: Seq<char>,
    j: int,
    end: int,
    nesting: int,
    prev_closing: int,
) -> int
    decreases end - j,
{
    if j < 0 || j >= end || end > s.len() {
        prev_closing
    } else if s[j] == '}' {
        if nesting == 0 {
            j
        } else {
            braced_end_scan(s, j + 1, end, nesting - 1, j)
        }
    } else if s[j] == '{' {
        braced_end_scan(s, j + 1, end, nesting + 1, prev_closing)
    } else if s[j] == '\n' {
        prev_closing
    } else {
        braced_end_scan(s, j + 1, end, nesting, prev_closing)
    }
}

pub proof fn lemma_braced_end_scan(s: Seq<char>, j: int, end: int, nesting: int, prev_closing: int)
    requires
        0 <= j <= end <= s.len(),
        prev_closing <= end,
    ensures
        braced_end_scan(s, j, end, nesting, prev_closing) <= end,
    decreases end - j,
{
    if j < end {
        if s[j] == '}' {
            if nesting != 0 {
                lemma_braced_end_scan(s, j + 1, end, nesting - 1, j);
            }
        } else if s[j] == '{' {
            lemma_braced_end_scan(s, j + 1, end, nesting + 1, prev_closing);
        } else if s[j] != '\n' {
            lemma_braced_end_scan(s, j + 1, end, nesting, prev_closing);
        }
    }
}

/// The operand end as the upstream regular expression would find it.
pub open spec fn braced_end(s: Seq<char>, i: int, end: int) -> int {
    braced_end_scan(s, i, end, 0, end)
}

pub proof fn lemma_braced_scan_lower(s: Seq<char>, j: int, end: int, nesting: int, pc: int)
    requires
        0 <= j <= end <= s.len(),
    ensures
        braced_end_scan(s, j, end, nesting, pc) == pc || braced_end_scan(s, j, end, nesting, pc)
            >= j,
    decreases end - j,
{
    if j < end {
        if s[j] == '}' {
            if nesting != 0 {
                lemma_braced_scan_lower(s, j + 1, end, nesting - 1, j);
            }
        } else if s[j] == '{' {
            lemma_braced_scan_lower(s, j + 1, end, nesting + 1, pc);
        } else if s[j] != '\n' {
            lemma_braced_scan_lower(s, j + 1, end, nesting, pc);
        }
    }
}

/// The operand end lies past the modifier character, or at `end`.
pub proof fn lemma_braced_end_lower(s: Seq<char>, i: int, end: int)
    requires
        0 <= i < end <= s.len(),
        s[i] != '}',
    ensures
        braced_end(s, i, end) == end || braced_end(s, i, end) > i,
{
    if s[i] == '{' {
        lemma_braced_scan_lower(s, i + 1, end, 1, end);
    } else if s[i] != '\n' {
        lemma_braced_scan_lower(s, i + 1, end, 0, end);
    }
}

/// The escape table of this dialect: the simple control escapes, an
/// escaped dollar doubled, quotes and backslashes kept, `\0` plus
/// three octal digits a byte, and every other escape passed through.
pub open spec fn cg_unescape(v: Seq<char>, i: int, end: int) -> Seq<char>
    decreases end - i,
        via cg_unescape_decreases
{
    if i < 0 || i > end || end > v.len() {
        Seq::empty()
    } else {
        let b = rpos(v, i, end, '\\');
        if b >= end {
            v.subrange(i, end)
        } else {
            let prefix = v.subrange(i, b);
            let r = b + 1;
            if r >= end {
                prefix + seq!['\\']
            } else {
                let c = v[r];
                if c == 'a' {
                    prefix + seq!['\u{7}'] + cg_unescape(v, r + 1, end)
                } else if c == 'b' {
                    prefix + seq!['\u{8}'] + cg_unescape(v, r + 1, end)
                } else if c == 'f' {
                    prefix + seq!['\u{C}'] + cg_unescape(v, r + 1, end)
                } else if c == 'n' {
                    prefix + seq!['\n'] + cg_unescape(v, r + 1, end)
                } else if c == 'r' {
                    prefix + seq!['\r'] + cg_unescape(v, r + 1, end)
                } else if c == 't' {
                    prefix + seq!['\t'] + cg_unescape(v, r + 1, end)
                } else if c == 'v' {
                    prefix + seq!['\u{B}'] + cg_unescape(v, r + 1, end)
                } else if c == '$' {
                    prefix + seq!['$', '$'] + cg_unescape(v, r + 1, end)
                } else if c == '"' {
                    prefix + seq!['"'] + cg_unescape(v, r + 1, end)
                } else if c == '\\' {
                    prefix + seq!['\\'] + cg_unescape(v, r + 1, end)
                } else if c == '0' {
                    if r + 4 <= end {
                        match spec_from_radix(v.subrange(r + 1, r + 4), 8) {
                            Some(x) => if x <= 255 {
                                prefix + seq![((x as u32) as char)] + cg_unescape(v, r + 4, end)
                            } else {
                                prefix + seq!['\\'] + cg_unescape(v, r + 1, end)
                            },
                            None => prefix + seq!['\\'] + cg_unescape(v, r + 1, end),
                        }
                    } else {
                        prefix + seq!['\\'] + cg_unescape(v, r + 1, end)
                    }
                } else {
                    prefix + seq!['\\', c] + cg_unescape(v, r + 1, end)
                }
            }
        }
    }
}

#[via_fn]
proof fn cg_unescape_decreases(v: Seq<char>, i: int, end: int) {
    if 0 <= i <= end <= v.len() {
        lemma_rpos(v, i, end, '\\');
    }
}

/// The substitution engine of this dialect on the range `[i, end)`:
/// `$$` an escaped dollar, `$NAME` and `${NAME}` simple lookups, and
/// the modifier forms `:-`, `-`, `:+`, `+`, `:?` and `?` with their
/// operand expanded recursively.  A required variable that is unset
/// (or empty, for the `:` forms) is an error whatever the mode;
/// malformed syntax is an error under `strict` and passed through
/// otherwise.
pub open spec fn cg_expand(
    v: Seq<char>,
    i: int,
    end: int,
    envm: EnvModel,
    strict: bool,
    lineno: int,
) -> Result<Seq<char>, Error>
    decreases end - i, 0int
        via cg_expand_decreases
{
    if i < 0 || i > end || end > v.len() {
        Ok(Seq::empty())
    } else {
        let d = rpos(v, i, end, '$');
        let prefix = v.subrange(i, d);
        if d >= end {
            Ok(prefix)
        } else {
            let r = d + 1;
            if r >= end {
                Ok(prefix + seq!['$'])
            } else {
                let c = v[r];
                if c == '$' {
                    cg_expand_cont(v, r + 1, end, envm, strict, lineno, prefix + seq!['$'])
                } else if c == '{' {
                    let q = r + 1;
                    let idend = ident_end(v, q, end);
                    if idend == q || !(q < end && is_subst_start(v[q])) {
                        if strict {
                            Err(spec_syntax_error(lineno as usize, 1))
                        } else {
                            cg_expand_cont(
                                v,
                                q,
                                end,
                                envm,
                                strict,
                                lineno,
                                prefix + seq!['$', '{'],
                            )
                        }
                    } else {
                        let name = cut_nul(v.subrange(q, idend));
                        let looked = if envm.contains_key(name) {
                            Some(envm[name])
                        } else {
                            None
                        };
                        if idend < end && (v[idend] == ':' || v[idend] == '?' || v[idend] == '+'
                            || v[idend] == '-') {
                            let ve = braced_end(v, idend, end);
                            if ve >= end {
                                if strict {
                                    Err(spec_syntax_error(lineno as usize, 1))
                                } else {
                                    cg_expand_cont(
                                        v,
                                        idend,
                                        end,
                                        envm,
                                        strict,
                                        lineno,
                                        prefix + seq!['$', '{'] + name,
                                    )
                                }
                            } else {
                                cg_modifier(
                                    v,
                                    idend,
                                    ve,
                                    end,
                                    envm,
                                    strict,
                                    lineno,
                                    prefix,
                                    name,
                                    looked,
                                )
                            }
                        } else if idend < end && v[idend] == '}' {
                            let piece = match looked {
                                Some(val) => val,
                                None => Seq::empty(),
                            };
                            cg_expand_cont(v, idend + 1, end, envm, strict, lineno, prefix + piece)
                        } else {
                            if strict {
                                Err(spec_syntax_error(lineno as usize, 1))
                            } else {
                                cg_expand_cont(
                                    v,
                                    idend,
                                    end,
                                    envm,
                                    strict,
                                    lineno,
                                    prefix + seq!['$', '{'] + name,
                                )
                            }
                        }
                    }
                } else if !is_subst_start(c) {
                    cg_expand_cont(v, r, end, envm, strict, lineno, prefix + seq!['$'])
                } else {
                    let idend = ident_end(v, r, end);
                    if idend == r {
                        if strict {
                            Err(spec_syntax_error(lineno as usize, 1))
                        } else {
                            cg_expand_cont(v, r, end, envm, strict, lineno, prefix + seq!['$'])
                        }
                    } else {
                        let name = cut_nul(v.subrange(r, idend));
                        let piece = if envm.contains_key(name) {
                            envm[name]
                        } else {
                            Seq::empty()
                        };
                        cg_expand_cont(v, idend, end, envm, strict, lineno, prefix + piece)
                    }
                }
            }
        }
    }
}

/// The expansion of the rest, behind an already-produced prefix.
pub open spec fn cg_expand_cont(
    v: Seq<char>,
    i: int,
    end: int,
    envm: EnvModel,
    strict: bool,
    lineno: int,
    built: Seq<char>,
) -> Result<Seq<char>, Error>
    decreases end - i, 1int
        via cg_expand_cont_decreases
{
    match cg_expand(v, i, end, envm, strict, lineno) {
        Ok(rest) => Ok(built + rest),
        Err(e) => Err(e),
    }
}

/// One modifier form, from the modifier start `m` with operand end
/// `ve`, and the expansion of the rest after the closing brace.
pub open spec fn cg_modifier(
    v: Seq<char>,
    m: int,
    ve: int,
    end: int,
    envm: EnvModel,
    strict: bool,
    lineno: int,
    prefix: Seq<char>,
    name: Seq<char>,
    looked: Option<Seq<char>>,
) -> Result<Seq<char>, Error>
    decreases end - m, 3int
        via cg_modifier_decreases
{
    if !(0 <= m < ve <= end <= v.len()) {
        Err(spec_syntax_error(lineno as usize, 1))
    } else if m + 1 < ve && v[m] == ':' && v[m + 1] == '?' {
        match looked {
            Some(val) => if val.len() > 0 {
                cg_close_brace(v, ve, end, envm, strict, lineno, prefix + val)
            } else {
                Err(spec_syntax_error(lineno as usize, 1))
            },
            None => Err(spec_syntax_error(lineno as usize, 1)),
        }
    } else if v[m] == '?' {
        match looked {
            Some(val) => cg_close_brace(v, ve, end, envm, strict, lineno, prefix + val),
            None => Err(spec_syntax_error(lineno as usize, 1)),
        }
    } else if m + 1 < ve && v[m] == ':' && v[m + 1] == '-' {
        match looked {
            Some(val) => if val.len() > 0 {
                cg_close_brace(v, ve, end, envm, strict, lineno, prefix + val)
            } else {
                match cg_expand(v, m + 2, ve, envm, strict, lineno) {
                    Ok(dflt) => cg_close_brace(v, ve, end, envm, strict, lineno, prefix + dflt),
                    Err(e) => Err(e),
                }
            },
            None => match cg_expand(v, m + 2, ve, envm, strict, lineno) {
                Ok(dflt) => cg_close_brace(v, ve, end, envm, strict, lineno, prefix + dflt),
                Err(e) => Err(e),
            },
        }
    } else if v[m] == '-' {
        match looked {
            Some(val) => cg_close_brace(v, ve, end, envm, strict, lineno, prefix + val),
            None => match cg_expand(v, m + 1, ve, envm, strict, lineno) {
                Ok(dflt) => cg_close_brace(v, ve, end, envm, strict, lineno, prefix + dflt),
                Err(e) => Err(e),
            },
        }
    } else if m + 1 < ve && v[m] == ':' && v[m + 1] == '+' {
        match looked {
            Some(val) => if val.len() > 0 {
                match cg_expand(v, m + 2, ve, envm, strict, lineno) {
                    Ok(alt) => cg_close_brace(v, ve, end, envm, strict, lineno, prefix + alt),
                    Err(e) => Err(e),
                }
            } else {
                cg_close_brace(v, ve, end, envm, strict, lineno, prefix)
            },
            None => cg_close_brace(v, ve, end, envm, strict, lineno, prefix),
        }
    } else if v[m] == '+' {
        match looked {
            Some(_) => match cg_expand(v, m + 1, ve, envm, strict, lineno) {
                Ok(alt) => cg_close_brace(v, ve, end, envm, strict, lineno, prefix + alt),
                Err(e) => Err(e),
            },
            None => cg_close_brace(v, ve, end, envm, strict, lineno, prefix),
        }
    } else {
        // a `:` with no known modifier: the value passes and the
        // closing-brace check runs where the scan stands
        let piece = match looked {
            Some(val) => val,
            None => Seq::empty(),
        };
        cg_close_brace(v, m, end, envm, strict, lineno, prefix + piece)
    }
}

/// The closing-brace check after a modifier: consumed when present,
/// an error under `strict` otherwise, and the scan continues.
pub open spec fn cg_close_brace(
    v: Seq<char>,
    p: int,
    end: int,
    envm: EnvModel,
    strict: bool,
    lineno: int,
    built: Seq<char>,
) -> Result<Seq<char>, Error>
    decreases end - p, 2int
        via cg_close_brace_decreases
{
    if p < end && 0 <= p && end <= v.len() && v[p] == '}' {
        cg_expand_cont(v, p + 1, end, envm, strict, lineno, built)
    } else if strict {
        Err(spec_syntax_error(lineno as usize, 1))
    } else {
        cg_expand_cont(v, p, end, envm, strict, lineno, built)
    }
}

#[via_fn]
proof fn cg_expand_decreases(
    v: Seq<char>,
    i: int,
    end: int,
    envm: EnvModel,
    strict: bool,
    lineno: int,
) {
    if 0 <= i <= end <= v.len() {
        lemma_rpos(v, i, end, '$');
        let d = rpos(v, i, end, '$');
        if d < end {
            let r = d + 1;
            if r < end {
                lemma_ident_end(v, r + 1, end);
                lemma_ident_end(v, r, end);
                let q = r + 1;
                let idend = ident_end(v, q, end);
                if 0 <= idend <= end {
                    lemma_braced_end_scan(v, idend, end, 0, end);
                }
            }
        }
    }
}

#[via_fn]
proof fn cg_expand_cont_decreases(
    v: Seq<char>,
    i: int,
    end: int,
    envm: EnvModel,
    strict: bool,
    lineno: int,
    built: Seq<char>,
) {
}

#[via_fn]
proof fn cg_modifier_decreases(
    v: Seq<char>,
    m: int,
    ve: int,
    end: int,
    envm: EnvModel,
    strict: bool,
    lineno: int,
    prefix: Seq<char>,
    name: Seq<char>,
    looked: Option<Seq<char>>,
) {
}

#[via_fn]
proof fn cg_close_brace_decreases(
    v: Seq<char>,
    p: int,
    end: int,
    envm: EnvModel,
    strict: bool,
    lineno: int,
    built: Seq<char>,
) {
}


pub proof fn lemma_cg_stmt_start(s: Seq<char>, i: int, lineno: int)
    requires
        0 <= i <= s.len(),
    ensures
        match cg_stmt_start(s, i, lineno) {
            Some((a, l)) => i <= a < s.len() && !is_unicode_whitespace(s[a]),
            None => true,
        },
    decreases s.len() - i,
{
    lemma_cg_ws(s, i, lineno);
    let (j, l) = cg_ws(s, i, lineno);
    if j < s.len() && s[j] == '#' {
        lemma_char_pos(s, j, '\n');
        let m = char_pos(s, j, '\n');
        if m < s.len() {
            lemma_cg_stmt_start(s, m, l);
        }
    }
}

pub proof fn lemma_cg_locate(s: Seq<char>, a: int, lineno: int)
    requires
        0 <= a <= s.len(),
    ensures
        match cg_locate_key(s, a, lineno) {
            Ok((k, left, inherited, l2)) => a <= left <= s.len() && (inherited ==> left > a),
            Err(_) => true,
        },
{
    if a + 6 <= s.len() {
        lemma_cg_space_skip(s, a + 6);
    }
    let a0 = cg_trim_export(s, a);
    lemma_cg_key_scan(s, a0);
    lemma_cg_space_skip(s, a0);
    match cg_key_scan(s, a0) {
        KeyScan::Sep(j) => {
            lemma_cg_space_skip(s, j + 1);
        },
        _ => {},
    }
}

/// The quote-delimited raw value: characters with inline escape
/// handling, the position after the closing quote, and the advanced
/// line counter; unterminated quotes are an error.
pub open spec fn cg_quoted(
    s: Seq<char>,
    j: int,
    quote: char,
    esc: bool,
    acc: Seq<char>,
    lineno: int,
) -> Result<(Seq<char>, int, int), (Error, int)>
    decreases s.len() - j,
{
    if j < 0 || j >= s.len() {
        Err((spec_syntax_error(lineno as usize, 1), lineno))
    } else {
        let ch = s[j];
        let l2 = lineno + if ch == '\n' {
            1int
        } else {
            0int
        };
        if ch != quote {
            if !esc && ch == '\\' {
                cg_quoted(s, j + 1, quote, true, acc, l2)
            } else if esc {
                cg_quoted(s, j + 1, quote, false, acc + seq!['\\', ch], l2)
            } else {
                cg_quoted(s, j + 1, quote, false, acc.push(ch), l2)
            }
        } else if esc {
            cg_quoted(s, j + 1, quote, false, acc.push(ch), l2)
        } else {
            Ok((acc, j + 1, l2))
        }
    }
}

pub proof fn lemma_cg_quoted(s: Seq<char>, j: int, quote: char, esc: bool, acc: Seq<char>, lineno: int)
    requires
        0 <= j <= s.len(),
    ensures
        match cg_quoted(s, j, quote, esc, acc, lineno) {
            Ok((raw, rest, l2)) => j < rest <= s.len(),
            Err(_) => true,
        },
    decreases s.len() - j,
{
    if j < s.len() {
        let ch = s[j];
        let l2 = lineno + if ch == '\n' {
            1int
        } else {
            0int
        };
        if ch != quote {
            if !esc && ch == '\\' {
                lemma_cg_quoted(s, j + 1, quote, true, acc, l2);
            } else if esc {
                lemma_cg_quoted(s, j + 1, quote, false, acc + seq!['\\', ch], l2);
            } else {
                lemma_cg_quoted(s, j + 1, quote, false, acc.push(ch), l2);
            }
        } else if esc {
            lemma_cg_quoted(s, j + 1, quote, false, acc.push(ch), l2);
        }
    }
}

/// The first ` #` comment introducer in `[i, end)`, or `end`.
pub open spec fn hash_pos(s: Seq<char>, i: int, end: int) -> int
    decreases end - i,
{
    if i < 0 || i + 1 >= end || end > s.len() {
        end
    } else if s[i] == ' ' && s[i + 1] == '#' {
        i
    } else {
        hash_pos(s, i + 1, end)
    }
}

pub proof fn lemma_hash_pos(s: Seq<char>, i: int, end: int)
    requires
        0 <= i <= end <= s.len(),
    ensures
        i <= hash_pos(s, i, end) <= end,
    decreases end - i,
{
    if i + 1 < end && !(s[i] == ' ' && s[i + 1] == '#') {
        lemma_hash_pos(s, i + 1, end);
    }
}

/// The extracted value of one binding: quoted values scanned to their
/// closing quote (escapes decoded and substitution applied inside
/// double quotes), unquoted values cut at the line end and a ` #`
/// comment, trimmed, and substituted.  The error side carries the
/// advanced line counter.
pub open spec fn cg_extract(
    s: Seq<char>,
    a: int,
    lineno: int,
    envm: EnvModel,
    strict: bool,
) -> Result<(Seq<char>, int, int), (Error, int)> {
    if 0 <= a && a < s.len() && (s[a] == '"' || s[a] == '\'') {
        let quote = s[a];
        match cg_quoted(s, a + 1, quote, false, Seq::empty(), lineno) {
            Err(e) => Err(e),
            Ok((raw, rest, l2)) => {
                if quote == '"' {
                    let un = cg_unescape(raw, 0, raw.len() as int);
                    match cg_expand(un, 0, un.len() as int, envm, strict, l2) {
                        Ok(vv) => Ok((vv, rest, l2)),
                        Err(e) => Err((e, l2)),
                    }
                } else {
                    Ok((raw, rest, l2))
                }
            },
        }
    } else {
        let nl = char_pos(s, a, '\n');
        let rest = if nl < s.len() {
            nl + 1
        } else {
            nl
        };
        let l2 = if nl < s.len() {
            lineno + 1
        } else {
            lineno
        };
        let hs = hash_pos(s, a, nl);
        let raw = cg_trim_end(s.subrange(a, hs));
        match cg_expand(raw, 0, raw.len() as int, envm, strict, l2) {
            Ok(vv) => Ok((vv, rest, l2)),
            Err(e) => Err((e, l2)),
        }
    }
}

pub proof fn lemma_cg_extract(s: Seq<char>, a: int, lineno: int, envm: EnvModel, strict: bool)
    requires
        0 <= a <= s.len(),
    ensures
        match cg_extract(s, a, lineno, envm, strict) {
            Ok((vv, rest, l2)) => a <= rest <= s.len() && (a < s.len() ==> rest > a),
            Err(_) => true,
        },
{
    if a < s.len() && (s[a] == '"' || s[a] == '\'') {
        lemma_cg_quoted(s, a + 1, s[a], false, Seq::empty(), lineno);
    } else {
        lemma_char_pos(s, a, '\n');
    }
}

/// The outcome of the Compose-Go dialect from position `i` on, with
/// the given line counter.
pub open spec fn cg_statements(
    s: Seq<char>,
    i: int,
    lineno: int,
    env: EnvModel,
    parentm: EnvModel,
    override_env: bool,
    strict: bool,
) -> ParseOut
    decreases s.len() - i,
        via cg_statements_decreases
{
    match cg_stmt_start(s, i, lineno) {
        None => ParseOut::done(env, Seq::empty()),
        Some((a, l)) => match cg_locate_key(s, a, l) {
            Err(e) => if strict {
                ParseOut::fail(e, env, Seq::empty())
            } else {
                cg_statements(s, char_pos(s, a, '\n'), l, env, parentm, override_env, strict)
            },
            Ok((key_raw, left, inherited, l2)) => {
                if has_space(key_raw) {
                    if strict {
                        ParseOut::fail(spec_syntax_error(l2 as usize, 1), env, Seq::empty())
                    } else {
                        cg_statements(
                            s,
                            char_pos(s, a, '\n'),
                            l2,
                            env,
                            parentm,
                            override_env,
                            strict,
                        )
                    }
                } else {
                    let key = cut_nul(key_raw);
                    let key_nul = key.len() != key_raw.len();
                    if key_nul && strict {
                        ParseOut::fail(spec_syntax_error(l2 as usize, 1), env, Seq::empty())
                    } else if inherited {
                        if key_nul {
                            // a key holding a null byte is never written
                            cg_statements(s, left, l2, env, parentm, override_env, strict)
                        } else if parentm.contains_key(key) {
                            let env2 = spec_set_var(env, key, parentm[key], override_env);
                            let rest = cg_statements(
                                s,
                                left,
                                l2,
                                env2,
                                parentm,
                                override_env,
                                strict,
                            );
                            ParseOut {
                                err: rest.err,
                                env: rest.env,
                                writes: seq![(key, parentm[key])] + rest.writes,
                            }
                        } else {
                            cg_statements(s, left, l2, env, parentm, override_env, strict)
                        }
                    } else {
                        match cg_extract(s, left, l2, env, strict) {
                            Err((e, l3)) => if strict {
                                ParseOut::fail(e, env, Seq::empty())
                            } else {
                                cg_statements(
                                    s,
                                    char_pos(s, a, '\n'),
                                    l3,
                                    env,
                                    parentm,
                                    override_env,
                                    strict,
                                )
                            },
                            Ok((value_raw, left2, l3)) => {
                                let value = cut_nul(value_raw);
                                let value_nul = value.len() != value_raw.len();
                                if value_nul && strict {
                                    ParseOut::fail(
                                        spec_syntax_error(l3 as usize, 1),
                                        env,
                                        Seq::empty(),
                                    )
                                } else if key_nul || value_nul {
                                    // a binding holding a null byte is
                                    // never written, truncated or whole
                                    cg_statements(
                                        s,
                                        left2,
                                        l3,
                                        env,
                                        parentm,
                                        override_env,
                                        strict,
                                    )
                                } else {
                                    let env2 = spec_set_var(env, key, value, override_env);
                                    let rest = cg_statements(
                                        s,
                                        left2,
                                        l3,
                                        env2,
                                        parentm,
                                        override_env,
                                        strict,
                                    );
                                    ParseOut {
                                        err: rest.err,
                                        env: rest.env,
                                        writes: seq![(key, value)] + rest.writes,
                                    }
                                }
                            },
                        }
                    }
                }
            },
        },
    }
}

#[via_fn]
proof fn cg_statements_decreases(
    s: Seq<char>,
    i: int,
    lineno: int,
    env: EnvModel,
    parentm: EnvModel,
    override_env: bool,
    strict: bool,
) {
    if 0 <= i <= s.len() {
        lemma_cg_stmt_start(s, i, lineno);
        match cg_stmt_start(s, i, lineno) {
            None => {},
            Some((a, l)) => {
                lemma_char_pos(s, a, '\n');
                lemma_cg_locate(s, a, l);
                match cg_locate_key(s, a, l) {
                    Err(_) => {},
                    Ok((key_raw, left, inherited, l2)) => {
                        lemma_cg_extract(s, left, l2, env, strict);
                    },
                }
            },
        }
    }
}

/// The source with a leading byte-order mark removed.
pub open spec fn strip_bom(s: Seq<char>) -> Seq<char> {
    if s.len() >= 1 && s[0] == '\u{FEFF}' {
        s.subrange(1, s.len() as int)
    } else {
        s
    }
}

/// The outcome of the Compose-Go dialect on a whole source.
pub open spec fn composego_spec(
    src: Seq<char>,
    env: EnvModel,
    parentm: EnvModel,
    override_env: bool,
    strict: bool,
) -> ParseOut {
    cg_statements(strip_bom(src), 0, 1, env, parentm, override_env, strict)
}


/// Skips Unicode whitespace, counting line feeds.
pub(crate) fn ws_count(v: &Vec<char>, i: usize, lineno: usize) -> (r: (usize, usize))
    requires
        i <= v@.len(),
        lineno + (v@.len() - i) < usize::MAX,
    ensures
        cg_ws(v@, i as int, lineno as int) == (r.0 as int, r.1 as int),
        i <= r.0 <= v@.len(),
        r.1 <= lineno + (r.0 - i),
        r.0 < v@.len() ==> !is_unicode_whitespace(v@[r.0 as int]),
{
    let n = v.len();
    let mut j = i;
    let mut l = lineno;
    while j < n
        invariant
            i <= j <= n,
            n == v@.len(),
            lineno + (n - i) < usize::MAX,
            l <= lineno + (j - i),
            cg_ws(v@, i as int, lineno as int) == cg_ws(v@, j as int, l as int),
        decreases n - j,
    {
        let c = v[j];
        if !unicode_whitespace(c) {
            return (j, l);
        }
        if c == '\n' {
            l = l + 1;
        }
        j = j + 1;
    }
    (j, l)
}

/// Finds the first occurrence of `t` at or after `i`.
pub(crate) fn find_char(v: &Vec<char>, i: usize, t: char) -> (r: usize)
    requires
        i <= v@.len(),
    ensures
        r == char_pos(v@, i as int, t),
        i <= r <= v@.len(),
        r < v@.len() ==> v@[r as int] == t,
{
    let n = v.len();
    let mut j = i;
    while j < n
        invariant
            i <= j <= n,
            n == v@.len(),
            char_pos(v@, i as int, t) == char_pos(v@, j as int, t),
        decreases n - j,
    {
        if v[j] == t {
            return j;
        }
        j = j + 1;
    }
    j
}

/// Finds the next statement start.
pub(crate) fn stmt_start(v: &Vec<char>, i: usize, lineno: usize) -> (r: Option<(usize, usize)>)
    requires
        i <= v@.len(),
        lineno + (v@.len() - i) < usize::MAX,
    ensures
        ({
            let sp = cg_stmt_start(v@, i as int, lineno as int);
            match r {
                None => sp is None,
                Some((a, l)) => sp == Some((a as int, l as int)) && i <= a < v@.len() && l
                    <= lineno + (a - i) && !is_unicode_whitespace(v@[a as int]),
            }
        }),
    decreases v@.len() - i,
{
    let n = v.len();
    let (j, l) = ws_count(v, i, lineno);
    if j >= n {
        return None;
    }
    if v[j] == '#' {
        let m = find_char(v, j, '\n');
        if m >= n {
            return None;
        }
        proof {
            lemma_cg_ws(v@, i as int, lineno as int);
        }
        stmt_start(v, m, l)
    } else {
        Some((j, l))
    }
}

/// Skips this dialect's space set.
pub(crate) fn space_skip(v: &Vec<char>, i: usize) -> (r: usize)
    requires
        i <= v@.len(),
    ensures
        r == cg_space_skip(v@, i as int),
        i <= r <= v@.len(),
{
    let n = v.len();
    let mut j = i;
    while j < n
        invariant
            i <= j <= n,
            n == v@.len(),
            cg_space_skip(v@, i as int) == cg_space_skip(v@, j as int),
        decreases n - j,
    {
        let c = v[j];
        let space = c == '\t' || c == '\u{B}' || c == '\u{C}' || c == '\r' || c == ' ' || c
            == '\u{85}' || c == '\u{A0}';
        if !space {
            return j;
        }
        j = j + 1;
    }
    j
}

/// How the executable key scan ended.
enum KeyScanExec {
    Sep(usize),
    Bad(usize),
    End,
}

/// Scans a key for its separator or an illegal character.
fn key_scan(v: &Vec<char>, a0: usize) -> (r: KeyScanExec)
    requires
        a0 <= v@.len(),
    ensures
        ({
            let sp = cg_key_scan(v@, a0 as int);
            match r {
                KeyScanExec::Sep(p) => sp == KeyScan::Sep(p as int) && a0 <= p < v@.len(),
                KeyScanExec::Bad(p) => sp == KeyScan::Bad(p as int) && a0 <= p < v@.len(),
                KeyScanExec::End => sp == KeyScan::End,
            }
        }),
{
    let n = v.len();
    let mut j = a0;
    while j < n
        invariant
            a0 <= j <= n,
            n == v@.len(),
            cg_key_scan(v@, a0 as int) == cg_key_scan(v@, j as int),
        decreases n - j,
    {
        let c = v[j];
        let space = c == '\t' || c == '\u{B}' || c == '\u{C}' || c == '\r' || c == ' ' || c
            == '\u{85}' || c == '\u{A0}';
        if space {
            j = j + 1;
        } else if c == '=' || c == ':' || c == '\n' {
            return KeyScanExec::Sep(j);
        } else if c == '_' || c == '.' || c == '-' || c == '[' || c == ']' {
            j = j + 1;
        } else if unicode_alphanumeric(c) {
            j = j + 1;
        } else {
            return KeyScanExec::Bad(j);
        }
    }
    KeyScanExec::End
}

/// Strips trailing Unicode whitespace.
fn trim_end_vec(v: &Vec<char>) -> (r: Vec<char>)
    ensures
        r@ == cg_trim_end(v@),
{
    let n = v.len();
    let mut b: usize = n;
    while b > 0 && unicode_whitespace(v[b - 1])
        invariant
            0 <= b <= n,
            n == v@.len(),
            uni_trim_end(v@, n as int) == uni_trim_end(v@, b as int),
        decreases b,
    {
        b = b - 1;
    }
    proof {
        crate::text::lemma_uni_trim_end_le(v@, b as int);
    }
    subvec(v, 0, b)
}

/// Whether the export keyword with a following space stands at `a`.
pub(crate) fn export_at(v: &Vec<char>, a: usize) -> (r: bool)
    requires
        a <= v@.len(),
        v@.len() < usize::MAX - 6,
    ensures
        ({
            let s = v@;
            r == (a + 6 <= s.len() && s[a as int] == 'e' && s[a + 1] == 'x' && s[a + 2] == 'p'
                && s[a + 3] == 'o' && s[a + 4] == 'r' && s[a + 5] == 't' && a + 6 < s.len()
                && is_cg_space(s[a + 6]))
        }),
{
    if a + 6 < v.len() && v[a] == 'e' && v[a + 1] == 'x' && v[a + 2] == 'p' && v[a + 3] == 'o'
        && v[a + 4] == 'r' && v[a + 5] == 't' {
        let c = v[a + 6];
        c == '\t' || c == '\u{B}' || c == '\u{C}' || c == '\r' || c == ' ' || c == '\u{85}' || c
            == '\u{A0}'
    } else {
        false
    }
}

/// Locates the key of the statement at `a`.
fn locate_key(v: &Vec<char>, a: usize, lineno: usize) -> (r: Result<
    (Vec<char>, usize, bool, usize),
    Error,
>)
    requires
        a <= v@.len(),
        v@.len() < usize::MAX - 6,
        lineno < usize::MAX,
    ensures
        ({
            let sp: Result<(Seq<char>, int, bool, int), Error> = cg_locate_key(
                v@,
                a as int,
                lineno as int,
            );
            match r {
                Ok((key, left, inherited, l2)) => (sp matches Ok(t) && t == (
                key@,
                left as int,
                inherited,
                l2 as int,
                )) && a <= left <= v@.len() && l2 <= lineno + 1,
                Err(e) => sp matches Err(se) && se == e,
            }
        }),
{
    let a0 = if export_at(v, a) {
        space_skip(v, a + 6)
    } else {
        a
    };
    proof {
        assert(a0 as int == cg_trim_export(v@, a as int));
        lemma_cg_space_skip(v@, a0 as int);
    }
    match key_scan(v, a0) {
        KeyScanExec::Bad(_) => Err(Error::syntax_error(lineno, 1)),
        KeyScanExec::End => {
            if a0 >= v.len() {
                Err(Error::syntax_error(lineno, 1))
            } else {
                let key: Vec<char> = Vec::new();
                let left = space_skip(v, a0);
                proof {
                    assert(key@ =~= Seq::<char>::empty());
                }
                Ok((key, left, false, lineno))
            }
        },
        KeyScanExec::Sep(j) => {
            let raw = subvec(v, a0, j);
            let key = trim_end_vec(&raw);
            let inherited = v[j] == '\n';
            let left = space_skip(v, j + 1);
            let l2 = if inherited {
                lineno + 1
            } else {
                lineno
            };
            Ok((key, left, inherited, l2))
        },
    }
}

/// Whether the key holds a space.
fn key_has_space(v: &Vec<char>) -> (r: bool)
    ensures
        r == has_space(v@),
{
    let n = v.len();
    let mut j: usize = 0;
    while j < n
        invariant
            j <= n,
            n == v@.len(),
            forall|l: int| 0 <= l < j ==> v@[l] != ' ',
        decreases n - j,
    {
        if v[j] == ' ' {
            return true;
        }
        j = j + 1;
    }
    false
}

/// Finds `t` in `[i, end)`.
fn rpos_find(v: &Vec<char>, i: usize, end: usize, t: char) -> (r: usize)
    requires
        i <= end <= v@.len(),
    ensures
        r == rpos(v@, i as int, end as int, t),
        i <= r <= end,
        r < end ==> v@[r as int] == t,
{
    let mut j = i;
    while j < end
        invariant
            i <= j <= end <= v@.len(),
            rpos(v@, i as int, end as int, t) == rpos(v@, j as int, end as int, t),
        decreases end - j,
    {
        if v[j] == t {
            return j;
        }
        j = j + 1;
    }
    j
}

/// Finds the end of a substitution name in `[i, end)`.
pub(crate) fn ident_end_find(v: &Vec<char>, i: usize, end: usize) -> (r: usize)
    requires
        i <= end <= v@.len(),
    ensures
        r == ident_end(v@, i as int, end as int),
        i <= r <= end,
{
    let mut j = i;
    while j < end
        invariant
            i <= j <= end <= v@.len(),
            ident_end(v@, i as int, end as int) == ident_end(v@, j as int, end as int),
        decreases end - j,
    {
        let c = v[j];
        let ok = ('a' <= c && c <= 'z') || ('A' <= c && c <= 'Z') || ('0' <= c && c <= '9') || c
            == '_';
        if !ok {
            return j;
        }
        j = j + 1;
    }
    j
}

/// Finds the modifier operand end, with brace balancing.
fn braced_end_find(v: &Vec<char>, i: usize, end: usize) -> (r: usize)
    requires
        i <= end <= v@.len(),
    ensures
        r == braced_end(v@, i as int, end as int),
        r <= end,
{
    let mut j = i;
    let mut nesting: usize = 0;
    let mut prev_closing: usize = end;
    while j < end
        invariant
            i <= j <= end <= v@.len(),
            nesting <= j - i,
            prev_closing <= end,
            braced_end(v@, i as int, end as int) == braced_end_scan(
                v@,
                j as int,
                end as int,
                nesting as int,
                prev_closing as int,
            ),
        decreases end - j,
    {
        let c = v[j];
        if c == '}' {
            if nesting == 0 {
                return j;
            }
            nesting = nesting - 1;
            prev_closing = j;
        } else if c == '{' {
            nesting = nesting + 1;
        } else if c == '\n' {
            return prev_closing;
        }
        j = j + 1;
    }
    prev_closing
}

/// Decodes this dialect's escape table over the whole buffer.
fn unescape_vec(v: &Vec<char>) -> (r: Vec<char>)
    ensures
        r@ == cg_unescape(v@, 0, v@.len() as int),
{
    let n = v.len();
    let mut out: Vec<char> = Vec::new();
    let mut i: usize = 0;
    while i < n
        invariant
            i <= n,
            n == v@.len(),
            cg_unescape(v@, 0, n as int) == out@ + cg_unescape(v@, i as int, n as int),
        decreases n - i,
    {
        let b = rpos_find(v, i, n, '\\');
        push_range(&mut out, v, i, b);
        if b >= n {
            proof {
                assert(cg_unescape(v@, 0, n as int) =~= out@);
            }
            return out;
        }
        let r = b + 1;
        if r >= n {
            out.push('\\');
            proof {
                assert(cg_unescape(v@, 0, n as int) =~= out@);
            }
            return out;
        }
        let c = v[r];
        if c == 'a' {
            out.push('\u{7}');
            i = r + 1;
        } else if c == 'b' {
            out.push('\u{8}');
            i = r + 1;
        } else if c == 'f' {
            out.push('\u{C}');
            i = r + 1;
        } else if c == 'n' {
            out.push('\n');
            i = r + 1;
        } else if c == 'r' {
            out.push('\r');
            i = r + 1;
        } else if c == 't' {
            out.push('\t');
            i = r + 1;
        } else if c == 'v' {
            out.push('\u{B}');
            i = r + 1;
        } else if c == '$' {
            out.push('$');
            out.push('$');
            i = r + 1;
        } else if c == '"' {
            out.push('"');
            i = r + 1;
        } else if c == '\\' {
            out.push('\\');
            i = r + 1;
        } else if c == '0' {
            if n - r >= 4 {
                let parsed = from_radix(v, r + 1, r + 4, 8);
                let mut done = false;
                match parsed {
                    Some(x) => if x <= 255 {
                        match crate::text::char_from_u32(x) {
                            Some(ch) => {
                                out.push(ch);
                                i = r + 4;
                                done = true;
                            },
                            None => {
                                proof {
                                    assert(false);
                                }
                            },
                        }
                    },
                    None => {
                    },
                }
                if !done {
                    out.push('\\');
                    i = r + 1;
                }
            } else {
                out.push('\\');
                i = r + 1;
            }
        } else {
            out.push('\\');
            out.push(c);
            i = r + 1;
        }
    }
    proof {
        assert(cg_unescape(v@, i as int, n as int) =~= Seq::<char>::empty());
        assert(cg_unescape(v@, 0, n as int) =~= out@);
    }
    out
}

/// Expands `${...}` substitution over `[i, end)` against the store.
#[verifier::rlimit(100)]
fn expand_vars(
    v: &Vec<char>,
    i: usize,
    end: usize,
    env: &MemoryEnv,
    strict: bool,
    lineno: usize,
) -> (r: Result<Vec<char>, Error>)
    requires
        i <= end <= v@.len(),
        env.wf(),
    ensures
        ({
            let sp: Result<Seq<char>, Error> = cg_expand(
                v@,
                i as int,
                end as int,
                env.as_map(),
                strict,
                lineno as int,
            );
            match r {
                Ok(out) => sp matches Ok(t) && t == out@,
                Err(e) => sp matches Err(se) && se == e,
            }
        }),
    decreases end - i, 0int,
{
    let d = rpos_find(v, i, end, '$');
    let mut out = subvec(v, i, d);
    if d >= end {
        return Ok(out);
    }
    let r1 = d + 1;
    if r1 >= end {
        out.push('$');
        return Ok(out);
    }
    let c = v[r1];
    if c == '$' {
        out.push('$');
        match expand_vars(v, r1 + 1, end, env, strict, lineno) {
            Ok(rest) => {
                let mut res = out;
                push_all(&mut res, &rest);
                Ok(res)
            },
            Err(e) => Err(e),
        }
    } else if c == '{' {
        let q = r1 + 1;
        let idend = ident_end_find(v, q, end);
        let good = idend > q && {
            let c0 = v[q];
            ('a' <= c0 && c0 <= 'z') || ('A' <= c0 && c0 <= 'Z') || c0 == '_'
        };
        if !good {
            if strict {
                return Err(Error::syntax_error(lineno, 1));
            }
            out.push('$');
            out.push('{');
            match expand_vars(v, q, end, env, strict, lineno) {
                Ok(rest) => {
                    let mut res = out;
                    push_all(&mut res, &rest);
                    Ok(res)
                },
                Err(e) => Err(e),
            }
        } else {
            let raw_name = subvec(v, q, idend);
            let name = cut_nul_vec(&raw_name);
            let looked = env.get_chars(&name);
            let is_mod = idend < end && (v[idend] == ':' || v[idend] == '?' || v[idend] == '+'
                || v[idend] == '-');
            if is_mod {
                proof {
                    lemma_braced_end_scan(v@, idend as int, end as int, 0, end as int);
                    lemma_braced_end_lower(v@, idend as int, end as int);
                }
                let ve = braced_end_find(v, idend, end);
                if ve >= end {
                    if strict {
                        return Err(Error::syntax_error(lineno, 1));
                    }
                    out.push('$');
                    out.push('{');
                    push_all(&mut out, &name);
                    match expand_vars(v, idend, end, env, strict, lineno) {
                        Ok(rest) => {
                            let mut res = out;
                            push_all(&mut res, &rest);
                            Ok(res)
                        },
                        Err(e) => Err(e),
                    }
                } else {
                    expand_modifier(v, idend, ve, end, env, strict, lineno, out, looked)
                }
            } else if idend < end && v[idend] == '}' {
                match looked {
                    Some(val) => {
                        push_all(&mut out, &val);
                    },
                    None => {
                    },
                }
                match expand_vars(v, idend + 1, end, env, strict, lineno) {
                    Ok(rest) => {
                        let mut res = out;
                        push_all(&mut res, &rest);
                        Ok(res)
                    },
                    Err(e) => Err(e),
                }
            } else {
                if strict {
                    return Err(Error::syntax_error(lineno, 1));
                }
                out.push('$');
                out.push('{');
                push_all(&mut out, &name);
                match expand_vars(v, idend, end, env, strict, lineno) {
                    Ok(rest) => {
                        let mut res = out;
                        push_all(&mut res, &rest);
                        Ok(res)
                    },
                    Err(e) => Err(e),
                }
            }
        }
    } else {
        let is_start = ('a' <= c && c <= 'z') || ('A' <= c && c <= 'Z') || c == '_';
        if !is_start {
            out.push('$');
            match expand_vars(v, r1, end, env, strict, lineno) {
                Ok(rest) => {
                    let mut res = out;
                    push_all(&mut res, &rest);
                    Ok(res)
                },
                Err(e) => Err(e),
            }
        } else {
            let idend = ident_end_find(v, r1, end);
            if idend == r1 {
                if strict {
                    return Err(Error::syntax_error(lineno, 1));
                }
                out.push('$');
                match expand_vars(v, r1, end, env, strict, lineno) {
                    Ok(rest) => {
                        let mut res = out;
                        push_all(&mut res, &rest);
                        Ok(res)
                    },
                    Err(e) => Err(e),
                }
            } else {
                let raw_name = subvec(v, r1, idend);
                let name = cut_nul_vec(&raw_name);
                match env.get_chars(&name) {
                    Some(val) => {
                        push_all(&mut out, &val);
                    },
                    None => {
                    },
                }
                match expand_vars(v, idend, end, env, strict, lineno) {
                    Ok(rest) => {
                        let mut res = out;
                        push_all(&mut res, &rest);
                        Ok(res)
                    },
                    Err(e) => Err(e),
                }
            }
        }
    }
}

/// One modifier form and the expansion of what follows it.
fn expand_modifier(
    v: &Vec<char>,
    m: usize,
    ve: usize,
    end: usize,
    env: &MemoryEnv,
    strict: bool,
    lineno: usize,
    prefix: Vec<char>,
    looked: Option<Vec<char>>,
) -> (r: Result<Vec<char>, Error>)
    requires
        m < ve <= end <= v@.len(),
        env.wf(),
    ensures
        ({
            let lk = match looked {
                Some(val) => Some(val@),
                None => None::<Seq<char>>,
            };
            let sp: Result<Seq<char>, Error> = cg_modifier(
                v@,
                m as int,
                ve as int,
                end as int,
                env.as_map(),
                strict,
                lineno as int,
                prefix@,
                Seq::empty(),
                lk,
            );
            match r {
                Ok(out) => sp matches Ok(t) && t == out@,
                Err(e) => sp matches Err(se) && se == e,
            }
        }),
    decreases end - m, 3int,
{
    let c0 = v[m];
    let two = m + 1 < ve;
    if two && c0 == ':' && v[m + 1] == '?' {
        match looked {
            Some(val) => {
                if val.len() > 0 {
                    let mut built = prefix;
                    push_all(&mut built, &val);
                    expand_close(v, ve, end, env, strict, lineno, built)
                } else {
                    Err(Error::syntax_error(lineno, 1))
                }
            },
            None => Err(Error::syntax_error(lineno, 1)),
        }
    } else if c0 == '?' {
        match looked {
            Some(val) => {
                let mut built = prefix;
                push_all(&mut built, &val);
                expand_close(v, ve, end, env, strict, lineno, built)
            },
            None => Err(Error::syntax_error(lineno, 1)),
        }
    } else if two && c0 == ':' && v[m + 1] == '-' {
        let use_default = match &looked {
            Some(val) => val.len() == 0,
            None => true,
        };
        if !use_default {
            let val = match looked {
                Some(val) => val,
                None => Vec::new(),
            };
            let mut built = prefix;
            push_all(&mut built, &val);
            expand_close(v, ve, end, env, strict, lineno, built)
        } else {
            match expand_vars(v, m + 2, ve, env, strict, lineno) {
                Ok(dflt) => {
                    let mut built = prefix;
                    push_all(&mut built, &dflt);
                    expand_close(v, ve, end, env, strict, lineno, built)
                },
                Err(e) => Err(e),
            }
        }
    } else if c0 == '-' {
        match looked {
            Some(val) => {
                let mut built = prefix;
                push_all(&mut built, &val);
                expand_close(v, ve, end, env, strict, lineno, built)
            },
            None => {
                match expand_vars(v, m + 1, ve, env, strict, lineno) {
                    Ok(dflt) => {
                        let mut built = prefix;
                        push_all(&mut built, &dflt);
                        expand_close(v, ve, end, env, strict, lineno, built)
                    },
                    Err(e) => Err(e),
                }
            },
        }
    } else if two && c0 == ':' && v[m + 1] == '+' {
        let use_alt = match &looked {
            Some(val) => val.len() > 0,
            None => false,
        };
        if use_alt {
            match expand_vars(v, m + 2, ve, env, strict, lineno) {
                Ok(alt) => {
                    let mut built = prefix;
                    push_all(&mut built, &alt);
                    expand_close(v, ve, end, env, strict, lineno, built)
                },
                Err(e) => Err(e),
            }
        } else {
            expand_close(v, ve, end, env, strict, lineno, prefix)
        }
    } else if c0 == '+' {
        match looked {
            Some(_) => {
                match expand_vars(v, m + 1, ve, env, strict, lineno) {
                    Ok(alt) => {
                        let mut built = prefix;
                        push_all(&mut built, &alt);
                        expand_close(v, ve, end, env, strict, lineno, built)
                    },
                    Err(e) => Err(e),
                }
            },
            None => expand_close(v, ve, end, env, strict, lineno, prefix),
        }
    } else {
        let mut built = prefix;
        match looked {
            Some(val) => {
                push_all(&mut built, &val);
            },
            None => {
            },
        }
        expand_close(v, m, end, env, strict, lineno, built)
    }
}

/// The closing-brace check and the expansion of the rest.
fn expand_close(
    v: &Vec<char>,
    p: usize,
    end: usize,
    env: &MemoryEnv,
    strict: bool,
    lineno: usize,
    built: Vec<char>,
) -> (r: Result<Vec<char>, Error>)
    requires
        p <= end <= v@.len(),
        env.wf(),
    ensures
        ({
            let sp: Result<Seq<char>, Error> = cg_close_brace(
                v@,
                p as int,
                end as int,
                env.as_map(),
                strict,
                lineno as int,
                built@,
            );
            match r {
                Ok(out) => sp matches Ok(t) && t == out@,
                Err(e) => sp matches Err(se) && se == e,
            }
        }),
    decreases end - p, 2int,
{
    if p < end && v[p] == '}' {
        match expand_vars(v, p + 1, end, env, strict, lineno) {
            Ok(rest) => {
                let mut res = built;
                push_all(&mut res, &rest);
                Ok(res)
            },
            Err(e) => Err(e),
        }
    } else if strict {
        Err(Error::syntax_error(lineno, 1))
    } else {
        match expand_vars(v, p, end, env, strict, lineno) {
            Ok(rest) => {
                let mut res = built;
                push_all(&mut res, &rest);
                Ok(res)
            },
            Err(e) => Err(e),
        }
    }
}

/// Scans a quoted value to its closing quote.
fn quoted_scan(v: &Vec<char>, j0: usize, quote: char, lineno: usize) -> (r: Result<
    (Vec<char>, usize, usize),
    (Error, usize),
>)
    requires
        j0 <= v@.len(),
        lineno + (v@.len() - j0) < usize::MAX,
    ensures
        ({
            let sp: Result<(Seq<char>, int, int), (Error, int)> = cg_quoted(
                v@,
                j0 as int,
                quote,
                false,
                Seq::empty(),
                lineno as int,
            );
            match r {
                Ok((raw, rest, l2)) => (sp matches Ok(t) && t == (raw@, rest as int, l2 as int))
                    && j0 < rest <= v@.len() && l2 <= lineno + (rest - j0),
                Err((e, l2)) => (sp matches Err(t) && t == (e, l2 as int)) && l2 <= lineno + (
                v@.len() - j0),
            }
        }),
{
    let n = v.len();
    let mut j = j0;
    let mut esc = false;
    let mut acc: Vec<char> = Vec::new();
    let mut l = lineno;
    proof {
        assert(acc@ =~= Seq::<char>::empty());
    }
    while j < n
        invariant
            j0 <= j <= n,
            n == v@.len(),
            lineno + (n - j0) < usize::MAX,
            l <= lineno + (j - j0),
            cg_quoted(v@, j0 as int, quote, false, Seq::empty(), lineno as int) == cg_quoted(
                v@,
                j as int,
                quote,
                esc,
                acc@,
                l as int,
            ),
        decreases n - j,
    {
        let ch = v[j];
        if ch == '\n' {
            l = l + 1;
        }
        if ch != quote {
            if !esc && ch == '\\' {
                esc = true;
            } else if esc {
                esc = false;
                let ghost accb = acc@;
                acc.push('\\');
                acc.push(ch);
                proof {
                    assert(acc@ =~= accb + seq!['\\', ch]);
                }
            } else {
                acc.push(ch);
            }
        } else if esc {
            esc = false;
            acc.push(ch);
        } else {
            return Ok((acc, j + 1, l));
        }
        j = j + 1;
    }
    Err((Error::syntax_error(l, 1), l))
}

/// Finds the first ` #` comment introducer in `[i, end)`.
fn hash_find(v: &Vec<char>, i: usize, end: usize) -> (r: usize)
    requires
        i <= end <= v@.len(),
    ensures
        r == hash_pos(v@, i as int, end as int),
        i <= r <= end,
{
    let mut j = i;
    while end - j > 1
        invariant
            i <= j,
            j <= end <= v@.len(),
            hash_pos(v@, i as int, end as int) == hash_pos(v@, j as int, end as int),
        decreases end - j,
    {
        if v[j] == ' ' && v[j + 1] == '#' {
            return j;
        }
        j = j + 1;
    }
    end
}

/// Extracts the value of one binding, applying quote scanning, escape
/// decoding and substitution as the dialect asks.
fn extract_value(
    v: &Vec<char>,
    a: usize,
    lineno: usize,
    env: &MemoryEnv,
    strict: bool,
) -> (r: Result<(Vec<char>, usize, usize), (Error, usize)>)
    requires
        a <= v@.len(),
        env.wf(),
        lineno + (v@.len() - a) + 1 < usize::MAX,
    ensures
        ({
            let sp: Result<(Seq<char>, int, int), (Error, int)> = cg_extract(
                v@,
                a as int,
                lineno as int,
                env.as_map(),
                strict,
            );
            match r {
                Ok((vv, rest, l3)) => (sp matches Ok(t) && t == (vv@, rest as int, l3 as int))
                    && a <= rest <= v@.len() && (a < v@.len() ==> rest > a) && l3 <= lineno + (
                v@.len() - a) + 1,
                Err((e, l3)) => (sp matches Err(t) && t == (e, l3 as int)) && l3 <= lineno + (
                v@.len() - a) + 1,
            }
        }),
{
    let n = v.len();
    if a < n && (v[a] == '"' || v[a] == '\'') {
        let quote = v[a];
        match quoted_scan(v, a + 1, quote, lineno) {
            Err(e) => Err(e),
            Ok((raw, rest, l2)) => {
                if quote == '"' {
                    let un = unescape_vec(&raw);
                    let un_len = un.len();
                    match expand_vars(&un, 0, un_len, env, strict, l2) {
                        Ok(vv) => Ok((vv, rest, l2)),
                        Err(e) => Err((e, l2)),
                    }
                } else {
                    Ok((raw, rest, l2))
                }
            },
        }
    } else {
        let nl = find_char(v, a, '\n');
        let rest = if nl < n {
            nl + 1
        } else {
            nl
        };
        let l2 = if nl < n {
            lineno + 1
        } else {
            lineno
        };
        let hs = hash_find(v, a, nl);
        let raw0 = subvec(v, a, hs);
        let raw = trim_end_vec(&raw0);
        let raw_len = raw.len();
        match expand_vars(&raw, 0, raw_len, env, strict, l2) {
            Ok(vv) => Ok((vv, rest, l2)),
            Err(e) => Err((e, l2)),
        }
    }
}

/// Parses a source in the Compose-Go dialect against the sink and the
/// parent store.  The outcome, store included, is exactly
/// `composego_spec`.
pub fn config_composego(
    src: &str,
    env: &mut MemoryEnv,
    parent: &MemoryEnv,
    options: &Options,
) -> (r: Result<(), Error>)
    requires
        old(env).wf(),
        parent.wf(),
        // error recovery rewinds to the line start, so the line
        // counter can grow quadratically; this bound keeps it within
        // a 32-bit usize
        src@.len() < 0x8000,
    ensures
        final(env).wf(),
        ({
            let out = composego_spec(
                src@,
                old(env).as_map(),
                parent.as_map(),
                options.override_env,
                options.strict,
            );
            &&& final(env).as_map() == out.env
            &&& final(env).entries_seq() == apply_writes(
                old(env).entries_seq(),
                out.writes,
                0,
                options.override_env,
            )
            &&& (match r {
                Ok(()) => out.err is None,
                Err(e) => out.err == Some(e),
            })
        }),
{
    let all0 = chars_of(src);
    let all = if all0.len() >= 1 && all0[0] == '\u{FEFF}' {
        let n0 = all0.len();
        subvec(&all0, 1, n0)
    } else {
        all0
    };
    proof {
        assert(all@ == strip_bom(src@));
    }
    let n = all.len();
    let ghost target = composego_spec(
        src@,
        old(env).as_map(),
        parent.as_map(),
        options.override_env,
        options.strict,
    );
    let mut pos: usize = 0;
    let mut lineno: usize = 1;
    proof {
        assert(1 <= (0 + 1) * (n + 1)) by (nonlinear_arith);
    }
    loop
        invariant
            env.wf(),
            parent.wf(),
            n == all@.len(),
            n < 0x8000,
            pos <= n,
            lineno <= (pos + 1) * (n + 1),
            all@ == strip_bom(src@),
            target == composego_spec(
                src@,
                old(env).as_map(),
                parent.as_map(),
                options.override_env,
                options.strict,
            ),
            ({
                let cur = cg_statements(
                    all@,
                    pos as int,
                    lineno as int,
                    env.as_map(),
                    parent.as_map(),
                    options.override_env,
                    options.strict,
                );
                &&& target.err == cur.err
                &&& target.env == cur.env
                &&& apply_writes(old(env).entries_seq(), target.writes, 0, options.override_env)
                    == apply_writes(env.entries_seq(), cur.writes, 0, options.override_env)
            }),
        decreases n - pos,
    {
        proof {
            assert((pos + 1) * (n + 1) <= (n + 1) * (n + 1)) by (nonlinear_arith)
                requires
                    pos <= n,
            ;
            assert((n + 1) * (n + 1) < 0x40010001) by (nonlinear_arith)
                requires
                    n < 0x8000,
            ;
        }
        let st = stmt_start(&all, pos, lineno);
        match st {
            None => {
                return Ok(());
            },
            Some((a, l)) => {
                proof {
                    lemma_char_pos(all@, a as int, '\n');
                }
                let res = locate_key(&all, a, l);
                let ghost envb = env.as_map();
                match res {
                    Err(e) => {
                        if options.strict {
                            return Err(e);
                        }
                        let newpos = find_char(&all, a, '\n');
                        proof {
                            lemma_step_bound(pos as int, newpos as int, lineno as int, l as int, n as int);
                        }
                        pos = newpos;
                        lineno = l;
                    },
                    Ok((key_raw, left, inherited, l2)) => {
                        if key_has_space(&key_raw) {
                            if options.strict {
                                return Err(Error::syntax_error(l2, 1));
                            }
                            let newpos = find_char(&all, a, '\n');
                            proof {
                                lemma_step_bound(pos as int, newpos as int, lineno as int, l2 as int, n as int);
                            }
                            pos = newpos;
                            lineno = l2;
                        } else {
                            let key = cut_nul_vec(&key_raw);
                            let key_nul = key.len() != key_raw.len();
                            if key_nul && options.strict {
                                return Err(Error::syntax_error(l2, 1));
                            }
                            if inherited {
                                proof {
                                    lemma_cg_locate(all@, a as int, l as int);
                                }
                                if !key_nul {
                                    let ghost envb = env.as_map();
                                    let ghost eb = env.entries_seq();
                                    match parent.get_chars(&key) {
                                        Some(val) => {
                                            options.set_var(env, &key, &val);
                                            proof {
                                                let w = (key@, parent.as_map()[key@]);
                                                let env2 = spec_set_var(
                                                    envb,
                                                    w.0,
                                                    w.1,
                                                    options.override_env,
                                                );
                                                let rest = cg_statements(
                                                    all@,
                                                    left as int,
                                                    l2 as int,
                                                    env2,
                                                    parent.as_map(),
                                                    options.override_env,
                                                    options.strict,
                                                );
                                                crate::model::lemma_apply_writes_step(
                                                    eb,
                                                    w,
                                                    rest.writes,
                                                    options.override_env,
                                                );
                                            }
                                        },
                                        None => {
                                        },
                                    }
                                }
                                proof {
                                    lemma_step_bound(pos as int, left as int, lineno as int, l2 as int, n as int);
                                }
                                pos = left;
                                lineno = l2;
                            } else {
                                let ext = extract_value(&all, left, l2, env, options.strict);
                                match ext {
                                    Err((e, l3)) => {
                                        if options.strict {
                                            return Err(e);
                                        }
                                        let newpos = find_char(&all, a, '\n');
                                        proof {
                                            lemma_step_bound(pos as int, newpos as int, lineno as int, l3 as int, n as int);
                                        }
                                        pos = newpos;
                                        lineno = l3;
                                    },
                                    Ok((value_raw, left2, l3)) => {
                                        let value = cut_nul_vec(&value_raw);
                                        let value_nul = value.len() != value_raw.len();
                                        if value_nul && options.strict {
                                            return Err(Error::syntax_error(l3, 1));
                                        }
                                        if !(key_nul || value_nul) {
                                            let ghost envb = env.as_map();
                                            let ghost eb = env.entries_seq();
                                            options.set_var(env, &key, &value);
                                            proof {
                                                let w = (key@, value@);
                                                let env2 = spec_set_var(
                                                    envb,
                                                    w.0,
                                                    w.1,
                                                    options.override_env,
                                                );
                                                let rest = cg_statements(
                                                    all@,
                                                    left2 as int,
                                                    l3 as int,
                                                    env2,
                                                    parent.as_map(),
                                                    options.override_env,
                                                    options.strict,
                                                );
                                                crate::model::lemma_apply_writes_step(
                                                    eb,
                                                    w,
                                                    rest.writes,
                                                    options.override_env,
                                                );
                                            }
                                        }
                                        proof {
                                            lemma_step_bound(pos as int, left2 as int, lineno as int, l3 as int, n as int);
                                        }
                                        pos = left2;
                                        lineno = l3;
                                    },
                                }
                            }
                        }
                    },
                }
            },
        }
    }
}

/// The line counter stays within its budget when the position
/// strictly advances and the counter grew by at most one scan extent.
proof fn lemma_step_bound(pos: int, newpos: int, lineno: int, newlineno: int, n: int)
    requires
        0 <= pos,
        pos < newpos,
        newlineno <= lineno + n + 1,
        lineno <= (pos + 1) * (n + 1),
        0 <= n,
    ensures
        newlineno <= (newpos + 1) * (n + 1),
{
    assert((pos + 1) * (n + 1) + (n + 1) == (pos + 2) * (n + 1)) by (nonlinear_arith);
    assert((pos + 2) * (n + 1) <= (newpos + 1) * (n + 1)) by (nonlinear_arith)
        requires
            pos + 1 <= newpos,
            0 <= n,
    ;
}
} // verus!
