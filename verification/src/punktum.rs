//! The native dialect: line-oriented `KEY=VALUE` bindings with word
//! keys, inheritance for bare keys, single- and double-quoted values
//! that may span physical lines, a rich escape table with UTF-16
//! surrogate pairs, and `$NAME` / `${NAME}` substitution with the
//! POSIX modifier forms, whose operands are parsed by re-entering the
//! value parser and may span lines as well.  An embedded null byte
//! is never truncated away: it aborts the parse under strict, and
//! otherwise the binding is abandoned and parsing resumes on the
//! next line.

use vstd::prelude::*;

use crate::env::MemoryEnv;
use crate::error::{Error, spec_syntax_error};
use crate::model::{EnvModel, ParseOut, apply_writes, char_pos, lemma_char_pos, spec_set_var};
use crate::options::Options;
use crate::text::{char_from_u32, chars_of, from_radix, push_all, spec_from_radix, subvec};

verus! {

use vstd::utf8::is_scalar;

/// A word character: an ASCII letter, a digit, or an underscore.
pub open spec fn is_word(c: char) -> bool {
    ('a' <= c && c <= 'z') || ('A' <= c && c <= 'Z') || ('0' <= c && c <= '9') || c == '_'
}

/// ASCII whitespace.
pub open spec fn is_ascii_space(c: char) -> bool {
    c == ' ' || c == '\t' || c == '\n' || c == '\u{C}' || c == '\r'
}

/// The text with every `\r\n` pair turned into `\n`.
pub open spec fn fix_nl(s: Seq<char>, i: int) -> Seq<char>
    decreases s.len() - i,
{
    if i < 0 || i >= s.len() {
        Seq::empty()
    } else if s[i] == '\r' && i + 1 < s.len() && s[i + 1] == '\n' {
        seq!['\n'] + fix_nl(s, i + 2)
    } else {
        seq![s[i]] + fix_nl(s, i + 1)
    }
}

/// The position of the parser: the current line `[ls, le)` (its
/// terminator included), the scan position inside it, and the 1-based
/// line counter.
pub struct PSt {
    pub ls: int,
    pub le: int,
    pub idx: int,
    pub lineno: int,
}

/// A well-formed position inside the source.
pub open spec fn st_wf(s: Seq<char>, st: PSt) -> bool {
    0 <= st.ls <= st.idx <= st.le <= s.len()
}

/// The end of the line starting at `ls`: just past its line feed, or
/// the end of the source.
pub open spec fn line_end(s: Seq<char>, ls: int) -> int {
    let nl = char_pos(s, ls, '\n');
    if nl < s.len() {
        nl + 1
    } else {
        nl
    }
}

/// The state after reading the next physical line.  At the end of
/// the source nothing is read and the counter stays.
pub open spec fn next_line(s: Seq<char>, st: PSt) -> PSt {
    if st.le >= s.len() {
        PSt { ls: st.le, le: st.le, idx: st.le, lineno: st.lineno }
    } else {
        PSt { ls: st.le, le: line_end(s, st.le), idx: st.le, lineno: st.lineno + 1 }
    }
}

pub proof fn lemma_line_end(s: Seq<char>, ls: int)
    requires
        0 <= ls <= s.len(),
    ensures
        ls <= line_end(s, ls) <= s.len(),
        ls < s.len() ==> line_end(s, ls) > ls,
{
    lemma_char_pos(s, ls, '\n');
}

/// The first non-whitespace position in `[i, end)`, or `end`.
pub open spec fn skip_ws(s: Seq<char>, i: int, end: int) -> int
    decreases end - i,
{
    if i < 0 || i >= end || end > s.len() {
        end
    } else if is_ascii_space(s[i]) {
        skip_ws(s, i + 1, end)
    } else {
        i
    }
}

pub proof fn lemma_skip_ws(s: Seq<char>, i: int, end: int)
    requires
        0 <= i <= end <= s.len(),
    ensures
        i <= skip_ws(s, i, end) <= end,
        skip_ws(s, i, end) < end ==> !is_ascii_space(s[skip_ws(s, i, end)]),
    decreases end - i,
{
    if i < end && is_ascii_space(s[i]) {
        lemma_skip_ws(s, i + 1, end);
    }
}

/// The end of the word starting at `i`, within `[i, end)`.
pub open spec fn word_end(s: Seq<char>, i: int, end: int) -> int
    decreases end - i,
{
    if i < 0 || i >= end || end > s.len() {
        end
    } else if is_word(s[i]) {
        word_end(s, i + 1, end)
    } else {
        i
    }
}

pub proof fn lemma_word_end(s: Seq<char>, i: int, end: int)
    requires
        0 <= i <= end <= s.len(),
    ensures
        i <= word_end(s, i, end) <= end,
    decreases end - i,
{
    if i < end && is_word(s[i]) {
        lemma_word_end(s, i + 1, end);
    }
}

/// What a parsing step hands back: the decoded text produced so far
/// and the position after it.
pub type PRes = Result<(Seq<char>, PSt), (Error, PSt)>;

/// Whether `b` lies strictly after `a` in reading order.
pub open spec fn st_after(a: PSt, b: PSt) -> bool {
    b.le > a.le || (b.le == a.le && b.idx > a.idx)
}

/// The parsed value from the current position: the outer scanning
/// loop of the value parser.  `nested` marks operand parsing inside a
/// substitution (stopping at `}` and continuing across lines), `skip`
/// marks parsing whose output and lookups are discarded.
pub open spec fn pv(
    s: Seq<char>,
    st: PSt,
    nested: bool,
    skip: bool,
    envm: EnvModel,
    strict: bool,
) -> PRes
    decreases s.len() - st.le, s.len() - st.idx, 2int
        via pv_decreases
{
    if !st_wf(s, st) {
        Ok((Seq::empty(), st))
    } else if nested && st.idx >= st.le {
        let st2 = next_line(s, st);
        if st2.ls >= s.len() {
            Ok((Seq::empty(), st2))
        } else {
            pv(s, st2, nested, skip, envm, strict)
        }
    } else if st.idx >= st.le {
        Ok((Seq::empty(), st))
    } else {
        let c = s[st.idx];
        if c == '"' || c == '\'' {
            match pquote(s, PSt { idx: st.idx + 1, ..st }, c, nested, skip, envm, strict) {
                Ok((out, st2)) => if st_after(st, st2) && st_wf(s, st2) {
                    match pv(s, st2, nested, skip, envm, strict) {
                        Ok((out2, st3)) => Ok((out + out2, st3)),
                        Err(e) => Err(e),
                    }
                } else {
                    Ok((out, st2))
                },
                Err(e) => Err(e),
            }
        } else if c == '#' && !nested {
            Ok((Seq::empty(), st))
        } else if c == '}' && nested {
            Ok((Seq::empty(), st))
        } else if c == '$' {
            match pvar(s, PSt { idx: st.idx + 1, ..st }, skip, envm, strict) {
                Ok((out, st2)) => if st_after(st, st2) && st_wf(s, st2) {
                    match pv(s, st2, nested, skip, envm, strict) {
                        Ok((out2, st3)) => Ok((out + out2, st3)),
                        Err(e) => Err(e),
                    }
                } else {
                    Ok((out, st2))
                },
                Err(e) => Err(e),
            }
        } else if c == '\0' {
            // an embedded null byte fails the binding, whatever the mode
            Err(
                (
                    spec_syntax_error(st.lineno as usize, (st.idx - st.ls + 1) as usize),
                    st,
                ),
            )
        } else if nested {
            match pplain_nested(s, st, st.idx, envm, strict) {
                Ok((out, st2)) => if st_after(st, st2) && st_wf(s, st2) {
                    match pv(s, st2, nested, skip, envm, strict) {
                        Ok((out2, st3)) => Ok((out + out2, st3)),
                        Err(e) => Err(e),
                    }
                } else {
                    Ok((out, st2))
                },
                Err(e) => Err(e),
            }
        } else {
            if is_ascii_space(c) {
                let j = skip_ws(s, st.idx + 1, st.le);
                if j >= st.le {
                    Ok((Seq::empty(), PSt { idx: st.le, ..st }))
                } else if s[j] == '#' {
                    Ok((Seq::empty(), PSt { idx: j, ..st }))
                } else if s[j] == '"' || s[j] == '\'' || s[j] == '\0' || s[j] == '$' {
                    match pv(s, PSt { idx: j, ..st }, nested, skip, envm, strict) {
                        Ok((out2, st3)) => Ok((s.subrange(st.idx, j) + out2, st3)),
                        Err(e) => Err(e),
                    }
                } else {
                    pplain_finish(s, st, st.idx, j + 1, nested, skip, envm, strict)
                }
            } else {
                pplain_finish(s, st, st.idx, st.idx + 1, nested, skip, envm, strict)
            }
        }
    }
}

/// The non-nested plain-text scan: runs to the next special
/// character, dropping trailing whitespace before a line end or a
/// comment, and continues the outer loop at a special character.
pub open spec fn pplain_finish(
    s: Seq<char>,
    st: PSt,
    prev: int,
    from: int,
    nested: bool,
    skip: bool,
    envm: EnvModel,
    strict: bool,
) -> PRes
    decreases s.len() - st.le, s.len() - from, 3int
        via pplain_finish_decreases
{
    if !(st.ls <= prev <= from <= st.le <= s.len() && 0 <= st.ls) {
        Ok((Seq::empty(), st))
    } else {
        let j = skip_ws(s, from, st.le);
        if j >= st.le {
            Ok((s.subrange(prev, from), PSt { idx: st.le, ..st }))
        } else if s[j] == '#' {
            Ok((s.subrange(prev, from), PSt { idx: st.le, ..st }))
        } else if s[j] == '"' || s[j] == '\'' || s[j] == '\0' || s[j] == '$' {
            match pv(s, PSt { idx: j, ..st }, nested, skip, envm, strict) {
                Ok((out2, st3)) => Ok((s.subrange(prev, j) + out2, st3)),
                Err(e) => Err(e),
            }
        } else {
            pplain_finish(s, st, prev, j + 1, nested, skip, envm, strict)
        }
    }
}

/// The nested plain-text scan: runs to the next special character,
/// reading further lines at a line end.
pub open spec fn pplain_nested(
    s: Seq<char>,
    st: PSt,
    prev: int,
    envm: EnvModel,
    strict: bool,
) -> PRes
    decreases s.len() - st.le, s.len() - st.idx, 1int
        via pplain_nested_decreases
{
    if !(st.ls <= prev <= st.idx <= st.le <= s.len() && 0 <= st.ls) {
        Ok((Seq::empty(), st))
    } else {
        let j = skip_ws(s, st.idx, st.le);
        if j >= st.le {
            let piece = s.subrange(prev, st.le);
            let st2 = next_line(s, st);
            if st2.ls >= s.len() {
                Ok((piece, st2))
            } else {
                match pplain_nested(s, st2, st2.idx, envm, strict) {
                    Ok((out2, st3)) => Ok((piece + out2, st3)),
                    Err(e) => Err(e),
                }
            }
        } else if s[j] == '"' || s[j] == '\'' || s[j] == '\0' || s[j] == '$' || s[j] == '}' {
            Ok((s.subrange(prev, j), PSt { idx: j, ..st }))
        } else {
            pplain_nested(s, PSt { idx: j + 1, ..st }, prev, envm, strict)
        }
    }
}

#[via_fn]
proof fn pv_decreases(s: Seq<char>, st: PSt, nested: bool, skip: bool, envm: EnvModel, strict: bool) {
    if st_wf(s, st) {
        lemma_line_end(s, st.le);
        if st.idx < st.le {
            lemma_skip_ws(s, st.idx + 1, st.le);
        }
    }
}

#[via_fn]
proof fn pplain_finish_decreases(
    s: Seq<char>,
    st: PSt,
    prev: int,
    from: int,
    nested: bool,
    skip: bool,
    envm: EnvModel,
    strict: bool,
) {
    if st.ls <= prev <= from <= st.le <= s.len() && 0 <= st.ls {
        lemma_skip_ws(s, from, st.le);
    }
}

#[via_fn]
proof fn pplain_nested_decreases(
    s: Seq<char>,
    st: PSt,
    prev: int,
    envm: EnvModel,
    strict: bool,
) {
    if st.ls <= prev <= st.idx <= st.le <= s.len() && 0 <= st.ls {
        lemma_skip_ws(s, st.idx, st.le);
        lemma_line_end(s, st.le);
    }
}

/// The double-quote escape decoding and quoted-value scan: runs to
/// the unescaped closing quote, handling the escape table inside
/// double quotes, substitution, embedded line feeds (reading further
/// lines), and null bytes.
pub open spec fn pquote(
    s: Seq<char>,
    st: PSt,
    quote: char,
    nested: bool,
    skip: bool,
    envm: EnvModel,
    strict: bool,
) -> PRes
    decreases s.len() - st.le, s.len() - st.idx, 0int
        via pquote_decreases
{
    if !st_wf(s, st) {
        Ok((Seq::empty(), st))
    } else if st.idx >= st.le {
        // unterminated string literal on this line
        if strict {
            Err(
                (
                    spec_syntax_error(st.lineno as usize, (st.idx - st.ls + 1) as usize),
                    st,
                ),
            )
        } else {
            Ok((Seq::empty(), PSt { idx: st.le, ..st }))
        }
    } else {
        let c = s[st.idx];
        if c == quote {
            Ok((Seq::empty(), PSt { idx: st.idx + 1, ..st }))
        } else if c == '\\' && quote == '"' {
            pescape(s, PSt { idx: st.idx + 1, ..st }, nested, skip, envm, strict)
        } else if c == '$' && quote == '"' {
            match pvar(s, PSt { idx: st.idx + 1, ..st }, skip, envm, strict) {
                Ok((out, st2)) => if st_after(st, st2) && st_wf(s, st2) {
                    match pquote(s, st2, quote, nested, skip, envm, strict) {
                        Ok((out2, st3)) => Ok((out + out2, st3)),
                        Err(e) => Err(e),
                    }
                } else {
                    Ok((out, st2))
                },
                Err(e) => Err(e),
            }
        } else if c == '\n' {
            let st2 = next_line(s, st);
            if st2.ls >= s.len() {
                if strict {
                    Err((spec_syntax_error(st2.lineno as usize, 1), st2))
                } else {
                    Ok((seq!['\n'], st2))
                }
            } else {
                match pquote(s, st2, quote, nested, skip, envm, strict) {
                    Ok((out2, st3)) => Ok((seq!['\n'] + out2, st3)),
                    Err(e) => Err(e),
                }
            }
        } else if c == '\0' {
            // an embedded null byte fails the binding, whatever the mode
            Err(
                (
                    spec_syntax_error(st.lineno as usize, (st.idx - st.ls + 1) as usize),
                    st,
                ),
            )
        } else {
            match pquote(s, PSt { idx: st.idx + 1, ..st }, quote, nested, skip, envm, strict) {
                Ok((out2, st3)) => Ok((seq![c] + out2, st3)),
                Err(e) => Err(e),
            }
        }
    }
}

/// One escape sequence inside a double-quoted value, the position
/// standing on the character after the backslash.
pub open spec fn pescape(
    s: Seq<char>,
    st: PSt,
    nested: bool,
    skip: bool,
    envm: EnvModel,
    strict: bool,
) -> PRes
    decreases s.len() - st.le, s.len() - st.idx, 4int
        via pescape_decreases
{
    if !st_wf(s, st) {
        Ok((Seq::empty(), st))
    } else if st.idx >= st.le {
        // end of file within the escape sequence
        if strict {
            Err(
                (
                    spec_syntax_error(st.lineno as usize, (st.idx - st.ls + 1) as usize),
                    st,
                ),
            )
        } else {
            Ok((seq!['\\'], PSt { idx: st.le, ..st }))
        }
    } else {
        let c = s[st.idx];
        let cont = PSt { idx: st.idx + 1, ..st };
        if c == '\\' || c == '"' || c == '$' || c == '\'' {
            pquote_cont(s, cont, seq![c], nested, skip, envm, strict)
        } else if c == 'r' {
            pquote_cont(s, cont, seq!['\r'], nested, skip, envm, strict)
        } else if c == 'n' {
            pquote_cont(s, cont, seq!['\n'], nested, skip, envm, strict)
        } else if c == 't' {
            pquote_cont(s, cont, seq!['\t'], nested, skip, envm, strict)
        } else if c == 'f' {
            pquote_cont(s, cont, seq!['\u{C}'], nested, skip, envm, strict)
        } else if c == 'b' {
            pquote_cont(s, cont, seq!['\u{8}'], nested, skip, envm, strict)
        } else if c == 'u' && st.le - st.ls >= st.idx - st.ls + 5 {
            punicode4(s, PSt { idx: st.idx + 1, ..st }, nested, skip, envm, strict)
        } else if c == 'U' && st.le - st.ls >= st.idx - st.ls + 7 {
            let arg = spec_from_radix(s.subrange(st.idx + 1, st.idx + 7), 16);
            match arg {
                Some(x) => if is_scalar(x as u32) {
                    pquote_cont(
                        s,
                        PSt { idx: st.idx + 7, ..st },
                        seq![((x as u32) as char)],
                        nested,
                        skip,
                        envm,
                        strict,
                    )
                } else {
                    pescape_bad(s, st, st.idx - st.ls, nested, skip, envm, strict)
                },
                None => pescape_bad(s, st, st.idx - st.ls, nested, skip, envm, strict),
            }
        } else if c == '\0' {
            // an escaped null byte fails the binding, whatever the mode
            Err(
                (
                    spec_syntax_error(st.lineno as usize, (st.idx + 1 - st.ls - 1) as usize),
                    st,
                ),
            )
        } else if c == '\n' {
            let st2 = next_line(s, st);
            if st2.ls >= s.len() {
                if strict {
                    Err((spec_syntax_error(st2.lineno as usize, 1), st2))
                } else {
                    Ok((Seq::empty(), st2))
                }
            } else {
                pquote_cont(s, st2, Seq::empty(), nested, skip, envm, strict)
            }
        } else {
            // an illegal escape sequence: an error under strict, and
            // otherwise the backslash and the character pass through
            if strict {
                Err(
                    (
                        spec_syntax_error(st.lineno as usize, (st.idx - st.ls + 1) as usize),
                        st,
                    ),
                )
            } else {
                pquote_cont(s, cont, seq!['\\', c], nested, skip, envm, strict)
            }
        }
    }
}

/// A `\\uXXXX` escape, the position standing on the first hex digit;
/// a high surrogate asks for a second `\\uXXXX` with a low surrogate.
pub open spec fn punicode4(
    s: Seq<char>,
    st: PSt,
    nested: bool,
    skip: bool,
    envm: EnvModel,
    strict: bool,
) -> PRes
    decreases s.len() - st.le, s.len() - st.idx, 3int
{
    if !(st_wf(s, st) && st.idx + 4 <= st.le) {
        Ok((Seq::empty(), st))
    } else {
        match spec_from_radix(s.subrange(st.idx, st.idx + 4), 16) {
            Some(hi) => if 0xD800 <= hi && hi <= 0xDBFF {
                if st.le - st.ls < st.idx - st.ls + 10 || !(st.idx + 6 <= st.le && s[st.idx + 4]
                    == '\\' && s[st.idx + 5] == 'u') {
                    pescape_bad(s, st, st.idx - st.ls - 1, nested, skip, envm, strict)
                } else {
                    match spec_from_radix(s.subrange(st.idx + 6, st.idx + 10), 16) {
                        Some(lo) => if lo < 0xDC00 || lo > 0xDFFF {
                            pescape_bad(s, st, st.idx - st.ls + 3, nested, skip, envm, strict)
                        } else {
                            let code = ((hi - 0xD800) * 0x400 + (lo - 0xDC00) + 0x10000) as u32;
                            pquote_cont(
                                s,
                                PSt { idx: st.idx + 10, ..st },
                                seq![(code as char)],
                                nested,
                                skip,
                                envm,
                                strict,
                            )
                        },
                        None => pescape_bad(s, st, st.idx - st.ls + 1, nested, skip, envm, strict),
                    }
                }
            } else if is_scalar(hi as u32) {
                pquote_cont(
                    s,
                    PSt { idx: st.idx + 4, ..st },
                    seq![((hi as u32) as char)],
                    nested,
                    skip,
                    envm,
                    strict,
                )
            } else {
                pescape_bad(s, st, st.idx - st.ls - 1, nested, skip, envm, strict)
            },
            None => pescape_bad(s, st, st.idx - st.ls - 1, nested, skip, envm, strict),
        }
    }
}

/// An illegal escape: an error under strict, and otherwise the scan
/// continues where it stands with nothing decoded.
pub open spec fn pescape_bad(
    s: Seq<char>,
    st: PSt,
    column: int,
    nested: bool,
    skip: bool,
    envm: EnvModel,
    strict: bool,
) -> PRes
    decreases s.len() - st.le, s.len() - st.idx, 2int
{
    if strict {
        Err((spec_syntax_error(st.lineno as usize, column as usize), st))
    } else {
        pquote_cont(s, st, Seq::empty(), nested, skip, envm, strict)
    }
}

/// The quoted scan continued after a decoded piece.
pub open spec fn pquote_cont(
    s: Seq<char>,
    st: PSt,
    piece: Seq<char>,
    nested: bool,
    skip: bool,
    envm: EnvModel,
    strict: bool,
) -> PRes
    decreases s.len() - st.le, s.len() - st.idx, 1int
{
    match pquote(s, st, '"', nested, skip, envm, strict) {
        Ok((out, st2)) => Ok((piece + out, st2)),
        Err(e) => Err(e),
    }
}

#[via_fn]
proof fn pquote_decreases(
    s: Seq<char>,
    st: PSt,
    quote: char,
    nested: bool,
    skip: bool,
    envm: EnvModel,
    strict: bool,
) {
    if st_wf(s, st) {
        lemma_line_end(s, st.le);
    }
}

#[via_fn]
proof fn pescape_decreases(
    s: Seq<char>,
    st: PSt,
    nested: bool,
    skip: bool,
    envm: EnvModel,
    strict: bool,
) {
    if st_wf(s, st) {
        lemma_line_end(s, st.le);
    }
}

/// One substitution after a `$`: an unbraced name is looked up
/// directly; a braced form may carry a modifier whose operand is
/// parsed by re-entering the value parser (against the empty store
/// and with output discarded where the operand is not used).
pub open spec fn pvar(s: Seq<char>, st: PSt, skip: bool, envm: EnvModel, strict: bool) -> PRes
    decreases s.len() - st.le, s.len() - st.idx, 0int
        via pvar_decreases
{
    if !st_wf(s, st) {
        Ok((Seq::empty(), st))
    } else {
        let var_start = st.idx - 1;
        let brace = st.idx < st.le && s[st.idx] == '{';
        let nstart = if brace {
            st.idx + 1
        } else {
            st.idx
        };
        let nend = word_end(s, nstart, st.le);
        if nend == nstart {
            // a single dollar, or braces with an empty name
            if strict {
                Err(
                    (
                        spec_syntax_error(st.lineno as usize, (var_start - st.ls + 1) as usize),
                        st,
                    ),
                )
            } else {
                let after = if brace && nend + 1 <= st.le {
                    nend + 1
                } else {
                    nend
                };
                Ok((s.subrange(var_start, after), PSt { idx: after, ..st }))
            }
        } else {
            let name = s.subrange(nstart, nend);
            let looked = if envm.contains_key(name) {
                Some(envm[name])
            } else {
                None
            };
            if brace {
                pvar_braced(
                    s,
                    PSt { idx: nend, ..st },
                    var_start - st.ls,
                    nend - st.ls,
                    looked,
                    skip,
                    envm,
                    strict,
                )
            } else {
                let piece = match looked {
                    Some(val) => val,
                    None => Seq::empty(),
                };
                Ok((piece, PSt { idx: nend, ..st }))
            }
        }
    }
}

/// The braced forms, the position standing just after the name.  The
/// `var_rel` and `nend_rel` offsets are relative to the line start,
/// as the upstream parser keeps them across line reads.
pub open spec fn pvar_braced(
    s: Seq<char>,
    st: PSt,
    var_rel: int,
    nend_rel: int,
    looked: Option<Seq<char>>,
    skip: bool,
    envm: EnvModel,
    strict: bool,
) -> PRes
    decreases s.len() - st.le, s.len() - st.idx, 0int
        via pvar_braced_decreases
{
    if !(st_wf(s, st) && 0 <= var_rel <= nend_rel && st.idx == st.ls + nend_rel) {
        Ok((Seq::empty(), st))
    } else {
        let two = st.idx + 2 <= st.le;
        let one = st.idx + 1 <= st.le;
        if two && s[st.idx] == ':' && s[st.idx + 1] == '?' {
            // required, error when empty or unset
            let opst = PSt { idx: st.idx + 2, ..st };
            match looked {
                Some(val) => if val.len() > 0 {
                    pvar_skip_operand(s, opst, var_rel, nend_rel, val, skip, envm, strict)
                } else {
                    pvar_required_fail(s, opst, var_rel, nend_rel, skip, envm, strict)
                },
                None => pvar_required_fail(s, opst, var_rel, nend_rel, skip, envm, strict),
            }
        } else if one && s[st.idx] == '?' {
            // required, error when unset
            let opst = PSt { idx: st.idx + 1, ..st };
            match looked {
                Some(val) => pvar_skip_operand(s, opst, var_rel, nend_rel, val, skip, envm, strict),
                None => pvar_required_fail(s, opst, var_rel, nend_rel, skip, envm, strict),
            }
        } else if two && s[st.idx] == ':' && s[st.idx + 1] == '-' {
            // default when empty or unset
            let opst = PSt { idx: st.idx + 2, ..st };
            match looked {
                Some(val) => if val.len() > 0 {
                    pvar_skip_operand(s, opst, var_rel, nend_rel, val, skip, envm, strict)
                } else {
                    pvar_use_operand(s, opst, var_rel, nend_rel, skip, envm, strict)
                },
                None => pvar_use_operand(s, opst, var_rel, nend_rel, skip, envm, strict),
            }
        } else if one && s[st.idx] == '-' {
            // default when unset
            let opst = PSt { idx: st.idx + 1, ..st };
            match looked {
                Some(val) => pvar_skip_operand(s, opst, var_rel, nend_rel, val, skip, envm, strict),
                None => pvar_use_operand(s, opst, var_rel, nend_rel, skip, envm, strict),
            }
        } else if two && s[st.idx] == ':' && s[st.idx + 1] == '+' {
            // alternative when set and not empty
            let opst = PSt { idx: st.idx + 2, ..st };
            match looked {
                Some(val) => if val.len() > 0 {
                    pvar_use_operand(s, opst, var_rel, nend_rel, skip, envm, strict)
                } else {
                    pvar_skip_operand(s, opst, var_rel, nend_rel, Seq::empty(), skip, envm, strict)
                },
                None => pvar_skip_operand(s, opst, var_rel, nend_rel, Seq::empty(), skip, envm, strict),
            }
        } else if one && s[st.idx] == '+' {
            // alternative when set
            let opst = PSt { idx: st.idx + 1, ..st };
            match looked {
                Some(_) => pvar_use_operand(s, opst, var_rel, nend_rel, skip, envm, strict),
                None => pvar_skip_operand(s, opst, var_rel, nend_rel, Seq::empty(), skip, envm, strict),
            }
        } else {
            // no modifier: the value, then the closing-brace check
            let piece = match looked {
                Some(val) => val,
                None => Seq::empty(),
            };
            pvar_close(s, st, var_rel, nend_rel, piece, strict)
        }
    }
}

/// A required variable that is missing: inside discarded parsing the
/// operand is skipped and nothing happens; otherwise the substitution
/// fails whatever the mode.
pub open spec fn pvar_required_fail(
    s: Seq<char>,
    opst: PSt,
    var_rel: int,
    nend_rel: int,
    skip: bool,
    envm: EnvModel,
    strict: bool,
) -> PRes
    decreases s.len() - opst.le, s.len() - opst.idx, 4int
{
    if skip {
        pvar_skip_operand(s, opst, var_rel, nend_rel, Seq::empty(), skip, envm, strict)
    } else {
        Err(
            (
                spec_syntax_error(opst.lineno as usize, (opst.idx - opst.ls + 1) as usize),
                opst,
            ),
        )
    }
}

/// Parses the operand with output and lookups discarded, hands back
/// `kept`, and checks the closing brace.
pub open spec fn pvar_skip_operand(
    s: Seq<char>,
    opst: PSt,
    var_rel: int,
    nend_rel: int,
    kept: Seq<char>,
    skip: bool,
    envm: EnvModel,
    strict: bool,
) -> PRes
    decreases s.len() - opst.le, s.len() - opst.idx, 3int
{
    match pv(s, opst, true, true, Map::empty(), strict) {
        Ok((_, st2)) => pvar_close(s, st2, var_rel, nend_rel, kept, strict),
        Err(e) => Err(e),
    }
}

/// Parses the operand for real, hands its text back, and checks the
/// closing brace.
pub open spec fn pvar_use_operand(
    s: Seq<char>,
    opst: PSt,
    var_rel: int,
    nend_rel: int,
    skip: bool,
    envm: EnvModel,
    strict: bool,
) -> PRes
    decreases s.len() - opst.le, s.len() - opst.idx, 3int
{
    match pv(s, opst, true, skip, envm, strict) {
        Ok((out, st2)) => pvar_close(s, st2, var_rel, nend_rel, out, strict),
        Err(e) => Err(e),
    }
}

/// The closing-brace check of a braced substitution: consumed when
/// present; otherwise an error under strict, and the scan rewinds to
/// the line offset where the name ended, passing the text from the
/// dollar sign to there through instead of the substitution.
pub open spec fn pvar_close(
    s: Seq<char>,
    st: PSt,
    var_rel: int,
    nend_rel: int,
    piece: Seq<char>,
    strict: bool,
) -> PRes {
    if !(st_wf(s, st) && 0 <= var_rel <= nend_rel) {
        Ok((piece, st))
    } else if st.idx < st.le && s[st.idx] == '}' {
        Ok((piece, PSt { idx: st.idx + 1, ..st }))
    } else if strict {
        Err((spec_syntax_error(st.lineno as usize, (nend_rel + 1) as usize), st))
    } else {
        let a = st.ls + var_rel;
        let b = st.ls + nend_rel;
        if b <= st.le {
            Ok((s.subrange(a, b), PSt { idx: b, ..st }))
        } else {
            Ok((piece, PSt { idx: st.le, ..st }))
        }
    }
}

#[via_fn]
proof fn pvar_decreases(s: Seq<char>, st: PSt, skip: bool, envm: EnvModel, strict: bool) {
    if st_wf(s, st) {
        lemma_word_end(s, st.idx, st.le);
        if st.idx < st.le {
            lemma_word_end(s, st.idx + 1, st.le);
        }
    }
}

#[via_fn]
proof fn pvar_braced_decreases(
    s: Seq<char>,
    st: PSt,
    var_rel: int,
    nend_rel: int,
    looked: Option<Seq<char>>,
    skip: bool,
    envm: EnvModel,
    strict: bool,
) {
}


/// The sequence of characters of the word `export`.
pub open spec fn export_word() -> Seq<char> {
    seq!['e', 'x', 'p', 'o', 'r', 't']
}

/// The outcome of this dialect from the line starting at `pos`, with
/// `lineno` lines already read.
pub open spec fn pk_config(
    s: Seq<char>,
    pos: int,
    lineno: int,
    env: EnvModel,
    parentm: EnvModel,
    override_env: bool,
    strict: bool,
) -> ParseOut
    decreases s.len() - pos, 2int
        via pk_config_decreases
{
    if pos < 0 || pos >= s.len() {
        ParseOut::done(env, Seq::empty())
    } else {
        let le = line_end(s, pos);
        let l = lineno + 1;
        let i1 = skip_ws(s, pos, le);
        if i1 >= le {
            pk_config(s, le, l, env, parentm, override_env, strict)
        } else if s[i1] == '#' {
            pk_config(s, le, l, env, parentm, override_env, strict)
        } else if !is_word(s[i1]) {
            if strict {
                ParseOut::fail(
                    spec_syntax_error(l as usize, (i1 - pos + 1) as usize),
                    env,
                    Seq::empty(),
                )
            } else {
                pk_config(s, le, l, env, parentm, override_env, strict)
            }
        } else {
            let ke = word_end(s, i1, le);
            let key = s.subrange(i1, ke);
            let i2 = skip_ws(s, ke, le);
            if i2 >= le || s[i2] == '#' {
                pk_inherit(s, le, l, key, env, parentm, override_env, strict)
            } else if s[i2] != '=' {
                if !strict && key == export_word() && is_word(s[i2]) {
                    let ke2 = word_end(s, i2, le);
                    let key2 = s.subrange(i2, ke2);
                    let i3 = skip_ws(s, ke2, le);
                    if i3 >= le || s[i3] == '#' {
                        pk_inherit(s, le, l, key2, env, parentm, override_env, strict)
                    } else if s[i3] != '=' {
                        pk_config(s, le, l, env, parentm, override_env, strict)
                    } else {
                        pk_value(s, pos, le, l, i3 + 1, key2, env, parentm, override_env, strict)
                    }
                } else {
                    if strict {
                        ParseOut::fail(
                            spec_syntax_error(l as usize, (i2 - pos + 1) as usize),
                            env,
                            Seq::empty(),
                        )
                    } else {
                        pk_config(s, le, l, env, parentm, override_env, strict)
                    }
                }
            } else {
                pk_value(s, pos, le, l, i2 + 1, key, env, parentm, override_env, strict)
            }
        }
    }
}

/// A bare key: the parent store's value is copied when it is there.
pub open spec fn pk_inherit(
    s: Seq<char>,
    le: int,
    l: int,
    key: Seq<char>,
    env: EnvModel,
    parentm: EnvModel,
    override_env: bool,
    strict: bool,
) -> ParseOut
    decreases s.len() - le + 1, 0int
        via pk_inherit_decreases
{
    if !(0 <= le <= s.len()) {
        ParseOut::done(env, Seq::empty())
    } else if parentm.contains_key(key) {
        let env2 = spec_set_var(env, key, parentm[key], override_env);
        let rest = pk_config(s, le, l, env2, parentm, override_env, strict);
        ParseOut { err: rest.err, env: rest.env, writes: seq![(key, parentm[key])] + rest.writes }
    } else {
        pk_config(s, le, l, env, parentm, override_env, strict)
    }
}

/// The value of one binding, parsed from `vpos`, and the scan of the
/// rest.  A failed substitution aborts under strict and abandons the
/// binding otherwise, the scan resuming after the line in which the
/// failure stood.
pub open spec fn pk_value(
    s: Seq<char>,
    pos: int,
    le: int,
    l: int,
    vpos0: int,
    key: Seq<char>,
    env: EnvModel,
    parentm: EnvModel,
    override_env: bool,
    strict: bool,
) -> ParseOut
    decreases s.len() - pos, 1int
        via pk_value_decreases
{
    if !(0 <= pos <= vpos0 - 1 && vpos0 - 1 <= le <= s.len()) {
        ParseOut::done(env, Seq::empty())
    } else {
        let vstart = skip_ws(s, vpos0, le);
        let st0 = PSt { ls: pos, le, idx: vstart, lineno: l };
        match pv(s, st0, false, false, env, strict) {
            Ok((out, st2)) => {
                let env2 = spec_set_var(env, key, out, override_env);
                let rest = if st2.le > pos && st2.le <= s.len() {
                    pk_config(s, st2.le, st2.lineno, env2, parentm, override_env, strict)
                } else {
                    ParseOut::done(env2, Seq::empty())
                };
                ParseOut { err: rest.err, env: rest.env, writes: seq![(key, out)] + rest.writes }
            },
            Err((e, st2)) => if strict {
                ParseOut::fail(e, env, Seq::empty())
            } else {
                if st2.le > pos && st2.le <= s.len() {
                    pk_config(s, st2.le, st2.lineno, env, parentm, override_env, strict)
                } else {
                    ParseOut::done(env, Seq::empty())
                }
            },
        }
    }
}

#[via_fn]
proof fn pk_config_decreases(
    s: Seq<char>,
    pos: int,
    lineno: int,
    env: EnvModel,
    parentm: EnvModel,
    override_env: bool,
    strict: bool,
) {
    if 0 <= pos < s.len() {
        lemma_line_end(s, pos);
    }
}

#[via_fn]
proof fn pk_inherit_decreases(
    s: Seq<char>,
    le: int,
    l: int,
    key: Seq<char>,
    env: EnvModel,
    parentm: EnvModel,
    override_env: bool,
    strict: bool,
) {
}

#[via_fn]
proof fn pk_value_decreases(
    s: Seq<char>,
    pos: int,
    le: int,
    l: int,
    vpos0: int,
    key: Seq<char>,
    env: EnvModel,
    parentm: EnvModel,
    override_env: bool,
    strict: bool,
) {
}

/// The outcome of this dialect on a whole source, whose `\r\n` pairs
/// read as plain line feeds.
pub open spec fn punktum_spec(
    src: Seq<char>,
    env: EnvModel,
    parentm: EnvModel,
    override_env: bool,
    strict: bool,
) -> ParseOut {
    pk_config(fix_nl(src, 0), 0, 0, env, parentm, override_env, strict)
}

/// The executable scan position.
#[derive(Debug, Clone, Copy)]
pub struct PPos {
    pub ls: usize,
    pub le: usize,
    pub idx: usize,
    pub lineno: usize,
}

/// The model of an executable position.
pub open spec fn pst(p: PPos) -> PSt {
    PSt { ls: p.ls as int, le: p.le as int, idx: p.idx as int, lineno: p.lineno as int }
}

/// The line-counter budget: it can only shrink as parsing advances.
pub open spec fn phi(s: Seq<char>, p: PPos) -> int {
    p.lineno + 2 * (s.len() - p.le)
}

/// What the executable parser must hand back: the text and position
/// of the corresponding step function, a well-formed position, and a
/// budget that did not grow.
pub open spec fn eres(
    s: Seq<char>,
    sp: PRes,
    r: Result<(Vec<char>, PPos), (Error, PPos)>,
    p0: PPos,
) -> bool {
    match r {
        Ok((out, p2)) => (sp matches Ok(t) && t == (out@, pst(p2))) && st_wf(s, pst(p2)) && phi(
            s,
            p2,
        ) <= phi(s, p0),
        Err((e, p2)) => (sp matches Err(t) && t == (e, pst(p2))) && st_wf(s, pst(p2)) && phi(
            s,
            p2,
        ) <= phi(s, p0),
    }
}

/// Turns every `\r\n` pair into a line feed.
pub fn fix_newlines(v: &Vec<char>) -> (r: Vec<char>)
    ensures
        r@ == fix_nl(v@, 0),
        r@.len() <= v@.len(),
{
    let n = v.len();
    let mut r: Vec<char> = Vec::new();
    let mut i: usize = 0;
    while i < n
        invariant
            i <= n,
            n == v@.len(),
            r@.len() <= i,
            fix_nl(v@, 0) == r@ + fix_nl(v@, i as int),
        decreases n - i,
    {
        let ghost prev = r@;
        if v[i] == '\r' && i + 1 < n && v[i + 1] == '\n' {
            r.push('\n');
            i = i + 2;
            proof {
                assert(r@ =~= prev.push('\n'));
                assert(prev + (seq!['\n'] + fix_nl(v@, i as int)) =~= r@ + fix_nl(v@, i as int));
            }
        } else {
            r.push(v[i]);
            proof {
                assert(r@ =~= prev.push(v@[i as int]));
                assert(prev + (seq![v@[i as int]] + fix_nl(v@, i + 1)) =~= r@ + fix_nl(
                    v@,
                    i + 1,
                ));
            }
            i = i + 1;
        }
    }
    proof {
        assert(fix_nl(v@, n as int) =~= Seq::<char>::empty());
        assert(fix_nl(v@, 0) =~= r@);
    }
    r
}

/// The end of the line starting at `ls`.
fn eline_end(v: &Vec<char>, ls: usize) -> (r: usize)
    requires
        ls <= v@.len(),
    ensures
        r == line_end(v@, ls as int),
        ls <= r <= v@.len(),
        ls < v@.len() ==> r > ls,
{
    let n = v.len();
    let mut j = ls;
    while j < n
        invariant
            ls <= j <= n,
            n == v@.len(),
            char_pos(v@, ls as int, '\n') == char_pos(v@, j as int, '\n'),
        decreases n - j,
    {
        if v[j] == '\n' {
            proof {
                lemma_char_pos(v@, ls as int, '\n');
            }
            return j + 1;
        }
        j = j + 1;
    }
    j
}

/// Reads the next physical line.
fn enext_line(v: &Vec<char>, p: PPos) -> (r: PPos)
    requires
        st_wf(v@, pst(p)),
        phi(v@, p) + 2 < usize::MAX,
    ensures
        pst(r) == next_line(v@, pst(p)),
        st_wf(v@, pst(r)),
        phi(v@, r) <= phi(v@, p),
        r.le >= p.le,
{
    if p.le >= v.len() {
        PPos { ls: p.le, le: p.le, idx: p.le, lineno: p.lineno }
    } else {
        let le2 = eline_end(v, p.le);
        PPos { ls: p.le, le: le2, idx: p.le, lineno: p.lineno + 1 }
    }
}

/// Skips ASCII whitespace within `[i, end)`.
fn eskip_ws(v: &Vec<char>, i: usize, end: usize) -> (r: usize)
    requires
        i <= end <= v@.len(),
    ensures
        r == skip_ws(v@, i as int, end as int),
        i <= r <= end,
{
    let mut j = i;
    while j < end
        invariant
            i <= j <= end <= v@.len(),
            skip_ws(v@, i as int, end as int) == skip_ws(v@, j as int, end as int),
        decreases end - j,
    {
        let c = v[j];
        if !(c == ' ' || c == '\t' || c == '\n' || c == '\u{C}' || c == '\r') {
            return j;
        }
        j = j + 1;
    }
    j
}

/// Finds the word end within `[i, end)`.
fn eword_end(v: &Vec<char>, i: usize, end: usize) -> (r: usize)
    requires
        i <= end <= v@.len(),
    ensures
        r == word_end(v@, i as int, end as int),
        i <= r <= end,
{
    let mut j = i;
    while j < end
        invariant
            i <= j <= end <= v@.len(),
            word_end(v@, i as int, end as int) == word_end(v@, j as int, end as int),
        decreases end - j,
    {
        let c = v[j];
        let w = ('a' <= c && c <= 'z') || ('A' <= c && c <= 'Z') || ('0' <= c && c <= '9') || c
            == '_';
        if !w {
            return j;
        }
        j = j + 1;
    }
    j
}

/// The value scanner.
#[verifier::rlimit(100)]
fn epv(
    v: &Vec<char>,
    p: PPos,
    nested: bool,
    skip: bool,
    env: &MemoryEnv,
    strict: bool,
) -> (r: Result<(Vec<char>, PPos), (Error, PPos)>)
    requires
        env.wf(),
        st_wf(v@, pst(p)),
        v@.len() < 0x1000000,
        phi(v@, p) + 4 < usize::MAX,
    ensures
        eres(v@, pv(v@, pst(p), nested, skip, env.as_map(), strict), r, p),
    decreases v@.len() - p.le, v@.len() - p.idx, 2int,
{
    if nested && p.idx >= p.le {
        let p2 = enext_line(v, p);
        if p2.ls >= v.len() {
            let o: Vec<char> = Vec::new();
            proof {
                assert(o@ =~= Seq::<char>::empty());
            }
            return Ok((o, p2));
        }
        return epv(v, p2, nested, skip, env, strict);
    }
    if p.idx >= p.le {
        let o: Vec<char> = Vec::new();
        proof {
            assert(o@ =~= Seq::<char>::empty());
        }
        return Ok((o, p));
    }
    let c = v[p.idx];
    if c == '"' || c == '\'' {
        match equote(v, PPos { idx: p.idx + 1, ..p }, c, nested, skip, env, strict) {
            Ok((out, p2)) => {
                if p2.le > p.le || (p2.le == p.le && p2.idx > p.idx) {
                    match epv(v, p2, nested, skip, env, strict) {
                        Ok((out2, p3)) => {
                            let mut o = out;
                            push_all(&mut o, &out2);
                            Ok((o, p3))
                        },
                        Err(e) => Err(e),
                    }
                } else {
                    Ok((out, p2))
                }
            },
            Err(e) => Err(e),
        }
    } else if c == '#' && !nested {
        let o: Vec<char> = Vec::new();
        proof {
            assert(o@ =~= Seq::<char>::empty());
        }
        Ok((o, p))
    } else if c == '}' && nested {
        let o: Vec<char> = Vec::new();
        proof {
            assert(o@ =~= Seq::<char>::empty());
        }
        Ok((o, p))
    } else if c == '$' {
        match evar(v, PPos { idx: p.idx + 1, ..p }, skip, env, strict) {
            Ok((out, p2)) => {
                if p2.le > p.le || (p2.le == p.le && p2.idx > p.idx) {
                    match epv(v, p2, nested, skip, env, strict) {
                        Ok((out2, p3)) => {
                            let mut o = out;
                            push_all(&mut o, &out2);
                            Ok((o, p3))
                        },
                        Err(e) => Err(e),
                    }
                } else {
                    Ok((out, p2))
                }
            },
            Err(e) => Err(e),
        }
    } else if c == '\0' {
        Err((Error::syntax_error(p.lineno, p.idx - p.ls + 1), p))
    } else if nested {
        match eplain_nested(v, p, p.idx, env, strict) {
            Ok((out, p2)) => {
                if p2.le > p.le || (p2.le == p.le && p2.idx > p.idx) {
                    match epv(v, p2, nested, skip, env, strict) {
                        Ok((out2, p3)) => {
                            let mut o = out;
                            push_all(&mut o, &out2);
                            Ok((o, p3))
                        },
                        Err(e) => Err(e),
                    }
                } else {
                    Ok((out, p2))
                }
            },
            Err(e) => Err(e),
        }
    } else {
        let space = c == ' ' || c == '\t' || c == '\n' || c == '\u{C}' || c == '\r';
        if space {
            let j = eskip_ws(v, p.idx + 1, p.le);
            if j >= p.le {
                let o: Vec<char> = Vec::new();
                proof {
                    assert(o@ =~= Seq::<char>::empty());
                }
                Ok((o, PPos { idx: p.le, ..p }))
            } else if v[j] == '#' {
                let o: Vec<char> = Vec::new();
                proof {
                    assert(o@ =~= Seq::<char>::empty());
                }
                Ok((o, PPos { idx: j, ..p }))
            } else if v[j] == '"' || v[j] == '\'' || v[j] == '\0' || v[j] == '$' {
                match epv(v, PPos { idx: j, ..p }, nested, skip, env, strict) {
                    Ok((out2, p3)) => {
                        let mut o = subvec(v, p.idx, j);
                        push_all(&mut o, &out2);
                        Ok((o, p3))
                    },
                    Err(e) => Err(e),
                }
            } else {
                eplain_finish(v, p, p.idx, j + 1, nested, skip, env, strict)
            }
        } else {
            eplain_finish(v, p, p.idx, p.idx + 1, nested, skip, env, strict)
        }
    }
}

/// The plain-text scan outside substitution operands.
fn eplain_finish(
    v: &Vec<char>,
    p: PPos,
    prev: usize,
    from: usize,
    nested: bool,
    skip: bool,
    env: &MemoryEnv,
    strict: bool,
) -> (r: Result<(Vec<char>, PPos), (Error, PPos)>)
    requires
        env.wf(),
        st_wf(v@, pst(p)),
        p.ls <= prev <= from <= p.le,
        v@.len() < 0x1000000,
        phi(v@, p) + 4 < usize::MAX,
    ensures
        eres(
            v@,
            pplain_finish(
                v@,
                pst(p),
                prev as int,
                from as int,
                nested,
                skip,
                env.as_map(),
                strict,
            ),
            r,
            p,
        ),
    decreases v@.len() - p.le, v@.len() - from, 3int,
{
    let j = eskip_ws(v, from, p.le);
    if j >= p.le {
        Ok((subvec(v, prev, from), PPos { idx: p.le, ..p }))
    } else if v[j] == '#' {
        Ok((subvec(v, prev, from), PPos { idx: p.le, ..p }))
    } else if v[j] == '"' || v[j] == '\'' || v[j] == '\0' || v[j] == '$' {
        match epv(v, PPos { idx: j, ..p }, nested, skip, env, strict) {
            Ok((out2, p3)) => {
                let mut o = subvec(v, prev, j);
                push_all(&mut o, &out2);
                Ok((o, p3))
            },
            Err(e) => Err(e),
        }
    } else {
        eplain_finish(v, p, prev, j + 1, nested, skip, env, strict)
    }
}

/// The plain-text scan inside substitution operands.
fn eplain_nested(
    v: &Vec<char>,
    p: PPos,
    prev: usize,
    env: &MemoryEnv,
    strict: bool,
) -> (r: Result<(Vec<char>, PPos), (Error, PPos)>)
    requires
        env.wf(),
        st_wf(v@, pst(p)),
        p.ls <= prev <= p.idx,
        v@.len() < 0x1000000,
        phi(v@, p) + 4 < usize::MAX,
    ensures
        eres(v@, pplain_nested(v@, pst(p), prev as int, env.as_map(), strict), r, p),
    decreases v@.len() - p.le, v@.len() - p.idx, 1int,
{
    let j = eskip_ws(v, p.idx, p.le);
    if j >= p.le {
        let piece = subvec(v, prev, p.le);
        let p2 = enext_line(v, p);
        if p2.ls >= v.len() {
            Ok((piece, p2))
        } else {
            match eplain_nested(v, p2, p2.idx, env, strict) {
                Ok((out2, p3)) => {
                    let mut o = piece;
                    push_all(&mut o, &out2);
                    Ok((o, p3))
                },
                Err(e) => Err(e),
            }
        }
    } else if v[j] == '"' || v[j] == '\'' || v[j] == '\0' || v[j] == '$' || v[j] == '}' {
        Ok((subvec(v, prev, j), PPos { idx: j, ..p }))
    } else {
        eplain_nested(v, PPos { idx: j + 1, ..p }, prev, env, strict)
    }
}

/// The quoted-value scanner.
#[verifier::rlimit(100)]
fn equote(
    v: &Vec<char>,
    p: PPos,
    quote: char,
    nested: bool,
    skip: bool,
    env: &MemoryEnv,
    strict: bool,
) -> (r: Result<(Vec<char>, PPos), (Error, PPos)>)
    requires
        env.wf(),
        st_wf(v@, pst(p)),
        v@.len() < 0x1000000,
        phi(v@, p) + 4 < usize::MAX,
    ensures
        eres(v@, pquote(v@, pst(p), quote, nested, skip, env.as_map(), strict), r, p),
    decreases v@.len() - p.le, v@.len() - p.idx, 0int,
{
    if p.idx >= p.le {
        if strict {
            return Err((Error::syntax_error(p.lineno, p.idx - p.ls + 1), p));
        }
        let o: Vec<char> = Vec::new();
        proof {
            assert(o@ =~= Seq::<char>::empty());
        }
        return Ok((o, PPos { idx: p.le, ..p }));
    }
    let c = v[p.idx];
    if c == quote {
        let o: Vec<char> = Vec::new();
        proof {
            assert(o@ =~= Seq::<char>::empty());
        }
        Ok((o, PPos { idx: p.idx + 1, ..p }))
    } else if c == '\\' && quote == '"' {
        eescape(v, PPos { idx: p.idx + 1, ..p }, nested, skip, env, strict)
    } else if c == '$' && quote == '"' {
        match evar(v, PPos { idx: p.idx + 1, ..p }, skip, env, strict) {
            Ok((out, p2)) => {
                if p2.le > p.le || (p2.le == p.le && p2.idx > p.idx) {
                    match equote(v, p2, quote, nested, skip, env, strict) {
                        Ok((out2, p3)) => {
                            let mut o = out;
                            push_all(&mut o, &out2);
                            Ok((o, p3))
                        },
                        Err(e) => Err(e),
                    }
                } else {
                    Ok((out, p2))
                }
            },
            Err(e) => Err(e),
        }
    } else if c == '\n' {
        let p2 = enext_line(v, p);
        if p2.ls >= v.len() {
            if strict {
                return Err((Error::syntax_error(p2.lineno, 1), p2));
            }
            let mut o: Vec<char> = Vec::new();
            o.push('\n');
            proof {
                assert(o@ =~= seq!['\n']);
            }
            Ok((o, p2))
        } else {
            match equote(v, p2, quote, nested, skip, env, strict) {
                Ok((out2, p3)) => {
                    let mut o: Vec<char> = Vec::new();
                    o.push('\n');
                    proof {
                        assert(o@ =~= seq!['\n']);
                    }
                    push_all(&mut o, &out2);
                    Ok((o, p3))
                },
                Err(e) => Err(e),
            }
        }
    } else if c == '\0' {
        Err((Error::syntax_error(p.lineno, p.idx - p.ls + 1), p))
    } else {
        match equote(v, PPos { idx: p.idx + 1, ..p }, quote, nested, skip, env, strict) {
            Ok((out2, p3)) => {
                let mut o: Vec<char> = Vec::new();
                o.push(c);
                proof {
                    assert(o@ =~= seq![c]);
                }
                push_all(&mut o, &out2);
                Ok((o, p3))
            },
            Err(e) => Err(e),
        }
    }
}

/// One escape sequence inside a double-quoted value.
#[verifier::rlimit(100)]
fn eescape(
    v: &Vec<char>,
    p: PPos,
    nested: bool,
    skip: bool,
    env: &MemoryEnv,
    strict: bool,
) -> (r: Result<(Vec<char>, PPos), (Error, PPos)>)
    requires
        env.wf(),
        st_wf(v@, pst(p)),
        p.idx >= p.ls + 1,
        v@.len() < 0x1000000,
        phi(v@, p) + 4 < usize::MAX,
    ensures
        eres(v@, pescape(v@, pst(p), nested, skip, env.as_map(), strict), r, p),
    decreases v@.len() - p.le, v@.len() - p.idx, 4int,
{
    if p.idx >= p.le {
        if strict {
            return Err((Error::syntax_error(p.lineno, p.idx - p.ls + 1), p));
        }
        let mut o: Vec<char> = Vec::new();
        o.push('\\');
        proof {
            assert(o@ =~= seq!['\\']);
        }
        return Ok((o, PPos { idx: p.le, ..p }));
    }
    let c = v[p.idx];
    let simple: Option<char> = if c == '\\' || c == '"' || c == '$' || c == '\'' {
        Some(c)
    } else if c == 'r' {
        Some('\r')
    } else if c == 'n' {
        Some('\n')
    } else if c == 't' {
        Some('\t')
    } else if c == 'f' {
        Some('\u{C}')
    } else if c == 'b' {
        Some('\u{8}')
    } else {
        None
    };
    match simple {
        Some(d) => {
            match equote(v, PPos { idx: p.idx + 1, ..p }, '"', nested, skip, env, strict) {
                Ok((out2, p3)) => {
                    let mut o: Vec<char> = Vec::new();
                    o.push(d);
                    proof {
                        assert(o@ =~= seq![d]);
                    }
                    push_all(&mut o, &out2);
                    Ok((o, p3))
                },
                Err(e) => Err(e),
            }
        },
        None => {
            if c == 'u' && p.le - p.ls >= p.idx - p.ls + 5 {
                eunicode4(v, PPos { idx: p.idx + 1, ..p }, nested, skip, env, strict)
            } else if c == 'U' && p.le - p.ls >= p.idx - p.ls + 7 {
                let parsed = from_radix(v, p.idx + 1, p.idx + 7, 16);
                let mut piece: Option<char> = None;
                match parsed {
                    Some(x) => {
                        match char_from_u32(x) {
                            Some(ch) => {
                                piece = Some(ch);
                            },
                            None => {
                            },
                        }
                    },
                    None => {
                    },
                }
                match piece {
                    Some(ch) => {
                        match equote(
                            v,
                            PPos { idx: p.idx + 7, ..p },
                            '"',
                            nested,
                            skip,
                            env,
                            strict,
                        ) {
                            Ok((out2, p3)) => {
                                let mut o: Vec<char> = Vec::new();
                                o.push(ch);
                                proof {
                                    assert(o@ =~= seq![ch]);
                                }
                                push_all(&mut o, &out2);
                                Ok((o, p3))
                            },
                            Err(e) => Err(e),
                        }
                    },
                    None => {
                        if strict {
                            Err((Error::syntax_error(p.lineno, p.idx - p.ls), p))
                        } else {
                            equote(v, p, '"', nested, skip, env, strict)
                        }
                    },
                }
            } else if c == '\0' {
                Err((Error::syntax_error(p.lineno, p.idx - p.ls), p))
            } else if c == '\n' {
                let p2 = enext_line(v, p);
                if p2.ls >= v.len() {
                    if strict {
                        return Err((Error::syntax_error(p2.lineno, 1), p2));
                    }
                    let o: Vec<char> = Vec::new();
                    proof {
                        assert(o@ =~= Seq::<char>::empty());
                    }
                    Ok((o, p2))
                } else {
                    equote(v, p2, '"', nested, skip, env, strict)
                }
            } else {
                if strict {
                    Err((Error::syntax_error(p.lineno, p.idx - p.ls + 1), p))
                } else {
                    match equote(v, PPos { idx: p.idx + 1, ..p }, '"', nested, skip, env, strict) {
                        Ok((out2, p3)) => {
                            let mut o: Vec<char> = Vec::new();
                            o.push('\\');
                            o.push(c);
                            proof {
                                assert(o@ =~= seq!['\\', c]);
                            }
                            push_all(&mut o, &out2);
                            Ok((o, p3))
                        },
                        Err(e) => Err(e),
                    }
                }
            }
        },
    }
}

/// A `\\uXXXX` escape, with surrogate-pair combination.
#[verifier::rlimit(100)]
fn eunicode4(
    v: &Vec<char>,
    p: PPos,
    nested: bool,
    skip: bool,
    env: &MemoryEnv,
    strict: bool,
) -> (r: Result<(Vec<char>, PPos), (Error, PPos)>)
    requires
        env.wf(),
        st_wf(v@, pst(p)),
        p.idx + 4 <= p.le,
        p.idx >= p.ls + 2,
        v@.len() < 0x1000000,
        phi(v@, p) + 4 < usize::MAX,
    ensures
        eres(v@, punicode4(v@, pst(p), nested, skip, env.as_map(), strict), r, p),
    decreases v@.len() - p.le, v@.len() - p.idx, 3int,
{
    let parsed = from_radix(v, p.idx, p.idx + 4, 16);
    match parsed {
        Some(hi) => {
            if 0xD800 <= hi && hi <= 0xDBFF {
                if p.le - p.ls < p.idx - p.ls + 10 || !(p.idx + 6 <= p.le && v[p.idx + 4] == '\\'
                    && v[p.idx + 5] == 'u') {
                    if strict {
                        Err((Error::syntax_error(p.lineno, p.idx - p.ls - 1), p))
                    } else {
                        equote(v, p, '"', nested, skip, env, strict)
                    }
                } else {
                    let parsed_lo = from_radix(v, p.idx + 6, p.idx + 10, 16);
                    match parsed_lo {
                        Some(lo) => {
                            if lo < 0xDC00 || lo > 0xDFFF {
                                if strict {
                                    Err((Error::syntax_error(p.lineno, p.idx - p.ls + 3), p))
                                } else {
                                    equote(v, p, '"', nested, skip, env, strict)
                                }
                            } else {
                                let code: u32 = (hi - 0xD800) * 0x400 + (lo - 0xDC00) + 0x10000;
                                proof {
                                    assert(is_scalar(code));
                                }
                                let ch = match char_from_u32(code) {
                                    Some(ch) => ch,
                                    None => {
                                        proof {
                                            assert(false);
                                        }
                                        ' '
                                    },
                                };
                                match equote(
                                    v,
                                    PPos { idx: p.idx + 10, ..p },
                                    '"',
                                    nested,
                                    skip,
                                    env,
                                    strict,
                                ) {
                                    Ok((out2, p3)) => {
                                        let mut o: Vec<char> = Vec::new();
                                        o.push(ch);
                                        proof {
                                            assert(o@ =~= seq![ch]);
                                        }
                                        push_all(&mut o, &out2);
                                        Ok((o, p3))
                                    },
                                    Err(e) => Err(e),
                                }
                            }
                        },
                        None => {
                            if strict {
                                Err((Error::syntax_error(p.lineno, p.idx - p.ls + 1), p))
                            } else {
                                equote(v, p, '"', nested, skip, env, strict)
                            }
                        },
                    }
                }
            } else {
                match char_from_u32(hi) {
                    Some(ch) => {
                        match equote(v, PPos { idx: p.idx + 4, ..p }, '"', nested, skip, env, strict) {
                            Ok((out2, p3)) => {
                                let mut o: Vec<char> = Vec::new();
                                o.push(ch);
                                proof {
                                    assert(o@ =~= seq![ch]);
                                }
                                push_all(&mut o, &out2);
                                Ok((o, p3))
                            },
                            Err(e) => Err(e),
                        }
                    },
                    None => {
                        if strict {
                            Err((Error::syntax_error(p.lineno, p.idx - p.ls - 1), p))
                        } else {
                            equote(v, p, '"', nested, skip, env, strict)
                        }
                    },
                }
            }
        },
        None => {
            if strict {
                Err((Error::syntax_error(p.lineno, p.idx - p.ls - 1), p))
            } else {
                equote(v, p, '"', nested, skip, env, strict)
            }
        },
    }
}

/// One substitution after a `$`.
#[verifier::rlimit(100)]
fn evar(v: &Vec<char>, p: PPos, skip: bool, env: &MemoryEnv, strict: bool) -> (r: Result<
    (Vec<char>, PPos),
    (Error, PPos),
>)
    requires
        env.wf(),
        st_wf(v@, pst(p)),
        p.idx >= p.ls + 1,
        v@.len() < 0x1000000,
        phi(v@, p) + 4 < usize::MAX,
    ensures
        eres(v@, pvar(v@, pst(p), skip, env.as_map(), strict), r, p),
    decreases v@.len() - p.le, v@.len() - p.idx, 0int,
{
    let var_start = p.idx - 1;
    let brace = p.idx < p.le && v[p.idx] == '{';
    let nstart = if brace {
        p.idx + 1
    } else {
        p.idx
    };
    let nend = eword_end(v, nstart, p.le);
    if nend == nstart {
        if strict {
            Err((Error::syntax_error(p.lineno, var_start - p.ls + 1), p))
        } else {
            let after = if brace && nend + 1 <= p.le {
                nend + 1
            } else {
                nend
            };
            Ok((subvec(v, var_start, after), PPos { idx: after, ..p }))
        }
    } else {
        let name = subvec(v, nstart, nend);
        let looked = env.get_chars(&name);
        if brace {
            let var_rel = var_start - p.ls;
            let nend_rel = nend - p.ls;
            let pb = PPos { idx: nend, ..p };
            let two = pb.idx + 2 <= pb.le;
            let one = pb.idx + 1 <= pb.le;
            if two && v[pb.idx] == ':' && v[pb.idx + 1] == '?' {
                let opst = PPos { idx: pb.idx + 2, ..pb };
                match looked {
                    Some(val) => {
                        if val.len() > 0 {
                            eskip_operand(v, opst, var_rel, nend_rel, val, skip, env, strict)
                        } else {
                            erequired(v, opst, var_rel, nend_rel, skip, env, strict)
                        }
                    },
                    None => erequired(v, opst, var_rel, nend_rel, skip, env, strict),
                }
            } else if one && v[pb.idx] == '?' {
                let opst = PPos { idx: pb.idx + 1, ..pb };
                match looked {
                    Some(val) => eskip_operand(v, opst, var_rel, nend_rel, val, skip, env, strict),
                    None => erequired(v, opst, var_rel, nend_rel, skip, env, strict),
                }
            } else if two && v[pb.idx] == ':' && v[pb.idx + 1] == '-' {
                let opst = PPos { idx: pb.idx + 2, ..pb };
                match looked {
                    Some(val) => {
                        if val.len() > 0 {
                            eskip_operand(v, opst, var_rel, nend_rel, val, skip, env, strict)
                        } else {
                            euse_operand(v, opst, var_rel, nend_rel, skip, env, strict)
                        }
                    },
                    None => euse_operand(v, opst, var_rel, nend_rel, skip, env, strict),
                }
            } else if one && v[pb.idx] == '-' {
                let opst = PPos { idx: pb.idx + 1, ..pb };
                match looked {
                    Some(val) => eskip_operand(v, opst, var_rel, nend_rel, val, skip, env, strict),
                    None => euse_operand(v, opst, var_rel, nend_rel, skip, env, strict),
                }
            } else if two && v[pb.idx] == ':' && v[pb.idx + 1] == '+' {
                let opst = PPos { idx: pb.idx + 2, ..pb };
                match looked {
                    Some(val) => {
                        if val.len() > 0 {
                            euse_operand(v, opst, var_rel, nend_rel, skip, env, strict)
                        } else {
                            let kept: Vec<char> = Vec::new();
                            proof {
                                assert(kept@ =~= Seq::<char>::empty());
                            }
                            eskip_operand(v, opst, var_rel, nend_rel, kept, skip, env, strict)
                        }
                    },
                    None => {
                        let kept: Vec<char> = Vec::new();
                        proof {
                            assert(kept@ =~= Seq::<char>::empty());
                        }
                        eskip_operand(v, opst, var_rel, nend_rel, kept, skip, env, strict)
                    },
                }
            } else if one && v[pb.idx] == '+' {
                let opst = PPos { idx: pb.idx + 1, ..pb };
                match looked {
                    Some(_) => euse_operand(v, opst, var_rel, nend_rel, skip, env, strict),
                    None => {
                        let kept: Vec<char> = Vec::new();
                        proof {
                            assert(kept@ =~= Seq::<char>::empty());
                        }
                        eskip_operand(v, opst, var_rel, nend_rel, kept, skip, env, strict)
                    },
                }
            } else {
                let piece = match looked {
                    Some(val) => val,
                    None => {
                        let o: Vec<char> = Vec::new();
                        proof {
                            assert(o@ =~= Seq::<char>::empty());
                        }
                        o
                    },
                };
                evar_close(v, pb, var_rel, nend_rel, piece, strict)
            }
        } else {
            let piece = match looked {
                Some(val) => val,
                None => {
                    let o: Vec<char> = Vec::new();
                    proof {
                        assert(o@ =~= Seq::<char>::empty());
                    }
                    o
                },
            };
            Ok((piece, PPos { idx: nend, ..p }))
        }
    }
}

/// A required variable that is missing.
#[verifier::rlimit(100)]
fn erequired(
    v: &Vec<char>,
    opst: PPos,
    var_rel: usize,
    nend_rel: usize,
    skip: bool,
    env: &MemoryEnv,
    strict: bool,
) -> (r: Result<(Vec<char>, PPos), (Error, PPos)>)
    requires
        env.wf(),
        st_wf(v@, pst(opst)),
        var_rel <= nend_rel,
        nend_rel <= v@.len(),
        v@.len() < 0x1000000,
        phi(v@, opst) + 4 < usize::MAX,
    ensures
        eres(
            v@,
            pvar_required_fail(
                v@,
                pst(opst),
                var_rel as int,
                nend_rel as int,
                skip,
                env.as_map(),
                strict,
            ),
            r,
            opst,
        ),
    decreases v@.len() - opst.le, v@.len() - opst.idx, 4int,
{
    if skip {
        let kept: Vec<char> = Vec::new();
        proof {
            assert(kept@ =~= Seq::<char>::empty());
        }
        eskip_operand(v, opst, var_rel, nend_rel, kept, skip, env, strict)
    } else {
        Err((Error::syntax_error(opst.lineno, opst.idx - opst.ls + 1), opst))
    }
}

/// Parses the operand with output and lookups discarded.
#[verifier::rlimit(100)]
fn eskip_operand(
    v: &Vec<char>,
    opst: PPos,
    var_rel: usize,
    nend_rel: usize,
    kept: Vec<char>,
    skip: bool,
    env: &MemoryEnv,
    strict: bool,
) -> (r: Result<(Vec<char>, PPos), (Error, PPos)>)
    requires
        env.wf(),
        st_wf(v@, pst(opst)),
        var_rel <= nend_rel,
        nend_rel <= v@.len(),
        v@.len() < 0x1000000,
        phi(v@, opst) + 4 < usize::MAX,
    ensures
        eres(
            v@,
            pvar_skip_operand(
                v@,
                pst(opst),
                var_rel as int,
                nend_rel as int,
                kept@,
                skip,
                env.as_map(),
                strict,
            ),
            r,
            opst,
        ),
    decreases v@.len() - opst.le, v@.len() - opst.idx, 3int,
{
    let none_env = MemoryEnv::new();
    match epv(v, opst, true, true, &none_env, strict) {
        Ok((_, p2)) => evar_close(v, p2, var_rel, nend_rel, kept, strict),
        Err(e) => Err(e),
    }
}

/// Parses the operand for real.
#[verifier::rlimit(100)]
fn euse_operand(
    v: &Vec<char>,
    opst: PPos,
    var_rel: usize,
    nend_rel: usize,
    skip: bool,
    env: &MemoryEnv,
    strict: bool,
) -> (r: Result<(Vec<char>, PPos), (Error, PPos)>)
    requires
        env.wf(),
        st_wf(v@, pst(opst)),
        var_rel <= nend_rel,
        nend_rel <= v@.len(),
        v@.len() < 0x1000000,
        phi(v@, opst) + 4 < usize::MAX,
    ensures
        eres(
            v@,
            pvar_use_operand(
                v@,
                pst(opst),
                var_rel as int,
                nend_rel as int,
                skip,
                env.as_map(),
                strict,
            ),
            r,
            opst,
        ),
    decreases v@.len() - opst.le, v@.len() - opst.idx, 3int,
{
    match epv(v, opst, true, skip, env, strict) {
        Ok((out, p2)) => evar_close(v, p2, var_rel, nend_rel, out, strict),
        Err(e) => Err(e),
    }
}

/// The closing-brace check of a braced substitution.
#[verifier::rlimit(100)]
fn evar_close(
    v: &Vec<char>,
    p: PPos,
    var_rel: usize,
    nend_rel: usize,
    piece: Vec<char>,
    strict: bool,
) -> (r: Result<(Vec<char>, PPos), (Error, PPos)>)
    requires
        st_wf(v@, pst(p)),
        var_rel <= nend_rel,
        nend_rel <= v@.len(),
        v@.len() < 0x1000000,
    ensures
        eres(
            v@,
            pvar_close(v@, pst(p), var_rel as int, nend_rel as int, piece@, strict),
            r,
            p,
        ),
{
    if p.idx < p.le && v[p.idx] == '}' {
        Ok((piece, PPos { idx: p.idx + 1, ..p }))
    } else if strict {
        Err((Error::syntax_error(p.lineno, nend_rel + 1), p))
    } else {
        let b = p.ls + nend_rel;
        if b <= p.le {
            Ok((subvec(v, p.ls + var_rel, b), PPos { idx: b, ..p }))
        } else {
            Ok((piece, PPos { idx: p.le, ..p }))
        }
    }
}

/// Parses a source in the native dialect against the sink and the
/// parent store.  The outcome, store included, is exactly
/// `punktum_spec`.
#[verifier::rlimit(100)]
pub fn config_punktum(
    src: &str,
    env: &mut MemoryEnv,
    parent: &MemoryEnv,
    options: &Options,
) -> (r: Result<(), Error>)
    requires
        old(env).wf(),
        parent.wf(),
        src@.len() < 0x1000000,
    ensures
        final(env).wf(),
        ({
            let out = punktum_spec(
                src@,
                old(env).as_map(),
                parent.as_map(),
                options.override_env,
                options.strict,
            );
            &&& final(env).as_map() == out.env
            &&& final(env).entries_seq() == apply_writes(
                old(env).entries_seq(),
                out.writes,
                0,
                options.override_env,
            )
            &&& (match r {
                Ok(()) => out.err is None,
                Err(e) => out.err == Some(e),
            })
        }),
{
    let all0 = chars_of(src);
    let all = fix_newlines(&all0);
    let n = all.len();
    let ghost target = punktum_spec(
        src@,
        old(env).as_map(),
        parent.as_map(),
        options.override_env,
        options.strict,
    );
    let mut pos: usize = 0;
    let mut lineno: usize = 0;
    while pos < n
        invariant
            env.wf(),
            parent.wf(),
            n == all@.len(),
            n <= src@.len() < 0x1000000,
            pos <= n,
            lineno + 2 * (n - pos) <= 2 * n,
            all@ == fix_nl(src@, 0),
            target == punktum_spec(
                src@,
                old(env).as_map(),
                parent.as_map(),
                options.override_env,
                options.strict,
            ),
            ({
                let cur = pk_config(
                    all@,
                    pos as int,
                    lineno as int,
                    env.as_map(),
                    parent.as_map(),
                    options.override_env,
                    options.strict,
                );
                &&& target.err == cur.err
                &&& target.env == cur.env
                &&& apply_writes(old(env).entries_seq(), target.writes, 0, options.override_env)
                    == apply_writes(env.entries_seq(), cur.writes, 0, options.override_env)
            }),
        decreases n - pos,
    {
        let le = eline_end(&all, pos);
        let l = lineno + 1;
        let i1 = eskip_ws(&all, pos, le);
        if i1 >= le || all[i1] == '#' {
            proof {
                let cb = all@;
                let cur = pk_config(
                    cb,
                    pos as int,
                    lineno as int,
                    env.as_map(),
                    parent.as_map(),
                    options.override_env,
                    options.strict,
                );
                assert(line_end(cb, pos as int) == le as int);
                assert(skip_ws(cb, pos as int, le as int) == i1 as int);
                assert(cur == pk_config(
                    cb,
                    le as int,
                    l as int,
                    env.as_map(),
                    parent.as_map(),
                    options.override_env,
                    options.strict,
                ));
            }
            pos = le;
            lineno = l;
            continue;
        }
        let c1 = all[i1];
        let word1 = ('a' <= c1 && c1 <= 'z') || ('A' <= c1 && c1 <= 'Z') || ('0' <= c1 && c1
            <= '9') || c1 == '_';
        if !word1 {
            proof {
                let cb = all@;
                assert(line_end(cb, pos as int) == le as int);
                assert(skip_ws(cb, pos as int, le as int) == i1 as int);
            }
            if options.strict {
                return Err(Error::syntax_error(l, i1 - pos + 1));
            }
            pos = le;
            lineno = l;
            continue;
        }
        let ke = eword_end(&all, i1, le);
        let mut key = subvec(&all, i1, ke);
        let i2 = eskip_ws(&all, ke, le);
        if i2 >= le || all[i2] == '#' {
            let ghost envb = env.as_map();
            let ghost eb = env.entries_seq();
            match parent.get_chars(&key) {
                Some(val) => {
                    options.set_var(env, &key, &val);
                },
                None => {
                },
            }
            proof {
                let cb = all@;
                let cur = pk_config(
                    cb,
                    pos as int,
                    lineno as int,
                    envb,
                    parent.as_map(),
                    options.override_env,
                    options.strict,
                );
                assert(cur == pk_inherit(
                    cb,
                    le as int,
                    l as int,
                    key@,
                    envb,
                    parent.as_map(),
                    options.override_env,
                    options.strict,
                ));
                assert(cur.err == pk_config(
                    cb,
                    le as int,
                    l as int,
                    env.as_map(),
                    parent.as_map(),
                    options.override_env,
                    options.strict,
                ).err);
                if parent.as_map().contains_key(key@) {
                    let w = (key@, parent.as_map()[key@]);
                    let env2 = spec_set_var(envb, w.0, w.1, options.override_env);
                    let rest = pk_config(
                        cb,
                        le as int,
                        l as int,
                        env2,
                        parent.as_map(),
                        options.override_env,
                        options.strict,
                    );
                    assert(cur.writes == seq![w] + rest.writes);
                    crate::model::lemma_apply_writes_step(
                        eb,
                        w,
                        rest.writes,
                        options.override_env,
                    );
                }
            }
            pos = le;
            lineno = l;
            continue;
        }
        let mut vpos0: usize = 0;
        let mut have_value = false;
        if all[i2] != '=' {
            let c2 = all[i2];
            let word2 = ('a' <= c2 && c2 <= 'z') || ('A' <= c2 && c2 <= 'Z') || ('0' <= c2 && c2
                <= '9') || c2 == '_';
            let is_export = key.len() == 6 && key[0] == 'e' && key[1] == 'x' && key[2] == 'p'
                && key[3] == 'o' && key[4] == 'r' && key[5] == 't';
            proof {
                if is_export {
                    assert(key@ =~= export_word());
                } else {
                    assert(key@ != export_word());
                }
            }
            if !options.strict && is_export && word2 {
                let ke2 = eword_end(&all, i2, le);
                let key2 = subvec(&all, i2, ke2);
                let i3 = eskip_ws(&all, ke2, le);
                if i3 >= le || all[i3] == '#' {
                    let ghost envb = env.as_map();
                    let ghost eb = env.entries_seq();
                    match parent.get_chars(&key2) {
                        Some(val) => {
                            options.set_var(env, &key2, &val);
                        },
                        None => {
                        },
                    }
                    proof {
                        let cb = all@;
                        let cur = pk_config(
                            cb,
                            pos as int,
                            lineno as int,
                            envb,
                            parent.as_map(),
                            options.override_env,
                            options.strict,
                        );
                        assert(cur == pk_inherit(
                            cb,
                            le as int,
                            l as int,
                            key2@,
                            envb,
                            parent.as_map(),
                            options.override_env,
                            options.strict,
                        ));
                        assert(cur.err == pk_config(
                            cb,
                            le as int,
                            l as int,
                            env.as_map(),
                            parent.as_map(),
                            options.override_env,
                            options.strict,
                        ).err);
                        if parent.as_map().contains_key(key2@) {
                            let w = (key2@, parent.as_map()[key2@]);
                            let env2 = spec_set_var(envb, w.0, w.1, options.override_env);
                            let rest = pk_config(
                                cb,
                                le as int,
                                l as int,
                                env2,
                                parent.as_map(),
                                options.override_env,
                                options.strict,
                            );
                            assert(cur.writes == seq![w] + rest.writes);
                            crate::model::lemma_apply_writes_step(
                                eb,
                                w,
                                rest.writes,
                                options.override_env,
                            );
                        }
                    }
                    pos = le;
                    lineno = l;
                    continue;
                }
                if all[i3] != '=' {
                    pos = le;
                    lineno = l;
                    continue;
                }
                key = key2;
                vpos0 = i3 + 1;
                have_value = true;
            } else {
                if options.strict {
                    return Err(Error::syntax_error(l, i2 - pos + 1));
                }
                pos = le;
                lineno = l;
                continue;
            }
        } else {
            vpos0 = i2 + 1;
            have_value = true;
        }
        if have_value {
            let vstart = eskip_ws(&all, vpos0, le);
            let st0 = PPos { ls: pos, le, idx: vstart, lineno: l };
            let ghost envb = env.as_map();
            proof {
                let cb = all@;
                let cur = pk_config(
                    cb,
                    pos as int,
                    lineno as int,
                    envb,
                    parent.as_map(),
                    options.override_env,
                    options.strict,
                );
                assert(cur == pk_value(
                    cb,
                    pos as int,
                    le as int,
                    l as int,
                    vpos0 as int,
                    key@,
                    envb,
                    parent.as_map(),
                    options.override_env,
                    options.strict,
                ));
            }
            let ghost eb = env.entries_seq();
            match epv(&all, st0, false, false, env, options.strict) {
                Ok((out, p2)) => {
                    options.set_var(env, &key, &out);
                    proof {
                        let cb = all@;
                        let cur = pk_value(
                            cb,
                            pos as int,
                            le as int,
                            l as int,
                            vpos0 as int,
                            key@,
                            envb,
                            parent.as_map(),
                            options.override_env,
                            options.strict,
                        );
                        assert(skip_ws(cb, vpos0 as int, le as int) == vstart as int);
                        assert(env.as_map() == spec_set_var(
                            envb,
                            key@,
                            out@,
                            options.override_env,
                        ));
                        let w = (key@, out@);
                        let env2 = spec_set_var(envb, w.0, w.1, options.override_env);
                        let rest = if p2.le as int > pos as int && p2.le as int <= cb.len() {
                            pk_config(
                                cb,
                                p2.le as int,
                                p2.lineno as int,
                                env2,
                                parent.as_map(),
                                options.override_env,
                                options.strict,
                            )
                        } else {
                            ParseOut::done(env2, Seq::empty())
                        };
                        assert(cur.writes == seq![w] + rest.writes);
                        crate::model::lemma_apply_writes_step(
                            eb,
                            w,
                            rest.writes,
                            options.override_env,
                        );
                    }
                    if p2.le > pos && p2.le <= n {
                        pos = p2.le;
                        lineno = p2.lineno;
                    } else {
                        return Ok(());
                    }
                },
                Err((e, p2)) => {
                    if options.strict {
                        return Err(e);
                    }
                    if p2.le > pos && p2.le <= n {
                        pos = p2.le;
                        lineno = p2.lineno;
                    } else {
                        return Ok(());
                    }
                },
            }
        }
    }
    Ok(())
}
} // verus!
