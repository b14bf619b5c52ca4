//! The Python dotenv-CLI dialect: trimmed `KEY=VALUE` lines, an
//! optional `export ` prefix, quotes stripped from fully quoted
//! values, a rich escape table inside double quotes, and bindings
//! with embedded null bytes rejected rather than truncated.

use vstd::prelude::*;

use crate::env::MemoryEnv;
use crate::error::{Error, spec_syntax_error};
use crate::line_splitter::{after_newline, lemma_newline_pos_bounds, newline_pos};
use crate::model::{EnvModel, ParseOut, apply_writes, char_pos, nul_pos, spec_set_var};
use crate::options::Options;
use crate::text::{
    char_from_u32, chars_of, from_radix, push_range, spec_from_radix, subvec, trim_unicode,
    uni_trim,
};

verus! {

use vstd::utf8::is_scalar;

/// The lines of the source: terminated lines, and a final
/// unterminated remainder when it is not empty.
pub open spec fn py_lines_from(s: Seq<char>, i: int) -> Seq<Seq<char>>
    decreases s.len() - i,
        via py_lines_from_decreases
{
    if i < 0 || i >= s.len() {
        Seq::empty()
    } else {
        let j = newline_pos(s, i);
        if j >= s.len() {
            seq![s.subrange(i, s.len() as int)]
        } else {
            seq![s.subrange(i, j)] + py_lines_from(s, after_newline(s, j))
        }
    }
}

#[via_fn]
proof fn py_lines_from_decreases(s: Seq<char>, i: int) {
    if 0 <= i <= s.len() {
        lemma_newline_pos_bounds(s, i);
    }
}

pub proof fn lemma_py_lines_count(s: Seq<char>, i: int)
    requires
        0 <= i <= s.len(),
    ensures
        py_lines_from(s, i).len() <= s.len() - i + 1,
    decreases s.len() - i,
{
    lemma_newline_pos_bounds(s, i);
    if i < s.len() {
        let j = newline_pos(s, i);
        if j < s.len() {
            lemma_py_lines_count(s, after_newline(s, j));
        }
    }
}

/// Whether the text contains a null character.
pub open spec fn has_nul(s: Seq<char>) -> bool {
    nul_pos(s, 0) < s.len()
}

/// The result of decoding the double-quote escape table from `i` on:
/// the decoded text and whether a malformed escape was met.  A
/// malformed escape drops its backslash and decoding continues.
pub struct PyDecode {
    pub out: Seq<char>,
    pub err: bool,
}

/// One decoded suffix with a prefix in front.
pub open spec fn py_cont(prefix: Seq<char>, rest: PyDecode, err: bool) -> PyDecode {
    PyDecode { out: prefix + rest.out, err: err || rest.err }
}

/// Decodes the escape table of this dialect: simple escapes, a
/// discarded escaped newline, `\0NNN` octal, `\xNN`, `\uNNNN` and
/// `\UNNNNNN` forms, every malformed escape an error that drops the
/// backslash.
pub open spec fn py_decode(v: Seq<char>, i: int) -> PyDecode
    decreases v.len() - i,
        via py_decode_decreases
{
    if i < 0 || i > v.len() {
        PyDecode { out: Seq::empty(), err: false }
    } else {
        let b = char_pos(v, i, '\\');
        if b >= v.len() {
            PyDecode { out: v.subrange(i, v.len() as int), err: false }
        } else {
            let prefix = v.subrange(i, b);
            let r = b + 1;
            if r >= v.len() {
                PyDecode { out: prefix, err: true }
            } else {
                let c = v[r];
                if c == '\n' {
                    py_cont(prefix, py_decode(v, r + 1), false)
                } else if c == '\\' || c == '\'' || c == '"' {
                    py_cont(prefix + seq![c], py_decode(v, r + 1), false)
                } else if c == 'a' {
                    py_cont(prefix + seq!['\u{7}'], py_decode(v, r + 1), false)
                } else if c == 'b' {
                    py_cont(prefix + seq!['\u{8}'], py_decode(v, r + 1), false)
                } else if c == 'f' {
                    py_cont(prefix + seq!['\u{C}'], py_decode(v, r + 1), false)
                } else if c == 'n' {
                    py_cont(prefix + seq!['\n'], py_decode(v, r + 1), false)
                } else if c == 'r' {
                    py_cont(prefix + seq!['\r'], py_decode(v, r + 1), false)
                } else if c == 't' {
                    py_cont(prefix + seq!['\t'], py_decode(v, r + 1), false)
                } else if c == 'v' {
                    py_cont(prefix + seq!['\u{B}'], py_decode(v, r + 1), false)
                } else if '0' <= c && c <= '7' {
                    if v.len() - r < 4 {
                        py_cont(prefix, py_decode(v, r), true)
                    } else {
                        match spec_from_radix(v.subrange(r + 1, r + 4), 8) {
                            Some(x) => if x <= 255 {
                                py_cont(
                                    prefix + seq![((x as u32) as char)],
                                    py_decode(v, r + 4),
                                    false,
                                )
                            } else {
                                py_cont(prefix, py_decode(v, r), true)
                            },
                            None => py_cont(prefix, py_decode(v, r), true),
                        }
                    }
                } else if c == 'x' {
                    if v.len() - r < 3 {
                        py_cont(prefix, py_decode(v, r), true)
                    } else {
                        match spec_from_radix(v.subrange(r + 1, r + 3), 16) {
                            Some(x) => py_cont(
                                prefix + seq![((x as u32) as char)],
                                py_decode(v, r + 3),
                                false,
                            ),
                            None => py_cont(prefix, py_decode(v, r), true),
                        }
                    }
                } else if c == 'u' {
                    if v.len() - r < 5 {
                        py_cont(prefix, py_decode(v, r), true)
                    } else {
                        match spec_from_radix(v.subrange(r + 1, r + 5), 16) {
                            Some(x) => if is_scalar(x as u32) {
                                py_cont(
                                    prefix + seq![((x as u32) as char)],
                                    py_decode(v, r + 5),
                                    false,
                                )
                            } else {
                                py_cont(prefix, py_decode(v, r), true)
                            },
                            None => py_cont(prefix, py_decode(v, r), true),
                        }
                    }
                } else if c == 'U' {
                    if v.len() - r < 7 {
                        py_cont(prefix, py_decode(v, r), true)
                    } else {
                        match spec_from_radix(v.subrange(r + 1, r + 7), 16) {
                            Some(x) => if is_scalar(x as u32) {
                                py_cont(
                                    prefix + seq![((x as u32) as char)],
                                    py_decode(v, r + 7),
                                    false,
                                )
                            } else {
                                py_cont(prefix, py_decode(v, r), true)
                            },
                            None => py_cont(prefix, py_decode(v, r), true),
                        }
                    }
                } else {
                    py_cont(prefix, py_decode(v, r), true)
                }
            }
        }
    }
}

#[via_fn]
proof fn py_decode_decreases(v: Seq<char>, i: int) {
    if 0 <= i <= v.len() {
        crate::model::lemma_char_pos(v, i, '\\');
    }
}

/// Whether the line starts with `export` and a space.
pub open spec fn has_export_prefix(s: Seq<char>) -> bool {
    s.len() >= 7 && s[0] == 'e' && s[1] == 'x' && s[2] == 'p' && s[3] == 'o' && s[4] == 'r'
        && s[5] == 't' && s[6] == ' '
}

/// What one line of this dialect writes: the outcome of the steps
/// trim, comment test, split at the first `=`, `export ` strip,
/// trim, quote strip with escape decoding, and the null-byte check.
/// `None` stands for no write, `Some(Err)` for a strict-mode abort.
pub open spec fn py_line_out(line: Seq<char>, lineno: usize, strict: bool) -> Option<
    Result<(Seq<char>, Seq<char>), Error>,
> {
    let t = uni_trim(line);
    if t.len() >= 1 && t[0] == '#' {
        None
    } else {
        let eq = char_pos(t, 0, '=');
        if eq >= t.len() {
            None
        } else {
            let key0 = t.subrange(0, eq);
            let value0 = t.subrange(eq + 1, t.len() as int);
            let key1 = if has_export_prefix(key0) {
                key0.subrange(7, key0.len() as int)
            } else {
                key0
            };
            let key = uni_trim(key1);
            let value1 = uni_trim(value0);
            if value1.len() >= 2 && value1[0] == '"' && value1[value1.len() - 1] == '"' {
                let inner = value1.subrange(1, value1.len() - 1);
                let d = py_decode(inner, 0);
                if strict && d.err {
                    Some(Err(spec_syntax_error(lineno, 1)))
                } else {
                    py_check_nul(key, d.out, lineno, strict)
                }
            } else if value1.len() >= 2 && value1[0] == '\'' && value1[value1.len() - 1] == '\'' {
                py_check_nul(key, value1.subrange(1, value1.len() - 1), lineno, strict)
            } else {
                py_check_nul(key, value1, lineno, strict)
            }
        }
    }
}

/// Rejects a binding holding a null byte: an error under `strict`, no
/// write otherwise.
pub open spec fn py_check_nul(key: Seq<char>, value: Seq<char>, lineno: usize, strict: bool) -> Option<
    Result<(Seq<char>, Seq<char>), Error>,
> {
    if has_nul(key) || has_nul(value) {
        if strict {
            Some(Err(spec_syntax_error(lineno, 1)))
        } else {
            None
        }
    } else {
        Some(Ok((key, value)))
    }
}

/// The outcome of this dialect from line `idx` on.
pub open spec fn py_cli_from(
    lines: Seq<Seq<char>>,
    idx: int,
    env: EnvModel,
    override_env: bool,
    strict: bool,
) -> ParseOut
    decreases lines.len() - idx,
{
    if idx < 0 || idx >= lines.len() {
        ParseOut::done(env, Seq::empty())
    } else {
        let lineno = (idx + 1) as usize;
        match py_line_out(lines[idx], lineno, strict) {
            None => py_cli_from(lines, idx + 1, env, override_env, strict),
            Some(Err(e)) => ParseOut::fail(e, env, Seq::empty()),
            Some(Ok((k, v))) => {
                let env2 = spec_set_var(env, k, v, override_env);
                let rest = py_cli_from(lines, idx + 1, env2, override_env, strict);
                ParseOut { err: rest.err, env: rest.env, writes: seq![(k, v)] + rest.writes }
            },
        }
    }
}

/// The outcome of this dialect on a whole source.
pub open spec fn py_cli_spec(
    src: Seq<char>,
    env: EnvModel,
    override_env: bool,
    strict: bool,
) -> ParseOut {
    py_cli_from(py_lines_from(src, 0), 0, env, override_env, strict)
}

/// Finds the first occurrence of `t` at or after `i`.
fn find_char(line: &Vec<char>, i: usize, t: char) -> (r: usize)
    requires
        i <= line@.len(),
    ensures
        r == char_pos(line@, i as int, t),
        i <= r <= line@.len(),
        r < line@.len() ==> line@[r as int] == t,
{
    let n = line.len();
    let mut j = i;
    while j < n
        invariant
            i <= j <= n,
            n == line@.len(),
            char_pos(line@, i as int, t) == char_pos(line@, j as int, t),
        decreases n - j,
    {
        if line[j] == t {
            return j;
        }
        j = j + 1;
    }
    j
}

/// Whether the line starts with `export` and a space.
fn starts_with_export(v: &Vec<char>) -> (r: bool)
    ensures
        r == has_export_prefix(v@),
{
    v.len() >= 7 && v[0] == 'e' && v[1] == 'x' && v[2] == 'p' && v[3] == 'o' && v[4] == 'r'
        && v[5] == 't' && v[6] == ' '
}

/// Whether the text contains a null character.
fn contains_nul(v: &Vec<char>) -> (r: bool)
    ensures
        r == has_nul(v@),
{
    let n = v.len();
    let mut j: usize = 0;
    while j < n
        invariant
            j <= n,
            n == v@.len(),
            nul_pos(v@, 0) == nul_pos(v@, j as int),
        decreases n - j,
    {
        if v[j] == '\0' {
            return true;
        }
        j = j + 1;
    }
    false
}

/// Decodes the double-quote escape table of this dialect.  Under
/// `strict` the first malformed escape aborts with a syntax error.
fn decode_escapes(v: &Vec<char>, lineno: usize, strict: bool) -> (r: Result<Vec<char>, Error>)
    ensures
        ({
            let d = py_decode(v@, 0);
            match r {
                Ok(out) => out@ == d.out && (strict ==> !d.err),
                Err(e) => strict && d.err && e == spec_syntax_error(lineno, 1),
            }
        }),
{
    let n = v.len();
    let mut out: Vec<char> = Vec::new();
    let mut i: usize = 0;
    let mut had_err = false;
    let ghost total = py_decode(v@, 0);
    while i < n
        invariant
            i <= n,
            n == v@.len(),
            total == py_decode(v@, 0),
            !strict || !had_err,
            total.out == out@ + py_decode(v@, i as int).out,
            total.err == (had_err || py_decode(v@, i as int).err),
        decreases n - i,
    {
        let b = find_char(v, i, '\\');
        push_range(&mut out, v, i, b);
        if b >= n {
            proof {
                assert(out@ =~= total.out);
            }
            return Ok(out);
        }
        let r = b + 1;
        if r >= n {
            if strict {
                return Err(Error::syntax_error(lineno, 1));
            }
            proof {
                assert(total.out =~= out@);
                assert(total.err);
            }
            return Ok(out);
        }
        let c = v[r];
        if c == '\n' {
            i = r + 1;
        } else if c == '\\' || c == '\'' || c == '"' {
            out.push(c);
            i = r + 1;
        } else if c == 'a' {
            out.push('\u{7}');
            i = r + 1;
        } else if c == 'b' {
            out.push('\u{8}');
            i = r + 1;
        } else if c == 'f' {
            out.push('\u{C}');
            i = r + 1;
        } else if c == 'n' {
            out.push('\n');
            i = r + 1;
        } else if c == 'r' {
            out.push('\r');
            i = r + 1;
        } else if c == 't' {
            out.push('\t');
            i = r + 1;
        } else if c == 'v' {
            out.push('\u{B}');
            i = r + 1;
        } else if '0' <= c && c <= '7' {
            if n - r < 4 {
                if strict {
                    return Err(Error::syntax_error(lineno, 1));
                }
                had_err = true;
                i = r;
            } else {
                let parsed = from_radix(v, r + 1, r + 4, 8);
                let mut ok = false;
                match parsed {
                    Some(x) => if x <= 255 {
                        match char_from_u32(x) {
                            Some(ch) => {
                                out.push(ch);
                                i = r + 4;
                                ok = true;
                            },
                            None => {
                                // a value of at most 255 is always a scalar
                                proof {
                                    assert(false);
                                }
                            },
                        }
                    },
                    None => {
                    },
                }
                if !ok {
                    if strict {
                        return Err(Error::syntax_error(lineno, 1));
                    }
                    had_err = true;
                    i = r;
                }
            }
        } else if c == 'x' {
            if n - r < 3 {
                if strict {
                    return Err(Error::syntax_error(lineno, 1));
                }
                had_err = true;
                i = r;
            } else {
                let parsed = from_radix(v, r + 1, r + 3, 16);
                match parsed {
                    Some(x) => {
                        proof {
                            crate::text::lemma_from_radix_byte(
                                v@.subrange(r + 1, r + 3),
                            );
                        }
                        match char_from_u32(x) {
                            Some(ch) => {
                                out.push(ch);
                                i = r + 3;
                            },
                            None => {
                                // a byte value is always a scalar
                                proof {
                                    assert(false);
                                }
                                i = r + 3;
                            },
                        }
                    },
                    None => {
                        if strict {
                            return Err(Error::syntax_error(lineno, 1));
                        }
                        had_err = true;
                        i = r;
                    },
                }
            }
        } else if c == 'u' {
            if n - r < 5 {
                if strict {
                    return Err(Error::syntax_error(lineno, 1));
                }
                had_err = true;
                i = r;
            } else {
                let parsed = from_radix(v, r + 1, r + 5, 16);
                let mut ok = false;
                match parsed {
                    Some(x) => {
                        match char_from_u32(x) {
                            Some(ch) => {
                                out.push(ch);
                                i = r + 5;
                                ok = true;
                            },
                            None => {
                            },
                        }
                    },
                    None => {
                    },
                }
                if !ok {
                    if strict {
                        return Err(Error::syntax_error(lineno, 1));
                    }
                    had_err = true;
                    i = r;
                }
            }
        } else if c == 'U' {
            if n - r < 7 {
                if strict {
                    return Err(Error::syntax_error(lineno, 1));
                }
                had_err = true;
                i = r;
            } else {
                let parsed = from_radix(v, r + 1, r + 7, 16);
                let mut ok = false;
                match parsed {
                    Some(x) => {
                        match char_from_u32(x) {
                            Some(ch) => {
                                out.push(ch);
                                i = r + 7;
                                ok = true;
                            },
                            None => {
                            },
                        }
                    },
                    None => {
                    },
                }
                if !ok {
                    if strict {
                        return Err(Error::syntax_error(lineno, 1));
                    }
                    had_err = true;
                    i = r;
                }
            }
        } else {
            if strict {
                return Err(Error::syntax_error(lineno, 1));
            }
            had_err = true;
            i = r;
        }
    }
    proof {
        assert(i == n);
        assert(total.out == out@ + py_decode(v@, i as int).out);
        assert(py_decode(v@, n as int).out =~= Seq::<char>::empty());
        assert(total.out =~= out@);
    }
    if strict && had_err {
        return Err(Error::syntax_error(lineno, 1));
    }
    Ok(out)
}

/// Finds the first line terminator at or after `i`.
fn find_newline(v: &Vec<char>, i: usize) -> (r: usize)
    requires
        i <= v@.len(),
    ensures
        r == newline_pos(v@, i as int),
        i <= r <= v@.len(),
        r < v@.len() ==> (v@[r as int] == '\n' || v@[r as int] == '\r'),
{
    let n = v.len();
    let mut j = i;
    while j < n
        invariant
            i <= j <= n,
            n == v@.len(),
            newline_pos(v@, i as int) == newline_pos(v@, j as int),
        decreases n - j,
    {
        let c = v[j];
        if c == '\n' || c == '\r' {
            return j;
        }
        j = j + 1;
    }
    j
}

/// Parses a source in the Python dotenv-CLI dialect.  The outcome,
/// store included, is exactly `py_cli_spec`.
pub fn config_pydotenvcli(src: &str, env: &mut MemoryEnv, options: &Options) -> (r: Result<
    (),
    Error,
>)
    requires
        old(env).wf(),
        src@.len() < usize::MAX - 1,
    ensures
        final(env).wf(),
        ({
            let out = py_cli_spec(src@, old(env).as_map(), options.override_env, options.strict);
            &&& final(env).as_map() == out.env
            &&& final(env).entries_seq() == apply_writes(
                old(env).entries_seq(),
                out.writes,
                0,
                options.override_env,
            )
            &&& (match r {
                Ok(()) => out.err is None,
                Err(e) => out.err == Some(e),
            })
        }),
{
    let all = chars_of(src);
    proof {
        lemma_py_lines_count(src@, 0);
    }
    let ghost lv = py_lines_from(src@, 0);
    let ghost target = py_cli_spec(src@, old(env).as_map(), options.override_env, options.strict);
    let n = all.len();
    let mut pos: usize = 0;
    let mut idx: usize = 0;
    while pos < n
        invariant
            env.wf(),
            all@ == src@,
            n == src@.len(),
            n < usize::MAX - 1,
            pos <= n,
            idx <= n + 1,
            lv.len() <= n + 1,
            lv == py_lines_from(src@, 0),
            target == py_cli_spec(src@, old(env).as_map(), options.override_env, options.strict),
            py_lines_from(src@, pos as int) == lv.subrange(idx as int, lv.len() as int),
            idx <= lv.len(),
            ({
                let cur = py_cli_from(
                    lv,
                    idx as int,
                    env.as_map(),
                    options.override_env,
                    options.strict,
                );
                &&& target.err == cur.err
                &&& target.env == cur.env
                &&& apply_writes(old(env).entries_seq(), target.writes, 0, options.override_env)
                    == apply_writes(env.entries_seq(), cur.writes, 0, options.override_env)
            }),
        decreases n - pos,
    {
        proof {
            lemma_newline_pos_bounds(src@, pos as int);
        }
        let j = find_newline(&all, pos);
        let line = subvec(&all, pos, j);
        let next = if j < n {
            if all[j] == '\r' && j + 1 < n && all[j + 1] == '\n' {
                j + 2
            } else {
                j + 1
            }
        } else {
            j
        };
        let lineno = idx + 1;
        proof {
            let rem = lv.subrange(idx as int, lv.len() as int);
            assert(py_lines_from(src@, pos as int).len() >= 1);
            assert(idx < lv.len());
            assert(rem[0] == lv[idx as int]);
            assert(line@ == lv[idx as int]);
            if j < n {
                assert(next == after_newline(src@, j as int));
                assert(py_lines_from(src@, pos as int) == seq![
                    src@.subrange(pos as int, j as int),
                ] + py_lines_from(src@, next as int));
                assert(py_lines_from(src@, next as int) =~= rem.drop_first());
                assert(rem.drop_first() =~= lv.subrange(idx + 1, lv.len() as int));
            } else {
                assert(py_lines_from(src@, pos as int) == seq![
                    src@.subrange(pos as int, n as int),
                ]);
                assert(rem.len() == 1);
                assert(py_lines_from(src@, next as int) =~= Seq::<Seq<char>>::empty());
                assert(lv.subrange(idx + 1, lv.len() as int) =~= Seq::<Seq<char>>::empty());
            }
        }
        let t = trim_unicode(&line);
        if t.len() >= 1 && t[0] == '#' {
            pos = next;
            idx = lineno;
            continue;
        }
        let eq = find_char(&t, 0, '=');
        if eq >= t.len() {
            pos = next;
            idx = lineno;
            continue;
        }
        let key0 = subvec(&t, 0, eq);
        let value0 = subvec(&t, eq + 1, t.len());
        let key1 = if starts_with_export(&key0) {
            let k0n = key0.len();
            subvec(&key0, 7, k0n)
        } else {
            key0
        };
        let key = trim_unicode(&key1);
        let value1 = trim_unicode(&value0);
        let v1n = value1.len();
        let value = if v1n >= 2 && value1[0] == '"' && value1[v1n - 1] == '"' {
            let inner = subvec(&value1, 1, v1n - 1);
            match decode_escapes(&inner, lineno, options.strict) {
                Ok(out) => out,
                Err(e) => {
                    return Err(e);
                },
            }
        } else if v1n >= 2 && value1[0] == '\'' && value1[v1n - 1] == '\'' {
            subvec(&value1, 1, v1n - 1)
        } else {
            value1
        };
        if contains_nul(&key) || contains_nul(&value) {
            if options.strict {
                return Err(Error::syntax_error(lineno, 1));
            }
            pos = next;
            idx = lineno;
            continue;
        }
        let ghost envb = env.as_map();
        let ghost eb = env.entries_seq();
        options.set_var(env, &key, &value);
        proof {
            let w = (key@, value@);
            let cur = py_cli_from(
                lv,
                idx as int,
                envb,
                options.override_env,
                options.strict,
            );
            let rest = py_cli_from(
                lv,
                idx + 1,
                spec_set_var(envb, w.0, w.1, options.override_env),
                options.override_env,
                options.strict,
            );
            assert(cur.writes == seq![w] + rest.writes);
            crate::model::lemma_apply_writes_step(eb, w, rest.writes, options.override_env);
        }
        pos = next;
        idx = lineno;
    }
    Ok(())
}

} // verus!
