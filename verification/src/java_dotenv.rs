//! The Java dotenv dialect: one binding per physical line, keys of
//! word characters, a single `=`, optionally quoted values, `#`
//! comments, and a crash of the upstream tool on a lone double quote
//! turned into a strict-mode error.  Keys and values are truncated at
//! the first null byte before writing.

use vstd::prelude::*;

use crate::env::MemoryEnv;
use crate::error::{Error, spec_syntax_error};
use crate::line_splitter::{spec_split_lines, split_lines};
use crate::model::{
    EnvModel, LineAction, ParseOut, apply_writes, cut_nul, lemma_scan_until, scan_until,
    spec_set_var,
};
use crate::options::Options;
use crate::text::{chars_of, subvec};

verus! {

/// The whitespace set of this dialect.
pub open spec fn is_java_space(c: char) -> bool {
    c == ' ' || c == '\t' || c == '\n' || c == '\u{B}' || c == '\u{C}' || c == '\r'
}

/// The identifier alphabet of this dialect.
pub open spec fn is_java_word(c: char) -> bool {
    ('a' <= c && c <= 'z') || ('A' <= c && c <= 'Z') || ('0' <= c && c <= '9') || c == '_' || c
        == '.' || c == '-'
}

/// The first non-whitespace position at or after `i`.
pub open spec fn java_ws_end(s: Seq<char>, i: int) -> int {
    scan_until(s, i, |c: char| !is_java_space(c))
}

/// The first non-word position at or after `i`.
pub open spec fn java_word_end(s: Seq<char>, i: int) -> int {
    scan_until(s, i, |c: char| !is_java_word(c))
}

/// The first position of `t` at or after `i`.
pub open spec fn java_char_pos(s: Seq<char>, i: int, t: char) -> int {
    scan_until(s, i, |c: char| c == t)
}

/// The first position whose character is above the space character,
/// the start of the line after Java's `trim`.
pub open spec fn java_trim_start(s: Seq<char>) -> int {
    scan_until(s, 0, |c: char| (c as u32) > 32)
}

/// The end of the line after Java's `trim`, scanning from `j` down.
pub open spec fn java_trim_end(s: Seq<char>, j: int) -> int
    decreases j,
{
    if j <= 0 {
        0
    } else if (s[j - 1] as u32) <= 32 {
        java_trim_end(s, j - 1)
    } else {
        j
    }
}

/// Java's `trim`: both ends stripped of characters at or below the
/// space character.
pub open spec fn trim_java(s: Seq<char>) -> Seq<char> {
    let a = java_trim_start(s);
    if a >= s.len() {
        Seq::empty()
    } else {
        s.subrange(a, java_trim_end(s, s.len() as int))
    }
}

/// Whether the line holds only whitespace.
pub open spec fn spec_is_empty_line(s: Seq<char>) -> bool {
    forall|j: int| 0 <= j < s.len() ==> is_java_space(#[trigger] s[j])
}

/// Whether the line is a comment: `#` or four slashes at its start.
pub open spec fn spec_is_comment(s: Seq<char>) -> bool {
    (s.len() >= 1 && s[0] == '#') || (s.len() >= 4 && s[0] == '/' && s[1] == '/' && s[2] == '/'
        && s[3] == '/')
}

/// Whether the line trims to nothing.
pub open spec fn spec_is_blank(s: Seq<char>) -> bool {
    trim_java(s).len() == 0
}

/// The value after normalisation: trimmed, and stripped of one pair
/// of surrounding double quotes.
pub open spec fn normalize_java(v: Seq<char>) -> Seq<char> {
    let t = trim_java(v);
    if t.len() > 1 && t[0] == '"' && t[t.len() - 1] == '"' {
        t.subrange(1, t.len() - 1)
    } else {
        t
    }
}

/// The write or failure a trimmed line asks for, after the quoted or
/// unquoted value is delimited.
pub open spec fn java_finish(
    line: Seq<char>,
    lineno: usize,
    strict: bool,
    key_start: int,
    key_end: int,
    value_start: int,
    value_end: int,
) -> LineAction {
    let key = line.subrange(key_start, key_end);
    let value = line.subrange(value_start, value_end);
    if value == seq!['"'] {
        if strict {
            LineAction::Fail(spec_syntax_error(lineno, 1))
        } else {
            LineAction::Skip
        }
    } else {
        LineAction::Write(key, normalize_java(value))
    }
}

/// What one trimmed line asks of the store.  A missing key, a
/// missing `=` and a lone double quote are syntax errors under
/// `strict` and skipped lines otherwise; trailing content after a
/// quoted value falls back to an unquoted reading in either mode.
pub open spec fn java_line_action(line: Seq<char>, lineno: usize, strict: bool) -> LineAction {
    let key_start = java_ws_end(line, 0);
    let key_end = java_word_end(line, key_start);
    if key_start == key_end {
        if strict {
            LineAction::Fail(spec_syntax_error(lineno, 1))
        } else {
            LineAction::Skip
        }
    } else {
        let idx1 = java_ws_end(line, key_end);
        if idx1 >= line.len() || line[idx1] != '=' {
            if strict {
                LineAction::Fail(spec_syntax_error(lineno, 1))
            } else {
                LineAction::Skip
            }
        } else {
            let value_start = java_ws_end(line, idx1 + 1);
            let qend = if value_start < line.len() && (line[value_start] == '"'
                || line[value_start] == '\'') {
                let q = java_char_pos(line, value_start + 1, line[value_start]);
                if q < line.len() {
                    q + 1
                } else {
                    value_start
                }
            } else {
                value_start
            };
            if value_start == qend {
                java_finish(
                    line,
                    lineno,
                    strict,
                    key_start,
                    key_end,
                    value_start,
                    java_char_pos(line, value_start, '#'),
                )
            } else {
                let idx3 = java_ws_end(line, qend);
                if idx3 < line.len() && line[idx3] != '#' {
                    // trailing content after the closing quote: fall
                    // back to an unquoted reading, in either mode
                    java_finish(
                        line,
                        lineno,
                        strict,
                        key_start,
                        key_end,
                        value_start,
                        java_char_pos(line, value_start, '#'),
                    )
                } else {
                    java_finish(line, lineno, strict, key_start, key_end, value_start, qend)
                }
            }
        }
    }
}

/// The outcome of this dialect from line `idx` on.
pub open spec fn java_from(
    lines: Seq<Seq<char>>,
    idx: int,
    env: EnvModel,
    override_env: bool,
    strict: bool,
) -> ParseOut
    decreases lines.len() - idx,
{
    if idx < 0 || idx >= lines.len() {
        ParseOut::done(env, Seq::empty())
    } else {
        let lineno = (idx + 1) as usize;
        let t = trim_java(lines[idx]);
        if spec_is_empty_line(t) || spec_is_comment(t) || spec_is_blank(t) {
            java_from(lines, idx + 1, env, override_env, strict)
        } else {
            match java_line_action(t, lineno, strict) {
                LineAction::Skip => java_from(lines, idx + 1, env, override_env, strict),
                LineAction::Fail(e) => ParseOut::fail(e, env, Seq::empty()),
                LineAction::Write(k, v) => {
                    let kk = cut_nul(k);
                    let vv = cut_nul(v);
                    let env2 = spec_set_var(env, kk, vv, override_env);
                    let rest = java_from(lines, idx + 1, env2, override_env, strict);
                    ParseOut {
                        err: rest.err,
                        env: rest.env,
                        writes: seq![(kk, vv)] + rest.writes,
                    }
                },
            }
        }
    }
}

/// The outcome of this dialect on a whole source.
pub open spec fn java_spec(
    src: Seq<char>,
    env: EnvModel,
    override_env: bool,
    strict: bool,
) -> ParseOut {
    java_from(spec_split_lines(src), 0, env, override_env, strict)
}

fn is_space_char(c: char) -> (r: bool)
    ensures
        r == is_java_space(c),
{
    c == ' ' || c == '\t' || c == '\n' || c == '\u{B}' || c == '\u{C}' || c == '\r'
}

fn is_word_char(c: char) -> (r: bool)
    ensures
        r == is_java_word(c),
{
    let u = c as u32;
    (u >= 97 && u <= 122) || (u >= 65 && u <= 90) || (u >= 48 && u <= 57) || c == '_' || c == '.'
        || c == '-'
}

/// Skips whitespace from `i` on.
pub fn skip_ws(line: &Vec<char>, i: usize) -> (r: usize)
    requires
        i <= line@.len(),
    ensures
        r == java_ws_end(line@, i as int),
        i <= r <= line@.len(),
        r < line@.len() ==> !is_java_space(line@[r as int]),
{
    let n = line.len();
    let mut j = i;
    while j < n
        invariant
            i <= j <= n,
            n == line@.len(),
            java_ws_end(line@, i as int) == java_ws_end(line@, j as int),
        decreases n - j,
    {
        if !is_space_char(line[j]) {
            return j;
        }
        j = j + 1;
    }
    j
}

/// Finds the end of the word starting at `i`.
pub fn find_vardef_end(line: &Vec<char>, i: usize) -> (r: usize)
    requires
        i <= line@.len(),
    ensures
        r == java_word_end(line@, i as int),
        i <= r <= line@.len(),
{
    let n = line.len();
    let mut j = i;
    while j < n
        invariant
            i <= j <= n,
            n == line@.len(),
            java_word_end(line@, i as int) == java_word_end(line@, j as int),
        decreases n - j,
    {
        if !is_word_char(line[j]) {
            return j;
        }
        j = j + 1;
    }
    j
}

/// Finds the first occurrence of `t` at or after `i`.
fn find_char(line: &Vec<char>, i: usize, t: char) -> (r: usize)
    requires
        i <= line@.len(),
    ensures
        r == java_char_pos(line@, i as int, t),
        i <= r <= line@.len(),
        r < line@.len() ==> line@[r as int] == t,
{
    let n = line.len();
    let mut j = i;
    while j < n
        invariant
            i <= j <= n,
            n == line@.len(),
            java_char_pos(line@, i as int, t) == java_char_pos(line@, j as int, t),
        decreases n - j,
    {
        if line[j] == t {
            return j;
        }
        j = j + 1;
    }
    j
}

/// The start of the trimmed line.
fn trim_start_pos(line: &Vec<char>) -> (r: usize)
    ensures
        r == java_trim_start(line@),
        r <= line@.len(),
        r < line@.len() ==> (line@[r as int] as u32) > 32,
{
    let n = line.len();
    let mut a: usize = 0;
    while a < n
        invariant
            a <= n,
            n == line@.len(),
            java_trim_start(line@) == scan_until(line@, a as int, |c: char| (c as u32) > 32),
        decreases n - a,
    {
        if (line[a] as u32) > 32 {
            return a;
        }
        a = a + 1;
    }
    a
}

/// Java-compatible trim: strips both ends of characters at or below
/// the space character.
pub fn trim(line: &Vec<char>) -> (r: Vec<char>)
    ensures
        r@ == trim_java(line@),
{
    let n = line.len();
    let a = trim_start_pos(line);
    if a >= n {
        let r: Vec<char> = Vec::new();
        proof {
            assert(r@ =~= trim_java(line@));
        }
        return r;
    }
    let mut b: usize = n;
    while b > 0 && (line[b - 1] as u32) <= 32
        invariant
            0 <= b <= n,
            n == line@.len(),
            java_trim_end(line@, n as int) == java_trim_end(line@, b as int),
        decreases b,
    {
        b = b - 1;
    }
    proof {
        lemma_java_trim_end_above(line@, n as int, a as int);
        lemma_java_trim_end_le(line@, b as int);
    }
    subvec(line, a, b)
}

proof fn lemma_java_trim_end_above(s: Seq<char>, j: int, a: int)
    requires
        0 <= a < s.len(),
        (s[a] as u32) > 32,
        a < j <= s.len(),
    ensures
        java_trim_end(s, j) > a,
    decreases j,
{
    if (s[j - 1] as u32) <= 32 {
        if j - 1 > a {
            lemma_java_trim_end_above(s, j - 1, a);
        }
    }
}

proof fn lemma_java_trim_end_le(s: Seq<char>, j: int)
    requires
        0 <= j,
    ensures
        java_trim_end(s, j) <= j,
    decreases j,
{
    if j > 0 && (s[j - 1] as u32) <= 32 {
        lemma_java_trim_end_le(s, j - 1);
    }
}

/// Whether the line holds only whitespace.
pub fn is_empty_line(line: &Vec<char>) -> (r: bool)
    ensures
        r == spec_is_empty_line(line@),
{
    let n = line.len();
    let mut j: usize = 0;
    while j < n
        invariant
            j <= n,
            n == line@.len(),
            forall|l: int| 0 <= l < j ==> is_java_space(#[trigger] line@[l]),
        decreases n - j,
    {
        if !is_space_char(line[j]) {
            return false;
        }
        j = j + 1;
    }
    true
}

/// Whether the line is a comment line.
pub fn is_comment(line: &Vec<char>) -> (r: bool)
    ensures
        r == spec_is_comment(line@),
{
    if line.len() >= 1 && line[0] == '#' {
        return true;
    }
    line.len() >= 4 && line[0] == '/' && line[1] == '/' && line[2] == '/' && line[3] == '/'
}

/// Whether the line trims to nothing.
pub fn is_blank(line: &Vec<char>) -> (r: bool)
    ensures
        r == spec_is_blank(line@),
{
    let t = trim(line);
    t.len() == 0
}

/// Normalises a value: trims it and strips one pair of surrounding
/// double quotes.
pub fn normalize_value(value: &Vec<char>) -> (r: Vec<char>)
    ensures
        r@ == normalize_java(value@),
{
    let t = trim(value);
    if t.len() > 1 && t[0] == '"' && t[t.len() - 1] == '"' {
        let n = t.len();
        subvec(&t, 1, n - 1)
    } else {
        t
    }
}

/// Parses a source in the Java dotenv dialect.  The outcome, store
/// included, is exactly `java_spec`.
pub fn config_java_dotenv(src: &str, env: &mut MemoryEnv, options: &Options) -> (r: Result<
    (),
    Error,
>)
    requires
        old(env).wf(),
        src@.len() < usize::MAX,
    ensures
        final(env).wf(),
        ({
            let out = java_spec(src@, old(env).as_map(), options.override_env, options.strict);
            &&& final(env).as_map() == out.env
            &&& final(env).entries_seq() == apply_writes(
                old(env).entries_seq(),
                out.writes,
                0,
                options.override_env,
            )
            &&& (match r {
                Ok(()) => out.err is None,
                Err(e) => out.err == Some(e),
            })
        }),
{
    let lines = split_lines(src);
    proof {
        crate::line_splitter::lemma_split_lines_count(src@, 0);
    }
    let n = lines.len();
    let ghost lv = lines.deep_view();
    let ghost target = java_spec(src@, old(env).as_map(), options.override_env, options.strict);
    let mut i: usize = 0;
    while i < n
        invariant
            env.wf(),
            n == lv.len(),
            n <= src@.len() < usize::MAX,
            i <= n,
            lv == lines.deep_view(),
            lv == spec_split_lines(src@),
            target == java_spec(src@, old(env).as_map(), options.override_env, options.strict),
            ({
                let cur = java_from(
                    lv,
                    i as int,
                    env.as_map(),
                    options.override_env,
                    options.strict,
                );
                &&& target.err == cur.err
                &&& target.env == cur.env
                &&& apply_writes(old(env).entries_seq(), target.writes, 0, options.override_env)
                    == apply_writes(env.entries_seq(), cur.writes, 0, options.override_env)
            }),
        decreases n - i,
    {
        let lineno = i + 1;
        let line_chars = chars_of(lines[i].as_str());
        proof {
            assert(line_chars@ == lv[i as int]);
        }
        let t = trim(&line_chars);
        if is_empty_line(&t) || is_comment(&t) || is_blank(&t) {
            i = i + 1;
            continue;
        }
        let key_start = skip_ws(&t, 0);
        let key_end = find_vardef_end(&t, key_start);
        if key_start == key_end {
            if options.strict {
                return Err(Error::syntax_error(lineno, 1));
            }
            i = i + 1;
            continue;
        }
        let idx1 = skip_ws(&t, key_end);
        if idx1 >= t.len() || t[idx1] != '=' {
            if options.strict {
                return Err(Error::syntax_error(lineno, 1));
            }
            i = i + 1;
            continue;
        }
        let value_start = skip_ws(&t, idx1 + 1);
        let mut value_end: usize = value_start;
        if value_start < t.len() {
            let q = t[value_start];
            if q == '"' || q == '\'' {
                let qp = find_char(&t, value_start + 1, q);
                if qp < t.len() {
                    value_end = qp + 1;
                }
            }
        }
        if value_start == value_end {
            value_end = find_char(&t, value_start, '#');
        } else {
            let idx3 = skip_ws(&t, value_end);
            if idx3 < t.len() && t[idx3] != '#' {
                // trailing content after the closing quote: fall back
                // to an unquoted reading, in either mode
                value_end = find_char(&t, value_start, '#');
            }
        }
        let key = subvec(&t, key_start, key_end);
        let value = subvec(&t, value_start, value_end);
        if value.len() == 1 && value[0] == '"' {
            proof {
                assert(value@ =~= seq!['"']);
            }
            if options.strict {
                return Err(Error::syntax_error(lineno, 1));
            }
            i = i + 1;
            continue;
        }
        proof {
            if value@.len() == 1 {
                assert(value@[0] != '"');
            }
            assert(value@ != seq!['"']);
        }
        let value_n = normalize_value(&value);
        let ghost envb = env.as_map();
        let ghost eb = env.entries_seq();
        options.set_var_cut_nul(env, &key, &value_n);
        proof {
            let w = (cut_nul(key@), cut_nul(value_n@));
            let cur = java_from(lv, i as int, envb, options.override_env, options.strict);
            let rest = java_from(
                lv,
                i + 1,
                spec_set_var(envb, w.0, w.1, options.override_env),
                options.override_env,
                options.strict,
            );
            assert(cur.writes == seq![w] + rest.writes);
            crate::model::lemma_apply_writes_step(eb, w, rest.writes, options.override_env);
        }
        i = i + 1;
    }
    Ok(())
}

} // verus!
