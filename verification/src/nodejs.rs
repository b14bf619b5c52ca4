//! The Node.js dialect: carriage returns removed up front, the whole
//! buffer trimmed of spaces, bindings split at `=`, quoted values
//! closed by the next equal quote, `\n` expanded inside double
//! quotes, and keys and values truncated at the first null byte.
//! This parser reports no syntax errors: malformed content ends the
//! scan or is taken literally, as the upstream tool does.

use vstd::prelude::*;

use crate::env::MemoryEnv;
use crate::error::Error;
use crate::model::{EnvModel, ParseOut, apply_writes, char_pos, cut_nul, lemma_char_pos, spec_set_var};
use crate::options::Options;
use crate::text::{chars_of, subvec};

verus! {

/// The text with every carriage return removed.
pub open spec fn strip_cr(s: Seq<char>) -> Seq<char>
    decreases s.len(),
{
    if s.len() == 0 {
        Seq::empty()
    } else if s.last() == '\r' {
        strip_cr(s.drop_last())
    } else {
        strip_cr(s.drop_last()).push(s.last())
    }
}

/// The first position that is not a space character.
pub open spec fn sp_start(s: Seq<char>, i: int) -> int
    decreases s.len() - i,
{
    if i < 0 || i >= s.len() {
        s.len() as int
    } else if s[i] == ' ' {
        sp_start(s, i + 1)
    } else {
        i
    }
}

/// The end of the text after stripping trailing spaces from `j` down.
pub open spec fn sp_end(s: Seq<char>, j: int) -> int
    decreases j,
{
    if j <= 0 {
        0
    } else if s[j - 1] == ' ' {
        sp_end(s, j - 1)
    } else {
        j
    }
}

/// The text with spaces stripped from both ends, the behaviour of
/// `trim_matches(' ')`.
pub open spec fn sp_trim(s: Seq<char>) -> Seq<char> {
    let a = sp_start(s, 0);
    if a >= s.len() {
        Seq::empty()
    } else {
        s.subrange(a, sp_end(s, s.len() as int))
    }
}

/// Whether the text starts with `export` and a space.
pub open spec fn node_export_prefix(s: Seq<char>) -> bool {
    s.len() >= 7 && s[0] == 'e' && s[1] == 'x' && s[2] == 'p' && s[3] == 'o' && s[4] == 'r'
        && s[5] == 't' && s[6] == ' '
}

/// The text with every two-character `\n` sequence replaced by a
/// newline, as this dialect expands double-quoted values.
pub open spec fn expand_bsn(s: Seq<char>, i: int) -> Seq<char>
    decreases s.len() - i,
{
    if i < 0 || i >= s.len() {
        Seq::empty()
    } else if s[i] == '\\' && i + 1 < s.len() && s[i + 1] == 'n' {
        seq!['\n'] + expand_bsn(s, i + 2)
    } else {
        seq![s[i]] + expand_bsn(s, i + 1)
    }
}

/// The outcome of the Node.js dialect on the prepared content (no
/// carriage returns, spaces trimmed) from position `a` on.
pub open spec fn node_from(c: Seq<char>, a: int, env: EnvModel, override_env: bool) -> ParseOut
    decreases c.len() - a, 1int
        via node_from_decreases
{
    if a < 0 || a >= c.len() {
        ParseOut::done(env, Seq::empty())
    } else if (c[a] == '\n' || c[a] == '#') && char_pos(c, a, '\n') < c.len() {
        node_from(c, char_pos(c, a, '\n') + 1, env, override_env)
    } else {
        let eq = char_pos(c, a, '=');
        if eq >= c.len() {
            ParseOut::done(env, Seq::empty())
        } else {
            let key1 = sp_trim(c.subrange(a, eq));
            if key1.len() == 0 {
                ParseOut::done(env, Seq::empty())
            } else {
                let key = if node_export_prefix(key1) {
                    key1.subrange(7, key1.len() as int)
                } else {
                    key1
                };
                node_value(c, eq + 1, key, env, override_env)
            }
        }
    }
}

/// The value of one binding and the rest of the scan, from the
/// position just after the `=`.
pub open spec fn node_value(
    c: Seq<char>,
    a2: int,
    key: Seq<char>,
    env: EnvModel,
    override_env: bool,
) -> ParseOut
    decreases c.len() - a2 + 1, 0int
        via node_value_decreases
{
    if a2 < 0 || a2 > c.len() {
        ParseOut::done(env, Seq::empty())
    } else if a2 >= c.len() {
        node_write(c, c.len() as int, key, Seq::empty(), env, override_env)
    } else if c[a2] == '"' && char_pos(c, a2 + 1, '"') < c.len() {
        let cq = char_pos(c, a2 + 1, '"');
        let value = expand_bsn(c.subrange(a2 + 1, cq), 0);
        node_write(c, char_pos(c, cq, '\n'), key, value, env, override_env)
    } else if c[a2] == '\'' || c[a2] == '"' || c[a2] == '`' {
        let cq = char_pos(c, a2 + 1, c[a2]);
        if cq < c.len() {
            node_write(c, char_pos(c, cq, '\n'), key, c.subrange(a2 + 1, cq), env, override_env)
        } else {
            let nl = char_pos(c, a2, '\n');
            node_write(c, nl, key, c.subrange(a2, nl), env, override_env)
        }
    } else {
        let nl = char_pos(c, a2, '\n');
        let h = char_pos(c, a2, '#');
        let ve = if h < nl {
            h
        } else {
            nl
        };
        node_write(c, nl, key, sp_trim(c.subrange(a2, ve)), env, override_env)
    }
}

/// One write, truncated at null bytes, and the scan of the rest.
pub open spec fn node_write(
    c: Seq<char>,
    a: int,
    key: Seq<char>,
    value: Seq<char>,
    env: EnvModel,
    override_env: bool,
) -> ParseOut
    decreases c.len() - a, 2int
        via node_write_decreases
{
    let kk = cut_nul(key);
    let vv = cut_nul(value);
    let env2 = spec_set_var(env, kk, vv, override_env);
    let rest = node_from(c, a, env2, override_env);
    ParseOut { err: rest.err, env: rest.env, writes: seq![(kk, vv)] + rest.writes }
}

#[via_fn]
proof fn node_from_decreases(c: Seq<char>, a: int, env: EnvModel, override_env: bool) {
    if 0 <= a < c.len() {
        lemma_char_pos(c, a, '\n');
        lemma_char_pos(c, a, '=');
    }
}

#[via_fn]
proof fn node_value_decreases(
    c: Seq<char>,
    a2: int,
    key: Seq<char>,
    env: EnvModel,
    override_env: bool,
) {
    if 0 <= a2 < c.len() {
        lemma_char_pos(c, a2 + 1, '"');
        lemma_char_pos(c, a2 + 1, c[a2]);
        lemma_char_pos(c, a2, '\n');
        let cq = char_pos(c, a2 + 1, c[a2]);
        if cq < c.len() {
            lemma_char_pos(c, cq, '\n');
        }
        let cq2 = char_pos(c, a2 + 1, '"');
        if cq2 < c.len() {
            lemma_char_pos(c, cq2, '\n');
        }
    }
}

#[via_fn]
proof fn node_write_decreases(
    c: Seq<char>,
    a: int,
    key: Seq<char>,
    value: Seq<char>,
    env: EnvModel,
    override_env: bool,
) {
}

/// The outcome of the Node.js dialect on a whole source.
pub open spec fn node_spec(
    src: Seq<char>,
    env: EnvModel,
    override_env: bool,
) -> ParseOut {
    let f = strip_cr(src);
    let a = sp_start(f, 0);
    if a >= f.len() {
        ParseOut::done(env, Seq::empty())
    } else {
        node_from(f.subrange(a, sp_end(f, f.len() as int)), 0, env, override_env)
    }
}

/// Removes every carriage return.
fn strip_cr_vec(v: &Vec<char>) -> (r: Vec<char>)
    ensures
        r@ == strip_cr(v@),
{
    let n = v.len();
    let mut r: Vec<char> = Vec::new();
    let mut i: usize = 0;
    proof {
        assert(v@.subrange(0, 0) =~= Seq::<char>::empty());
        assert(r@ =~= strip_cr(v@.subrange(0, 0)));
    }
    while i < n
        invariant
            i <= n,
            n == v@.len(),
            r@ == strip_cr(v@.subrange(0, i as int)),
        decreases n - i,
    {
        proof {
            assert(v@.subrange(0, i + 1).drop_last() =~= v@.subrange(0, i as int));
            assert(v@.subrange(0, i + 1).last() == v@[i as int]);
        }
        if v[i] != '\r' {
            r.push(v[i]);
        }
        i = i + 1;
    }
    proof {
        assert(v@.subrange(0, n as int) =~= v@);
    }
    r
}

/// The first position that is not a space.
fn sp_start_pos(v: &Vec<char>, i: usize) -> (r: usize)
    requires
        i <= v@.len(),
    ensures
        r == sp_start(v@, i as int),
        i <= r <= v@.len(),
        r < v@.len() ==> v@[r as int] != ' ',
{
    let n = v.len();
    let mut j = i;
    while j < n
        invariant
            i <= j <= n,
            n == v@.len(),
            sp_start(v@, i as int) == sp_start(v@, j as int),
        decreases n - j,
    {
        if v[j] != ' ' {
            return j;
        }
        j = j + 1;
    }
    j
}

proof fn lemma_sp_end_above(s: Seq<char>, j: int, a: int)
    requires
        0 <= a < s.len(),
        s[a] != ' ',
        a < j <= s.len(),
    ensures
        a < sp_end(s, j) <= j,
    decreases j,
{
    if s[j - 1] == ' ' {
        if j - 1 > a {
            lemma_sp_end_above(s, j - 1, a);
        }
    }
}

/// Strips spaces from both ends, as `trim_matches(' ')` does.
fn sp_trim_vec(v: &Vec<char>) -> (r: Vec<char>)
    ensures
        r@ == sp_trim(v@),
{
    let n = v.len();
    let a = sp_start_pos(v, 0);
    if a >= n {
        let r: Vec<char> = Vec::new();
        proof {
            assert(r@ =~= sp_trim(v@));
        }
        return r;
    }
    let mut b: usize = n;
    while b > 0 && v[b - 1] == ' '
        invariant
            0 <= b <= n,
            n == v@.len(),
            sp_end(v@, n as int) == sp_end(v@, b as int),
        decreases b,
    {
        b = b - 1;
    }
    proof {
        lemma_sp_end_above(v@, n as int, a as int);
    }
    subvec(v, a, b)
}

/// Finds the first occurrence of `t` at or after `i`.
fn find_char(v: &Vec<char>, i: usize, t: char) -> (r: usize)
    requires
        i <= v@.len(),
    ensures
        r == char_pos(v@, i as int, t),
        i <= r <= v@.len(),
        r < v@.len() ==> v@[r as int] == t,
{
    let n = v.len();
    let mut j = i;
    while j < n
        invariant
            i <= j <= n,
            n == v@.len(),
            char_pos(v@, i as int, t) == char_pos(v@, j as int, t),
        decreases n - j,
    {
        if v[j] == t {
            return j;
        }
        j = j + 1;
    }
    j
}

/// Whether the text starts with `export` and a space.
fn has_export(v: &Vec<char>) -> (r: bool)
    ensures
        r == node_export_prefix(v@),
{
    v.len() >= 7 && v[0] == 'e' && v[1] == 'x' && v[2] == 'p' && v[3] == 'o' && v[4] == 'r'
        && v[5] == 't' && v[6] == ' '
}

/// Expands two-character `\n` sequences into newlines.
fn expand_bsn_vec(v: &Vec<char>) -> (r: Vec<char>)
    ensures
        r@ == expand_bsn(v@, 0),
{
    let n = v.len();
    let mut r: Vec<char> = Vec::new();
    let mut i: usize = 0;
    while i < n
        invariant
            i <= n,
            n == v@.len(),
            expand_bsn(v@, 0) == r@ + expand_bsn(v@, i as int),
        decreases n - i,
    {
        let ghost prev = r@;
        if v[i] == '\\' && i + 1 < n && v[i + 1] == 'n' {
            r.push('\n');
            i = i + 2;
            proof {
                assert(r@ =~= prev.push('\n'));
                assert(prev + (seq!['\n'] + expand_bsn(v@, i as int)) =~= r@ + expand_bsn(
                    v@,
                    i as int,
                ));
            }
        } else {
            r.push(v[i]);
            proof {
                assert(r@ =~= prev.push(v@[i as int]));
                assert(prev + (seq![v@[i as int]] + expand_bsn(v@, i + 1)) =~= r@ + expand_bsn(
                    v@,
                    i + 1,
                ));
            }
            i = i + 1;
        }
    }
    proof {
        assert(expand_bsn(v@, n as int) =~= Seq::<char>::empty());
        assert(expand_bsn(v@, 0) =~= r@);
    }
    r
}

/// Parses a source in the Node.js dialect.  The outcome, store
/// included, is exactly `node_spec`; this dialect reports no error.
#[verifier::rlimit(100)]
#[verifier::spinoff_prover]
pub fn config_nodejs(src: &str, env: &mut MemoryEnv, options: &Options) -> (r: Result<(), Error>)
    requires
        old(env).wf(),
        src@.len() < usize::MAX,
    ensures
        final(env).wf(),
        final(env).as_map() == node_spec(src@, old(env).as_map(), options.override_env).env,
        final(env).entries_seq() == apply_writes(
            old(env).entries_seq(),
            node_spec(src@, old(env).as_map(), options.override_env).writes,
            0,
            options.override_env,
        ),
        r is Ok,
{
    let all = chars_of(src);
    let f = strip_cr_vec(&all);
    let fa = sp_start_pos(&f, 0);
    if fa >= f.len() {
        return Ok(());
    }
    let mut b: usize = f.len();
    while b > 0 && f[b - 1] == ' '
        invariant
            0 <= b <= f@.len(),
            sp_end(f@, f@.len() as int) == sp_end(f@, b as int),
        decreases b,
    {
        b = b - 1;
    }
    proof {
        lemma_sp_end_above(f@, f@.len() as int, fa as int);
    }
    let content = subvec(&f, fa, b);
    let c = content.len();
    let ghost target = node_spec(src@, old(env).as_map(), options.override_env);
    proof {
        assert(target == node_from(content@, 0, old(env).as_map(), options.override_env));
    }
    let mut a: usize = 0;
    while a < c
        invariant
            env.wf(),
            c == content@.len(),
            a <= c,
            target == node_spec(src@, old(env).as_map(), options.override_env),
            ({
                let cur = node_from(content@, a as int, env.as_map(), options.override_env);
                &&& target.err == cur.err
                &&& target.env == cur.env
                &&& apply_writes(old(env).entries_seq(), target.writes, 0, options.override_env)
                    == apply_writes(env.entries_seq(), cur.writes, 0, options.override_env)
            }),
        decreases c - a,
    {
        proof {
            reveal_with_fuel(node_from, 3);
            reveal_with_fuel(node_value, 2);
            reveal_with_fuel(node_write, 2);
        }
        let ch = content[a];
        if ch == '\n' || ch == '#' {
            let nl = find_char(&content, a, '\n');
            if nl < c {
                a = nl + 1;
                continue;
            }
        }
        let eq = find_char(&content, a, '=');
        if eq >= c {
            return Ok(());
        }
        let key0 = subvec(&content, a, eq);
        let key1 = sp_trim_vec(&key0);
        if key1.len() == 0 {
            return Ok(());
        }
        let key = if has_export(&key1) {
            let kn = key1.len();
            subvec(&key1, 7, kn)
        } else {
            key1
        };
        let a2 = eq + 1;
        if a2 >= c {
            let empty_value: Vec<char> = Vec::new();
            let ghost envb = env.as_map();
            let ghost eb = env.entries_seq();
            proof {
                assert(empty_value@ =~= Seq::<char>::empty());
            }
            options.set_var_cut_nul(env, &key, &empty_value);
            proof {
                let cb = content@;
                let cur = node_from(cb, a as int, envb, options.override_env);
                assert(cur == node_value(cb, eq + 1, key@, envb, options.override_env));
                assert(cur == node_write(cb, cb.len() as int, key@, Seq::<char>::empty(), envb, options.override_env));
                let w = (cut_nul(key@), cut_nul(Seq::<char>::empty()));
                let env2 = spec_set_var(envb, w.0, w.1, options.override_env);
                let rest = node_from(cb, cb.len() as int, env2, options.override_env);
                assert(rest == ParseOut::done(env2, Seq::empty()));
                assert(cur.env == env2);
                assert(env.as_map() == env2);
                assert(cur.writes == seq![w] + rest.writes);
                crate::model::lemma_apply_writes_step(eb, w, rest.writes, options.override_env);
                assert(apply_writes(eb, cur.writes, 0, options.override_env) == env.entries_seq());
            }
            return Ok(());
        }
        let front = content[a2];
        if front == '"' {
            let cq = find_char(&content, a2 + 1, '"');
            if cq < c {
                let raw = subvec(&content, a2 + 1, cq);
                let value = expand_bsn_vec(&raw);
                let ghost envb = env.as_map();
                let ghost eb = env.entries_seq();
                options.set_var_cut_nul(env, &key, &value);
                let a_next = find_char(&content, cq, '\n');
                proof {
                    let cb = content@;
                    let w = (cut_nul(key@), cut_nul(value@));
                    let env2 = spec_set_var(envb, w.0, w.1, options.override_env);
                    let rest = node_from(cb, a_next as int, env2, options.override_env);
                    let cur = node_from(cb, a as int, envb, options.override_env);
                    assert(cur.writes == seq![w] + rest.writes);
                    crate::model::lemma_apply_writes_step(
                        eb,
                        w,
                        rest.writes,
                        options.override_env,
                    );
                }
                a = a_next;
                continue;
            }
        }
        if front == '\'' || front == '"' || front == '`' {
            let cq = find_char(&content, a2 + 1, front);
            if cq < c {
                let value = subvec(&content, a2 + 1, cq);
                let ghost envb = env.as_map();
                let ghost eb = env.entries_seq();
                options.set_var_cut_nul(env, &key, &value);
                let a_next = find_char(&content, cq, '\n');
                proof {
                    let cb = content@;
                    let w = (cut_nul(key@), cut_nul(value@));
                    let env2 = spec_set_var(envb, w.0, w.1, options.override_env);
                    let rest = node_from(cb, a_next as int, env2, options.override_env);
                    let cur = node_from(cb, a as int, envb, options.override_env);
                    assert(cur.writes == seq![w] + rest.writes);
                    crate::model::lemma_apply_writes_step(
                        eb,
                        w,
                        rest.writes,
                        options.override_env,
                    );
                }
                a = a_next;
            } else {
                let nl = find_char(&content, a2, '\n');
                let value = subvec(&content, a2, nl);
                let ghost envb = env.as_map();
                let ghost eb = env.entries_seq();
                options.set_var_cut_nul(env, &key, &value);
                proof {
                    let cb = content@;
                    let w = (cut_nul(key@), cut_nul(value@));
                    let env2 = spec_set_var(envb, w.0, w.1, options.override_env);
                    let rest = node_from(cb, nl as int, env2, options.override_env);
                    let cur = node_from(cb, a as int, envb, options.override_env);
                    assert(cur.writes == seq![w] + rest.writes);
                    crate::model::lemma_apply_writes_step(
                        eb,
                        w,
                        rest.writes,
                        options.override_env,
                    );
                }
                a = nl;
            }
        } else {
            let nl = find_char(&content, a2, '\n');
            let h = find_char(&content, a2, '#');
            let ve = if h < nl {
                h
            } else {
                nl
            };
            let value0 = subvec(&content, a2, ve);
            let value = sp_trim_vec(&value0);
            let ghost envb = env.as_map();
            let ghost eb = env.entries_seq();
            options.set_var_cut_nul(env, &key, &value);
            proof {
                let cb = content@;
                let w = (cut_nul(key@), cut_nul(value@));
                let env2 = spec_set_var(envb, w.0, w.1, options.override_env);
                let rest = node_from(cb, nl as int, env2, options.override_env);
                let cur = node_from(cb, a as int, envb, options.override_env);
                assert(cur.writes == seq![w] + rest.writes);
                crate::model::lemma_apply_writes_step(eb, w, rest.writes, options.override_env);
            }
            a = nl;
        }
    }
    Ok(())
}


/// This dialect reports no error, whatever the source.
pub proof fn lemma_node_from_no_err(c: Seq<char>, a: int, env: EnvModel, override_env: bool)
    ensures
        node_from(c, a, env, override_env).err is None,
    decreases c.len() - a, 1int,
{
    if 0 <= a < c.len() {
        if (c[a] == '\n' || c[a] == '#') && char_pos(c, a, '\n') < c.len() {
            lemma_char_pos(c, a, '\n');
            lemma_node_from_no_err(c, char_pos(c, a, '\n') + 1, env, override_env);
        } else {
            let eq = char_pos(c, a, '=');
            lemma_char_pos(c, a, '=');
            if eq < c.len() {
                let key1 = sp_trim(c.subrange(a, eq));
                if key1.len() != 0 {
                    let key = if node_export_prefix(key1) {
                        key1.subrange(7, key1.len() as int)
                    } else {
                        key1
                    };
                    lemma_node_value_no_err(c, eq + 1, key, env, override_env);
                }
            }
        }
    }
}

proof fn lemma_node_value_no_err(
    c: Seq<char>,
    a2: int,
    key: Seq<char>,
    env: EnvModel,
    override_env: bool,
)
    ensures
        node_value(c, a2, key, env, override_env).err is None,
    decreases c.len() - a2 + 1, 0int,
{
    if 0 <= a2 <= c.len() {
        if a2 >= c.len() {
            lemma_node_write_no_err(c, c.len() as int, key, Seq::empty(), env, override_env);
        } else {
            lemma_char_pos(c, a2 + 1, '"');
            lemma_char_pos(c, a2 + 1, c[a2]);
            lemma_char_pos(c, a2, '\n');
            if c[a2] == '"' && char_pos(c, a2 + 1, '"') < c.len() {
                let cq = char_pos(c, a2 + 1, '"');
                lemma_char_pos(c, cq, '\n');
                lemma_node_write_no_err(
                    c,
                    char_pos(c, cq, '\n'),
                    key,
                    expand_bsn(c.subrange(a2 + 1, cq), 0),
                    env,
                    override_env,
                );
            } else if c[a2] == '\'' || c[a2] == '"' || c[a2] == '`' {
                let cq = char_pos(c, a2 + 1, c[a2]);
                if cq < c.len() {
                    lemma_char_pos(c, cq, '\n');
                    lemma_node_write_no_err(
                        c,
                        char_pos(c, cq, '\n'),
                        key,
                        c.subrange(a2 + 1, cq),
                        env,
                        override_env,
                    );
                } else {
                    let nl = char_pos(c, a2, '\n');
                    lemma_node_write_no_err(c, nl, key, c.subrange(a2, nl), env, override_env);
                }
            } else {
                let nl = char_pos(c, a2, '\n');
                let h = char_pos(c, a2, '#');
                let ve = if h < nl {
                    h
                } else {
                    nl
                };
                lemma_char_pos(c, a2, '#');
                lemma_node_write_no_err(
                    c,
                    nl,
                    key,
                    sp_trim(c.subrange(a2, ve)),
                    env,
                    override_env,
                );
            }
        }
    }
}

proof fn lemma_node_write_no_err(
    c: Seq<char>,
    a: int,
    key: Seq<char>,
    value: Seq<char>,
    env: EnvModel,
    override_env: bool,
)
    ensures
        node_write(c, a, key, value, env, override_env).err is None,
    decreases c.len() - a, 2int,
{
    let kk = cut_nul(key);
    let vv = cut_nul(value);
    let env2 = spec_set_var(env, kk, vv, override_env);
    lemma_node_from_no_err(c, a, env2, override_env);
}

/// The whole-source outcome of this dialect carries no error.
pub proof fn lemma_node_spec_no_err(src: Seq<char>, env: EnvModel, override_env: bool)
    ensures
        node_spec(src, env, override_env).err is None,
{
    let f = strip_cr(src);
    let a = sp_start(f, 0);
    if a < f.len() {
        lemma_node_from_no_err(f.subrange(a, sp_end(f, f.len() as int)), 0, env, override_env);
    }
}
} // verus!
