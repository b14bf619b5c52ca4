//! The binary dialect: `KEY=VALUE` records terminated by null bytes,
//! UTF-8 validated, no escaping and no substitution.

use vstd::prelude::*;

use crate::env::MemoryEnv;
use crate::error::{Error, spec_syntax_error};
use crate::model::{EnvModel, ParseOut, apply_writes, spec_set_var};
use crate::options::Options;
use crate::text::{chars_of, string_from_utf8, subvec};

verus! {

use vstd::utf8::{valid_utf8, decode_utf8};

/// The position of the first null byte at or after `i`, or the length
/// when there is none.
pub open spec fn record_end(src: Seq<u8>, i: int) -> int
    decreases src.len() - i,
{
    if i < 0 || i >= src.len() {
        src.len() as int
    } else if src[i] == 0 {
        i
    } else {
        record_end(src, i + 1)
    }
}

/// The position of the first `=` byte at or after `i`, or the length
/// when there is none.
pub open spec fn equals_pos(src: Seq<u8>, i: int) -> int
    decreases src.len() - i,
{
    if i < 0 || i >= src.len() {
        src.len() as int
    } else if src[i] == 61 {
        i
    } else {
        equals_pos(src, i + 1)
    }
}

pub proof fn lemma_record_end_bounds(src: Seq<u8>, i: int)
    requires
        0 <= i <= src.len(),
    ensures
        i <= record_end(src, i) <= src.len(),
        record_end(src, i) < src.len() ==> src[record_end(src, i)] == 0,
    decreases src.len() - i,
{
    if i < src.len() && src[i] != 0 {
        lemma_record_end_bounds(src, i + 1);
    }
}

pub proof fn lemma_equals_pos_bounds(src: Seq<u8>, i: int)
    requires
        0 <= i <= src.len(),
    ensures
        i <= equals_pos(src, i) <= src.len(),
        equals_pos(src, i) < src.len() ==> src[equals_pos(src, i)] == 61,
    decreases src.len() - i,
{
    if i < src.len() && src[i] != 61 {
        lemma_equals_pos_bounds(src, i + 1);
    }
}

/// The outcome of the binary dialect from position `i` on: one record
/// per null-terminated line, split at its first `=`, both sides
/// UTF-8-decoded, empty keys rejected, every malformed record a
/// syntax error under `strict` and skipped otherwise.
pub open spec fn binary_from(
    src: Seq<u8>,
    i: int,
    lineno: int,
    env: EnvModel,
    override_env: bool,
    strict: bool,
) -> ParseOut
    decreases src.len() - i,
        via binary_from_decreases
{
    if i < 0 || i >= src.len() {
        ParseOut::done(env, Seq::empty())
    } else {
        let e = record_end(src, i);
        let terminated = e < src.len();
        let line = src.subrange(i, e);
        let byte_count = e - i + if terminated {
            1int
        } else {
            0int
        };
        let next = if terminated {
            e + 1
        } else {
            e
        };
        if !terminated && strict {
            ParseOut::fail(
                spec_syntax_error((lineno + 1) as usize, (byte_count + 1) as usize),
                env,
                Seq::empty(),
            )
        } else {
            let eqp = equals_pos(line, 0);
            if eqp >= line.len() {
                if strict {
                    ParseOut::fail(
                        spec_syntax_error((lineno + 1) as usize, (byte_count + 1) as usize),
                        env,
                        Seq::empty(),
                    )
                } else {
                    binary_from(src, next, lineno + 1, env, override_env, strict)
                }
            } else {
                let key_bytes = line.subrange(0, eqp);
                let value_bytes = line.subrange(eqp + 1, line.len() as int);
                if !valid_utf8(key_bytes) {
                    if strict {
                        ParseOut::fail(spec_syntax_error((lineno + 1) as usize, 1), env, Seq::empty())
                    } else {
                        binary_from(src, next, lineno + 1, env, override_env, strict)
                    }
                } else if !valid_utf8(value_bytes) {
                    if strict {
                        ParseOut::fail(
                            spec_syntax_error((lineno + 1) as usize, (eqp + 2) as usize),
                            env,
                            Seq::empty(),
                        )
                    } else {
                        binary_from(src, next, lineno + 1, env, override_env, strict)
                    }
                } else if eqp == 0 {
                    if strict {
                        ParseOut::fail(spec_syntax_error((lineno + 1) as usize, 1), env, Seq::empty())
                    } else {
                        binary_from(src, next, lineno + 1, env, override_env, strict)
                    }
                } else {
                    let k = decode_utf8(key_bytes);
                    let v = decode_utf8(value_bytes);
                    let env2 = spec_set_var(env, k, v, override_env);
                    let rest = binary_from(src, next, lineno + 1, env2, override_env, strict);
                    ParseOut {
                        err: rest.err,
                        env: rest.env,
                        writes: seq![(k, v)] + rest.writes,
                    }
                }
            }
        }
    }
}

#[via_fn]
proof fn binary_from_decreases(
    src: Seq<u8>,
    i: int,
    lineno: int,
    env: EnvModel,
    override_env: bool,
    strict: bool,
) {
    if 0 <= i < src.len() {
        lemma_record_end_bounds(src, i);
    }
}

/// The outcome of the binary dialect on the whole source.
pub open spec fn binary_spec(
    src: Seq<u8>,
    env: EnvModel,
    override_env: bool,
    strict: bool,
) -> ParseOut {
    binary_from(src, 0, 0, env, override_env, strict)
}

/// Finds the end of the record starting at `i`.
fn find_record_end(src: &Vec<u8>, i: usize) -> (r: usize)
    requires
        i <= src@.len(),
    ensures
        r == record_end(src@, i as int),
        i <= r <= src@.len(),
        r < src@.len() ==> src@[r as int] == 0,
{
    let n = src.len();
    let mut j = i;
    while j < n
        invariant
            i <= j <= n,
            n == src@.len(),
            record_end(src@, i as int) == record_end(src@, j as int),
        decreases n - j,
    {
        if src[j] == 0 {
            return j;
        }
        j = j + 1;
    }
    j
}

/// Finds the first `=` in the record.
fn find_equals(line: &Vec<u8>) -> (r: usize)
    ensures
        r == equals_pos(line@, 0),
        r <= line@.len(),
        r < line@.len() ==> line@[r as int] == 61,
{
    let n = line.len();
    let mut j: usize = 0;
    while j < n
        invariant
            j <= n,
            n == line@.len(),
            equals_pos(line@, 0) == equals_pos(line@, j as int),
        decreases n - j,
    {
        if line[j] == 61 {
            return j;
        }
        j = j + 1;
    }
    j
}

/// Parses a binary source: null-terminated `KEY=VALUE` records,
/// validated as UTF-8, written to the store under the override policy.
/// The outcome, store included, is exactly `binary_spec`.
pub fn config_binary(src: &[u8], env: &mut MemoryEnv, options: &Options) -> (r: Result<(), Error>)
    requires
        old(env).wf(),
        src@.len() < usize::MAX,
    ensures
        final(env).wf(),
        ({
            let out = binary_spec(src@, old(env).as_map(), options.override_env, options.strict);
            &&& final(env).as_map() == out.env
            &&& final(env).entries_seq() == apply_writes(
                old(env).entries_seq(),
                out.writes,
                0,
                options.override_env,
            )
            &&& (match r {
                Ok(()) => out.err is None,
                Err(e) => out.err == Some(e),
            })
        }),
{
    broadcast use crate::model::lemma_apply_writes_step;

    let buf = vstd::slice::slice_to_vec(src);
    let n = buf.len();
    let ghost target = binary_spec(src@, old(env).as_map(), options.override_env, options.strict);
    let mut i: usize = 0;
    let mut lineno: usize = 0;
    while i < n
        invariant
            env.wf(),
            buf@ == src@,
            n == src@.len(),
            n < usize::MAX,
            i <= n,
            lineno <= i,
            target == binary_spec(src@, old(env).as_map(), options.override_env, options.strict),
            ({
                let cur = binary_from(
                    src@,
                    i as int,
                    lineno as int,
                    env.as_map(),
                    options.override_env,
                    options.strict,
                );
                &&& target.err == cur.err
                &&& target.env == cur.env
                &&& apply_writes(old(env).entries_seq(), target.writes, 0, options.override_env)
                    == apply_writes(env.entries_seq(), cur.writes, 0, options.override_env)
            }),
        decreases n - i,
    {
        proof {
            lemma_record_end_bounds(src@, i as int);
        }
        let e = find_record_end(&buf, i);
        let terminated = e < n;
        let line = subvec(&buf, i, e);
        let byte_count = e - i + if terminated {
            1
        } else {
            0
        };
        let next = if terminated {
            e + 1
        } else {
            e
        };
        if !terminated && options.strict {
            return Err(Error::syntax_error(lineno + 1, byte_count + 1));
        }
        proof {
            lemma_equals_pos_bounds(line@, 0);
        }
        let eqp = find_equals(&line);
        if eqp >= line.len() {
            if options.strict {
                return Err(Error::syntax_error(lineno + 1, byte_count + 1));
            }
            i = next;
            lineno = lineno + 1;
            continue;
        }
        let key_bytes = subvec(&line, 0, eqp);
        let value_bytes = subvec(&line, eqp + 1, line.len());
        let key = match string_from_utf8(key_bytes) {
            Some(k) => k,
            None => {
                if options.strict {
                    return Err(Error::syntax_error(lineno + 1, 1));
                }
                i = next;
                lineno = lineno + 1;
                continue;
            },
        };
        let value = match string_from_utf8(value_bytes) {
            Some(v) => v,
            None => {
                if options.strict {
                    return Err(Error::syntax_error(lineno + 1, eqp + 2));
                }
                i = next;
                lineno = lineno + 1;
                continue;
            },
        };
        if eqp == 0 {
            if options.strict {
                return Err(Error::syntax_error(lineno + 1, 1));
            }
            i = next;
            lineno = lineno + 1;
            continue;
        }
        let kc = chars_of(key.as_str());
        let vc = chars_of(value.as_str());
        let ghost envb = env.as_map();
        let ghost eb = env.entries_seq();
        options.set_var(env, &kc, &vc);
        proof {
            let cur = binary_from(
                src@,
                i as int,
                lineno as int,
                envb,
                options.override_env,
                options.strict,
            );
            let rest = binary_from(
                src@,
                next as int,
                lineno + 1,
                spec_set_var(envb, kc@, vc@, options.override_env),
                options.override_env,
                options.strict,
            );
            assert(cur.writes == seq![(kc@, vc@)] + rest.writes);
            crate::model::lemma_apply_writes_step(eb, (kc@, vc@), rest.writes, options.override_env);
        }
        i = next;
        lineno = lineno + 1;
    }
    Ok(())
}

} // verus!
