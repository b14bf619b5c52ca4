//! The mathematical model shared by all dialect parsers: the key/value
//! store as a map from character sequences to character sequences, the
//! write policy applied by the caller options, and the null-byte
//! truncation some dialects apply before writing.

use vstd::prelude::*;

use crate::error::Error;

verus! {

/// The model of a key/value store.
pub type EnvModel = Map<Seq<char>, Seq<char>>;

/// One write handed to the sink: the key and the value, as they were
/// passed to the store.
pub type WriteEntry = (Seq<char>, Seq<char>);

/// The store after one conditional write: with `override_env` the key
/// is always written; otherwise only when it is absent.
pub open spec fn spec_set_var(
    env: EnvModel,
    key: Seq<char>,
    value: Seq<char>,
    override_env: bool,
) -> EnvModel {
    if override_env || !env.contains_key(key) {
        env.insert(key, value)
    } else {
        env
    }
}

/// The position of the first null character at or after `i`, or the
/// length when there is none.
pub open spec fn nul_pos(s: Seq<char>, i: int) -> int
    decreases s.len() - i,
{
    if i < 0 || i >= s.len() {
        s.len() as int
    } else if s[i] == '\0' {
        i
    } else {
        nul_pos(s, i + 1)
    }
}

/// The prefix before the first null character.
pub open spec fn cut_nul(s: Seq<char>) -> Seq<char> {
    s.subrange(0, nul_pos(s, 0))
}

pub proof fn lemma_nul_pos_bounds(s: Seq<char>, i: int)
    requires
        0 <= i <= s.len(),
    ensures
        i <= nul_pos(s, i) <= s.len(),
    decreases s.len() - i,
{
    if i < s.len() && s[i] != '\0' {
        lemma_nul_pos_bounds(s, i + 1);
    }
}

/// The store after one conditional write whose key and value are first
/// truncated at the first null byte.
pub open spec fn spec_set_var_cut_nul(
    env: EnvModel,
    key: Seq<char>,
    value: Seq<char>,
    override_env: bool,
) -> EnvModel {
    spec_set_var(env, cut_nul(key), cut_nul(value), override_env)
}

/// The position of the first character at or after `i` satisfying
/// `p`, or the length when there is none.
pub open spec fn scan_until(s: Seq<char>, i: int, p: spec_fn(char) -> bool) -> int
    decreases s.len() - i,
{
    if i < 0 || i >= s.len() {
        s.len() as int
    } else if p(s[i]) {
        i
    } else {
        scan_until(s, i + 1, p)
    }
}

pub proof fn lemma_scan_until(s: Seq<char>, i: int, p: spec_fn(char) -> bool)
    requires
        0 <= i <= s.len(),
    ensures
        i <= scan_until(s, i, p) <= s.len(),
        scan_until(s, i, p) < s.len() ==> p(s[scan_until(s, i, p)]),
        forall|j: int| i <= j < scan_until(s, i, p) ==> !p(s[j]),
    decreases s.len() - i,
{
    if i < s.len() && !p(s[i]) {
        lemma_scan_until(s, i + 1, p);
    }
}

/// The position of the first occurrence of `t` at or after `i`, or
/// the length when there is none.
pub open spec fn char_pos(s: Seq<char>, i: int, t: char) -> int
    decreases s.len() - i,
{
    if i < 0 || i >= s.len() {
        s.len() as int
    } else if s[i] == t {
        i
    } else {
        char_pos(s, i + 1, t)
    }
}

pub proof fn lemma_char_pos(s: Seq<char>, i: int, t: char)
    requires
        0 <= i <= s.len(),
    ensures
        i <= char_pos(s, i, t) <= s.len(),
        char_pos(s, i, t) < s.len() ==> s[char_pos(s, i, t)] == t,
        forall|j: int| i <= j < char_pos(s, i, t) ==> s[j] != t,
    decreases s.len() - i,
{
    if i < s.len() && s[i] != t {
        lemma_char_pos(s, i + 1, t);
    }
}

/// What one source line asks of the store: nothing, an abort with an
/// error, or one write.
pub enum LineAction {
    Skip,
    Fail(Error),
    Write(Seq<char>, Seq<char>),
}

/// The entries of the store after one conditional write, keeping the
/// insertion order: with `override_env` the key is always written,
/// otherwise only when it is absent.
pub open spec fn apply_write(
    entries: Seq<(Seq<char>, Seq<char>)>,
    k: Seq<char>,
    v: Seq<char>,
    override_env: bool,
) -> Seq<(Seq<char>, Seq<char>)> {
    if override_env || !crate::env::map_of(entries).contains_key(k) {
        crate::env::entries_after_set(entries, k, v)
    } else {
        entries
    }
}

/// The entries of the store after a sequence of conditional writes,
/// applied in order from position `i` on.
pub open spec fn apply_writes(
    entries: Seq<(Seq<char>, Seq<char>)>,
    writes: Seq<WriteEntry>,
    i: int,
    override_env: bool,
) -> Seq<(Seq<char>, Seq<char>)>
    decreases writes.len() - i,
{
    if i < 0 || i >= writes.len() {
        entries
    } else {
        apply_writes(
            apply_write(entries, writes[i].0, writes[i].1, override_env),
            writes,
            i + 1,
            override_env,
        )
    }
}

pub proof fn lemma_apply_writes_shift(
    entries: Seq<(Seq<char>, Seq<char>)>,
    w1: Seq<WriteEntry>,
    w2: Seq<WriteEntry>,
    i: int,
    override_env: bool,
)
    requires
        0 <= i <= w2.len(),
    ensures
        apply_writes(entries, w1 + w2, w1.len() + i, override_env) == apply_writes(
            entries,
            w2,
            i,
            override_env,
        ),
    decreases w2.len() - i,
{
    if i < w2.len() {
        assert((w1 + w2)[w1.len() + i] == w2[i]);
        lemma_apply_writes_shift(
            apply_write(entries, w2[i].0, w2[i].1, override_env),
            w1,
            w2,
            i + 1,
            override_env,
        );
    }
}

/// Applying a concatenation of writes is applying the first part and
/// then the second.
pub proof fn lemma_apply_writes_concat(
    entries: Seq<(Seq<char>, Seq<char>)>,
    a: Seq<WriteEntry>,
    b: Seq<WriteEntry>,
    i: int,
    override_env: bool,
)
    requires
        0 <= i <= a.len(),
    ensures
        apply_writes(entries, a + b, i, override_env) == apply_writes(
            apply_writes(entries, a, i, override_env),
            b,
            0,
            override_env,
        ),
    decreases a.len() - i,
{
    if i < a.len() {
        assert((a + b)[i] == a[i]);
        lemma_apply_writes_concat(
            apply_write(entries, a[i].0, a[i].1, override_env),
            a,
            b,
            i + 1,
            override_env,
        );
    } else {
        lemma_apply_writes_shift(entries, a, b, 0, override_env);
    }
}

/// Applying a one-element prefix of writes is one conditional write
/// followed by the rest.
pub broadcast proof fn lemma_apply_writes_step(
    entries: Seq<(Seq<char>, Seq<char>)>,
    w: WriteEntry,
    rest: Seq<WriteEntry>,
    override_env: bool,
)
    ensures
        #[trigger] apply_writes(entries, seq![w] + rest, 0, override_env) == apply_writes(
            apply_write(entries, w.0, w.1, override_env),
            rest,
            0,
            override_env,
        ),
{
    let all = seq![w] + rest;
    assert(all[0] == w);
    assert(apply_writes(entries, all, 0, override_env) == apply_writes(
        apply_write(entries, w.0, w.1, override_env),
        all,
        1,
        override_env,
    ));
    lemma_apply_writes_shift(
        apply_write(entries, w.0, w.1, override_env),
        seq![w],
        rest,
        0,
        override_env,
    );
}

/// Applying a single write.
pub proof fn lemma_apply_writes_one(
    entries: Seq<(Seq<char>, Seq<char>)>,
    w: WriteEntry,
    override_env: bool,
)
    ensures
        apply_writes(entries, seq![w], 0, override_env) == apply_write(
            entries,
            w.0,
            w.1,
            override_env,
        ),
{
    assert(seq![w] =~= seq![w] + Seq::<WriteEntry>::empty());
    lemma_apply_writes_step(entries, w, Seq::empty(), override_env);
}

/// The outcome of one parse: the error (if any), the final store, and
/// the sequence of writes handed to the store, in order.
pub struct ParseOut {
    pub err: Option<Error>,
    pub env: EnvModel,
    pub writes: Seq<WriteEntry>,
}

impl ParseOut {
    /// An outcome that finished without error.
    pub open spec fn done(env: EnvModel, writes: Seq<WriteEntry>) -> ParseOut {
        ParseOut { err: None, env, writes }
    }

    /// An outcome that stopped with the given error.
    pub open spec fn fail(err: Error, env: EnvModel, writes: Seq<WriteEntry>) -> ParseOut {
        ParseOut { err: Some(err), env, writes }
    }
}

} // verus!
