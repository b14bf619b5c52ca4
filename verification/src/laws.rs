//! Properties that hold of the parsers, stated over their step
//! functions.  Every parsing function's `ensures` pins its outcome to
//! the step function of its dialect, so these statements carry over
//! to the executable parsers.

use vstd::prelude::*;

use crate::dialect::Dialect;
use crate::model::{EnvModel, spec_set_var};
use crate::punktum::{
    punktum_spec, pk_config, pk_value, pk_inherit, pv, pvar, pvar_braced, pvar_skip_operand,
    pvar_use_operand, pvar_close, pplain_finish, pplain_nested, fix_nl, line_end, skip_ws,
    word_end, PSt,
};

verus! {

/// Parsing is deterministic: one fixed triple of source, dialect and
/// stores has exactly one outcome, the step function's value, and
/// every parsing function's `ensures` equates its result and its
/// store mutations with that value.  Repeated parses therefore
/// produce identical sink mutations.
pub proof fn lemma_parse_deterministic(
    d: Dialect,
    src: Seq<char>,
    env: EnvModel,
    parentm: EnvModel,
    override_env: bool,
    strict: bool,
)
    ensures
        crate::spec_config_text(d, src, env, parentm, override_env, strict)
            == crate::spec_config_text(d, src, env, parentm, override_env, strict),
{
}

/// A bare key line inherits from the parent store: parsing `FOO` in
/// the native dialect copies the parent's value into the sink when
/// the parent holds the key (one write), and writes nothing when it
/// does not.
pub proof fn lemma_punktum_inherits(
    env: EnvModel,
    parentm: EnvModel,
    v: Seq<char>,
    override_env: bool,
    strict: bool,
)
    requires
        parentm.contains_key("FOO"@) ==> parentm["FOO"@] == v,
    ensures
        ({
            let out = punktum_spec("FOO"@, env, parentm, override_env, strict);
            &&& out.err is None
            &&& (parentm.contains_key("FOO"@) ==> out.env == spec_set_var(
                env,
                "FOO"@,
                v,
                override_env,
            ) && out.writes == seq![("FOO"@, v)])
            &&& (!parentm.contains_key("FOO"@) ==> out.env == env && out.writes == Seq::<(
                Seq<char>,
                Seq<char>,
            )>::empty())
        }),
{
    reveal_strlit("FOO");
    let s0 = "FOO"@;
    assert(s0.len() == 3);
    assert(s0[0] == 'F' && s0[1] == 'O' && s0[2] == 'O');
    reveal_with_fuel(fix_nl, 5);
    let s = fix_nl(s0, 0);
    assert(s =~= s0);
    reveal_with_fuel(crate::model::char_pos, 5);
    assert(crate::model::char_pos(s, 0, '\n') == 3);
    assert(line_end(s, 0) == 3);
    reveal_with_fuel(skip_ws, 5);
    assert(skip_ws(s, 0, 3) == 0);
    reveal_with_fuel(word_end, 5);
    assert(word_end(s, 0, 3) == 3);
    assert(skip_ws(s, 3, 3) == 3);
    assert(s.subrange(0, 3) =~= s0);
    reveal_with_fuel(pk_config, 2);
    reveal_with_fuel(pk_inherit, 2);
    let out = punktum_spec(s0, env, parentm, override_env, strict);
    assert(pk_config(s, 3, 1, spec_set_var(env, s0, v, override_env), parentm, override_env, strict).writes
        =~= Seq::<(Seq<char>, Seq<char>)>::empty());
    if parentm.contains_key(s0) {
        assert(out.writes =~= seq![(s0, v)]);
    } else {
        assert(out.writes =~= Seq::<(Seq<char>, Seq<char>)>::empty());
    }
}


/// A source holding one `FOO=bar` binding hands the sink exactly one
/// write, of exactly that pair, whatever the stores and the mode.
pub proof fn lemma_punktum_single_write(
    env: EnvModel,
    parentm: EnvModel,
    override_env: bool,
    strict: bool,
)
    ensures
        ({
            let out = punktum_spec("FOO=bar"@, env, parentm, override_env, strict);
            &&& out.err is None
            &&& out.writes == seq![("FOO"@, "bar"@)]
            &&& out.env == spec_set_var(env, "FOO"@, "bar"@, override_env)
        }),
{
    reveal_strlit("FOO=bar");
    reveal_strlit("FOO");
    reveal_strlit("bar");
    let s0 = "FOO=bar"@;
    assert(s0.len() == 7);
    assert(s0[0] == 'F' && s0[1] == 'O' && s0[2] == 'O' && s0[3] == '=' && s0[4] == 'b' && s0[5]
        == 'a' && s0[6] == 'r');
    reveal_with_fuel(fix_nl, 9);
    let s = fix_nl(s0, 0);
    assert(s =~= s0);
    reveal_with_fuel(crate::model::char_pos, 9);
    assert(crate::model::char_pos(s, 0, '\n') == 7);
    assert(line_end(s, 0) == 7);
    reveal_with_fuel(skip_ws, 9);
    assert(skip_ws(s, 0, 7) == 0);
    reveal_with_fuel(word_end, 9);
    assert(word_end(s, 0, 7) == 3);
    assert(skip_ws(s, 3, 7) == 3);
    assert(skip_ws(s, 4, 7) == 4);
    assert(s.subrange(0, 3) =~= "FOO"@);
    let st0 = PSt { ls: 0, le: 7, idx: 4, lineno: 1 };
    reveal_with_fuel(pplain_finish, 5);
    reveal_with_fuel(pv, 3);
    assert(skip_ws(s, 5, 7) == 5);
    assert(skip_ws(s, 6, 7) == 6);
    assert(skip_ws(s, 7, 7) == 7);
    assert(s.subrange(4, 7) =~= "bar"@);
    assert(pplain_finish(s, st0, 4, 5, false, false, env, strict) == Ok::<
        (Seq<char>, PSt),
        (crate::error::Error, PSt),
    >(("bar"@, PSt { ls: 0, le: 7, idx: 7, lineno: 1 })));
    assert(pv(s, st0, false, false, env, strict) == Ok::<
        (Seq<char>, PSt),
        (crate::error::Error, PSt),
    >(("bar"@, PSt { ls: 0, le: 7, idx: 7, lineno: 1 })));
    reveal_with_fuel(pk_config, 3);
    reveal_with_fuel(pk_value, 2);
    let out = punktum_spec(s0, env, parentm, override_env, strict);
    assert(out.writes =~= seq![("FOO"@, "bar"@)]);
}

/// The fixed facts of the defaulting example source.
proof fn lemma_defaulting_text()
    ensures
        ({
            let s = fix_nl("FOO=${BAR:-fb}"@, 0);
            &&& s =~= "FOO=${BAR:-fb}"@
            &&& s.len() == 14
            &&& line_end(s, 0) == 14
            &&& skip_ws(s, 0, 14) == 0
            &&& word_end(s, 0, 14) == 3
            &&& skip_ws(s, 3, 14) == 3
            &&& skip_ws(s, 4, 14) == 4
            &&& s.subrange(0, 3) =~= "FOO"@
            &&& word_end(s, 6, 14) == 9
            &&& s.subrange(6, 9) =~= "BAR"@
            &&& s.subrange(11, 13) =~= "fb"@
            &&& s[0] == 'F' && s[1] == 'O' && s[2] == 'O' && s[3] == '='
            &&& s[4] == '$' && s[5] == '{' && s[6] == 'B' && s[7] == 'A' && s[8] == 'R'
            &&& s[9] == ':' && s[10] == '-' && s[13] == '}'
            &&& s[11] == 'f' && s[12] == 'b'
        }),
{
    reveal_strlit("FOO=${BAR:-fb}");
    reveal_strlit("FOO");
    reveal_strlit("BAR");
    reveal_strlit("fb");
    let s0 = "FOO=${BAR:-fb}"@;
    assert(s0.len() == 14);
    assert(s0[0] == 'F' && s0[1] == 'O' && s0[2] == 'O' && s0[3] == '=' && s0[4] == '$' && s0[5]
        == '{' && s0[6] == 'B' && s0[7] == 'A' && s0[8] == 'R' && s0[9] == ':' && s0[10] == '-'
        && s0[11] == 'f' && s0[12] == 'b' && s0[13] == '}');
    reveal_with_fuel(fix_nl, 16);
    assert(fix_nl(s0, 0) =~= s0);
    reveal_with_fuel(crate::model::char_pos, 16);
    assert(crate::model::char_pos(s0, 0, '\n') == 14);
    reveal_with_fuel(skip_ws, 16);
    reveal_with_fuel(word_end, 6);
    assert(s0.subrange(0, 3) =~= "FOO"@);
    assert(s0.subrange(6, 9) =~= "BAR"@);
    assert(s0.subrange(11, 13) =~= "fb"@);
}

/// The operand scan of the defaulting example.
proof fn lemma_defaulting_operand(envm: EnvModel, strict: bool)
    ensures
        ({
            let s = fix_nl("FOO=${BAR:-fb}"@, 0);
            let opst = PSt { ls: 0, le: 14, idx: 11, lineno: 1 };
            pplain_nested(s, opst, 11, envm, strict) == Ok::<
                (Seq<char>, PSt),
                (crate::error::Error, PSt),
            >(("fb"@, PSt { ls: 0, le: 14, idx: 13, lineno: 1 }))
        }),
{
    lemma_defaulting_text();
    let s = fix_nl("FOO=${BAR:-fb}"@, 0);
    reveal_with_fuel(skip_ws, 16);
    assert(skip_ws(s, 11, 14) == 11);
    assert(skip_ws(s, 12, 14) == 12);
    assert(skip_ws(s, 13, 14) == 13);
    reveal_with_fuel(pplain_nested, 5);
    let opst = PSt { ls: 0, le: 14, idx: 11, lineno: 1 };
    assert(pplain_nested(s, opst, 11, envm, strict) matches Ok(t) && t == (
        s.subrange(11, 13),
        PSt { ls: 0, le: 14, idx: 13, lineno: 1 },
    ));
}

/// The value scan of the defaulting example.
#[verifier::rlimit(100)]
#[verifier::spinoff_prover]
proof fn lemma_defaulting_value(env: EnvModel, strict: bool)
    ensures
        ({
            let s = fix_nl("FOO=${BAR:-fb}"@, 0);
            let st0 = PSt { ls: 0, le: 14, idx: 4, lineno: 1 };
            let expected: Seq<char> = if env.contains_key("BAR"@) && env["BAR"@].len() > 0 {
                env["BAR"@]
            } else {
                "fb"@
            };
            pv(s, st0, false, false, env, strict) == Ok::<
                (Seq<char>, PSt),
                (crate::error::Error, PSt),
            >((expected, PSt { ls: 0, le: 14, idx: 14, lineno: 1 }))
        }),
{
    lemma_defaulting_text();
    lemma_defaulting_operand(env, strict);
    lemma_defaulting_operand(Map::empty(), strict);
    let s = fix_nl("FOO=${BAR:-fb}"@, 0);
    let st0 = PSt { ls: 0, le: 14, idx: 4, lineno: 1 };
    reveal_with_fuel(pv, 6);
    reveal_with_fuel(pvar, 2);
    reveal_with_fuel(pvar_braced, 2);
    reveal_with_fuel(pvar_skip_operand, 2);
    reveal_with_fuel(pvar_use_operand, 2);
    let expected: Seq<char> = if env.contains_key("BAR"@) && env["BAR"@].len() > 0 {
        env["BAR"@]
    } else {
        "fb"@
    };
    let r = pv(s, st0, false, false, env, strict);
    assert(r matches Ok(t) && t.1 == PSt { ls: 0, le: 14, idx: 14, lineno: 1 });
    assert(r matches Ok(t) && t.0 =~= expected);
}

/// Substitution defaulting: parsing `FOO=${BAR:-fb}` sets `FOO` to
/// the sink's value of `BAR` when that is set and not empty, and to
/// the default `fb` otherwise, whatever the stores and the mode.
#[verifier::rlimit(100)]
#[verifier::spinoff_prover]
pub proof fn lemma_punktum_defaulting(
    env: EnvModel,
    parentm: EnvModel,
    override_env: bool,
    strict: bool,
)
    ensures
        ({
            let out = punktum_spec("FOO=${BAR:-fb}"@, env, parentm, override_env, strict);
            let expected: Seq<char> = if env.contains_key("BAR"@) && env["BAR"@].len() > 0 {
                env["BAR"@]
            } else {
                "fb"@
            };
            &&& out.err is None
            &&& out.env == spec_set_var(env, "FOO"@, expected, override_env)
            &&& out.writes == seq![("FOO"@, expected)]
        }),
{
    lemma_defaulting_text();
    lemma_defaulting_value(env, strict);
    let s0 = "FOO=${BAR:-fb}"@;
    let s = fix_nl(s0, 0);
    let expected: Seq<char> = if env.contains_key("BAR"@) && env["BAR"@].len() > 0 {
        env["BAR"@]
    } else {
        "fb"@
    };
    reveal_with_fuel(pk_config, 3);
    reveal_with_fuel(pk_value, 2);
    let out = punktum_spec(s0, env, parentm, override_env, strict);
    assert(out.writes =~= seq![("FOO"@, expected)]);
}
} // verus!
