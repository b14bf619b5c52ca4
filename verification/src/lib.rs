//! Multi-dialect parser for ".env"-style configuration files.
//!
//! Given an already-decoded text source, the parsers extract `KEY=VALUE`
//! bindings, perform dialect-specific escape decoding and variable
//! interpolation, and write the results into a key/value store while
//! consulting a lookup store for inherited variables.  Each dialect
//! reproduces the behaviour of a specific upstream tool, quirks included.

pub mod text;
pub mod error;
pub mod model;
pub mod env;
pub mod dialect;
pub mod encoding;
pub mod options;
pub mod binary;
pub mod line_splitter;
pub mod java_dotenv;
pub mod pydotenvcli;
pub mod nodejs;
pub mod composego;
pub mod punktum;
pub mod jsdotenv;
pub mod javascript_dotenv;
pub mod rbdotenv;
pub mod godotenv;
pub mod python_dotenv;
pub mod laws;

use vstd::prelude::*;

use crate::dialect::Dialect;
use crate::env::MemoryEnv;
use crate::error::{Error, ErrorKind};
use crate::model::ParseOut;
use crate::env::EmptyEnv;
use crate::options::{Builder, Options};
use crate::text::string_from_utf8;

verus! {

use vstd::utf8::{valid_utf8, decode_utf8};

/// A builder holding the default configuration.
pub fn build() -> (r: Builder)
    ensures
        crate::options::spec_default_fields(r.options),
        r.options.path@ == crate::options::DEFAULT_PATH@,
{
    Builder::new()
}

/// The outcome of one parse of decoded text under the given
/// configuration, by dialect.  The binary dialect does not take this
/// path: it reads raw bytes.
pub open spec fn spec_config_text(
    d: Dialect,
    src: Seq<char>,
    env: crate::model::EnvModel,
    parentm: crate::model::EnvModel,
    override_env: bool,
    strict: bool,
) -> Option<ParseOut> {
    match d {
        Dialect::Punktum => Some(
            crate::punktum::punktum_spec(src, env, parentm, override_env, strict),
        ),
        Dialect::ComposeGo => Some(
            crate::composego::composego_spec(src, env, parentm, override_env, strict),
        ),
        Dialect::JavaDotenv => Some(crate::java_dotenv::java_spec(src, env, override_env, strict)),
        Dialect::PythonDotenvCLI => Some(
            crate::pydotenvcli::py_cli_spec(src, env, override_env, strict),
        ),
        Dialect::NodeJS => Some(crate::nodejs::node_spec(src, env, override_env)),
        Dialect::JavaScriptDotenv => Some(
            crate::jsdotenv::js_spec(src, env, override_env, strict, true),
        ),
        Dialect::PythonDotenv => Some(
            crate::python_dotenv::py_dotenv_spec(src, env, override_env, strict),
        ),
        Dialect::GoDotenv => Some(
            crate::godotenv::godotenv_spec(src, env, override_env, strict),
        ),
        Dialect::RubyDotenv => Some(
            crate::rbdotenv::rb_spec(src, env, parentm, override_env, strict),
        ),
        _ => None,
    }
}

/// Parses one decoded source under the configuration's dialect,
/// writing into the sink and consulting the parent store.  For every
/// dialect whose model stands in this crate the outcome, store
/// included, is exactly that dialect's step function.
pub fn config_with_source(
    src: &str,
    env: &mut MemoryEnv,
    parent: &MemoryEnv,
    options: &Options,
) -> (r: Result<(), Error>)
    requires
        old(env).wf(),
        parent.wf(),
        src@.len() < 0x8000,
    ensures
        final(env).wf(),
        ({
            match spec_config_text(
                options.dialect,
                src@,
                old(env).as_map(),
                parent.as_map(),
                options.override_env,
                options.strict,
            ) {
                Some(out) => {
                    &&& final(env).as_map() == out.env
                    &&& final(env).entries_seq() == crate::model::apply_writes(
                        old(env).entries_seq(),
                        out.writes,
                        0,
                        options.override_env,
                    )
                    &&& (match r {
                        Ok(()) => out.err is None,
                        Err(e) => out.err == Some(e),
                    })
                },
                None => {
                    // the binary dialect reads the text's UTF-8 bytes
                    let out = crate::binary::binary_spec(
                        vstd::utf8::encode_utf8(src@),
                        old(env).as_map(),
                        options.override_env,
                        options.strict,
                    );
                    &&& final(env).as_map() == out.env
                    &&& final(env).entries_seq() == crate::model::apply_writes(
                        old(env).entries_seq(),
                        out.writes,
                        0,
                        options.override_env,
                    )
                    &&& (match r {
                        Ok(()) => out.err is None,
                        Err(e) => out.err == Some(e),
                    })
                },
            }
        }),
{
    match options.dialect {
        Dialect::Punktum => crate::punktum::config_punktum(src, env, parent, options),
        Dialect::ComposeGo => crate::composego::config_composego(src, env, parent, options),
        Dialect::JavaDotenv => crate::java_dotenv::config_java_dotenv(src, env, options),
        Dialect::PythonDotenvCLI => crate::pydotenvcli::config_pydotenvcli(src, env, options),
        Dialect::NodeJS => {
            proof {
                crate::nodejs::lemma_node_spec_no_err(
                    src@,
                    old(env).as_map(),
                    options.override_env,
                );
            }
            crate::nodejs::config_nodejs(src, env, options)
        },
        Dialect::Binary => {
            let bytes = src.as_bytes_vec();
            proof {
                lemma_encode_utf8_len(src@);
            }
            crate::binary::config_binary(bytes.as_slice(), env, options)
        },
        Dialect::JavaScriptDotenv => crate::javascript_dotenv::config_javascript_dotenv(
            src,
            env,
            options,
        ),
        Dialect::PythonDotenv => crate::python_dotenv::config_python_dotenv(src, env, options),
        Dialect::GoDotenv => crate::godotenv::config_godotenv(src, env, options),
        Dialect::RubyDotenv => crate::rbdotenv::config_rbdotenv(src, env, parent, options),
    }
}

impl Builder {
    /// Parses an in-memory byte source into a fresh store with an
    /// empty parent, reading the bytes as UTF-8 (text dialects) or
    /// raw (the binary dialect).  Bytes that are not valid UTF-8 are
    /// an IO error, as a failed read would be.
    pub fn config_new_with_reader(&self, src: &[u8]) -> (r: Result<MemoryEnv, Error>)
        requires
            src@.len() < 0x8000,
        ensures
            ({
                let empty = Map::<Seq<char>, Seq<char>>::empty();
                match r {
                    Ok(env) => env.wf(),
                    Err(e) => true,
                }
            }),
            ({
                let empty = Map::<Seq<char>, Seq<char>>::empty();
                if self.options.dialect == Dialect::Binary {
                    let out = crate::binary::binary_spec(
                        src@,
                        Map::empty(),
                        self.options.override_env,
                        self.options.strict,
                    );
                    match r {
                        Ok(env) => out.err is None && env.as_map() == out.env
                            && env.entries_seq() == crate::model::apply_writes(
                            Seq::empty(),
                            out.writes,
                            0,
                            self.options.override_env,
                        ),
                        Err(e) => out.err == Some(e),
                    }
                } else if valid_utf8(src@) {
                    match spec_config_text(
                        self.options.dialect,
                        decode_utf8(src@),
                        Map::empty(),
                        Map::empty(),
                        self.options.override_env,
                        self.options.strict,
                    ) {
                        Some(out) => match r {
                            Ok(env) => out.err is None && env.as_map() == out.env
                                && env.entries_seq() == crate::model::apply_writes(
                                Seq::empty(),
                                out.writes,
                                0,
                                self.options.override_env,
                            ),
                            Err(e) => out.err == Some(e),
                        },
                        None => true,
                    }
                } else {
                    r is Err && (r matches Err(e) && e.kind == ErrorKind::IOError && e.location
                        is None)
                }
            }),
    {
        let mut env = MemoryEnv::new();
        let parent = MemoryEnv::new();
        if matches!(self.options.dialect, Dialect::Binary) {
            match crate::binary::config_binary(src, &mut env, &self.options) {
                Ok(()) => Ok(env),
                Err(e) => Err(e),
            }
        } else {
            let bytes = vstd::slice::slice_to_vec(src);
            match string_from_utf8(bytes) {
                Some(text) => {
                    proof {
                        lemma_decode_utf8_len(src@);
                    }
                    match config_with_source(text.as_str(), &mut env, &parent, &self.options) {
                        Ok(()) => Ok(env),
                        Err(e) => Err(e),
                    }
                },
                None => Err(
                    Error::with_cause(ErrorKind::IOError, "stream did not contain valid UTF-8".to_owned()),
                ),
            }
        }
    }
}

/// An encoded text has at most four bytes per character.
pub proof fn lemma_encode_utf8_len(chars: Seq<char>)
    ensures
        vstd::utf8::encode_utf8(chars).len() <= 4 * chars.len(),
    decreases chars.len(),
{
    if chars.len() != 0 {
        lemma_encode_utf8_len(chars.drop_first());
        assert(vstd::utf8::encode_scalar(chars[0] as u32).len() <= 4);
    }
}

/// A decoded text has no more characters than its encoding has
/// bytes.
pub proof fn lemma_decode_utf8_len(bytes: Seq<u8>)
    requires
        valid_utf8(bytes),
    ensures
        decode_utf8(bytes).len() <= bytes.len(),
    decreases bytes.len(),
{
    if bytes.len() != 0 {
        assert(vstd::utf8::length_of_first_scalar(bytes) >= 1);
        lemma_decode_utf8_len(vstd::utf8::pop_first_scalar(bytes));
    }
}


/// The single-quote escaping of one value: every quote becomes the
/// five characters `'"'"'`.
pub open spec fn sq_escape(v: Seq<char>, i: int) -> Seq<char>
    decreases v.len() - i,
{
    if i < 0 || i >= v.len() {
        Seq::empty()
    } else if v[i] == '\'' {
        seq!['\'', '"', '\'', '"', '\''] + sq_escape(v, i + 1)
    } else {
        seq![v[i]] + sq_escape(v, i + 1)
    }
}

/// One shell-compatible assignment line: the key, `='`, the value
/// with quotes escaped, and `'` with a line feed.
pub open spec fn spec_write_var(k: Seq<char>, v: Seq<char>) -> Seq<char> {
    k + seq!['=', '\''] + sq_escape(v, 0) + seq!['\'', '\n']
}

/// Renders one binding as a shell-compatible assignment line.
pub fn write_var(key: &str, value: &str) -> (r: String)
    ensures
        r@ == spec_write_var(key@, value@),
{
    let kv = crate::text::chars_of(key);
    let vv = crate::text::chars_of(value);
    let mut out: Vec<char> = Vec::new();
    crate::text::push_all(&mut out, &kv);
    out.push('=');
    out.push('\'');
    let n = vv.len();
    let mut i: usize = 0;
    proof {
        assert(out@ =~= key@ + seq!['=', '\'']);
    }
    while i < n
        invariant
            i <= n,
            n == vv@.len(),
            vv@ == value@,
            key@ + seq!['=', '\''] + sq_escape(value@, 0) =~= out@ + sq_escape(
                value@,
                i as int,
            ),
        decreases n - i,
    {
        let ghost prev = out@;
        let c = vv[i];
        if c == '\'' {
            out.push('\'');
            out.push('"');
            out.push('\'');
            out.push('"');
            out.push('\'');
            proof {
                assert(out@ =~= prev + seq!['\'', '"', '\'', '"', '\'']);
            }
        } else {
            out.push(c);
            proof {
                assert(out@ =~= prev + seq![c]);
            }
        }
        i = i + 1;
    }
    out.push('\'');
    out.push('\n');
    proof {
        assert(sq_escape(value@, n as int) =~= Seq::<char>::empty());
        assert(out@ =~= spec_write_var(key@, value@));
    }
    crate::text::string_of(&out)
}

/// The rendering of a store's entries, in order.
pub open spec fn spec_write_iter(entries: Seq<(Seq<char>, Seq<char>)>, i: int) -> Seq<char>
    decreases entries.len() - i,
{
    if i < 0 || i >= entries.len() {
        Seq::empty()
    } else {
        spec_write_var(entries[i].0, entries[i].1) + spec_write_iter(entries, i + 1)
    }
}

/// Renders every binding of a store as assignment lines, in entry
/// order.
pub fn write_iter(env: &MemoryEnv) -> (r: String)
    ensures
        r@ == spec_write_iter(env.entries_seq(), 0),
{
    let n = env.len();
    let mut out: Vec<char> = Vec::new();
    let mut i: usize = 0;
    while i < n
        invariant
            i <= n,
            n == env.entries_seq().len(),
            spec_write_iter(env.entries_seq(), 0) =~= out@ + spec_write_iter(
                env.entries_seq(),
                i as int,
            ),
        decreases n - i,
    {
        let k = env.key_at(i);
        let v = env.value_at(i);
        let line = write_var(k.as_str(), v.as_str());
        let lv = crate::text::chars_of(line.as_str());
        crate::text::push_all(&mut out, &lv);
        i = i + 1;
    }
    proof {
        assert(spec_write_iter(env.entries_seq(), n as int) =~= Seq::<char>::empty());
        assert(spec_write_iter(env.entries_seq(), 0) =~= out@);
    }
    crate::text::string_of(&out)
}

/// One binary record: the key, `=`, the value, and a null byte.
pub open spec fn spec_write_var_binary(k: Seq<char>, v: Seq<char>) -> Seq<char> {
    k + seq!['='] + v + seq!['\0']
}

/// Renders one binding as a binary record.
pub fn write_var_binary(key: &str, value: &str) -> (r: String)
    ensures
        r@ == spec_write_var_binary(key@, value@),
{
    let kv = crate::text::chars_of(key);
    let vv = crate::text::chars_of(value);
    let mut out: Vec<char> = Vec::new();
    crate::text::push_all(&mut out, &kv);
    out.push('=');
    crate::text::push_all(&mut out, &vv);
    out.push('\0');
    proof {
        assert(out@ =~= spec_write_var_binary(key@, value@));
    }
    crate::text::string_of(&out)
}

/// The binary rendering of a store's entries, in order.
pub open spec fn spec_write_iter_binary(entries: Seq<(Seq<char>, Seq<char>)>, i: int) -> Seq<char>
    decreases entries.len() - i,
{
    if i < 0 || i >= entries.len() {
        Seq::empty()
    } else {
        spec_write_var_binary(entries[i].0, entries[i].1) + spec_write_iter_binary(entries, i + 1)
    }
}

/// Renders every binding of a store as binary records, in entry
/// order.
pub fn write_iter_binary(env: &MemoryEnv) -> (r: String)
    ensures
        r@ == spec_write_iter_binary(env.entries_seq(), 0),
{
    let n = env.len();
    let mut out: Vec<char> = Vec::new();
    let mut i: usize = 0;
    while i < n
        invariant
            i <= n,
            n == env.entries_seq().len(),
            spec_write_iter_binary(env.entries_seq(), 0) =~= out@ + spec_write_iter_binary(
                env.entries_seq(),
                i as int,
            ),
        decreases n - i,
    {
        let k = env.key_at(i);
        let v = env.value_at(i);
        let line = write_var_binary(k.as_str(), v.as_str());
        let lv = crate::text::chars_of(line.as_str());
        crate::text::push_all(&mut out, &lv);
        i = i + 1;
    }
    proof {
        assert(spec_write_iter_binary(env.entries_seq(), n as int) =~= Seq::<char>::empty());
        assert(spec_write_iter_binary(env.entries_seq(), 0) =~= out@);
    }
    crate::text::string_of(&out)
}

} // verus!
