//! The configuration a parse runs under, and the builder that
//! assembles it.

use vstd::prelude::*;

use crate::dialect::Dialect;
use crate::encoding::Encoding;
use crate::env::MemoryEnv;
use crate::model::{apply_write, cut_nul, spec_set_var};
use crate::text::cut_nul_vec;

verus! {

/// The configuration of one parse.
#[derive(Debug, Clone)]
pub struct Options {
    /// Override existing environment variables.
    pub override_env: bool,
    /// Error on IO or parser errors.
    pub strict: bool,
    /// Log IO and parser errors.
    pub debug: bool,
    pub encoding: Encoding,
    pub dialect: Dialect,
    pub path: String,
}

pub const DEFAULT_PATH: &'static str = ".env";

pub const DEFAULT_OVERRIDE_ENV: bool = false;

pub const DEFAULT_STRICT: bool = true;

pub const DEFAULT_DEBUG: bool = false;

/// The default fields of `Options`, the path aside.
pub open spec fn spec_default_fields(o: Options) -> bool {
    &&& o.override_env == DEFAULT_OVERRIDE_ENV
    &&& o.strict == DEFAULT_STRICT
    &&& o.debug == DEFAULT_DEBUG
    &&& o.encoding == Encoding::UTF8
    &&& o.dialect == Dialect::Punktum
}

impl Default for Options {
    /// The default configuration: do not override, strict, quiet,
    /// UTF-8, the default dialect, the default path.
    fn default() -> (r: Self)
        ensures
            spec_default_fields(r),
            r.path@ == DEFAULT_PATH@,
    {
        Self {
            override_env: DEFAULT_OVERRIDE_ENV,
            strict: DEFAULT_STRICT,
            debug: DEFAULT_DEBUG,
            encoding: Encoding::UTF8,
            dialect: Dialect::Punktum,
            path: DEFAULT_PATH.to_owned(),
        }
    }
}

impl Options {
    /// The default configuration with the given path.
    pub fn with_path(path: String) -> (r: Self)
        ensures
            spec_default_fields(r),
            r.path == path,
    {
        Self {
            override_env: DEFAULT_OVERRIDE_ENV,
            strict: DEFAULT_STRICT,
            debug: DEFAULT_DEBUG,
            encoding: Encoding::UTF8,
            dialect: Dialect::Punktum,
            path,
        }
    }

    /// Writes the binding into the store under the override policy:
    /// with `override_env` always, otherwise only when the key is
    /// absent.
    pub fn set_var(&self, env: &mut MemoryEnv, key: &Vec<char>, value: &Vec<char>)
        requires
            old(env).wf(),
        ensures
            final(env).wf(),
            final(env).as_map() == spec_set_var(old(env).as_map(), key@, value@, self.override_env),
            final(env).entries_seq() == apply_write(
                old(env).entries_seq(),
                key@,
                value@,
                self.override_env,
            ),
    {
        proof {
            old(env).lemma_as_map();
        }
        if self.override_env {
            env.set_chars(key, value);
        } else if env.contains_chars(key) {
            // the existing value is kept
        } else {
            env.set_chars(key, value);
        }
    }

    /// Writes the binding with key and value truncated at their first
    /// null byte, as the dialects with that policy require.
    pub fn set_var_cut_nul(&self, env: &mut MemoryEnv, key: &Vec<char>, value: &Vec<char>)
        requires
            old(env).wf(),
        ensures
            final(env).wf(),
            final(env).as_map() == spec_set_var(
                old(env).as_map(),
                cut_nul(key@),
                cut_nul(value@),
                self.override_env,
            ),
            final(env).entries_seq() == apply_write(
                old(env).entries_seq(),
                cut_nul(key@),
                cut_nul(value@),
                self.override_env,
            ),
    {
        let k = cut_nul_vec(key);
        let v = cut_nul_vec(value);
        self.set_var(env, &k, &v)
    }
}

/// Assembles a configuration step by step.
#[derive(Debug, Clone)]
pub struct Builder {
    pub options: Options,
}

impl Default for Builder {
    /// A builder holding the default configuration.
    fn default() -> (r: Self)
        ensures
            spec_default_fields(r.options),
            r.options.path@ == DEFAULT_PATH@,
    {
        Self { options: Options::default() }
    }
}

impl Builder {
    /// A builder holding the default configuration.
    pub fn new() -> (r: Self)
        ensures
            spec_default_fields(r.options),
            r.options.path@ == DEFAULT_PATH@,
    {
        Self::default()
    }

    /// A builder holding the default configuration with the given
    /// path.
    pub fn with_path(path: String) -> (r: Self)
        ensures
            spec_default_fields(r.options),
            r.options.path == path,
    {
        Self { options: Options::with_path(path) }
    }

    pub fn override_env(self, value: bool) -> (r: Self)
        ensures
            r.options == (Options { override_env: value, ..self.options }),
    {
        let mut options = self.options;
        options.override_env = value;
        Self { options }
    }

    pub fn strict(self, value: bool) -> (r: Self)
        ensures
            r.options == (Options { strict: value, ..self.options }),
    {
        let mut options = self.options;
        options.strict = value;
        Self { options }
    }

    pub fn debug(self, value: bool) -> (r: Self)
        ensures
            r.options == (Options { debug: value, ..self.options }),
    {
        let mut options = self.options;
        options.debug = value;
        Self { options }
    }

    pub fn encoding(self, value: Encoding) -> (r: Self)
        ensures
            r.options == (Options { encoding: value, ..self.options }),
    {
        let mut options = self.options;
        options.encoding = value;
        Self { options }
    }

    pub fn dialect(self, value: Dialect) -> (r: Self)
        ensures
            r.options == (Options { dialect: value, ..self.options }),
    {
        let mut options = self.options;
        options.dialect = value;
        Self { options }
    }

    pub fn path(self, value: String) -> (r: Self)
        ensures
            r.options == (Options { path: value, ..self.options }),
    {
        let mut options = self.options;
        options.path = value;
        Self { options }
    }

    pub fn options(&self) -> (r: &Options)
        ensures
            r == &self.options,
    {
        &self.options
    }

    pub fn into_options(self) -> (r: Options)
        ensures
            r == self.options,
    {
        self.options
    }
}

} // verus!
