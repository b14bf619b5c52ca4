//! The JavaScript dotenv dialect as the re-implemented engine parses
//! it: the shared scanner with the engine's closing-quote search.

use vstd::prelude::*;

use crate::env::MemoryEnv;
use crate::error::Error;
use crate::jsdotenv::{config_js, js_spec};
use crate::options::Options;

verus! {

/// Parses a source in the engine variant of the JavaScript dotenv
/// dialect.  The outcome, store included, is exactly `js_spec` with
/// the engine flag.
pub fn config_javascript_dotenv(src: &str, env: &mut MemoryEnv, options: &Options) -> (r: Result<
    (),
    Error,
>)
    requires
        old(env).wf(),
        src@.len() < usize::MAX - 2,
    ensures
        final(env).wf(),
        ({
            let out = js_spec(src@, old(env).as_map(), options.override_env, options.strict, true);
            &&& final(env).as_map() == out.env
            &&& final(env).entries_seq() == crate::model::apply_writes(
                old(env).entries_seq(),
                out.writes,
                0,
                options.override_env,
            )
            &&& (match r {
                Ok(()) => out.err is None,
                Err(e) => out.err == Some(e),
            })
        }),
{
    config_js(src, env, options, true)
}

} // verus!
