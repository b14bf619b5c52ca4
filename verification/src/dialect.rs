//! The supported parsing dialects.

use vstd::prelude::*;

use crate::text::{eq_ignore_case, lower_seq};

verus! {

/// One of the supported parsing rule sets, each emulating a specific
/// upstream tool's `.env` parser.
#[derive(Debug, PartialEq, Eq, Clone, Copy, Structural)]
pub enum Dialect {
    Punktum,
    NodeJS,
    JavaScriptDotenv,
    PythonDotenv,
    PythonDotenvCLI,
    ComposeGo,
    GoDotenv,
    RubyDotenv,
    JavaDotenv,
    Binary,
}

/// The name did not denote a dialect.
#[derive(Debug, PartialEq, Eq, Clone, Copy, Structural)]
pub struct IllegalDialect {}

/// Whether two texts agree up to ASCII case.
pub open spec fn name_eq(a: Seq<char>, b: Seq<char>) -> bool {
    lower_seq(a) == lower_seq(b)
}

/// The dialect a configuration name denotes: the empty name and
/// `punktum` give the default, the other dialects answer to their
/// tool's name and the usual short forms, ASCII case-insensitively.
pub open spec fn spec_dialect_from(v: Seq<char>) -> Result<Dialect, IllegalDialect> {
    if v.len() == 0 || name_eq(v, "punktum"@) {
        Ok(Dialect::Punktum)
    } else if name_eq(v, "nodejs"@) {
        Ok(Dialect::NodeJS)
    } else if name_eq(v, "javascriptdotenv"@) || name_eq(v, "jsdotenv"@) || name_eq(
        v,
        "javascript-dotenv"@,
    ) || name_eq(v, "js-dotenv"@) {
        Ok(Dialect::JavaScriptDotenv)
    } else if name_eq(v, "pythondotenv"@) || name_eq(v, "pydotenv"@) || name_eq(
        v,
        "python-dotenv"@,
    ) || name_eq(v, "py-dotenv"@) {
        Ok(Dialect::PythonDotenv)
    } else if name_eq(v, "pythondotenvcli"@) || name_eq(v, "pydotenvcli"@) || name_eq(
        v,
        "python-dotenv-cli"@,
    ) || name_eq(v, "py-dotenv-cli"@) {
        Ok(Dialect::PythonDotenvCLI)
    } else if name_eq(v, "composego"@) || name_eq(v, "compose-go"@) {
        Ok(Dialect::ComposeGo)
    } else if name_eq(v, "godotenv"@) || name_eq(v, "go-dotenv"@) {
        Ok(Dialect::GoDotenv)
    } else if name_eq(v, "rubydotenv"@) || name_eq(v, "rbdotenv"@) || name_eq(
        v,
        "ruby-dotenv"@,
    ) || name_eq(v, "rb-dotenv"@) {
        Ok(Dialect::RubyDotenv)
    } else if name_eq(v, "javadotenv"@) || name_eq(v, "java-dotenv"@) {
        Ok(Dialect::JavaDotenv)
    } else if name_eq(v, "binary"@) {
        Ok(Dialect::Binary)
    } else {
        Err(IllegalDialect {  })
    }
}

impl Dialect {
    /// Parses a dialect name.
    pub fn try_from(value: &str) -> (r: Result<Dialect, IllegalDialect>)
        ensures
            r == spec_dialect_from(value@),
    {
        if value.is_empty() || eq_ignore_case(value, "punktum") {
            Ok(Dialect::Punktum)
        } else if eq_ignore_case(value, "nodejs") {
            Ok(Dialect::NodeJS)
        } else if eq_ignore_case(value, "javascriptdotenv") || eq_ignore_case(value, "jsdotenv")
            || eq_ignore_case(value, "javascript-dotenv") || eq_ignore_case(value, "js-dotenv") {
            Ok(Dialect::JavaScriptDotenv)
        } else if eq_ignore_case(value, "pythondotenv") || eq_ignore_case(value, "pydotenv")
            || eq_ignore_case(value, "python-dotenv") || eq_ignore_case(value, "py-dotenv") {
            Ok(Dialect::PythonDotenv)
        } else if eq_ignore_case(value, "pythondotenvcli") || eq_ignore_case(value, "pydotenvcli")
            || eq_ignore_case(value, "python-dotenv-cli") || eq_ignore_case(
            value,
            "py-dotenv-cli",
        ) {
            Ok(Dialect::PythonDotenvCLI)
        } else if eq_ignore_case(value, "composego") || eq_ignore_case(value, "compose-go") {
            Ok(Dialect::ComposeGo)
        } else if eq_ignore_case(value, "godotenv") || eq_ignore_case(value, "go-dotenv") {
            Ok(Dialect::GoDotenv)
        } else if eq_ignore_case(value, "rubydotenv") || eq_ignore_case(value, "rbdotenv")
            || eq_ignore_case(value, "ruby-dotenv") || eq_ignore_case(value, "rb-dotenv") {
            Ok(Dialect::RubyDotenv)
        } else if eq_ignore_case(value, "javadotenv") || eq_ignore_case(value, "java-dotenv") {
            Ok(Dialect::JavaDotenv)
        } else if eq_ignore_case(value, "binary") {
            Ok(Dialect::Binary)
        } else {
            Err(IllegalDialect {  })
        }
    }
}

impl Default for Dialect {
    /// The default dialect.
    fn default() -> (r: Self)
        ensures
            r == Dialect::Punktum,
    {
        Dialect::Punktum
    }
}

} // verus!
