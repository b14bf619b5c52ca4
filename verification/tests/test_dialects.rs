use punktum::composego::config_composego;
use punktum::dialect::Dialect;
use punktum::env::MemoryEnv;
use punktum::godotenv::config_godotenv;
use punktum::java_dotenv::config_java_dotenv;
use punktum::javascript_dotenv::config_javascript_dotenv;
use punktum::jsdotenv::config_jsdotenv;
use punktum::nodejs::config_nodejs;
use punktum::options::Options;
use punktum::punktum::config_punktum;
use punktum::pydotenvcli::config_pydotenvcli;
use punktum::python_dotenv::config_python_dotenv;
use punktum::rbdotenv::config_rbdotenv;

fn opts(strict: bool) -> Options {
    let mut o = Options::default();
    o.strict = strict;
    o
}

fn get(env: &MemoryEnv, key: &str) -> Option<String> {
    env.get(key)
}

#[test]
fn punktum_basic_binding() {
    let mut env = MemoryEnv::new();
    let parent = MemoryEnv::new();
    config_punktum("FOO=bar\n", &mut env, &parent, &opts(true)).unwrap();
    assert_eq!(get(&env, "FOO"), Some("bar".to_string()));
    assert_eq!(env.len(), 1);
}

#[test]
fn punktum_single_write_without_newline() {
    let mut env = MemoryEnv::new();
    let parent = MemoryEnv::new();
    config_punktum("FOO=bar", &mut env, &parent, &opts(true)).unwrap();
    assert_eq!(get(&env, "FOO"), Some("bar".to_string()));
    assert_eq!(env.len(), 1);
}

#[test]
fn punktum_double_quoted_escapes() {
    let mut env = MemoryEnv::new();
    let parent = MemoryEnv::new();
    config_punktum("A=\"x\\ny\\t\\\"z\\\"\"\n", &mut env, &parent, &opts(true)).unwrap();
    assert_eq!(get(&env, "A"), Some("x\ny\t\"z\"".to_string()));
}

#[test]
fn punktum_unicode_escapes() {
    let mut env = MemoryEnv::new();
    let parent = MemoryEnv::new();
    config_punktum("A=\"\\u00e4 \\U01F603\"\n", &mut env, &parent, &opts(true)).unwrap();
    assert_eq!(get(&env, "A"), Some("\u{e4} \u{1F603}".to_string()));
}

#[test]
fn punktum_surrogate_pair_escape() {
    let mut env = MemoryEnv::new();
    let parent = MemoryEnv::new();
    config_punktum("A=\"\\uD83D\\uDE03\"\n", &mut env, &parent, &opts(true)).unwrap();
    assert_eq!(get(&env, "A"), Some("\u{1F603}".to_string()));
}

#[test]
fn punktum_single_quotes_literal() {
    let mut env = MemoryEnv::new();
    let parent = MemoryEnv::new();
    config_punktum("B='li\\nt'\n", &mut env, &parent, &opts(true)).unwrap();
    assert_eq!(get(&env, "B"), Some("li\\nt".to_string()));
}

#[test]
fn punktum_inherits_from_parent() {
    let mut env = MemoryEnv::new();
    let mut parent = MemoryEnv::new();
    parent.set("FOO", "from-parent");
    config_punktum("FOO\n", &mut env, &parent, &opts(true)).unwrap();
    assert_eq!(get(&env, "FOO"), Some("from-parent".to_string()));
    assert_eq!(env.len(), 1);
}

#[test]
fn punktum_inherit_missing_writes_nothing() {
    let mut env = MemoryEnv::new();
    let parent = MemoryEnv::new();
    config_punktum("FOO\n", &mut env, &parent, &opts(true)).unwrap();
    assert_eq!(env.len(), 0);
}

#[test]
fn punktum_substitution_reads_sink() {
    let mut env = MemoryEnv::new();
    let parent = MemoryEnv::new();
    config_punktum("A=abc\nB=${A}\nC=${A:-zzz}\nD=${X:-zzz}\n", &mut env, &parent, &opts(true))
        .unwrap();
    assert_eq!(get(&env, "B"), Some("abc".to_string()));
    assert_eq!(get(&env, "C"), Some("abc".to_string()));
    assert_eq!(get(&env, "D"), Some("zzz".to_string()));
}

#[test]
fn punktum_substitution_alt_forms() {
    let mut env = MemoryEnv::new();
    let parent = MemoryEnv::new();
    config_punktum(
        "A=abc\nE=\nP=${A:+alt}\nQ=${E:+alt}\nR=${E+alt}\nS=${X+alt}\nT=${E-dflt}\nU=${X-dflt}\n",
        &mut env,
        &parent,
        &opts(true),
    )
    .unwrap();
    assert_eq!(get(&env, "P"), Some("alt".to_string()));
    assert_eq!(get(&env, "Q"), Some("".to_string()));
    assert_eq!(get(&env, "R"), Some("alt".to_string()));
    assert_eq!(get(&env, "S"), Some("".to_string()));
    assert_eq!(get(&env, "T"), Some("".to_string()));
    assert_eq!(get(&env, "U"), Some("dflt".to_string()));
}

#[test]
fn punktum_required_error_nonstrict_skips_binding() {
    let mut env = MemoryEnv::new();
    let parent = MemoryEnv::new();
    config_punktum("FOO=${BAR?oops}\nBAZ=2\n", &mut env, &parent, &opts(false)).unwrap();
    assert_eq!(get(&env, "FOO"), None);
    assert_eq!(get(&env, "BAZ"), Some("2".to_string()));
}

#[test]
fn punktum_required_error_strict() {
    let mut env = MemoryEnv::new();
    let parent = MemoryEnv::new();
    let res = config_punktum("FOO=${BAR:?oops}\n", &mut env, &parent, &opts(true));
    assert!(res.is_err());
    let err = res.unwrap_err();
    assert!(err.location().is_some());
}

#[test]
fn punktum_nul_byte_errors_or_skips() {
    let mut env = MemoryEnv::new();
    let parent = MemoryEnv::new();
    let res = config_punktum("A=b\0c\n", &mut env, &parent, &opts(true));
    assert!(res.is_err());
    let mut env2 = MemoryEnv::new();
    config_punktum("A=b\0c\nB=2\n", &mut env2, &parent, &opts(false)).unwrap();
    assert_eq!(get(&env2, "A"), None);
    assert_eq!(get(&env2, "B"), Some("2".to_string()));
}

#[test]
fn punktum_trailing_text_concatenates() {
    let mut env = MemoryEnv::new();
    let parent = MemoryEnv::new();
    config_punktum("KEY=\"value\" trailing\n", &mut env, &parent, &opts(true)).unwrap();
    assert_eq!(get(&env, "KEY"), Some("value trailing".to_string()));
}

#[test]
fn punktum_override_policy() {
    let mut env = MemoryEnv::new();
    env.set("PRE", "old");
    let parent = MemoryEnv::new();
    config_punktum("PRE=new\n", &mut env, &parent, &opts(true)).unwrap();
    assert_eq!(get(&env, "PRE"), Some("old".to_string()));
    let mut env2 = MemoryEnv::new();
    env2.set("PRE", "old");
    let mut o = opts(true);
    o.override_env = true;
    config_punktum("PRE=new\n", &mut env2, &parent, &o).unwrap();
    assert_eq!(get(&env2, "PRE"), Some("new".to_string()));
}

#[test]
fn composego_defaulting() {
    let parent = MemoryEnv::new();
    let mut env = MemoryEnv::new();
    config_composego("BAR=x\nFOO=${BAR:-fallback}\n", &mut env, &parent, &opts(true)).unwrap();
    assert_eq!(get(&env, "FOO"), Some("x".to_string()));
    let mut env2 = MemoryEnv::new();
    config_composego("BAR=\nFOO=${BAR:-fallback}\n", &mut env2, &parent, &opts(true)).unwrap();
    assert_eq!(get(&env2, "FOO"), Some("fallback".to_string()));
    let mut env3 = MemoryEnv::new();
    config_composego("FOO=${BAR:-fallback}\n", &mut env3, &parent, &opts(true)).unwrap();
    assert_eq!(get(&env3, "FOO"), Some("fallback".to_string()));
}

#[test]
fn composego_inherits_from_parent() {
    let mut parent = MemoryEnv::new();
    parent.set("KEY", "inherited");
    let mut env = MemoryEnv::new();
    config_composego("KEY\n", &mut env, &parent, &opts(true)).unwrap();
    assert_eq!(get(&env, "KEY"), Some("inherited".to_string()));
    let parent2 = MemoryEnv::new();
    let mut env2 = MemoryEnv::new();
    config_composego("KEY\n", &mut env2, &parent2, &opts(true)).unwrap();
    assert_eq!(env2.len(), 0);
}

#[test]
fn composego_stops_value_at_quote_close() {
    let parent = MemoryEnv::new();
    let mut env = MemoryEnv::new();
    config_composego("K=\"v\" trailing\n", &mut env, &parent, &opts(true)).unwrap();
    assert_eq!(get(&env, "K"), Some("v".to_string()));
    assert_eq!(env.len(), 1);
}

#[test]
fn composego_nul_policy() {
    let parent = MemoryEnv::new();
    let mut env = MemoryEnv::new();
    let res = config_composego("A=b\0c\n", &mut env, &parent, &opts(true));
    assert!(res.is_err());
    let mut env2 = MemoryEnv::new();
    config_composego("A=b\0c\nB=2\n", &mut env2, &parent, &opts(false)).unwrap();
    assert_eq!(get(&env2, "A"), None);
    assert_eq!(get(&env2, "B"), Some("2".to_string()));
}

#[test]
fn composego_escape_table() {
    let parent = MemoryEnv::new();
    let mut env = MemoryEnv::new();
    config_composego("A=\"1\\n2\\t3\\a4\\b5\\v6\\f7\"\n", &mut env, &parent, &opts(true))
        .unwrap();
    assert_eq!(
        get(&env, "A"),
        Some("1\n2\t3\u{7}4\u{8}5\u{b}6\u{c}7".to_string())
    );
}

#[test]
fn composego_brace_balance_quirk() {
    let parent = MemoryEnv::new();
    let mut env = MemoryEnv::new();
    config_composego("FOO=${BAR:-{baz}}\n", &mut env, &parent, &opts(true)).unwrap();
    assert_eq!(get(&env, "FOO"), Some("{baz}".to_string()));
}

#[test]
fn nodejs_basic_and_quotes() {
    let mut env = MemoryEnv::new();
    config_nodejs("A=1\nB=\"x\\ny\"\nC=`tick`\n", &mut env, &opts(true)).unwrap();
    assert_eq!(get(&env, "A"), Some("1".to_string()));
    assert_eq!(get(&env, "B"), Some("x\ny".to_string()));
    assert_eq!(get(&env, "C"), Some("tick".to_string()));
}

#[test]
fn nodejs_stops_at_quote_close() {
    let mut env = MemoryEnv::new();
    config_nodejs("K=\"v\" trailing\n", &mut env, &opts(true)).unwrap();
    assert_eq!(get(&env, "K"), Some("v".to_string()));
}

#[test]
fn nodejs_cuts_at_nul() {
    let mut env = MemoryEnv::new();
    config_nodejs("A=b\0c\n", &mut env, &opts(true)).unwrap();
    assert_eq!(get(&env, "A"), Some("b".to_string()));
}

#[test]
fn java_quote_backtracking() {
    let mut env = MemoryEnv::new();
    config_java_dotenv("K=\"value\" trailing\n", &mut env, &opts(false)).unwrap();
    assert_eq!(get(&env, "K"), Some("\"value\" trailing".to_string()));
    let mut env2 = MemoryEnv::new();
    config_java_dotenv("K=\"value\" trailing\n", &mut env2, &opts(true)).unwrap();
    assert_eq!(get(&env2, "K"), Some("\"value\" trailing".to_string()));
}

#[test]
fn java_lone_double_quote() {
    let mut env = MemoryEnv::new();
    let res = config_java_dotenv("K=\"\n", &mut env, &opts(true));
    assert!(res.is_err());
    let mut env2 = MemoryEnv::new();
    config_java_dotenv("K=\"\n", &mut env2, &opts(false)).unwrap();
    assert_eq!(env2.len(), 0);
}

#[test]
fn java_cuts_at_nul() {
    let mut env = MemoryEnv::new();
    config_java_dotenv("A=b\0c\n", &mut env, &opts(true)).unwrap();
    assert_eq!(get(&env, "A"), Some("b".to_string()));
}

#[test]
fn javascript_quote_backtracking() {
    let mut env = MemoryEnv::new();
    config_javascript_dotenv("K=\"value\" trailing\n", &mut env, &opts(false)).unwrap();
    assert_eq!(get(&env, "K"), Some("\"value\" trailing".to_string()));
}

#[test]
fn jsdotenv_quote_backtracking() {
    let mut env = MemoryEnv::new();
    config_jsdotenv("K=\"value\" trailing\n", &mut env, &opts(false)).unwrap();
    assert_eq!(get(&env, "K"), Some("\"value\" trailing".to_string()));
}

#[test]
fn jsdotenv_multiline_double_quote() {
    let mut env = MemoryEnv::new();
    config_jsdotenv("K=\"a\nb\"\nL=1\n", &mut env, &opts(true)).unwrap();
    assert_eq!(get(&env, "K"), Some("a\nb".to_string()));
    assert_eq!(get(&env, "L"), Some("1".to_string()));
}

#[test]
fn jsdotenv_expands_newline_escape() {
    let mut env = MemoryEnv::new();
    config_jsdotenv("K=\"a\\nb\\rc\"\n", &mut env, &opts(true)).unwrap();
    assert_eq!(get(&env, "K"), Some("a\nb\rc".to_string()));
}

#[test]
fn ruby_quote_backtracking() {
    let parent = MemoryEnv::new();
    let mut env = MemoryEnv::new();
    config_rbdotenv("K=\"value\" trailing\n", &mut env, &parent, &opts(false)).unwrap();
    assert_eq!(get(&env, "K"), Some("\"value\" trailing".to_string()));
}

#[test]
fn ruby_legacy_linebreak_mode() {
    let mut parent = MemoryEnv::new();
    parent.set("DOTENV_LINEBREAK_MODE", "legacy");
    let mut env = MemoryEnv::new();
    config_rbdotenv("A=\"x\\ny\"\n", &mut env, &parent, &opts(true)).unwrap();
    assert_eq!(get(&env, "A"), Some("x\ny".to_string()));
    let parent2 = MemoryEnv::new();
    let mut env2 = MemoryEnv::new();
    config_rbdotenv("A=\"x\\ny\"\n", &mut env2, &parent2, &opts(true)).unwrap();
    assert_eq!(get(&env2, "A"), Some("x\\ny".to_string()));
}

#[test]
fn ruby_substitutes_from_sink() {
    let parent = MemoryEnv::new();
    let mut env = MemoryEnv::new();
    config_rbdotenv("A=abc\nB=${A}\nC=$A\n", &mut env, &parent, &opts(true)).unwrap();
    assert_eq!(get(&env, "B"), Some("abc".to_string()));
    assert_eq!(get(&env, "C"), Some("abc".to_string()));
}

#[test]
fn ruby_inherits_from_parent() {
    let mut parent = MemoryEnv::new();
    parent.set("K", "from-parent");
    let mut env = MemoryEnv::new();
    config_rbdotenv("K\n", &mut env, &parent, &opts(true)).unwrap();
    assert_eq!(get(&env, "K"), Some("from-parent".to_string()));
    let parent2 = MemoryEnv::new();
    let mut env2 = MemoryEnv::new();
    config_rbdotenv("K\n", &mut env2, &parent2, &opts(true)).unwrap();
    assert_eq!(env2.len(), 0);
}

#[test]
fn ruby_export_inherits_each_key() {
    let mut parent = MemoryEnv::new();
    parent.set("A", "1");
    parent.set("B", "2");
    let mut env = MemoryEnv::new();
    config_rbdotenv("export A B\n", &mut env, &parent, &opts(true)).unwrap();
    assert_eq!(get(&env, "A"), Some("1".to_string()));
    assert_eq!(get(&env, "B"), Some("2".to_string()));
    let mut env2 = MemoryEnv::new();
    config_rbdotenv("export MISSING OTHER\n", &mut env2, &parent, &opts(true)).unwrap();
    assert_eq!(env2.len(), 0);
}

#[test]
fn pydotenvcli_escape_fidelity() {
    let mut env = MemoryEnv::new();
    config_pydotenvcli(
        "BASIC=\"\\r,\\n,\\t,\\v,\\f,\\a,\\b\"\n",
        &mut env,
        &opts(true),
    )
    .unwrap();
    assert_eq!(
        get(&env, "BASIC"),
        Some("\r,\n,\t,\u{b},\u{c},\u{7},\u{8}".to_string())
    );
}

#[test]
fn pydotenvcli_octal_and_hex() {
    let mut env = MemoryEnv::new();
    config_pydotenvcli("OCT=\"\\0053\"\nHEX=\"\\x41\"\n", &mut env, &opts(true)).unwrap();
    assert_eq!(get(&env, "OCT"), Some("+".to_string()));
    assert_eq!(get(&env, "HEX"), Some("A".to_string()));
}

#[test]
fn pydotenvcli_rejects_nul() {
    let mut env = MemoryEnv::new();
    let res = config_pydotenvcli("A=b\0c\n", &mut env, &opts(true));
    assert!(res.is_err());
    let mut env2 = MemoryEnv::new();
    config_pydotenvcli("A=b\0c\nB=2\n", &mut env2, &opts(false)).unwrap();
    assert_eq!(get(&env2, "A"), None);
    assert_eq!(get(&env2, "B"), Some("2".to_string()));
}

#[test]
fn python_basic_and_interpolation() {
    let mut env = MemoryEnv::new();
    config_python_dotenv("FOO=bar\nA='x'\nB=${FOO}\nC=${X:-d}\n", &mut env, &opts(true))
        .unwrap();
    assert_eq!(get(&env, "FOO"), Some("bar".to_string()));
    assert_eq!(get(&env, "A"), Some("x".to_string()));
    assert_eq!(get(&env, "B"), Some("bar".to_string()));
    assert_eq!(get(&env, "C"), Some("d".to_string()));
}

#[test]
fn python_double_quote_escapes() {
    let mut env = MemoryEnv::new();
    config_python_dotenv("A=\"x\\ny\\x41\"\n", &mut env, &opts(true)).unwrap();
    assert_eq!(get(&env, "A"), Some("x\nyA".to_string()));
}

#[test]
fn python_cuts_at_nul() {
    let mut env = MemoryEnv::new();
    config_python_dotenv("A=b\0c\n", &mut env, &opts(true)).unwrap();
    assert_eq!(get(&env, "A"), Some("b".to_string()));
}

#[test]
fn python_quote_backtracking_escaped_quote() {
    let mut env = MemoryEnv::new();
    config_python_dotenv("A='\\'\n", &mut env, &opts(true)).unwrap();
    assert_eq!(get(&env, "A"), Some("\\".to_string()));
}

#[test]
fn godotenv_basic_and_substitution() {
    let mut env = MemoryEnv::new();
    config_godotenv("A=abc\nB=\"$A\"\nC='lit$A'\n", &mut env, &opts(true)).unwrap();
    assert_eq!(get(&env, "A"), Some("abc".to_string()));
    assert_eq!(get(&env, "B"), Some("abc".to_string()));
    assert_eq!(get(&env, "C"), Some("lit$A".to_string()));
}

#[test]
fn godotenv_backward_comment_quirk() {
    let mut env = MemoryEnv::new();
    config_godotenv("FOO=BAR # commented # comment\n", &mut env, &opts(true)).unwrap();
    assert_eq!(get(&env, "FOO"), Some("BAR # commented".to_string()));
}

#[test]
fn godotenv_unquoted_is_not_expanded() {
    let mut env = MemoryEnv::new();
    config_godotenv("A=abc\nB=$A\n", &mut env, &opts(true)).unwrap();
    assert_eq!(get(&env, "B"), Some("$A".to_string()));
}

#[test]
fn parses_identically_on_repeat() {
    let src = "A=1\nB=\"${A:-x}\"\nC # comment\n";
    let parent = MemoryEnv::new();
    let mut env1 = MemoryEnv::new();
    let mut env2 = MemoryEnv::new();
    let r1 = config_punktum(src, &mut env1, &parent, &opts(false));
    let r2 = config_punktum(src, &mut env2, &parent, &opts(false));
    assert_eq!(r1.is_err(), r2.is_err());
    assert_eq!(env1.len(), env2.len());
    assert_eq!(punktum::write_iter(&env1), punktum::write_iter(&env2));
}

#[test]
fn dispatch_covers_every_dialect() {
    for d in [
        Dialect::Punktum,
        Dialect::NodeJS,
        Dialect::JavaScriptDotenv,
        Dialect::PythonDotenv,
        Dialect::PythonDotenvCLI,
        Dialect::ComposeGo,
        Dialect::GoDotenv,
        Dialect::RubyDotenv,
        Dialect::JavaDotenv,
    ] {
        let mut env = MemoryEnv::new();
        let parent = MemoryEnv::new();
        let mut o = opts(true);
        o.dialect = d;
        punktum::config_with_source("KEY=value\n", &mut env, &parent, &o).unwrap();
        assert_eq!(get(&env, "KEY"), Some("value".to_string()), "{:?}", d);
    }
}
