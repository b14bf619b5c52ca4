use punktum::build;
use punktum::dialect::Dialect;
use punktum::encoding::Encoding;
use punktum::env::{EmptyEnv, MemoryEnv, parse_bool};
use punktum::error::{Error, ErrorKind, SourceLocation};
use punktum::line_splitter::{AgnostigLineSplitter, split_lines};
use punktum::options::{Builder, Options};
use punktum::python_dotenv::{Pattern, Position, Reader};
use punktum::{write_iter, write_iter_binary, write_var, write_var_binary};

#[test]
fn dialect_names_parse() {
    assert_eq!(Dialect::try_from("punktum"), Ok(Dialect::Punktum));
    assert_eq!(Dialect::try_from(""), Ok(Dialect::Punktum));
    assert_eq!(Dialect::try_from("NodeJS"), Ok(Dialect::NodeJS));
    assert_eq!(Dialect::try_from("compose-go"), Ok(Dialect::ComposeGo));
    assert_eq!(Dialect::try_from("ruby-dotenv"), Ok(Dialect::RubyDotenv));
    assert_eq!(Dialect::try_from("Binary"), Ok(Dialect::Binary));
    assert!(Dialect::try_from("nonsense").is_err());
    assert_eq!(Dialect::default(), Dialect::Punktum);
}

#[test]
fn encoding_names_parse() {
    assert_eq!(Encoding::try_from("utf-8"), Ok(Encoding::UTF8));
    assert_eq!(Encoding::try_from("ISO-8859-1"), Ok(Encoding::Latin1));
    assert_eq!(Encoding::try_from("utf-16le"), Ok(Encoding::UTF16LE));
    assert_eq!(Encoding::try_from("windows-12001"), Ok(Encoding::UTF32BE));
    assert!(Encoding::try_from("ebcdic").is_err());
    assert_eq!(Encoding::default(), Encoding::UTF8);
}

#[test]
fn bool_values_parse() {
    assert_eq!(parse_bool("true"), Some(true));
    assert_eq!(parse_bool("TRUE"), Some(true));
    assert_eq!(parse_bool("1"), Some(true));
    assert_eq!(parse_bool("false"), Some(false));
    assert_eq!(parse_bool("0"), Some(false));
    assert_eq!(parse_bool("yes"), None);
}

#[test]
fn builder_assembles_options() {
    let b = build()
        .strict(false)
        .debug(true)
        .override_env(true)
        .dialect(Dialect::ComposeGo)
        .encoding(Encoding::Latin1)
        .path(".env.test".to_string());
    let o: &Options = b.options();
    assert_eq!(o.strict, false);
    assert_eq!(o.debug, true);
    assert_eq!(o.override_env, true);
    assert_eq!(o.dialect, Dialect::ComposeGo);
    assert_eq!(o.encoding, Encoding::Latin1);
    assert_eq!(o.path, ".env.test".to_string());
    let o2 = Builder::new().into_options();
    assert_eq!(o2.strict, true);
    assert_eq!(o2.path, ".env".to_string());
}

#[test]
fn error_carries_location() {
    let e = Error::syntax_error(3, 7);
    assert_eq!(e.kind(), ErrorKind::SyntaxError);
    assert_eq!(*e.location(), Some(SourceLocation::new(3, 7)));
    let l = SourceLocation::new(1, 2);
    let e2 = Error::with_location(ErrorKind::IOError, l);
    assert_eq!(e2.kind(), ErrorKind::IOError);
}

#[test]
fn empty_env_has_nothing() {
    let e = EmptyEnv::new();
    assert_eq!(e.get("ANYTHING"), None);
}

#[test]
fn memory_env_set_get() {
    let mut env = MemoryEnv::new();
    env.set("A", "1");
    env.set("B", "2");
    env.set("A", "3");
    assert_eq!(env.get("A"), Some("3".to_string()));
    assert_eq!(env.get("B"), Some("2".to_string()));
    assert_eq!(env.len(), 2);
    assert_eq!(env.key_at(0), "A".to_string());
    assert_eq!(env.value_at(0), "3".to_string());
}

#[test]
fn line_splitting() {
    let lines = split_lines("a\nb\r\nc\rd\nrest");
    assert_eq!(lines, vec!["a".to_string(), "b".to_string(), "c".to_string(), "d".to_string()]);
    let mut sp = AgnostigLineSplitter::new("x\ny");
    assert_eq!(sp.next(), Some("x".to_string()));
    assert_eq!(sp.next(), None);
}

#[test]
fn shell_rendering() {
    assert_eq!(write_var("KEY", "a'b"), "KEY='a'\"'\"'b'\n".to_string());
    assert_eq!(write_var_binary("K", "v"), "K=v\0".to_string());
    let mut env = MemoryEnv::new();
    env.set("A", "1");
    env.set("B", "x y");
    assert_eq!(write_iter(&env), "A='1'\nB='x y'\n".to_string());
    assert_eq!(write_iter_binary(&env), "A=1\0B=x y\0".to_string());
}

#[test]
fn binary_dialect_through_builder() {
    let env = build()
        .dialect(Dialect::Binary)
        .config_new_with_reader(b"A=1\0B=two\0")
        .unwrap();
    assert_eq!(env.get("A"), Some("1".to_string()));
    assert_eq!(env.get("B"), Some("two".to_string()));
    let res = build()
        .dialect(Dialect::Binary)
        .config_new_with_reader(b"A=1\0B=unterminated");
    assert!(res.is_err());
}

#[test]
fn binary_write_then_parse_round_trip() {
    let mut env = MemoryEnv::new();
    env.set("A", "1");
    env.set("B", "two words");
    env.set("PATH", "/usr/bin:/bin");
    let rendered = write_iter_binary(&env);
    let parsed = build()
        .dialect(Dialect::Binary)
        .config_new_with_reader(rendered.as_bytes())
        .unwrap();
    assert_eq!(parsed.len(), 3);
    assert_eq!(parsed.get("A"), Some("1".to_string()));
    assert_eq!(parsed.get("B"), Some("two words".to_string()));
    assert_eq!(parsed.get("PATH"), Some("/usr/bin:/bin".to_string()));
}

#[test]
fn invalid_utf8_is_an_io_error() {
    let res = build().config_new_with_reader(&[0x41, 0x3d, 0xff, 0xfe]);
    match res {
        Err(e) => assert_eq!(e.kind(), ErrorKind::IOError),
        Ok(_) => panic!("expected an error"),
    }
}

#[test]
fn python_reader_cursor() {
    let mut p = Position::start();
    assert_eq!(p.index, 0);
    assert_eq!(p.lineno, 1);
    p.advance("ab\ncd");
    assert_eq!(p.index, 5);
    assert_eq!(p.lineno, 2);
    let q = Position::start();
    p.set(&q);
    assert_eq!(p.index, 0);
    let mut r = Reader::new("  X=1\n");
    assert!(r.has_next());
    assert_eq!(r.peek(), Some(' '));
    r.read_pattern(Pattern::MultilineWhitespace).unwrap();
    assert_eq!(r.peek(), Some('X'));
    r.set_mark();
    assert_eq!(r.mark.index, 2);
    r.read_pattern(Pattern::RestOfLine).unwrap();
    assert!(!r.has_next());
}
