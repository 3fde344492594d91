use cmdlang::definitions::{split_definition, split_definitions, split_lines, DefinitionError};
use cmdlang::expr::parse::expr::{
    app, bytes, command, entry_name, factor_expr, integer, path, positive_num, prime_path,
    string, var,
};
use cmdlang::expr::parse::{self, char_, ident, reserved, whitespaces, ParseError};
use cmdlang::expr::typecheck::Registry;
use cmdlang::expr::{Expr, ExprVar, Type};
use cmdlang::name_map::NameMap;
use cmdlang::text::{from_chars, to_chars, whitespace};

fn chars(s: &str) -> Vec<char> {
    s.chars().collect()
}

fn text(s: &[char]) -> String {
    s.iter().collect()
}

fn path_of(e: &Expr) -> Vec<String> {
    match e {
        Expr::Path(dirs) => dirs.clone(),
        other => panic!("{:?}", other),
    }
}

#[test]
fn parse_application_of_variable() {
    assert_eq!(
        parse::expr("$x --field:\"hi\"").unwrap(),
        Expr::App(
            Box::new(Expr::Var(ExprVar("$x".to_string()))),
            ExprVar("field".to_string()),
            Box::new(Expr::String("hi".to_string()))
        )
    );
    match parse::expr("$x --field:\"hi\"").unwrap() {
        Expr::App(callee, field, arg) => {
            assert!(matches!(*callee, Expr::Var(ref v) if v.0 == "$x"));
            assert_eq!(field, ExprVar("field".to_string()));
            assert!(matches!(*arg, Expr::String(ref s) if s == "hi"));
        }
        other => panic!("{:?}", other),
    }
}

#[test]
fn parse_arguments_fold_to_the_left() {
    match parse::expr("f --a:1 --b:2").unwrap() {
        Expr::App(inner, b, two) => {
            assert_eq!(b.0, "b");
            assert!(matches!(*two, Expr::Int(2)));
            match *inner {
                Expr::App(f, a, one) => {
                    assert_eq!(a.0, "a");
                    assert!(matches!(*one, Expr::Int(1)));
                    match *f {
                        Expr::Command(cmd) => {
                            assert_eq!(cmd.name.0, "f");
                            assert!(cmd.args.is_empty());
                        }
                        other => panic!("{:?}", other),
                    }
                }
                other => panic!("{:?}", other),
            }
        }
        other => panic!("{:?}", other),
    }
}

#[test]
fn parse_integers() {
    assert!(matches!(parse::expr("42"), Ok(Expr::Int(42))));
    assert!(matches!(parse::expr("  -7  "), Ok(Expr::Int(-7))));
    assert!(matches!(parse::expr("0"), Ok(Expr::Int(0))));
    assert!(matches!(parse::expr("007"), Ok(Expr::Int(7))));
    assert!(matches!(parse::expr("2147483647"), Ok(Expr::Int(i32::MAX))));
    assert!(matches!(parse::expr("-2147483648"), Ok(Expr::Int(i32::MIN))));
    assert!(matches!(parse::expr("2147483648"), Err(ParseError::IntegerOverflow)));
    assert!(matches!(parse::expr("-2147483649"), Err(ParseError::IntegerOverflow)));
    assert!(matches!(parse::expr("99999999999999999999999"), Err(ParseError::IntegerOverflow)));
    assert!(matches!(parse::expr("00000000000000000000001"), Ok(Expr::Int(1))));
}

#[test]
fn parse_strings() {
    assert!(matches!(parse::expr("\"\""), Ok(Expr::String(ref s)) if s.is_empty()));
    assert!(matches!(parse::expr("\"a b\""), Ok(Expr::String(ref s)) if s == "a b"));
    assert!(matches!(parse::expr("\"a\\\"b\""), Ok(Expr::String(ref s)) if s == "a\"b"));
    assert!(matches!(parse::expr("\"a\\\\b\""), Ok(Expr::String(ref s)) if s == "a\\b"));
    assert!(matches!(parse::expr("\"a\\nb\""), Ok(Expr::String(ref s)) if s == "anb"));
    assert!(matches!(parse::expr("\"abc"), Err(ParseError::UnterminatedString)));
    assert!(matches!(parse::expr("\"abc\\"), Err(ParseError::UnterminatedString)));
    assert!(matches!(parse::expr("\"abc\\\""), Err(ParseError::UnterminatedString)));
}

#[test]
fn parse_paths() {
    assert_eq!(path_of(&parse::expr("/a/b").unwrap()), vec!["", "a", "b"]);
    assert_eq!(path_of(&parse::expr("./a").unwrap()), vec![".", "a"]);
    assert_eq!(path_of(&parse::expr("../a/").unwrap()), vec!["..", "a", ""]);
    assert_eq!(path_of(&parse::expr(".").unwrap()), vec!["."]);
    assert_eq!(path_of(&parse::expr("..").unwrap()), vec![".."]);
    assert_eq!(path_of(&parse::expr("/").unwrap()), vec!["", ""]);
    assert_eq!(path_of(&parse::expr("/a.b/$c  ").unwrap()), vec!["", "a.b", "$c"]);
    assert!(matches!(parse::expr(".x"), Err(ParseError::Incomplete)));
}

#[test]
fn parse_variables_and_commands() {
    assert!(matches!(parse::expr("$x "), Ok(Expr::Var(ref v)) if v.0 == "$x"));
    assert!(matches!(parse::expr("$x"), Err(ParseError::IdentifierEnd)));
    assert!(matches!(parse::expr("$1 "), Err(ParseError::IdentifierStart)));
    assert!(matches!(parse::expr("cp\n"), Ok(Expr::Command(ref c)) if c.name.0 == "cp"));
    assert!(matches!(parse::expr("cp"), Err(ParseError::IdentifierEnd)));
    assert!(matches!(parse::expr(""), Err(ParseError::IdentifierEnd)));
    assert!(matches!(parse::expr("%"), Err(ParseError::IdentifierStart)));
    assert!(matches!(parse::expr("-x"), Err(ParseError::IdentifierStart)));
}

#[test]
fn parse_expression_errors() {
    assert!(matches!(parse::expr("1 2"), Err(ParseError::Incomplete)));
    assert!(matches!(parse::expr("cp --from /a"), Err(ParseError::ExpectedColon)));
    assert!(matches!(parse::expr("cp --from"), Err(ParseError::IdentifierEnd)));
    assert!(matches!(parse::expr("cp --1:2"), Err(ParseError::IdentifierStart)));
    assert!(matches!(parse::expr("cp --a:"), Err(ParseError::IdentifierEnd)));
    assert!(matches!(parse::expr("cp --a:\"x"), Err(ParseError::UnterminatedString)));
}

#[test]
fn inner_parsers_give_the_rest() {
    let s = chars("1 --a:2 rest");
    let (e, rest) = app(&s).unwrap();
    assert_eq!(e.to_string(), "1 --a:2");
    assert_eq!(text(rest), "rest");
    let (e, rest) = cmdlang::expr::parse::expr::expr(&s).unwrap();
    assert_eq!(e.to_string(), "1 --a:2");
    assert_eq!(text(rest), "rest");
    let (e, rest) = factor_expr(&s).unwrap();
    assert!(matches!(e, Expr::Int(1)));
    assert_eq!(text(rest), "--a:2 rest");
    let s = chars("$v  x");
    let (e, rest) = var(&s).unwrap();
    assert!(matches!(e, Expr::Var(ref v) if v.0 == "$v"));
    assert_eq!(text(rest), "x");
    assert!(matches!(var(&chars("v ")), Err(ParseError::ExpectedDollar)));
    let s = chars("-12 x");
    let (e, rest) = integer(&s).unwrap();
    assert!(matches!(e, Expr::Int(-12)));
    assert_eq!(text(rest), "x");
    let s = chars("2147483648,");
    let (n, rest) = positive_num(&s).unwrap();
    assert_eq!(n, 2147483648);
    assert_eq!(text(rest), ",");
    assert!(matches!(integer(&s), Err(ParseError::IntegerOverflow)));
    assert!(matches!(positive_num(&chars("x")), Err(ParseError::ExpectedDigit)));
    assert!(matches!(positive_num(&chars("")), Err(ParseError::ExpectedDigit)));
    assert!(matches!(integer(&chars("-")), Err(ParseError::ExpectedDigit)));
    let s = chars("\"a\"  b");
    let (e, rest) = string(&s).unwrap();
    assert!(matches!(e, Expr::String(ref t) if t == "a"));
    assert_eq!(text(rest), "b");
    assert!(matches!(string(&chars("a")), Err(ParseError::ExpectedChar('"'))));
    let s = chars("./x/y z");
    let (e, rest) = path(&s).unwrap();
    assert_eq!(path_of(&e), vec![".", "x", "y"]);
    assert_eq!(text(rest), "z");
    assert!(matches!(path(&chars("x")), Err(ParseError::ExpectedPath)));
    let s = chars("ab/c");
    let (name, rest) = entry_name(&s);
    assert_eq!(name, "ab");
    assert_eq!(text(rest), "/c");
    let s = chars("../x");
    let (first, rest) = prime_path(&s).unwrap();
    assert_eq!(first, "..");
    assert_eq!(text(rest), "/x");
    let s = chars("/x");
    let (first, rest) = prime_path(&s).unwrap();
    assert_eq!(first, "");
    assert_eq!(text(rest), "/x");
    assert!(matches!(prime_path(&chars("x")), Err(ParseError::ExpectedPath)));
    assert!(matches!(bytes(&chars("anything")), Err(ParseError::BytesNotImplemented)));
    let s = chars("ls  -l");
    let (cmd, rest) = command(&s).unwrap();
    assert_eq!(cmd.name.0, "ls");
    assert!(cmd.args.is_empty());
    assert_eq!(text(rest), "-l");
}

#[test]
fn shared_parsers() {
    let s = chars(" \t\n x ");
    assert_eq!(text(whitespaces(&s)), "x ");
    assert_eq!(text(whitespaces(&chars("   "))), "");
    assert_eq!(text(whitespaces(&chars("\u{a0}\u{3000}x"))), "x");
    let s = chars("ab");
    assert_eq!(text(char_(&s, 'a').unwrap()), "b");
    assert!(matches!(char_(&s, 'b'), Err(ParseError::ExpectedChar('b'))));
    assert!(matches!(char_(&chars(""), 'b'), Err(ParseError::ExpectedChar('b'))));
    let s = chars("->  x");
    assert_eq!(text(reserved(&s, "->").unwrap()), "x");
    assert!(matches!(reserved(&s, "=>"), Err(ParseError::ExpectedWord)));
    assert!(matches!(reserved(&chars("-"), "->"), Err(ParseError::ExpectedWord)));
    let s = chars("stringify");
    assert_eq!(text(reserved(&s, "string").unwrap()), "ify");
    let s = chars("ab_1: x");
    let (id, rest) = ident(&s).unwrap();
    assert_eq!(id, "ab_1");
    assert_eq!(text(rest), ": x");
    let s = chars("\u{e9}t\u{e9}\u{0663} ");
    let (id, rest) = ident(&s).unwrap();
    assert_eq!(id, "\u{e9}t\u{e9}\u{0663}");
    assert_eq!(text(rest), "");
    assert!(matches!(ident(&chars("_a ")), Err(ParseError::IdentifierStart)));
    assert!(matches!(ident(&chars("1a ")), Err(ParseError::IdentifierStart)));
    assert!(matches!(ident(&chars("ab")), Err(ParseError::IdentifierEnd)));
    assert!(matches!(ident(&chars("")), Err(ParseError::IdentifierEnd)));
}

#[test]
fn whitespace_is_the_white_space_property() {
    for n in 0..=0x10ffffu32 {
        if let Some(c) = char::from_u32(n) {
            assert_eq!(whitespace(c), c.is_whitespace(), "{:x}", n);
        }
    }
}

#[test]
fn chars_and_strings() {
    assert_eq!(to_chars("a\u{e9}b"), vec!['a', '\u{e9}', 'b']);
    assert_eq!(to_chars(""), Vec::<char>::new());
    assert_eq!(from_chars(&['x', 'y']), "xy");
    assert_eq!(from_chars(&[]), "");
}

#[test]
fn parse_types() {
    assert_eq!(parse::typ("int").unwrap(), Type::Int);
    assert_eq!(parse::typ(" string ").unwrap(), Type::String);
    assert_eq!(parse::typ("path").unwrap(), Type::Path);
    assert_eq!(parse::typ("bytes").unwrap(), Type::Bytes);
    let t = parse::typ("[c] --from:path -> --to:path -> path").unwrap();
    let mut params = NameMap::new();
    params.insert("to".to_string(), Type::Path);
    params.insert("from".to_string(), Type::Path);
    assert_eq!(
        t,
        Type::Func { context: ExprVar("c".to_string()), params, ret: Box::new(Type::Path) }
    );
    assert_eq!(t.to_string(), "[c] --from:path -> --to:path -> path");
    let t = parse::typ("[ctx]int").unwrap();
    assert_eq!(
        t,
        Type::Func {
            context: ExprVar("ctx".to_string()),
            params: NameMap::new(),
            ret: Box::new(Type::Int)
        }
    );
    let t = parse::typ("[c] --f:[d] --x:int -> string -> bytes").unwrap();
    assert_eq!(t.to_string(), "[c] --f:[d] --x:int -> string -> bytes");
    let t = parse::typ("[c] --a:int -> --a:string -> int").unwrap();
    assert_eq!(t.to_string(), "[c] --a:string -> int");
}

#[test]
fn parse_type_errors() {
    assert!(matches!(parse::typ("stringify"), Err(ParseError::Incomplete)));
    assert!(matches!(parse::typ("foo"), Err(ParseError::ExpectedWord)));
    assert!(matches!(parse::typ(""), Err(ParseError::ExpectedWord)));
    assert!(matches!(parse::typ("[1] int"), Err(ParseError::IdentifierStart)));
    assert!(matches!(parse::typ("[c"), Err(ParseError::IdentifierEnd)));
    assert!(matches!(parse::typ("[c int"), Err(ParseError::ExpectedWord)));
    assert!(matches!(parse::typ("[c]"), Err(ParseError::ExpectedWord)));
    assert!(matches!(parse::typ("[c] --a int -> int"), Err(ParseError::ExpectedColon)));
    assert!(matches!(parse::typ("[c] --a:int int"), Err(ParseError::ExpectedWord)));
    assert!(matches!(parse::typ("[c] --a:int ->"), Err(ParseError::ExpectedWord)));
    assert!(matches!(parse::typ("int int"), Err(ParseError::Incomplete)));
    let s = chars("int -> x");
    let (t, rest) = cmdlang::expr::parse::typ::typ(&s).unwrap();
    assert_eq!(t, Type::Int);
    assert_eq!(text(rest), "-> x");
}

#[test]
fn definitions_are_read_line_by_line() {
    assert_eq!(split_lines("a\nb\r\nc"), vec!["a", "b", "c"]);
    assert_eq!(split_lines("a\n\nb\n"), vec!["a", "", "b"]);
    assert_eq!(split_lines(""), Vec::<String>::new());
    assert_eq!(split_lines("\n"), vec![""]);
    assert_eq!(split_lines("a\r"), vec!["a\r"]);
    assert_eq!(split_lines("\r\n"), vec![""]);
    for text in ["a\nb\r\nc", "a\n\nb\n", "", "\n", "a\r", "\r\n", "x\r\r\n\ny"] {
        let expected: Vec<String> = text.lines().map(|l| l.to_string()).collect();
        assert_eq!(split_lines(text), expected);
    }
    assert_eq!(
        split_definition("cp:[c] --a:int -> int"),
        Some(("cp".to_string(), "[c] --a:int -> int".to_string()))
    );
    assert_eq!(split_definition(":"), Some(("".to_string(), "".to_string())));
    assert_eq!(split_definition("cp"), None);
    assert_eq!(
        split_definitions("a:int\nb:x:y\n").unwrap(),
        vec![("a".to_string(), "int".to_string()), ("b".to_string(), "x:y".to_string())]
    );
    assert_eq!(split_definitions("a:int\n\nb:int"), Err(DefinitionError::MissingColon(1)));
}

#[test]
fn registry_is_read_from_definitions() {
    let r = Registry::parse("a:int\nb:[c] --x:int -> string\na:path").unwrap();
    assert_eq!(r.get("a"), Some(&Type::Path));
    assert_eq!(r.get("b").unwrap().to_string(), "[c] --x:int -> string");
    assert_eq!(r.0.len(), 2);
    assert!(Registry::parse("").unwrap().0.is_empty());
    assert_eq!(Registry::parse("a:int\nb").err(), Some(DefinitionError::MissingColon(1)));
    assert_eq!(
        Registry::parse("a:int\nb:foo").err(),
        Some(DefinitionError::InvalidType(1, ParseError::ExpectedWord))
    );
    assert_eq!(
        Registry::parse("a:int:x").err(),
        Some(DefinitionError::InvalidType(0, ParseError::Incomplete))
    );
    assert_eq!(
        Registry::parse("a:foo\nb").err(),
        Some(DefinitionError::InvalidType(0, ParseError::ExpectedWord))
    );
}
