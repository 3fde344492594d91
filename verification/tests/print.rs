use cmdlang::expr::parse::{self, ParseError};
use cmdlang::expr::print::{int_to_string, join};
use cmdlang::expr::typecheck::{Registry, TypingError};
use cmdlang::expr::{Command, Expr, ExprVar, Type, TypeVar};
use cmdlang::meta_operation::{self, MetaError, MetaOperation};
use cmdlang::name_map::{compare_names, NameMap, NameOrder};

fn roundtrip(e: Expr) -> Expr {
    parse::expr(&e.to_string()).unwrap()
}

#[test]
fn printed_integers_are_read_back() {
    for n in [0, 1, -1, 9, 10, 42, -7, 1000, i32::MAX, i32::MIN, -2147483647] {
        assert!(matches!(roundtrip(Expr::Int(n)), Expr::Int(m) if m == n));
        assert_eq!(roundtrip(Expr::Int(n)), Expr::Int(n));
    }
}

#[test]
fn expressions_compare_by_what_they_hold() {
    let a = parse::expr("f --a:1 --b:\"x\"").unwrap();
    assert_eq!(a, parse::expr("f   --a:1   --b:\"x\"  ").unwrap());
    assert_eq!(a.clone(), a);
    assert_ne!(a, parse::expr("f --a:1 --b:\"y\"").unwrap());
    assert_ne!(a, parse::expr("f --a:1 --c:\"x\"").unwrap());
    assert_ne!(a, parse::expr("g --a:1 --b:\"x\"").unwrap());
    assert_ne!(Expr::Int(1), Expr::String("1".to_string()));
    assert_eq!(Expr::Bytes(vec![1, 2]), Expr::Bytes(vec![1, 2]));
    assert_ne!(Expr::Bytes(vec![1, 2]), Expr::Bytes(vec![1, 3]));
    assert_ne!(Expr::Bytes(vec![1, 2]), Expr::Bytes(vec![1]));
    assert_ne!(
        Expr::Path(vec![".".to_string()]),
        Expr::Path(vec![".".to_string(), "a".to_string()])
    );
    let mut args = NameMap::new();
    args.insert("a".to_string(), Expr::Int(1));
    let with_args = Command { name: ExprVar("f".to_string()), args };
    let without_args = Command { name: ExprVar("f".to_string()), args: NameMap::new() };
    assert_ne!(with_args, without_args);
    assert_eq!(with_args.clone(), with_args);
    assert_eq!(Expr::from(without_args.clone()), Expr::Command(without_args));
}

#[test]
fn printed_strings_are_read_back() {
    let strings = [
        "",
        "hi",
        "a b  c",
        "--x:1",
        "$y",
        "\u{e9}",
        "a\"b",
        "a\\b",
        "\"",
        "\\",
        "\\\"",
        "\"\\\"\\",
        "ends with \\",
        "\" --f:\"x",
        "a\\nb",
    ];
    for s in strings {
        assert_eq!(roundtrip(Expr::String(s.to_string())), Expr::String(s.to_string()));
    }
}

#[test]
fn strings_print_with_quotes_and_backslashes_escaped() {
    assert_eq!(Expr::String("hi".to_string()).to_string(), "\"hi\"");
    assert_eq!(Expr::String("".to_string()).to_string(), "\"\"");
    assert_eq!(Expr::String("a\"b".to_string()).to_string(), "\"a\\\"b\"");
    assert_eq!(Expr::String("a\\b".to_string()).to_string(), "\"a\\\\b\"");
    assert_eq!(Expr::String("\\\"".to_string()).to_string(), "\"\\\\\\\"\"");
    assert_eq!(parse::expr("f --a:\"x\\\"y\"").unwrap().to_string(), "f  --a:\"x\\\"y\"");
}

#[test]
fn printed_paths_are_read_back() {
    let paths: Vec<Vec<&str>> = vec![
        vec!["", "a"],
        vec!["", ""],
        vec![".", "b", "c"],
        vec![".."],
        vec!["."],
        vec!["..", "..", "x.y"],
        vec![".", "", "a"],
    ];
    for dirs in paths {
        let dirs: Vec<String> = dirs.into_iter().map(|d| d.to_string()).collect();
        assert_eq!(roundtrip(Expr::Path(dirs.clone())), Expr::Path(dirs));
    }
}

#[test]
fn integers_print_in_decimal() {
    assert_eq!(int_to_string(0), "0");
    assert_eq!(int_to_string(7), "7");
    assert_eq!(int_to_string(-7), "-7");
    assert_eq!(int_to_string(120), "120");
    assert_eq!(int_to_string(i32::MAX), "2147483647");
    assert_eq!(int_to_string(i32::MIN), "-2147483648");
}

#[test]
fn join_puts_the_separator_between() {
    let parts = vec!["a".to_string(), "".to_string(), "c".to_string()];
    assert_eq!(join(&parts, ", "), "a, , c");
    assert_eq!(join(&vec!["a".to_string()], "/"), "a");
    assert_eq!(join(&vec![], "/"), "");
}

#[test]
fn expressions_print() {
    assert_eq!(Expr::Var(ExprVar("$x".to_string())).to_string(), "$x");
    assert_eq!(Expr::Bytes(vec![1]).to_string(), "<bytes>");
    assert_eq!(Expr::String("a\"b".to_string()).to_string(), "\"a\\\"b\"");
    assert_eq!(Expr::Path(vec!["".to_string(), "a".to_string()]).to_string(), "/a");
    assert_eq!(
        parse::expr("cp   --from:/a --to:\"x\"").unwrap().to_string(),
        "cp  --from:/a --to:\"x\""
    );
    let mut args = NameMap::new();
    args.insert("b".to_string(), Expr::Int(2));
    args.insert("a".to_string(), Expr::Int(1));
    let cmd = Command { name: ExprVar("f".to_string()), args };
    assert_eq!(cmd.to_string(), "f --a:1 --b:2");
    assert_eq!(Expr::Command(cmd.clone()).to_string(), "f --a:1 --b:2");
    assert_eq!(Expr::Command(cmd).clone().to_string(), "f --a:1 --b:2");
    assert_eq!(ExprVar("x".to_string()).to_string(), "x");
    assert_eq!(TypeVar("t".to_string()).to_string(), "t");
}

#[test]
fn types_print() {
    assert_eq!(Type::Int.to_string(), "int");
    assert_eq!(Type::String.to_string(), "string");
    assert_eq!(Type::Path.to_string(), "path");
    assert_eq!(Type::Bytes.to_string(), "bytes");
    assert_eq!(Type::Context.to_string(), "context");
    assert_eq!(Type::Var(TypeVar("a".to_string())).to_string(), "a");
    let f = Type::Func {
        context: ExprVar("c".to_string()),
        params: NameMap::new(),
        ret: Box::new(Type::Int),
    };
    assert_eq!(f.to_string(), "[c]  -> int");
    assert_eq!(f.clone(), f);
}

#[test]
fn names_are_kept_in_order() {
    let mut m = NameMap::new();
    assert_eq!(m.insert("b".to_string(), 2), None);
    assert_eq!(m.insert("a".to_string(), 1), None);
    assert_eq!(m.insert("ab".to_string(), 3), None);
    assert_eq!(m.insert("".to_string(), 0), None);
    assert_eq!(m.insert("b".to_string(), 20), Some(2));
    assert_eq!(m.len(), 4);
    let keys: Vec<&str> = (0..m.len()).map(|i| m.entry(i).unwrap().0.as_str()).collect();
    assert_eq!(keys, vec!["", "a", "ab", "b"]);
    let values: Vec<i32> = (0..m.len()).map(|i| *m.entry(i).unwrap().1).collect();
    assert_eq!(values, vec![0, 1, 3, 20]);
    assert!(m.entry(4).is_none());
    assert_eq!(m.get("ab"), Some(&3));
    assert_eq!(m.get("abc"), None);
    assert!(m.contains_key("a"));
    assert!(!m.contains_key("c"));
    assert_eq!(m.remove("a"), Some(1));
    assert_eq!(m.remove("a"), None);
    assert_eq!(m.len(), 3);
    assert!(!m.is_empty());
    assert!(NameMap::<i32>::new().is_empty());
    m.sorted_view();
}

#[test]
fn names_compare_by_first_difference() {
    let order = |a: &str, b: &str| {
        let a: Vec<char> = a.chars().collect();
        let b: Vec<char> = b.chars().collect();
        compare_names(&a, &b)
    };
    assert!(matches!(order("a", "b"), NameOrder::Before));
    assert!(matches!(order("b", "a"), NameOrder::After));
    assert!(matches!(order("ab", "ab"), NameOrder::Same));
    assert!(matches!(order("a", "ab"), NameOrder::Before));
    assert!(matches!(order("ab", "a"), NameOrder::After));
    assert!(matches!(order("", ""), NameOrder::Same));
    assert!(matches!(order("Z", "a"), NameOrder::Before));
    assert!(matches!(order("ab", "b"), NameOrder::Before));
}

#[test]
fn directives_are_read_and_answered() {
    let registry = Registry::parse("cp:[c] --from:path -> --to:path -> path").unwrap();
    let op = meta_operation::parse(":type cp --from:/a").unwrap();
    assert!(matches!(op, MetaOperation::ShowType(Expr::App(_, _, _))));
    assert_eq!(op.to_string(), ":type cp  --from:/a");
    assert_eq!(op.report(&registry).unwrap(), "cp  --from:/a: [c] --to:path -> path");
    let op = meta_operation::parse(":type 1 --a:2").unwrap();
    assert!(matches!(op.report(&registry), Err(TypingError::NotApplicable(Type::Int))));
    assert_eq!(meta_operation::parse("cp ").err(), Some(MetaError::NotMeta));
    assert_eq!(meta_operation::parse(":typ").err(), Some(MetaError::NotMeta));
    assert_eq!(meta_operation::parse(":type").err(), Some(MetaError::NotMeta));
    assert_eq!(
        meta_operation::parse(":type cp").err(),
        Some(MetaError::Expression(ParseError::IdentifierEnd))
    );
}

#[test]
fn errors_describe_themselves() {
    assert_eq!(ParseError::ExpectedChar('"').to_string(), "reserved char `\"` does not match");
    assert_eq!(ParseError::Incomplete.to_string(), "incomplete");
    assert_eq!(ParseError::ExpectedPath.to_string(), "invalid path");
    assert_eq!(
        TypingError::UnboundVariable(ExprVar("$x".to_string())).to_string(),
        "unbound variable: $x"
    );
    assert_eq!(TypingError::NotApplicable(Type::Int).to_string(), "int is not a function type");
    assert_eq!(
        TypingError::NoSuchParameter(ExprVar("f".to_string())).to_string(),
        "no parameter named f"
    );
    assert_eq!(
        TypingError::Mismatch(Type::Int, Type::Path).to_string(),
        "unification error: int vs path"
    );
    assert_eq!(
        TypingError::Cyclic(TypeVar("a".to_string()), Type::Var(TypeVar("a".to_string())))
            .to_string(),
        "unification error: type variable a occurs in a"
    );
    assert_eq!(
        TypingError::UndefinedCommand(ExprVar("mv".to_string())).to_string(),
        "undefined command: mv"
    );
    assert_eq!(TypingError::TooDeep.to_string(), "unification error: nested too deep");
}
