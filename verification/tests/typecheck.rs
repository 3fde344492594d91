use cmdlang::expr::parse;
use cmdlang::expr::typecheck::{
    compose_within, occur, unify, unify_within, Registry, Subst, TypingError, NESTING_LIMIT,
};
use cmdlang::expr::{Expr, ExprVar, Type, TypeVar};
use cmdlang::name_map::NameMap;

fn var(name: &str) -> Type {
    Type::Var(TypeVar(name.to_string()))
}

fn func(context: &str, params: Vec<(&str, Type)>, ret: Type) -> Type {
    let mut map = NameMap::new();
    for (name, typ) in params {
        map.insert(name.to_string(), typ);
    }
    Type::Func { context: ExprVar(context.to_string()), params: map, ret: Box::new(ret) }
}

fn subst(bindings: Vec<(&str, Type)>) -> Subst {
    let mut map = NameMap::new();
    for (name, typ) in bindings {
        map.insert(name.to_string(), typ);
    }
    Subst(map)
}

fn registry() -> Registry {
    Registry::parse("cp:[c] --from:path -> --to:path -> path\nid:[c] --x:int -> int\n").unwrap()
}

fn check(text: &str) -> Result<Type, TypingError> {
    parse::expr(text).unwrap().typecheck(&registry())
}

#[test]
fn apply_empty_substitution_changes_nothing() {
    let t = func("c", vec![("x", var("a")), ("y", Type::Int)], var("b"));
    assert_eq!(Subst::new().apply(t.clone()), t);
    assert_eq!(Subst::new().apply(var("a")), var("a"));
    assert_eq!(Subst::new().apply(Type::Bytes), Type::Bytes);
}

#[test]
fn apply_replaces_bound_variables_in_one_pass() {
    let s = subst(vec![("a", var("b")), ("b", Type::Int)]);
    assert_eq!(s.apply(var("a")), var("b"));
    assert_eq!(s.apply(var("b")), Type::Int);
    assert_eq!(s.apply(var("z")), var("z"));
    let t = func("c", vec![("x", var("a"))], var("b"));
    assert_eq!(s.apply(t), func("c", vec![("x", var("b"))], Type::Int));
}

#[test]
fn compose_of_separate_substitutions_applies_in_sequence() {
    let s1 = subst(vec![("a", Type::Int)]);
    let s2 = subst(vec![("b", Type::String)]);
    let t = func("c", vec![("x", var("a")), ("y", var("b"))], var("z"));
    let both = Subst::compose(subst(vec![("a", Type::Int)]), subst(vec![("b", Type::String)]))
        .unwrap();
    assert_eq!(both.apply(t.clone()), s2.apply(s1.apply(t)));
    assert_eq!(both.0.len(), 2);
}

#[test]
fn compose_does_not_rewrite_what_the_first_puts_in() {
    let s1 = subst(vec![("a", var("b"))]);
    let s2 = subst(vec![("b", Type::Int)]);
    let both =
        Subst::compose(subst(vec![("a", var("b"))]), subst(vec![("b", Type::Int)])).unwrap();
    assert_eq!(both.apply(var("a")), var("b"));
    assert_eq!(s2.apply(s1.apply(var("a"))), Type::Int);
}

#[test]
fn compose_unifies_what_both_bind() {
    let both =
        Subst::compose(subst(vec![("a", var("x"))]), subst(vec![("a", Type::Int)])).unwrap();
    assert_eq!(both.0.get("a"), Some(&Type::Int));
    assert_eq!(both.0.get("x"), Some(&Type::Int));
    let clash = Subst::compose(subst(vec![("a", Type::String)]), subst(vec![("a", Type::Int)]));
    assert!(matches!(clash, Err(TypingError::Mismatch(Type::String, Type::Int))));
}

#[test]
fn compose_gives_up_without_fuel() {
    let r = compose_within(subst(vec![("a", var("x"))]), &subst(vec![("a", Type::Int)]), 0);
    assert!(matches!(r, Err(TypingError::TooDeep)));
    let r = compose_within(subst(vec![("a", var("x"))]), &subst(vec![("b", Type::Int)]), 0);
    assert_eq!(r.unwrap().0.len(), 2);
}

#[test]
fn unify_equal_types() {
    let t = func("c", vec![("x", Type::Int)], Type::Path);
    let (u, s) = unify(t.clone(), t.clone()).unwrap();
    assert_eq!(u, t);
    assert!(s.0.is_empty());
}

#[test]
fn unify_variable_with_type_that_holds_it_fails() {
    let f = func("c", vec![], var("a"));
    match unify(var("a"), f.clone()) {
        Err(TypingError::Cyclic(name, typ)) => {
            assert_eq!(name, TypeVar("a".to_string()));
            assert_eq!(typ, f);
        }
        other => panic!("{:?}", other),
    }
    assert!(matches!(unify(f, var("a")), Err(TypingError::Cyclic(_, _))));
}

#[test]
fn unify_functions_with_other_parameter_names_fails() {
    let f = func("c", vec![("x", Type::Int)], Type::Int);
    let g = func("c", vec![("y", Type::Int)], Type::Int);
    match unify(f.clone(), g.clone()) {
        Err(TypingError::Mismatch(a, b)) => {
            assert_eq!(a, f);
            assert_eq!(b, g);
        }
        other => panic!("{:?}", other),
    }
}

#[test]
fn unify_binds_variables() {
    let (u, s) = unify(var("a"), Type::Int).unwrap();
    assert_eq!(u, Type::Int);
    assert_eq!(s.0.get("a"), Some(&Type::Int));
    assert_eq!(s.0.len(), 1);
    let (u, s) = unify(Type::Path, var("b")).unwrap();
    assert_eq!(u, Type::Path);
    assert_eq!(s.0.get("b"), Some(&Type::Path));
    let (u, s) = unify(var("a"), var("b")).unwrap();
    assert_eq!(u, var("b"));
    assert_eq!(s.0.get("a"), Some(&var("b")));
}

#[test]
fn unify_functions_parameter_by_parameter() {
    let f = func("left", vec![("x", var("a")), ("y", Type::Int)], var("r"));
    let g = func("right", vec![("y", var("b")), ("x", Type::String)], Type::Path);
    let (u, s) = unify(f, g).unwrap();
    assert_eq!(u, func("left", vec![("x", Type::String), ("y", Type::Int)], Type::Path));
    assert_eq!(s.0.get("a"), Some(&Type::String));
    assert_eq!(s.0.get("b"), Some(&Type::Int));
    assert_eq!(s.0.get("r"), Some(&Type::Path));
    assert_eq!(s.0.len(), 3);
}

#[test]
fn unify_mismatched_primitives_fails() {
    assert!(matches!(
        unify(Type::Int, Type::String),
        Err(TypingError::Mismatch(Type::Int, Type::String))
    ));
    let f = func("c", vec![], Type::Int);
    assert!(matches!(unify(Type::Int, f), Err(TypingError::Mismatch(_, _))));
}

#[test]
fn unify_conflicting_bindings_fails() {
    let f = func("c", vec![("x", var("a")), ("y", var("a"))], Type::Int);
    let g = func("c", vec![("x", Type::Int), ("y", Type::String)], Type::Int);
    assert!(matches!(unify(f, g), Err(TypingError::Mismatch(Type::Int, Type::String))));
}

#[test]
fn unify_reaches_into_deep_types() {
    let mut left = var("a");
    let mut right = Type::Int;
    for _ in 0..(NESTING_LIMIT + 50) {
        left = func("c", vec![("x", left)], Type::Int);
        right = func("c", vec![("x", right)], Type::Int);
    }
    let (u, s) = unify(left, right.clone()).unwrap();
    assert_eq!(u, right);
    assert_eq!(s.0.get("a"), Some(&Type::Int));
    assert_eq!(s.0.len(), 1);
    let f = func("c", vec![], var("a"));
    let g = func("c", vec![], Type::Int);
    assert!(unify_within(&f, &g, 0).is_ok());
    let f = func("c", vec![("x", var("a")), ("y", var("a"))], Type::Int);
    let g = func("c", vec![("x", Type::Int), ("y", Type::Int)], Type::Int);
    assert!(matches!(unify_within(&f, &g, 0), Err(TypingError::TooDeep)));
    assert!(unify_within(&f, &g, 1).is_ok());
}

fn chain(n: usize) -> Subst {
    let mut bindings = NameMap::new();
    for i in 0..n {
        bindings.insert(format!("v{:04}", i), var(&format!("v{:04}", i + 1)));
    }
    Subst(bindings)
}

#[test]
fn compose_gives_up_beyond_the_nesting_limit() {
    let all = Subst::compose(chain(NESTING_LIMIT), subst(vec![("v0000", Type::Int)])).unwrap();
    assert_eq!(all.0.len(), NESTING_LIMIT + 1);
    for i in 0..all.0.len() {
        assert_eq!(all.0.entry(i).unwrap().1, &Type::Int);
    }
    let r = Subst::compose(chain(NESTING_LIMIT + 1), subst(vec![("v0000", Type::Int)]));
    assert!(matches!(r, Err(TypingError::TooDeep)));
}

#[test]
fn occur_looks_into_functions() {
    let a = TypeVar("a".to_string());
    assert!(occur(&var("a"), &a));
    assert!(!occur(&var("b"), &a));
    assert!(!occur(&Type::Int, &a));
    assert!(occur(&func("c", vec![("x", var("a"))], Type::Int), &a));
    assert!(occur(&func("c", vec![("x", Type::Int)], func("d", vec![], var("a"))), &a));
    assert!(!occur(&func("a", vec![("a", Type::Int)], Type::Int), &a));
}

#[test]
fn subst_replaces_one_variable() {
    let a = TypeVar("a".to_string());
    let t = func("c", vec![("x", var("a")), ("y", var("b"))], var("a"));
    assert_eq!(
        t.subst(&a, &Type::Int),
        func("c", vec![("x", Type::Int), ("y", var("b"))], Type::Int)
    );
    assert_eq!(var("b").subst(&a, &Type::Int), var("b"));
    assert_eq!(Type::Path.subst(&a, &Type::Int), Type::Path);
}

#[test]
fn command_with_all_arguments_has_return_type() {
    assert_eq!(check("cp --from:/a --to:/b").unwrap(), Type::Path);
    assert_eq!(check("cp --to:/b --from:/a").unwrap(), Type::Path);
}

#[test]
fn command_with_one_argument_is_still_a_function() {
    let t = check("cp --from:/a").unwrap();
    assert_eq!(t, func("c", vec![("to", Type::Path)], Type::Path));
    assert_eq!(t.to_string(), "[c] --to:path -> path");
}

#[test]
fn command_without_arguments_has_declared_type() {
    let t = check("cp ").unwrap();
    assert_eq!(t, func("c", vec![("from", Type::Path), ("to", Type::Path)], Type::Path));
}

#[test]
fn applying_to_a_number_is_not_applicable() {
    match check("42 --field:1") {
        Err(TypingError::NotApplicable(t)) => assert_eq!(t, Type::Int),
        other => panic!("{:?}", other),
    }
}

#[test]
fn literals_have_their_types() {
    assert_eq!(check("42").unwrap(), Type::Int);
    assert_eq!(check("\"hi\"").unwrap(), Type::String);
    assert_eq!(check("./a").unwrap(), Type::Path);
    assert_eq!(Expr::Bytes(vec![1, 2]).typecheck(&registry()).unwrap(), Type::Bytes);
}

#[test]
fn typing_errors() {
    match check("$x ") {
        Err(TypingError::UnboundVariable(name)) => assert_eq!(name.0, "$x"),
        other => panic!("{:?}", other),
    }
    match check("mv ") {
        Err(TypingError::UndefinedCommand(name)) => assert_eq!(name.0, "mv"),
        other => panic!("{:?}", other),
    }
    match check("cp --other:/a") {
        Err(TypingError::NoSuchParameter(name)) => assert_eq!(name.0, "other"),
        other => panic!("{:?}", other),
    }
    match check("cp --from:1") {
        Err(TypingError::Mismatch(a, b)) => {
            assert_eq!(a, Type::Int);
            assert_eq!(b, Type::Path);
        }
        other => panic!("{:?}", other),
    }
    match check("cp --from:/a --from:/b") {
        Err(TypingError::NoSuchParameter(name)) => assert_eq!(name.0, "from"),
        other => panic!("{:?}", other),
    }
    assert!(matches!(check("$x --a:mv "), Err(TypingError::UnboundVariable(_))));
    assert!(matches!(check("id --x:mv "), Err(TypingError::UndefinedCommand(_))));
}

#[test]
fn registry_lookup() {
    let r = registry();
    assert_eq!(r.get("id"), Some(&func("c", vec![("x", Type::Int)], Type::Int)));
    assert_eq!(r.get("nope"), None);
    assert!(Registry::new().get("id").is_none());
}
