use cmdlang::name_map::NameMap;
use cmdlang::operation::command::{type_definitions, CommandOperation};
use cmdlang::operation::parser::{
    operation, parse_arg, parse_command_operator, parse_from_tokens, parse_special_operator,
    tokenize, OperationError,
};
use cmdlang::operation::special::SpecialOperation;
use cmdlang::operation::{self, Operation, TypedOperation};

fn words(ws: &[&str]) -> Vec<String> {
    ws.iter().map(|w| w.to_string()).collect()
}

#[test]
fn tokenize_cuts_at_whitespace() {
    let line: Vec<char> = "  cp --a:1\t--b:2 \n".chars().collect();
    assert_eq!(tokenize(&line).unwrap(), words(&["cp", "--a:1", "--b:2"]));
    let line: Vec<char> = "cp --a:1".chars().collect();
    assert_eq!(tokenize(&line).unwrap(), words(&["cp"]));
    let line: Vec<char> = "cp \"a b\" ".chars().collect();
    assert_eq!(tokenize(&line).unwrap(), words(&["cp", "\"a", "b\""]));
    assert_eq!(tokenize(&Vec::new()).unwrap(), Vec::<String>::new());
    let line: Vec<char> = "   ".chars().collect();
    assert_eq!(tokenize(&line).unwrap(), Vec::<String>::new());
}

#[test]
fn arguments_are_cut_at_the_first_colon() {
    assert_eq!(parse_arg(&"--a:b".to_string()), Ok(("a".to_string(), "b".to_string())));
    assert_eq!(parse_arg(&"--a:b:c".to_string()), Ok(("a".to_string(), "b:c".to_string())));
    assert_eq!(parse_arg(&"--:".to_string()), Ok(("".to_string(), "".to_string())));
    assert_eq!(parse_arg(&"---a:b".to_string()), Ok(("-a".to_string(), "b".to_string())));
    assert_eq!(parse_arg(&"--a".to_string()), Err(OperationError::InvalidArgument));
    assert_eq!(parse_arg(&"-a:b".to_string()), Err(OperationError::InvalidArgument));
    assert_eq!(parse_arg(&"a:b".to_string()), Err(OperationError::InvalidArgument));
    assert_eq!(parse_arg(&"".to_string()), Err(OperationError::InvalidArgument));
}

#[test]
fn commands_are_read_from_words() {
    let op = parse_command_operator(&words(&["cp", "--b:2", "--a:1", "--b:3"])).unwrap();
    assert_eq!(op.command_name, "cp");
    assert_eq!(op.args.len(), 2);
    assert_eq!(op.args.get("a"), Some(&"1".to_string()));
    assert_eq!(op.args.get("b"), Some(&"3".to_string()));
    assert_eq!(op.to_string(), "cp --a:1 --b:3");
    assert_eq!(
        parse_command_operator(&words(&[])).err(),
        Some(OperationError::CommandNameRequired)
    );
    assert_eq!(
        parse_command_operator(&words(&["cp", "x"])).err(),
        Some(OperationError::InvalidArgument)
    );
}

#[test]
fn directives_are_read_from_words() {
    let op = parse_special_operator(&words(&[":type", "cp", "--a:1"])).unwrap();
    assert_eq!(op.to_string(), ":type cp --a:1");
    assert_eq!(parse_special_operator(&words(&[])).err(), Some(OperationError::Empty));
    assert_eq!(
        parse_special_operator(&words(&["cp"])).err(),
        Some(OperationError::InvalidSpecialOperator)
    );
    assert_eq!(
        parse_special_operator(&words(&[":type"])).err(),
        Some(OperationError::CommandNameRequired)
    );
    assert_eq!(
        parse_special_operator(&words(&[":type", "cp", "x"])).err(),
        Some(OperationError::InvalidArgument)
    );
}

#[test]
fn operations_are_directives_first() {
    assert!(matches!(
        parse_from_tokens(&words(&[":type", "cp"])),
        Ok(Operation::Special(SpecialOperation::ShowType(_)))
    ));
    assert!(matches!(parse_from_tokens(&words(&["cp"])), Ok(Operation::Command(_))));
    match parse_from_tokens(&words(&[":type"])) {
        Ok(Operation::Command(op)) => assert_eq!(op.command_name, ":type"),
        other => panic!("{:?}", other),
    }
    assert_eq!(
        parse_from_tokens(&words(&[])).err(),
        Some(OperationError::CommandNameRequired)
    );
    assert!(matches!(operation(":type cp --a:1 "), Ok(Operation::Special(_))));
    assert!(matches!(operation::parse("cp --a:1 "), Ok(Operation::Command(_))));
    assert_eq!(operation("cp x ").err(), Some(OperationError::InvalidArgument));
    assert_eq!(operation("").err(), Some(OperationError::CommandNameRequired));
    assert!(matches!(
        Operation::from(CommandOperation { command_name: "x".to_string(), args: NameMap::new() }),
        Operation::Command(_)
    ));
    let special = SpecialOperation::ShowType(Box::new(CommandOperation {
        command_name: "x".to_string(),
        args: NameMap::new(),
    }));
    assert!(matches!(Operation::from(special), Operation::Special(_)));
}

#[test]
fn declared_types_are_looked_up() {
    let defs = type_definitions("cp:[c] --a:int -> int\nls:path\ncp:int").unwrap();
    assert_eq!(defs.len(), 2);
    let op = parse_command_operator(&words(&["cp", "--a:1"])).unwrap();
    assert_eq!(op.typ(&defs), Some(&"int".to_string()));
    let special = SpecialOperation::ShowType(Box::new(op));
    assert_eq!(special.report(&defs), Some("cp --a:1: int".to_string()));
    let unknown = parse_command_operator(&words(&["mv"])).unwrap();
    assert_eq!(unknown.typ(&defs), None);
    assert_eq!(SpecialOperation::ShowType(Box::new(unknown)).report(&defs), None);
    assert!(type_definitions("cp").is_err());
}
