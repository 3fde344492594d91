//! Operations given as a line of blank-separated words: a command with
//! its arguments, or a directive about one.

use crate::name_map::{lookup, NameMap};
use vstd::prelude::*;

pub mod command;
pub mod parser;
pub mod special;

use command::{texts_view, CommandOperation, SpecCommandOperation};
use parser::{operation_spec, OperationError};
use special::SpecialOperation;

verus! {

/// An operation.
#[derive(Debug)]
pub enum Operation {
    Special(SpecialOperation),
    Command(CommandOperation),
}

/// An operation as a mathematical value.
pub enum SpecOperation {
    Special(SpecCommandOperation),
    Command(SpecCommandOperation),
}

impl Operation {
    pub open spec fn view(&self) -> SpecOperation {
        match self {
            Operation::Special(op) => SpecOperation::Special(op@),
            Operation::Command(op) => SpecOperation::Command(op@),
        }
    }
}

impl From<SpecialOperation> for Operation {
    fn from(op: SpecialOperation) -> (r: Self) {
        Operation::Special(op)
    }
}

impl vstd::std_specs::convert::FromSpecImpl<SpecialOperation> for Operation {
    open spec fn obeys_from_spec() -> bool {
        true
    }

    open spec fn from_spec(op: SpecialOperation) -> Self {
        Operation::Special(op)
    }
}

impl From<CommandOperation> for Operation {
    fn from(op: CommandOperation) -> (r: Self) {
        Operation::Command(op)
    }
}

impl vstd::std_specs::convert::FromSpecImpl<CommandOperation> for Operation {
    open spec fn obeys_from_spec() -> bool {
        true
    }

    open spec fn from_spec(op: CommandOperation) -> Self {
        Operation::Command(op)
    }
}

/// Reads an operation from a line.
pub fn parse(line: &str) -> (r: Result<Operation, OperationError>)
    ensures
        match r {
            Ok(op) => Ok(op@),
            Err(e) => Err(e),
        } == operation_spec(line@),
{
    parser::operation(line)
}

/// An operation that has a declared type.
pub trait TypedOperation {
    /// The name under which the type of the operation is declared.
    spec fn declared_name(&self) -> Seq<char>;

    /// The type that `definitions` declares for the operation, as it is
    /// written there.
    fn typ<'a>(&self, definitions: &'a NameMap<String>) -> (r: Option<&'a String>)
        ensures
            match r {
                Some(t) => Some(t@),
                None => None,
            } == lookup(texts_view(definitions@), self.declared_name()),
    ;
}

} // verus!
