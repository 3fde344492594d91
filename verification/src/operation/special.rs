//! Directives about a command operation.

use crate::name_map::{lookup, NameMap};
use crate::operation::command::{
    operation_text, texts_view, CommandOperation, SpecCommandOperation,
};
use crate::operation::TypedOperation;
use vstd::prelude::*;
use vstd::string::StringExecFns;

verus! {

/// A directive.
#[derive(Debug)]
pub enum SpecialOperation {
    /// Show the declared type of the command.
    ShowType(Box<CommandOperation>),
}

impl SpecialOperation {
    /// The command operation that the directive is about.
    pub open spec fn view(&self) -> SpecCommandOperation {
        match self {
            SpecialOperation::ShowType(op) => op@,
        }
    }

    /// The directive as it is written.
    pub fn to_string(&self) -> (r: String)
        ensures
            r@ == ":type "@ + operation_text(self@),
    {
        match self {
            SpecialOperation::ShowType(op) => {
                let mut out = ":type ".to_owned();
                out.append(op.to_string().as_str());
                out
            },
        }
    }

    /// What the directive answers: the operation, a colon, and the type
    /// that `definitions` declares for its command, if there is one.
    pub fn report(&self, definitions: &NameMap<String>) -> (r: Option<String>)
        ensures
            match r {
                Some(text) => Some(text@),
                None => None,
            } == match lookup(texts_view(definitions@), self@.name) {
                Some(t) => Some(operation_text(self@) + ": "@ + t),
                None => None,
            },
    {
        match self {
            SpecialOperation::ShowType(op) => match op.typ(definitions) {
                None => None,
                Some(t) => {
                    let mut out = op.to_string();
                    out.append(": ");
                    out.append(t.as_str());
                    Some(out)
                },
            },
        }
    }
}

} // verus!
