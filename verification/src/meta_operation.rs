//! Directives that ask about an expression instead of running it.

use crate::expr::parse::{expr_of_chars, parse_expr_spec, ParseError};
use crate::expr::print::{expr_text, type_text};
use crate::expr::typecheck::{typecheck_spec, Registry, SpecTypingError, TypingError};
use crate::expr::{Expr, SpecExpr};
use crate::text::to_chars;
use vstd::prelude::*;
use vstd::slice::slice_subrange;
use vstd::string::StringExecFns;

verus! {

/// A directive.
#[derive(Debug)]
pub enum MetaOperation {
    /// Show the type of the expression.
    ShowType(Expr),
}

/// Why a text is no directive.
#[derive(Debug, Clone, Copy, PartialEq, Eq, Structural)]
pub enum MetaError {
    /// The text does not start as a directive does.
    NotMeta,
    /// What follows the directive's word is no expression.
    Expression(ParseError),
}

/// The directive that `s` stands for: `:type `, then an expression.
pub open spec fn meta_spec(s: Seq<char>) -> Result<SpecExpr, MetaError> {
    if ":type "@.len() <= s.len() && s.subrange(0, ":type "@.len() as int) == ":type "@ {
        match parse_expr_spec(s.subrange(":type "@.len() as int, s.len() as int)) {
            Ok(e) => Ok(e),
            Err(e) => Err(MetaError::Expression(e)),
        }
    } else {
        Err(MetaError::NotMeta)
    }
}

impl MetaOperation {
    /// The expression that the directive is about.
    pub open spec fn view(&self) -> SpecExpr {
        match self {
            MetaOperation::ShowType(e) => e@,
        }
    }

    /// The directive as it is written.
    pub fn to_string(&self) -> (r: String)
        ensures
            r@ == ":type "@ + expr_text(self@),
    {
        match self {
            MetaOperation::ShowType(e) => {
                let mut out = ":type ".to_owned();
                out.append(e.to_string().as_str());
                out
            },
        }
    }

    /// What the directive answers: the expression, a colon, and its type.
    pub fn report(&self, registry: &Registry) -> (r: Result<String, TypingError>)
        ensures
            match r {
                Ok(text) => Ok(text@),
                Err(e) => Err(e@),
            } == match typecheck_spec(self@, registry@) {
                Ok(t) => Ok::<Seq<char>, SpecTypingError>(expr_text(self@) + ": "@ + type_text(t)),
                Err(e) => Err(e),
            },
    {
        match self {
            MetaOperation::ShowType(e) => match e.typecheck(registry) {
                Err(err) => Err(err),
                Ok(t) => {
                    let mut out = e.to_string();
                    out.append(": ");
                    out.append(t.to_string().as_str());
                    Ok(out)
                },
            },
        }
    }
}

/// Reads a directive from the whole of `s`.
pub fn parse(s: &str) -> (r: Result<MetaOperation, MetaError>)
    ensures
        match r {
            Ok(op) => Ok(op@),
            Err(e) => Err(e),
        } == meta_spec(s@),
{
    let chars = to_chars(s);
    let word = to_chars(":type ");
    if word.len() > chars.len() {
        return Err(MetaError::NotMeta);
    }
    let mut i: usize = 0;
    while i < word.len()
        invariant
            i <= word.len(),
            word.len() <= chars.len(),
            word@ == ":type "@,
            chars@ == s@,
            forall|j: int| 0 <= j < i ==> chars@[j] == word@[j],
        decreases word.len() - i,
    {
        if chars[i] != word[i] {
            assert(chars@.subrange(0, word@.len() as int)[i as int] != word@[i as int]);
            return Err(MetaError::NotMeta);
        }
        i += 1;
    }
    assert(chars@.subrange(0, word@.len() as int) =~= word@);
    match expr_of_chars(slice_subrange(chars.as_slice(), word.len(), chars.len())) {
        Ok(e) => Ok(MetaOperation::ShowType(e)),
        Err(e) => Err(MetaError::Expression(e)),
    }
}

} // verus!
