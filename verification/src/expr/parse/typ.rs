//! The parser of types.
//!
//! A type is one of the words `int`, `string`, `path` and `bytes`, or a
//! function type: a context between square brackets, any number of
//! parameters `--field:type ->`, and the return type.

use crate::expr::parse::{
    ident, ident_spec, lemma_ident_shorter, lemma_reserved_shorter, reserved, reserved_spec,
    starts_argument, suffix, ParseError,
};
use crate::expr::{lemma_params_view_with, params_view, ExprVar, SpecType, Type};
use crate::name_map::{with, NameMap};
use vstd::prelude::*;
use vstd::slice::slice_subrange;

verus! {

/// What reading a type gives: the type and the rest of the text, or the
/// reason why there is none.
pub type SpecParsedType = Result<(SpecType, Seq<char>), ParseError>;

/// The type that one of the four reserved words at the front of `s` names.
pub open spec fn primitive_spec(s: Seq<char>) -> Option<(SpecType, Seq<char>)> {
    if reserved_spec(s, "int"@) is Ok {
        Some((SpecType::Int, reserved_spec(s, "int"@)->Ok_0))
    } else if reserved_spec(s, "string"@) is Ok {
        Some((SpecType::String, reserved_spec(s, "string"@)->Ok_0))
    } else if reserved_spec(s, "path"@) is Ok {
        Some((SpecType::Path, reserved_spec(s, "path"@)->Ok_0))
    } else if reserved_spec(s, "bytes"@) is Ok {
        Some((SpecType::Bytes, reserved_spec(s, "bytes"@)->Ok_0))
    } else {
        None
    }
}

/// The type at the front of `s`.
pub open spec fn typ_spec(s: Seq<char>) -> SpecParsedType
    decreases s.len(), 0nat,
{
    match primitive_spec(s) {
        Some(read) => Ok(read),
        None => match reserved_spec(s, "["@) {
            Err(e) => Err(e),
            Ok(inside) => match ident_spec(inside) {
                Err(e) => Err(e),
                Ok((context, close)) => match reserved_spec(close, "]"@) {
                    Err(e) => Err(e),
                    Ok(rest) => {
                        proof {
                            lemma_bracket_shorter(s);
                        }
                        func_from(context, Seq::empty(), rest)
                    },
                },
            },
        },
    }
}

/// The function type of context `context` whose first parameters are
/// `params` and whose further parameters and return type are at the front
/// of `s`. A parameter named like an earlier one takes its place.
///
/// What follows a parameter is always shorter than the text from the
/// parameter on (`lemma_parameter_shorter`); the test for it lets the
/// definition go on by the length of the text.
pub open spec fn func_from(
    context: Seq<char>,
    params: Seq<(Seq<char>, SpecType)>,
    s: Seq<char>,
) -> SpecParsedType
    decreases s.len(), 1nat,
{
    if starts_argument(s) {
        match ident_spec(suffix(s, 2)) {
            Err(e) => Err(e),
            Ok((field, after)) => if after.len() > 0 && after[0] == ':' {
                proof {
                    lemma_ident_shorter(suffix(s, 2));
                }
                match typ_spec(suffix(after, 1)) {
                    Err(e) => Err(e),
                    Ok((t, arrow)) => match reserved_spec(arrow, "->"@) {
                        Err(e) => Err(e),
                        Ok(rest) => if rest.len() < s.len() {
                            func_from(context, with(params, field, t), rest)
                        } else {
                            Err(ParseError::Incomplete)
                        },
                    },
                }
            } else {
                Err(ParseError::ExpectedColon)
            },
        }
    } else {
        match typ_spec(s) {
            Err(e) => Err(e),
            Ok((ret, rest)) => Ok((SpecType::Func { context, params, ret: Box::new(ret) }, rest)),
        }
    }
}

/// What follows the context of a function type is shorter than the type.
pub proof fn lemma_bracket_shorter(s: Seq<char>)
    ensures
        reserved_spec(s, "["@) matches Ok(inside) ==> (ident_spec(inside) matches Ok((_, close))
            ==> (reserved_spec(close, "]"@) matches Ok(rest) ==> rest.len() < s.len())),
{
    reveal_strlit("[");
    reveal_strlit("]");
    lemma_reserved_shorter(s, "["@);
    match reserved_spec(s, "["@) {
        Ok(inside) => {
            lemma_ident_shorter(inside);
            match ident_spec(inside) {
                Ok((_, close)) => {
                    lemma_reserved_shorter(close, "]"@);
                },
                Err(_) => {},
            }
        },
        Err(_) => {},
    }
}

/// What follows a parameter `--field:type ->` is shorter than the text
/// from the parameter on.
pub proof fn lemma_parameter_shorter(s: Seq<char>)
    requires
        starts_argument(s),
    ensures
        ident_spec(suffix(s, 2)) matches Ok((_, after)) ==> after.len() > 0 ==> (typ_spec(
            suffix(after, 1),
        ) matches Ok((_, arrow)) ==> (reserved_spec(arrow, "->"@) matches Ok(rest) ==> rest.len()
            < s.len())),
{
    lemma_ident_shorter(suffix(s, 2));
    match ident_spec(suffix(s, 2)) {
        Ok((_, after)) => {
            lemma_typ_shorter(suffix(after, 1));
            match typ_spec(suffix(after, 1)) {
                Ok((_, arrow)) => {
                    lemma_reserved_shorter(arrow, "->"@);
                },
                Err(_) => {},
            }
        },
        Err(_) => {},
    }
}

/// A type takes at least one character.
pub proof fn lemma_typ_shorter(s: Seq<char>)
    ensures
        typ_spec(s) matches Ok((_, rest)) ==> rest.len() < s.len(),
    decreases s.len(), 0nat,
{
    reveal_strlit("int");
    reveal_strlit("string");
    reveal_strlit("path");
    reveal_strlit("bytes");
    lemma_reserved_shorter(s, "int"@);
    lemma_reserved_shorter(s, "string"@);
    lemma_reserved_shorter(s, "path"@);
    lemma_reserved_shorter(s, "bytes"@);
    if primitive_spec(s) is None {
        lemma_bracket_shorter(s);
        match reserved_spec(s, "["@) {
            Ok(inside) => match ident_spec(inside) {
                Ok((context, close)) => match reserved_spec(close, "]"@) {
                    Ok(rest) => {
                        lemma_func_shorter(context, Seq::empty(), rest);
                    },
                    Err(_) => {},
                },
                Err(_) => {},
            },
            Err(_) => {},
        }
    }
}

/// The parameters and the return type take at least one character.
pub proof fn lemma_func_shorter(
    context: Seq<char>,
    params: Seq<(Seq<char>, SpecType)>,
    s: Seq<char>,
)
    ensures
        func_from(context, params, s) matches Ok((_, rest)) ==> rest.len() < s.len(),
    decreases s.len(), 1nat,
{
    if starts_argument(s) {
        match ident_spec(suffix(s, 2)) {
            Ok((field, after)) => {
                if after.len() > 0 && after[0] == ':' {
                    lemma_ident_shorter(suffix(s, 2));
                    match typ_spec(suffix(after, 1)) {
                        Ok((t, arrow)) => match reserved_spec(arrow, "->"@) {
                            Ok(rest) => {
                                if rest.len() < s.len() {
                                    lemma_func_shorter(context, with(params, field, t), rest);
                                }
                            },
                            Err(_) => {},
                        },
                        Err(_) => {},
                    }
                }
            },
            Err(_) => {},
        }
    } else {
        lemma_typ_shorter(s);
    }
}

/// The view of what the parser of types returns.
pub open spec fn parsed_type_view(r: Result<(Type, &[char]), ParseError>) -> SpecParsedType {
    match r {
        Ok((t, rest)) => Ok((t@, rest@)),
        Err(e) => Err(e),
    }
}

/// Reads a type from the front of `rest`.
#[verifier::loop_isolation(false)]
pub fn typ<'a>(rest: &'a [char]) -> (r: Result<(Type, &'a [char]), ParseError>)
    ensures
        parsed_type_view(r) == typ_spec(rest@),
    decreases rest@.len(),
{
    match reserved(rest, "int") {
        Ok(after) => {
            return Ok((Type::Int, after));
        },
        Err(_) => {},
    }
    match reserved(rest, "string") {
        Ok(after) => {
            return Ok((Type::String, after));
        },
        Err(_) => {},
    }
    match reserved(rest, "path") {
        Ok(after) => {
            return Ok((Type::Path, after));
        },
        Err(_) => {},
    }
    match reserved(rest, "bytes") {
        Ok(after) => {
            return Ok((Type::Bytes, after));
        },
        Err(_) => {},
    }
    let inside = match reserved(rest, "[") {
        Err(e) => {
            return Err(e);
        },
        Ok(inside) => inside,
    };
    let (context, close) = match ident(inside) {
        Err(e) => {
            return Err(e);
        },
        Ok(read) => read,
    };
    let context = ExprVar(context);
    let mut at = match reserved(close, "]") {
        Err(e) => {
            return Err(e);
        },
        Ok(at) => at,
    };
    let mut params: NameMap<Type> = NameMap::new();
    proof {
        lemma_bracket_shorter(rest@);
        assert(params_view(params@) =~= Seq::<(Seq<char>, SpecType)>::empty());
    }
    loop
        invariant
            typ_spec(rest@) == func_from(context@, params_view(params@), at@),
            at@.len() < rest@.len(),
        decreases at@.len(),
    {
        if !(at.len() >= 2 && at[0] == '-' && at[1] == '-') {
            return match typ(at) {
                Err(e) => Err(e),
                Ok((ret, after)) => {
                    let func = Type::Func { context, params, ret: Box::new(ret) };
                    proof {
                        Type::lemma_view_func(func->context, func->params, func->ret);
                    }
                    Ok((func, after))
                },
            };
        }
        let (field, after) = match ident(slice_subrange(at, 2, at.len())) {
            Err(e) => {
                return Err(e);
            },
            Ok(read) => read,
        };
        if !(after.len() > 0 && after[0] == ':') {
            return Err(ParseError::ExpectedColon);
        }
        proof {
            lemma_ident_shorter(suffix(at@, 2));
        }
        let (t, arrow) = match typ(slice_subrange(after, 1, after.len())) {
            Err(e) => {
                return Err(e);
            },
            Ok(read) => read,
        };
        let next = match reserved(arrow, "->") {
            Err(e) => {
                return Err(e);
            },
            Ok(next) => next,
        };
        proof {
            lemma_typ_shorter(suffix(after@, 1));
            lemma_reserved_shorter(arrow@, "->"@);
            lemma_params_view_with(params@, field@, t);
        }
        params.insert(field, t);
        at = next;
    }
}

} // verus!
