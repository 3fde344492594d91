//! The parser of operations: a line is cut into words at whitespace, and
//! the words are read as a directive or as a command with its arguments.

use crate::definitions::colon_at;
use crate::expr::strings_view;
use crate::name_map::{lemma_map_values_with, with, NameMap};
use crate::operation::command::{
    string_view, texts_view, CommandOperation, SpecCommandOperation,
};
use crate::operation::special::SpecialOperation;
use crate::operation::{Operation, SpecOperation};
use crate::text::{from_chars, is_space, push_char, to_chars, whitespace};
use vstd::prelude::*;
use vstd::slice::slice_subrange;

verus! {

/// Why a line is no operation.
#[derive(Debug, Clone, Copy, PartialEq, Eq, Structural)]
pub enum OperationError {
    /// A string in the line does not close.
    UnclosedString,
    /// The line holds no word.
    Empty,
    /// The first word is no directive.
    InvalidSpecialOperator,
    /// A word behind the command is no argument `--name:text`.
    InvalidArgument,
    /// The command has no name.
    CommandNameRequired,
}

/// The first position from `i` on that holds whitespace.
pub open spec fn word_end(s: Seq<char>, i: int) -> int
    decreases s.len() - i,
{
    if 0 <= i < s.len() && !is_space(s[i]) {
        word_end(s, i + 1)
    } else {
        i
    }
}

/// The words of `s` from position `i` on: the stretches without
/// whitespace that have whitespace behind them. The last stretch counts
/// only if whitespace follows it.
pub open spec fn tokens_from(s: Seq<char>, i: int) -> Seq<Seq<char>>
    decreases s.len() - i,
{
    if i < 0 || i >= s.len() {
        Seq::empty()
    } else if is_space(s[i]) {
        tokens_from(s, i + 1)
    } else {
        proof {
            lemma_word_end(s, i);
        }
        if word_end(s, i) >= s.len() {
            Seq::empty()
        } else {
            seq![s.subrange(i, word_end(s, i))] + tokens_from(s, word_end(s, i) + 1)
        }
    }
}

/// The name and the text of an argument `--name:text`, cut at the first
/// colon behind the dashes.
pub open spec fn arg_spec(arg: Seq<char>) -> Result<(Seq<char>, Seq<char>), OperationError> {
    if arg.len() >= 2 && arg[0] == '-' && arg[1] == '-' && colon_at(arg, 2) < arg.len() {
        Ok(
            (
                arg.subrange(2, colon_at(arg, 2)),
                arg.subrange(colon_at(arg, 2) + 1, arg.len() as int),
            ),
        )
    } else {
        Err(OperationError::InvalidArgument)
    }
}

/// The arguments that the words from the `i`-th on make, after those in
/// `acc`. A later argument of a name takes the place of an earlier one.
pub open spec fn args_from(
    tokens: Seq<Seq<char>>,
    i: int,
    acc: Seq<(Seq<char>, Seq<char>)>,
) -> Result<Seq<(Seq<char>, Seq<char>)>, OperationError>
    decreases tokens.len() - i,
{
    if i < 0 || i >= tokens.len() {
        Ok(acc)
    } else {
        match arg_spec(tokens[i]) {
            Err(e) => Err(e),
            Ok((key, value)) => args_from(tokens, i + 1, with(acc, key, value)),
        }
    }
}

/// The command that the words make: its name, then its arguments.
pub open spec fn command_operator_spec(tokens: Seq<Seq<char>>) -> Result<
    SpecCommandOperation,
    OperationError,
> {
    if tokens.len() == 0 {
        Err(OperationError::CommandNameRequired)
    } else {
        match args_from(tokens, 1, Seq::empty()) {
            Err(e) => Err(e),
            Ok(args) => Ok(SpecCommandOperation { name: tokens[0], args }),
        }
    }
}

/// The directive that the words make: `:type`, then a command.
pub open spec fn special_operator_spec(tokens: Seq<Seq<char>>) -> Result<
    SpecCommandOperation,
    OperationError,
> {
    if tokens.len() == 0 {
        Err(OperationError::Empty)
    } else if tokens[0] == ":type"@ {
        command_operator_spec(tokens.subrange(1, tokens.len() as int))
    } else {
        Err(OperationError::InvalidSpecialOperator)
    }
}

/// The operation that the words make: a directive if they make one, else
/// a command.
pub open spec fn tokens_spec(tokens: Seq<Seq<char>>) -> Result<SpecOperation, OperationError> {
    match special_operator_spec(tokens) {
        Ok(op) => Ok(SpecOperation::Special(op)),
        Err(_) => match command_operator_spec(tokens) {
            Ok(op) => Ok(SpecOperation::Command(op)),
            Err(e) => Err(e),
        },
    }
}

/// The operation that a line makes.
pub open spec fn operation_spec(line: Seq<char>) -> Result<SpecOperation, OperationError> {
    tokens_spec(tokens_from(line, 0))
}

/// Where the word from `i` on ends.
pub proof fn lemma_word_end(s: Seq<char>, i: int)
    requires
        0 <= i <= s.len(),
    ensures
        i <= word_end(s, i) <= s.len(),
    decreases s.len() - i,
{
    if i < s.len() && !is_space(s[i]) {
        lemma_word_end(s, i + 1);
    }
}

/// Reads an operation from a line.
pub fn operation(line: &str) -> (r: Result<Operation, OperationError>)
    ensures
        match r {
            Ok(op) => Ok(op@),
            Err(e) => Err(e),
        } == operation_spec(line@),
{
    let line = to_chars(line);
    let tokens = match tokenize(&line) {
        Err(e) => {
            return Err(e);
        },
        Ok(tokens) => tokens,
    };
    parse_from_tokens(tokens.as_slice())
}

/// Reads an operation from the words of a line.
pub fn parse_from_tokens(tokens: &[String]) -> (r: Result<Operation, OperationError>)
    ensures
        match r {
            Ok(op) => Ok(op@),
            Err(e) => Err(e),
        } == tokens_spec(strings_view(tokens@)),
{
    match parse_special_operator(tokens) {
        Ok(op) => Ok(Operation::Special(op)),
        Err(_) => match parse_command_operator(tokens) {
            Ok(op) => Ok(Operation::Command(op)),
            Err(e) => Err(e),
        },
    }
}

/// Cuts a line into its words.
pub fn tokenize(line: &Vec<char>) -> (r: Result<Vec<String>, OperationError>)
    ensures
        r matches Ok(tokens) && strings_view(tokens@) == tokens_from(line@, 0),
{
    let mut result: Vec<String> = Vec::new();
    let mut is_prev_whitespace = true;
    let mut current = String::new();
    let mut i: usize = 0;
    let ghost mut start: int = 0;
    assert(strings_view(result@) =~= Seq::<Seq<char>>::empty());
    while i < line.len()
        invariant
            i <= line.len(),
            0 <= start <= i,
            is_prev_whitespace ==> tokens_from(line@, 0) == strings_view(result@) + tokens_from(
                line@,
                i as int,
            ),
            !is_prev_whitespace ==> {
                &&& start < i
                &&& !is_space(line@[start])
                &&& current@ == line@.subrange(start, i as int)
                &&& word_end(line@, start) == word_end(line@, i as int)
                &&& tokens_from(line@, 0) == strings_view(result@) + tokens_from(line@, start)
            },
        decreases line.len() - i,
    {
        let c = line[i];
        let space = whitespace(c);
        if is_prev_whitespace && space {
        } else if !is_prev_whitespace && !space {
            push_char(&mut current, c);
            assert(current@ =~= line@.subrange(start, i + 1));
        } else if is_prev_whitespace && !space {
            current = String::new();
            push_char(&mut current, c);
            proof {
                start = i as int;
                assert(current@ =~= line@.subrange(start, i + 1));
            }
            is_prev_whitespace = false;
        } else {
            let ghost before = strings_view(result@);
            let word = current;
            current = String::new();
            result.push(word);
            proof {
                assert(strings_view(result@) =~= before.push(word@));
                assert(before + (seq![word@] + tokens_from(line@, i + 1)) =~= strings_view(
                    result@,
                ) + tokens_from(line@, i + 1));
            }
            is_prev_whitespace = true;
        }
        i += 1;
    }
    proof {
        if is_prev_whitespace {
            assert(strings_view(result@) + tokens_from(line@, i as int) =~= strings_view(result@));
        } else {
            assert(strings_view(result@) + tokens_from(line@, start) =~= strings_view(result@));
        }
    }
    Ok(result)
}

/// Reads a directive from the words of a line.
pub fn parse_special_operator(tokens: &[String]) -> (r: Result<SpecialOperation, OperationError>)
    ensures
        match r {
            Ok(op) => Ok(op@),
            Err(e) => Err(e),
        } == special_operator_spec(strings_view(tokens@)),
{
    if tokens.len() == 0 {
        return Err(OperationError::Empty);
    }
    let word = ":type".to_owned();
    if tokens[0] == word {
        let rest = slice_subrange(tokens, 1, tokens.len());
        assert(strings_view(rest@) =~= strings_view(tokens@).subrange(1, tokens@.len() as int));
        match parse_command_operator(rest) {
            Err(e) => Err(e),
            Ok(target) => Ok(SpecialOperation::ShowType(Box::new(target))),
        }
    } else {
        Err(OperationError::InvalidSpecialOperator)
    }
}

/// Reads an argument `--name:text`.
pub fn parse_arg(arg: &String) -> (r: Result<(String, String), OperationError>)
    ensures
        match r {
            Ok((key, value)) => Ok((key@, value@)),
            Err(e) => Err(e),
        } == arg_spec(arg@),
{
    let chars = to_chars(arg.as_str());
    let s = chars.as_slice();
    if !(s.len() >= 2 && s[0] == '-' && s[1] == '-') {
        return Err(OperationError::InvalidArgument);
    }
    let mut colon: usize = 2;
    while colon < s.len() && s[colon] != ':'
        invariant
            2 <= colon <= s.len(),
            colon_at(s@, 2) == colon_at(s@, colon as int),
        decreases s.len() - colon,
    {
        colon += 1;
    }
    if colon < s.len() {
        Ok(
            (
                from_chars(slice_subrange(s, 2, colon)),
                from_chars(slice_subrange(s, colon + 1, s.len())),
            ),
        )
    } else {
        Err(OperationError::InvalidArgument)
    }
}

/// Reads a command and its arguments from the words of a line.
#[verifier::loop_isolation(false)]
pub fn parse_command_operator(tokens: &[String]) -> (r: Result<CommandOperation, OperationError>)
    ensures
        match r {
            Ok(op) => Ok(op@),
            Err(e) => Err(e),
        } == command_operator_spec(strings_view(tokens@)),
{
    if tokens.len() == 0 {
        return Err(OperationError::CommandNameRequired);
    }
    let mut args: NameMap<String> = NameMap::new();
    let mut i: usize = 1;
    assert(texts_view(args@) =~= Seq::<(Seq<char>, Seq<char>)>::empty());
    while i < tokens.len()
        invariant
            1 <= i <= tokens.len(),
            args_from(strings_view(tokens@), 1, Seq::empty()) == args_from(
                strings_view(tokens@),
                i as int,
                texts_view(args@),
            ),
        decreases tokens.len() - i,
    {
        let (key, value) = match parse_arg(&tokens[i]) {
            Err(e) => {
                return Err(e);
            },
            Ok(read) => read,
        };
        proof {
            lemma_map_values_with(args@, string_view(), key@, value);
        }
        args.insert(key, value);
        i += 1;
    }
    Ok(CommandOperation { command_name: tokens[0].clone(), args })
}

} // verus!
