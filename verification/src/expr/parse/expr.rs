//! The parser of expressions.
//!
//! An expression is a factor followed by any number of arguments
//! `--field:factor`, each of which wraps what was read so far in an
//! application. A factor is a variable, a number, a string, a path or a
//! command, told apart by how it starts.

use crate::expr::parse::{
    char_, char_spec, ident, ident_spec, lemma_ident_shorter, lemma_skip_spaces, skip_spaces,
    starts_argument, suffix, whitespaces, ParseError,
};
use crate::expr::{strings_view, Command, Expr, ExprVar, SpecCommand, SpecExpr};
use crate::name_map::NameMap;
use crate::text::{digit, digit_value, is_digit, is_space, push_char, whitespace};
use vstd::prelude::*;
use vstd::slice::slice_subrange;

verus! {

/// What reading an expression gives: the expression and the rest of the
/// text, or the reason why there is none.
pub type SpecParsed = Result<(SpecExpr, Seq<char>), ParseError>;

/// The largest number that a literal may have after a `-`.
pub const MAGNITUDE_LIMIT: u64 = 0x8000_0000;

/// The first position from `i` on that holds no digit.
pub open spec fn digits_end(s: Seq<char>, i: int) -> int
    decreases s.len() - i,
{
    if 0 <= i < s.len() && is_digit(s[i]) {
        digits_end(s, i + 1)
    } else {
        i
    }
}

/// The number that a sequence of decimal digits stands for.
pub open spec fn decimal_value(digits: Seq<char>) -> nat
    decreases digits.len(),
{
    if digits.len() == 0 {
        0
    } else {
        (decimal_value(digits.drop_last()) * 10 + digit_value(digits.last())) as nat
    }
}

/// The number at the front of `s`: one or more decimal digits, standing
/// for a number of at most `MAGNITUDE_LIMIT`.
pub open spec fn number_spec(s: Seq<char>) -> Result<(nat, Seq<char>), ParseError> {
    if s.len() == 0 || !is_digit(s[0]) {
        Err(ParseError::ExpectedDigit)
    } else if decimal_value(s.subrange(0, digits_end(s, 0))) > MAGNITUDE_LIMIT {
        Err(ParseError::IntegerOverflow)
    } else {
        Ok(
            (
                decimal_value(s.subrange(0, digits_end(s, 0))),
                skip_spaces(suffix(s, digits_end(s, 0))),
            ),
        )
    }
}

/// The variable at the front of `s`: `$` and an identifier, named with
/// the `$`.
pub open spec fn var_spec(s: Seq<char>) -> SpecParsed {
    if s.len() > 0 && s[0] == '$' {
        match ident_spec(suffix(s, 1)) {
            Err(e) => Err(e),
            Ok((id, rest)) => Ok((SpecExpr::Var(seq!['$'] + id), rest)),
        }
    } else {
        Err(ParseError::ExpectedDollar)
    }
}

/// The integer at the front of `s`: a number, or `-` and a number, that
/// fits in 32 bits.
pub open spec fn int_spec(s: Seq<char>) -> SpecParsed {
    if s.len() > 0 && s[0] == '-' {
        match number_spec(suffix(s, 1)) {
            Err(e) => Err(e),
            Ok((n, rest)) => Ok((SpecExpr::Int((-n) as i32), rest)),
        }
    } else {
        match number_spec(s) {
            Err(e) => Err(e),
            Ok((n, rest)) => if n < MAGNITUDE_LIMIT {
                Ok((SpecExpr::Int(n as i32), rest))
            } else {
                Err(ParseError::IntegerOverflow)
            },
        }
    }
}

/// The rest of a string from position `i` of `s` on, where `text` was read
/// so far and `escaped` says that a backslash came just before: a
/// backslash makes the next character part of the string, whatever it is,
/// and a quote ends the string.
pub open spec fn string_from(s: Seq<char>, i: int, escaped: bool, text: Seq<char>) -> SpecParsed
    decreases s.len() - i,
{
    if i < 0 || i >= s.len() {
        Err(ParseError::UnterminatedString)
    } else if escaped {
        string_from(s, i + 1, false, text.push(s[i]))
    } else if s[i] == '\\' {
        string_from(s, i + 1, true, text)
    } else if s[i] == '"' {
        Ok((SpecExpr::String(text), skip_spaces(suffix(s, i + 1))))
    } else {
        string_from(s, i + 1, false, text.push(s[i]))
    }
}

/// The string at the front of `s`, between quotes.
pub open spec fn string_spec(s: Seq<char>) -> SpecParsed {
    match char_spec(s, '"') {
        Err(e) => Err(e),
        Ok(body) => string_from(body, 0, false, Seq::empty()),
    }
}

/// The first position from `i` on that holds whitespace or `/`.
pub open spec fn entry_end(s: Seq<char>, i: int) -> int
    decreases s.len() - i,
{
    if 0 <= i < s.len() && !is_space(s[i]) && s[i] != '/' {
        entry_end(s, i + 1)
    } else {
        i
    }
}

/// The path segment at the front of `s`: everything up to whitespace or
/// the next `/`.
pub open spec fn entry_name_spec(s: Seq<char>) -> (Seq<char>, Seq<char>) {
    (s.subrange(0, entry_end(s, 0)), suffix(s, entry_end(s, 0)))
}

/// The first segment of a path: `..`, `.`, or nothing before a `/`.
pub open spec fn prime_path_spec(s: Seq<char>) -> Result<(Seq<char>, Seq<char>), ParseError> {
    if s.len() >= 2 && s[0] == '.' && s[1] == '.' {
        Ok((seq!['.', '.'], suffix(s, 2)))
    } else if s.len() >= 1 && s[0] == '.' {
        Ok((seq!['.'], suffix(s, 1)))
    } else if s.len() >= 1 && s[0] == '/' {
        Ok((Seq::empty(), s))
    } else {
        Err(ParseError::ExpectedPath)
    }
}

/// The path whose first segments are `segments` and whose further
/// segments, each after a `/`, are at the front of `s`.
pub open spec fn path_from(segments: Seq<Seq<char>>, s: Seq<char>) -> (SpecExpr, Seq<char>)
    decreases s.len(),
{
    if s.len() > 0 && s[0] == '/' {
        proof {
            lemma_entry_end(suffix(s, 1), 0);
        }
        path_from(segments.push(entry_name_spec(suffix(s, 1)).0), entry_name_spec(suffix(s, 1)).1)
    } else {
        (SpecExpr::Path(segments), skip_spaces(s))
    }
}

/// The path at the front of `s`.
pub open spec fn path_spec(s: Seq<char>) -> SpecParsed {
    match prime_path_spec(s) {
        Err(e) => Err(e),
        Ok((first, rest)) => Ok(path_from(seq![first], rest)),
    }
}

/// Byte strings cannot be written yet.
pub open spec fn bytes_spec(s: Seq<char>) -> SpecParsed {
    Err(ParseError::BytesNotImplemented)
}

/// The command at the front of `s`: an identifier, with no arguments.
pub open spec fn command_spec(s: Seq<char>) -> Result<(SpecCommand, Seq<char>), ParseError> {
    match ident_spec(s) {
        Err(e) => Err(e),
        Ok((id, rest)) => Ok((SpecCommand { name: id, args: Seq::empty() }, rest)),
    }
}

/// `s` starts as a number does: with a digit, or with `-` and a digit.
pub open spec fn starts_number(s: Seq<char>) -> bool {
    s.len() > 0 && (is_digit(s[0]) || (s[0] == '-' && s.len() > 1 && is_digit(s[1])))
}

/// The factor at the front of `s`. How `s` starts decides what is read:
/// `$` a variable, a digit or `-` and a digit a number, a quote a string,
/// `.` or `/` a path, and anything else a command.
pub open spec fn factor_spec(s: Seq<char>) -> SpecParsed {
    if s.len() > 0 && s[0] == '$' {
        var_spec(s)
    } else if starts_number(s) {
        int_spec(s)
    } else if s.len() > 0 && s[0] == '"' {
        string_spec(s)
    } else if s.len() > 0 && (s[0] == '.' || s[0] == '/') {
        path_spec(s)
    } else {
        match bytes_spec(s) {
            Ok(read) => Ok(read),
            Err(_) => match command_spec(s) {
                Err(e) => Err(e),
                Ok((cmd, rest)) => Ok((SpecExpr::Command(cmd), rest)),
            },
        }
    }
}

/// The expression made of `callee` and the arguments `--field:factor` at
/// the front of `s`, the first argument innermost.
pub open spec fn app_from(callee: SpecExpr, s: Seq<char>) -> SpecParsed
    decreases s.len(),
{
    if starts_argument(s) {
        match ident_spec(suffix(s, 2)) {
            Err(e) => Err(e),
            Ok((field, after)) => if after.len() > 0 && after[0] == ':' {
                match factor_spec(suffix(after, 1)) {
                    Err(e) => Err(e),
                    Ok((arg, rest)) => {
                        proof {
                            lemma_ident_shorter(suffix(s, 2));
                            lemma_factor_shorter(suffix(after, 1));
                        }
                        app_from(SpecExpr::App(Box::new(callee), field, Box::new(arg)), rest)
                    },
                }
            } else {
                Err(ParseError::ExpectedColon)
            },
        }
    } else {
        Ok((callee, s))
    }
}

/// The expression at the front of `s`.
pub open spec fn expr_spec(s: Seq<char>) -> SpecParsed {
    match factor_spec(s) {
        Err(e) => Err(e),
        Ok((callee, rest)) => app_from(callee, rest),
    }
}

/// Where the digits from `i` on end.
pub proof fn lemma_digits_end(s: Seq<char>, i: int)
    requires
        0 <= i <= s.len(),
    ensures
        i <= digits_end(s, i) <= s.len(),
        forall|j: int| i <= j < digits_end(s, i) ==> is_digit(#[trigger] s[j]),
        digits_end(s, i) < s.len() ==> !is_digit(s[digits_end(s, i)]),
    decreases s.len() - i,
{
    if i < s.len() && is_digit(s[i]) {
        lemma_digits_end(s, i + 1);
    }
}

/// Where the path segment from `i` on ends.
pub proof fn lemma_entry_end(s: Seq<char>, i: int)
    requires
        0 <= i <= s.len(),
    ensures
        i <= entry_end(s, i) <= s.len(),
        forall|j: int|
            i <= j < entry_end(s, i) ==> !is_space(#[trigger] s[j]) && s[j] != '/',
        entry_end(s, i) < s.len() ==> is_space(s[entry_end(s, i)]) || s[entry_end(s, i)] == '/',
    decreases s.len() - i,
{
    if i < s.len() && !is_space(s[i]) && s[i] != '/' {
        lemma_entry_end(s, i + 1);
    }
}

/// One more digit: ten times the number so far, and the digit.
pub proof fn lemma_decimal_step(s: Seq<char>, i: int)
    requires
        0 <= i < s.len(),
        is_digit(s[i]),
    ensures
        decimal_value(s.subrange(0, i + 1)) == decimal_value(s.subrange(0, i)) * 10 + digit_value(
            s[i],
        ),
        decimal_value(s.subrange(0, i + 1)) >= decimal_value(s.subrange(0, i)),
{
    assert(s.subrange(0, i + 1).drop_last() =~= s.subrange(0, i));
    assert(s.subrange(0, i + 1).last() == s[i]);
}

/// More digits make a number no smaller.
pub proof fn lemma_decimal_grows(s: Seq<char>, i: int, j: int)
    requires
        0 <= i <= j <= s.len(),
        forall|k: int| i <= k < j ==> is_digit(#[trigger] s[k]),
    ensures
        decimal_value(s.subrange(0, i)) <= decimal_value(s.subrange(0, j)),
    decreases j - i,
{
    if i < j {
        lemma_decimal_grows(s, i, j - 1);
        lemma_decimal_step(s, j - 1);
    }
}

/// The rest after a string is shorter than the text from the string on.
pub proof fn lemma_string_shorter(s: Seq<char>, i: int, escaped: bool, text: Seq<char>)
    requires
        0 <= i,
    ensures
        string_from(s, i, escaped, text) matches Ok((_, rest)) ==> rest.len() < s.len() - i,
    decreases s.len() - i,
{
    if i < s.len() {
        if escaped {
            lemma_string_shorter(s, i + 1, false, text.push(s[i]));
        } else if s[i] == '\\' {
            lemma_string_shorter(s, i + 1, true, text);
        } else if s[i] == '"' {
            lemma_skip_spaces(suffix(s, i + 1));
        } else {
            lemma_string_shorter(s, i + 1, false, text.push(s[i]));
        }
    }
}

/// The rest after a path is no longer than the text from its further
/// segments on, and shorter when there is one.
pub proof fn lemma_path_shorter(segments: Seq<Seq<char>>, s: Seq<char>)
    ensures
        path_from(segments, s).1.len() <= s.len(),
        s.len() > 0 && s[0] == '/' ==> path_from(segments, s).1.len() < s.len(),
    decreases s.len(),
{
    if s.len() > 0 && s[0] == '/' {
        lemma_entry_end(suffix(s, 1), 0);
        lemma_path_shorter(
            segments.push(entry_name_spec(suffix(s, 1)).0),
            entry_name_spec(suffix(s, 1)).1,
        );
    } else {
        lemma_skip_spaces(s);
    }
}

/// A factor takes at least one character.
pub proof fn lemma_factor_shorter(s: Seq<char>)
    ensures
        factor_spec(s) matches Ok((_, rest)) ==> rest.len() < s.len(),
{
    if s.len() > 0 {
        lemma_ident_shorter(suffix(s, 1));
        lemma_ident_shorter(s);
        if s[0] == '-' {
            if suffix(s, 1).len() > 0 {
                lemma_digits_end(suffix(s, 1), 0);
                lemma_skip_spaces(suffix(suffix(s, 1), digits_end(suffix(s, 1), 0)));
            }
        }
        lemma_digits_end(s, 0);
        lemma_skip_spaces(suffix(s, digits_end(s, 0)));
        lemma_string_shorter(suffix(s, 1), 0, false, Seq::empty());
        if s[0] == '.' || s[0] == '/' {
            let (first, rest) = prime_path_spec(s)->Ok_0;
            lemma_path_shorter(seq![first], rest);
        }
    }
}

/// The view of what a parser of expressions returns.
pub open spec fn parsed_view(r: Result<(Expr, &[char]), ParseError>) -> SpecParsed {
    match r {
        Ok((e, rest)) => Ok((e@, rest@)),
        Err(e) => Err(e),
    }
}

/// Reads an expression from the front of `rest`.
pub fn expr<'a>(rest: &'a [char]) -> (r: Result<(Expr, &'a [char]), ParseError>)
    ensures
        parsed_view(r) == expr_spec(rest@),
{
    app(rest)
}

/// Reads a factor and the arguments behind it.
#[verifier::loop_isolation(false)]
pub fn app<'a>(rest: &'a [char]) -> (r: Result<(Expr, &'a [char]), ParseError>)
    ensures
        parsed_view(r) == expr_spec(rest@),
{
    let (mut callee, mut rest) = match factor_expr(rest) {
        Err(e) => {
            return Err(e);
        },
        Ok(read) => read,
    };
    let ghost goal = app_from(callee@, rest@);
    loop
        invariant
            goal == app_from(callee@, rest@),
        decreases rest@.len(),
    {
        if !(rest.len() >= 2 && rest[0] == '-' && rest[1] == '-') {
            return Ok((callee, rest));
        }
        let (field, after) = match ident(slice_subrange(rest, 2, rest.len())) {
            Err(e) => {
                return Err(e);
            },
            Ok(read) => read,
        };
        if !(after.len() > 0 && after[0] == ':') {
            return Err(ParseError::ExpectedColon);
        }
        let (arg, next) = match factor_expr(slice_subrange(after, 1, after.len())) {
            Err(e) => {
                return Err(e);
            },
            Ok(read) => read,
        };
        proof {
            lemma_ident_shorter(suffix(rest@, 2));
            lemma_factor_shorter(suffix(after@, 1));
        }
        callee = Expr::App(Box::new(callee), ExprVar(field), Box::new(arg));
        rest = next;
    }
}

/// Reads a factor from the front of `rest`.
pub fn factor_expr<'a>(rest: &'a [char]) -> (r: Result<(Expr, &'a [char]), ParseError>)
    ensures
        parsed_view(r) == factor_spec(rest@),
{
    if rest.len() > 0 && rest[0] == '$' {
        var(rest)
    } else if rest.len() > 0 && (digit(rest[0]).is_some() || (rest[0] == '-' && rest.len() > 1
        && digit(rest[1]).is_some())) {
        integer(rest)
    } else if rest.len() > 0 && rest[0] == '"' {
        string(rest)
    } else if rest.len() > 0 && (rest[0] == '.' || rest[0] == '/') {
        path(rest)
    } else {
        match bytes(rest) {
            Ok(read) => Ok(read),
            Err(_) => match command(rest) {
                Err(e) => Err(e),
                Ok((cmd, rest)) => {
                    proof {
                        Expr::lemma_view_command(cmd);
                    }
                    Ok((Expr::Command(cmd), rest))
                },
            },
        }
    }
}

/// Reads a variable from the front of `rest`.
pub fn var<'a>(rest: &'a [char]) -> (r: Result<(Expr, &'a [char]), ParseError>)
    ensures
        parsed_view(r) == var_spec(rest@),
{
    if rest.len() > 0 && rest[0] == '$' {
        match ident(slice_subrange(rest, 1, rest.len())) {
            Err(e) => Err(e),
            Ok((id, rest)) => {
                let mut name = String::new();
                push_char(&mut name, '$');
                let ghost sigil = name@;
                assert(sigil =~= seq!['$']);
                vstd::string::StringExecFns::append(&mut name, id.as_str());
                Ok((Expr::Var(ExprVar(name)), rest))
            },
        }
    } else {
        Err(ParseError::ExpectedDollar)
    }
}

/// Reads a number from the front of `rest`.
pub fn positive_num<'a>(rest: &'a [char]) -> (r: Result<(u64, &'a [char]), ParseError>)
    ensures
        match r {
            Ok((n, rest)) => Ok((n as nat, rest@)),
            Err(e) => Err(e),
        } == number_spec(rest@),
{
    if rest.len() == 0 || digit(rest[0]).is_none() {
        return Err(ParseError::ExpectedDigit);
    }
    let mut n: u64 = 0;
    let mut i: usize = 0;
    let mut scanning = true;
    proof {
        lemma_digits_end(rest@, 0);
    }
    while scanning && i < rest.len()
        invariant
            i <= rest.len(),
            digits_end(rest@, 0) == digits_end(rest@, i as int),
            i <= digits_end(rest@, 0) <= rest.len(),
            forall|k: int| 0 <= k < digits_end(rest@, 0) ==> is_digit(#[trigger] rest@[k]),
            !scanning ==> i < rest.len() && !is_digit(rest@[i as int]),
            n == decimal_value(rest@.subrange(0, i as int)),
            n <= MAGNITUDE_LIMIT,
        decreases rest.len() - i + if scanning { 1int } else { 0int },
    {
        match digit(rest[i]) {
            Some(d) => {
                proof {
                    lemma_digits_end(rest@, i + 1);
                    lemma_decimal_step(rest@, i as int);
                    lemma_decimal_grows(rest@, i + 1, digits_end(rest@, 0));
                }
                n = n * 10 + d as u64;
                if n > MAGNITUDE_LIMIT {
                    return Err(ParseError::IntegerOverflow);
                }
                i += 1;
            },
            None => {
                scanning = false;
            },
        }
    }
    Ok((n, whitespaces(slice_subrange(rest, i, rest.len()))))
}

/// Reads an integer from the front of `rest`.
pub fn integer<'a>(rest: &'a [char]) -> (r: Result<(Expr, &'a [char]), ParseError>)
    ensures
        parsed_view(r) == int_spec(rest@),
{
    if rest.len() > 0 && rest[0] == '-' {
        match positive_num(slice_subrange(rest, 1, rest.len())) {
            Err(e) => Err(e),
            Ok((n, rest)) => {
                let value: i64 = -(n as i64);
                Ok((Expr::Int(value as i32), rest))
            },
        }
    } else {
        match positive_num(rest) {
            Err(e) => Err(e),
            Ok((n, rest)) => if n < MAGNITUDE_LIMIT {
                Ok((Expr::Int(n as i32), rest))
            } else {
                Err(ParseError::IntegerOverflow)
            },
        }
    }
}

/// Reads a string from the front of `rest`.
#[verifier::loop_isolation(false)]
pub fn string<'a>(rest: &'a [char]) -> (r: Result<(Expr, &'a [char]), ParseError>)
    ensures
        parsed_view(r) == string_spec(rest@),
{
    let body = match char_(rest, '"') {
        Err(e) => {
            return Err(e);
        },
        Ok(body) => body,
    };
    let mut escaped = false;
    let mut text = String::new();
    let mut i: usize = 0;
    while i < body.len()
        invariant
            i <= body.len(),
            string_spec(rest@) == string_from(body@, i as int, escaped, text@),
        decreases body.len() - i,
    {
        let c = body[i];
        if escaped {
            push_char(&mut text, c);
            escaped = false;
        } else if c == '\\' {
            escaped = true;
        } else if c == '"' {
            return Ok((Expr::String(text), whitespaces(slice_subrange(body, i + 1, body.len()))));
        } else {
            push_char(&mut text, c);
        }
        i += 1;
    }
    Err(ParseError::UnterminatedString)
}

/// Reads a path from the front of `rest`.
#[verifier::loop_isolation(false)]
pub fn path<'a>(rest: &'a [char]) -> (r: Result<(Expr, &'a [char]), ParseError>)
    ensures
        parsed_view(r) == path_spec(rest@),
{
    let (prime, mut rest) = match prime_path(rest) {
        Err(e) => {
            return Err(e);
        },
        Ok(read) => read,
    };
    let mut segments: Vec<String> = Vec::new();
    segments.push(prime);
    assert(strings_view(segments@) =~= seq![prime@]);
    let ghost goal = path_from(strings_view(segments@), rest@);
    loop
        invariant
            goal == path_from(strings_view(segments@), rest@),
        decreases rest@.len(),
    {
        match char_(rest, '/') {
            Ok(after) => {
                let (entry, next) = entry_name(after);
                proof {
                    lemma_entry_end(suffix(rest@, 1), 0);
                }
                let ghost before = strings_view(segments@);
                segments.push(entry);
                assert(strings_view(segments@) =~= before.push(entry@));
                rest = next;
            },
            Err(_) => {
                return Ok((Expr::Path(segments), whitespaces(rest)));
            },
        }
    }
}

/// Reads a path segment from the front of `rest`.
pub fn entry_name<'a>(rest: &'a [char]) -> (r: (String, &'a [char]))
    ensures
        (r.0@, r.1@) == entry_name_spec(rest@),
{
    let mut name = String::new();
    let mut i: usize = 0;
    let mut scanning = true;
    while scanning && i < rest.len()
        invariant
            i <= rest.len(),
            entry_end(rest@, 0) == entry_end(rest@, i as int),
            !scanning ==> i < rest.len() && (is_space(rest@[i as int]) || rest@[i as int] == '/'),
            name@ == rest@.subrange(0, i as int),
        decreases rest.len() - i + if scanning { 1int } else { 0int },
    {
        let c = rest[i];
        if whitespace(c) || c == '/' {
            scanning = false;
        } else {
            push_char(&mut name, c);
            assert(rest@.subrange(0, i + 1) =~= rest@.subrange(0, i as int).push(c));
            i += 1;
        }
    }
    (name, slice_subrange(rest, i, rest.len()))
}

/// Reads the first segment of a path from the front of `rest`.
pub fn prime_path<'a>(rest: &'a [char]) -> (r: Result<(String, &'a [char]), ParseError>)
    ensures
        match r {
            Ok((first, rest)) => Ok((first@, rest@)),
            Err(e) => Err(e),
        } == prime_path_spec(rest@),
{
    if rest.len() >= 2 && rest[0] == '.' && rest[1] == '.' {
        let mut first = String::new();
        push_char(&mut first, '.');
        push_char(&mut first, '.');
        assert(first@ =~= seq!['.', '.']);
        Ok((first, slice_subrange(rest, 2, rest.len())))
    } else if rest.len() >= 1 && rest[0] == '.' {
        let mut first = String::new();
        push_char(&mut first, '.');
        assert(first@ =~= seq!['.']);
        Ok((first, slice_subrange(rest, 1, rest.len())))
    } else if rest.len() >= 1 && rest[0] == '/' {
        assert(rest@.subrange(0, rest@.len() as int) =~= rest@);
        Ok((String::new(), slice_subrange(rest, 0, rest.len())))
    } else {
        Err(ParseError::ExpectedPath)
    }
}

/// Byte strings have no syntax yet: nothing is read.
pub fn bytes<'a>(rest: &'a [char]) -> (r: Result<(Expr, &'a [char]), ParseError>)
    ensures
        parsed_view(r) == bytes_spec(rest@),
{
    Err(ParseError::BytesNotImplemented)
}

/// Reads a command from the front of `rest`.
pub fn command<'a>(rest: &'a [char]) -> (r: Result<(Command, &'a [char]), ParseError>)
    ensures
        match r {
            Ok((cmd, rest)) => Ok((cmd@, rest@)),
            Err(e) => Err(e),
        } == command_spec(rest@),
{
    match ident(rest) {
        Err(e) => Err(e),
        Ok((name, rest)) => {
            let cmd = Command { name: ExprVar(name), args: NameMap::new() };
            proof {
                Expr::lemma_view_command(cmd);
                assert(cmd@.args =~= Seq::empty());
            }
            Ok((cmd, rest))
        },
    }
}

} // verus!
