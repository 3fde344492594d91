//! The printed forms of expressions and types.

use crate::expr::parse::ParseError;
use crate::expr::typecheck::{SpecTypingError, TypingError};
use crate::expr::{
    args_view, params_view, strings_view, Command, Expr, ExprVar, SpecCommand, SpecExpr, SpecType,
    Type, TypeVar,
};
use crate::text::{push_char, to_chars};
use vstd::prelude::*;
use vstd::string::StringExecFns;

verus! {

/// The character that stands for the digit `d`.
pub open spec fn digit_char(d: nat) -> char {
    (d + '0' as nat) as char
}

/// The decimal digits of `n`, without leading zeros.
pub open spec fn decimal_digits(n: nat) -> Seq<char>
    decreases n,
{
    if n < 10 {
        seq![digit_char(n)]
    } else {
        decimal_digits(n / 10).push(digit_char(n % 10))
    }
}

/// The decimal form of `n`, with `-` in front of a negative number.
pub open spec fn int_text(n: int) -> Seq<char> {
    if n < 0 {
        seq!['-'] + decimal_digits((-n) as nat)
    } else {
        decimal_digits(n as nat)
    }
}

/// The parts from the `i`-th on, each after `sep`.
pub open spec fn joined_from(parts: Seq<Seq<char>>, sep: Seq<char>, i: int) -> Seq<char>
    decreases parts.len() - i,
{
    if i < 0 || i >= parts.len() {
        Seq::empty()
    } else {
        sep + parts[i] + joined_from(parts, sep, i + 1)
    }
}

/// The parts one after the other, with `sep` between them.
pub open spec fn joined(parts: Seq<Seq<char>>, sep: Seq<char>) -> Seq<char> {
    if parts.len() == 0 {
        Seq::empty()
    } else {
        parts[0] + joined_from(parts, sep, 1)
    }
}

/// The characters of `s` from the `i`-th on as they are written inside a
/// string: each quote and each backslash after a backslash, every other
/// character as it is.
pub open spec fn escaped_from(s: Seq<char>, i: int) -> Seq<char>
    decreases s.len() - i,
{
    if i < 0 || i >= s.len() {
        Seq::empty()
    } else if s[i] == '"' || s[i] == '\\' {
        seq!['\\', s[i]] + escaped_from(s, i + 1)
    } else {
        seq![s[i]] + escaped_from(s, i + 1)
    }
}

/// The characters of `s` as they are written inside a string.
pub open spec fn escaped(s: Seq<char>) -> Seq<char> {
    escaped_from(s, 0)
}

/// The printed form of an expression. A string stands between quotes,
/// with a backslash before each quote and each backslash in it.
pub open spec fn expr_text(e: SpecExpr) -> Seq<char>
    decreases e, 0nat,
{
    match e {
        SpecExpr::Var(name) => name,
        SpecExpr::Int(n) => int_text(n as int),
        SpecExpr::String(s) => seq!['"'] + escaped(s) + seq!['"'],
        SpecExpr::Path(dirs) => joined(dirs, "/"@),
        SpecExpr::Bytes(_) => "<bytes>"@,
        SpecExpr::App(callee, field, arg) => expr_text(*callee) + " --"@ + field + ":"@
            + expr_text(*arg),
        SpecExpr::Command(cmd) => cmd.name + " "@ + joined(args_text(cmd.args), " "@),
    }
}

/// The printed forms of the arguments of a command.
pub open spec fn args_text(args: Seq<(Seq<char>, SpecExpr)>) -> Seq<Seq<char>>
    decreases args, 1nat,
{
    Seq::new(
        args.len(),
        |i: int|
            if 0 <= i < args.len() {
                "--"@ + args[i].0 + ":"@ + expr_text(args[i].1)
            } else {
                arbitrary()
            },
    )
}

/// The printed form of a command: its name, a blank, and its arguments
/// with blanks between them.
pub open spec fn command_text(cmd: SpecCommand) -> Seq<char> {
    expr_text(SpecExpr::Command(cmd))
}

/// The printed form of a type.
pub open spec fn type_text(t: SpecType) -> Seq<char>
    decreases t, 0nat,
{
    match t {
        SpecType::Var(name) => name,
        SpecType::Func { context, params, ret } => "["@ + context + "] "@ + joined(
            params_text(params),
            " -> "@,
        ) + " -> "@ + type_text(*ret),
        SpecType::Int => "int"@,
        SpecType::String => "string"@,
        SpecType::Path => "path"@,
        SpecType::Bytes => "bytes"@,
        SpecType::Context => "context"@,
    }
}

/// The printed forms of the parameters of a function type.
pub open spec fn params_text(params: Seq<(Seq<char>, SpecType)>) -> Seq<Seq<char>>
    decreases params, 1nat,
{
    Seq::new(
        params.len(),
        |i: int|
            if 0 <= i < params.len() {
                "--"@ + params[i].0 + ":"@ + type_text(params[i].1)
            } else {
                arbitrary()
            },
    )
}

/// Appends the decimal digits of `n` to `out`.
fn push_decimal(out: &mut String, n: u64)
    ensures
        final(out)@ == old(out)@ + decimal_digits(n as nat),
    decreases n,
{
    if n >= 10 {
        push_decimal(out, n / 10);
    }
    let d = (n % 10) as u8;
    push_char(out, (d + 48) as char);
    proof {
        if n >= 10 {
            assert(final(out)@ =~= old(out)@ + decimal_digits(n as nat));
        } else {
            assert(final(out)@ =~= old(out)@ + decimal_digits(n as nat));
        }
    }
}

/// Appends `s` to `out` as it is written inside a string.
fn push_escaped(out: &mut String, s: &str)
    ensures
        final(out)@ == old(out)@ + escaped(s@),
{
    let chars = to_chars(s);
    let mut i: usize = 0;
    while i < chars.len()
        invariant
            i <= chars.len(),
            chars@ == s@,
            old(out)@ + escaped(s@) == out@ + escaped_from(s@, i as int),
        decreases chars.len() - i,
    {
        let c = chars[i];
        let ghost before = out@;
        if c == '"' || c == '\\' {
            push_char(out, '\\');
            push_char(out, c);
            assert(before + (seq!['\\', c] + escaped_from(s@, i + 1)) =~= out@ + escaped_from(
                s@,
                i + 1,
            ));
        } else {
            push_char(out, c);
            assert(before + (seq![c] + escaped_from(s@, i + 1)) =~= out@ + escaped_from(
                s@,
                i + 1,
            ));
        }
        i += 1;
    }
    assert(out@ + escaped_from(s@, i as int) =~= out@);
}

/// The decimal form of `n`.
pub fn int_to_string(n: i32) -> (r: String)
    ensures
        r@ == int_text(n as int),
{
    let mut out = String::new();
    if n < 0 {
        push_char(&mut out, '-');
        push_decimal(&mut out, (-(n as i64)) as u64);
        assert(out@ =~= int_text(n as int));
    } else {
        push_decimal(&mut out, n as u64);
        assert(out@ =~= int_text(n as int));
    }
    out
}

/// The parts one after the other, with `sep` between them.
pub fn join(parts: &Vec<String>, sep: &str) -> (r: String)
    ensures
        r@ == joined(strings_view(parts@), sep@),
{
    let mut out = String::new();
    if parts.len() == 0 {
        return out;
    }
    out.append(parts[0].as_str());
    let ghost all = strings_view(parts@);
    let mut i: usize = 1;
    assert(out@ =~= all[0]);
    while i < parts.len()
        invariant
            1 <= i <= parts.len(),
            all == strings_view(parts@),
            joined(all, sep@) == out@ + joined_from(all, sep@, i as int),
        decreases parts.len() - i,
    {
        let ghost before = out@;
        out.append(sep);
        out.append(parts[i].as_str());
        assert(before + (sep@ + all[i as int] + joined_from(all, sep@, i + 1)) =~= out@
            + joined_from(all, sep@, i + 1));
        i += 1;
    }
    assert(out@ + joined_from(all, sep@, i as int) =~= out@);
    out
}

impl ExprVar {
    /// The name as it is written.
    pub fn to_string(&self) -> (r: String)
        ensures
            r@ == self@,
    {
        self.0.clone()
    }
}

impl TypeVar {
    /// The name as it is written.
    pub fn to_string(&self) -> (r: String)
        ensures
            r@ == self@,
    {
        self.0.clone()
    }
}

impl Expr {
    /// The printed form of the expression.
    pub fn to_string(&self) -> (r: String)
        ensures
            r@ == expr_text(self@),
        decreases self, 1nat,
    {
        match self {
            Expr::Var(name) => name.to_string(),
            Expr::Int(n) => int_to_string(*n),
            Expr::String(s) => {
                let mut out = String::new();
                push_char(&mut out, '"');
                push_escaped(&mut out, s.as_str());
                push_char(&mut out, '"');
                assert(out@ =~= seq!['"'] + escaped(s@) + seq!['"']);
                out
            },
            Expr::Path(dirs) => join(dirs, "/"),
            Expr::Bytes(_) => "<bytes>".to_owned(),
            Expr::App(callee, field, arg) => {
                let mut out = callee.to_string();
                out.append(" --");
                out.append(field.0.as_str());
                out.append(":");
                out.append(arg.to_string().as_str());
                out
            },
            Expr::Command(cmd) => {
                proof {
                    Expr::lemma_view_command(*cmd);
                }
                cmd.to_string()
            },
        }
    }
}

impl Command {
    /// The printed form of the command.
    pub fn to_string(&self) -> (r: String)
        ensures
            r@ == command_text(self@),
        decreases self, 0nat,
    {
        let mut parts: Vec<String> = Vec::new();
        let n = self.args.len();
        let mut i: usize = 0;
        while i < n
            invariant
                i <= n,
                n == self.args@.len(),
                parts@.len() == i,
                forall|j: int|
                    0 <= j < i ==> (#[trigger] parts@[j])@ == args_text(args_view(self.args@))[j],
            decreases n - i,
        {
            let (k, e) = self.args.entry(i).unwrap();
            proof {
                self.args.lemma_value_smaller(i as int);
            }
            let mut part = "--".to_owned();
            part.append(k.as_str());
            part.append(":");
            part.append(e.to_string().as_str());
            parts.push(part);
            i += 1;
        }
        proof {
            Expr::lemma_view_command(*self);
            assert(strings_view(parts@) =~= args_text(self@.args));
        }
        let mut out = self.name.to_string();
        out.append(" ");
        out.append(join(&parts, " ").as_str());
        out
    }
}

impl Type {
    /// The printed form of the type.
    pub fn to_string(&self) -> (r: String)
        ensures
            r@ == type_text(self@),
        decreases self,
    {
        match self {
            Type::Var(name) => name.to_string(),
            Type::Func { context, params, ret } => {
                let mut parts: Vec<String> = Vec::new();
                let n = params.len();
                let mut i: usize = 0;
                while i < n
                    invariant
                        i <= n,
                        n == params@.len(),
                        parts@.len() == i,
                        forall|j: int|
                            0 <= j < i ==> (#[trigger] parts@[j])@ == params_text(
                                params_view(params@),
                            )[j],
                        self == (Type::Func { context: *context, params: *params, ret: *ret }),
                    decreases n - i,
                {
                    let (k, t) = params.entry(i).unwrap();
                    proof {
                        params.lemma_value_smaller(i as int);
                        assert(self->params == *params);
                    }
                    let mut part = "--".to_owned();
                    part.append(k.as_str());
                    part.append(":");
                    part.append(t.to_string().as_str());
                    parts.push(part);
                    i += 1;
                }
                proof {
                    Type::lemma_view_func(*context, *params, *ret);
                    assert(strings_view(parts@) =~= params_text(params_view(params@)));
                }
                let mut out = "[".to_owned();
                out.append(context.0.as_str());
                out.append("] ");
                out.append(join(&parts, " -> ").as_str());
                out.append(" -> ");
                out.append(ret.to_string().as_str());
                out
            },
            Type::Int => "int".to_owned(),
            Type::String => "string".to_owned(),
            Type::Path => "path".to_owned(),
            Type::Bytes => "bytes".to_owned(),
            Type::Context => "context".to_owned(),
        }
    }
}

/// The description of a parse error.
pub open spec fn parse_error_text(e: ParseError) -> Seq<char> {
    match e {
        ParseError::ExpectedChar(c) => "reserved char `"@.push(c) + "` does not match"@,
        ParseError::ExpectedWord => "reserved word does not match"@,
        ParseError::IdentifierStart => "identifier needs to start with alphabetic character"@,
        ParseError::IdentifierEnd => "identifier needs a character behind it"@,
        ParseError::ExpectedColon => "field and argument must be divided by `:`"@,
        ParseError::ExpectedDollar => "variable name must start with '$'"@,
        ParseError::ExpectedDigit => "can not be parsed as integer"@,
        ParseError::IntegerOverflow => "integer does not fit in 32 bits"@,
        ParseError::UnterminatedString => "string literal does not close"@,
        ParseError::ExpectedPath => "invalid path"@,
        ParseError::BytesNotImplemented => "not implemented"@,
        ParseError::Incomplete => "incomplete"@,
    }
}

/// The description of a typing error.
pub open spec fn typing_error_text(e: SpecTypingError) -> Seq<char> {
    match e {
        SpecTypingError::UnboundVariable(name) => "unbound variable: "@ + name,
        SpecTypingError::NotApplicable(t) => type_text(t) + " is not a function type"@,
        SpecTypingError::NoSuchParameter(field) => "no parameter named "@ + field,
        SpecTypingError::Mismatch(a, b) => "unification error: "@ + type_text(a) + " vs "@
            + type_text(b),
        SpecTypingError::Cyclic(name, t) => "unification error: type variable "@ + name
            + " occurs in "@ + type_text(t),
        SpecTypingError::UndefinedCommand(name) => "undefined command: "@ + name,
        SpecTypingError::TooDeep => "unification error: nested too deep"@,
    }
}

impl ParseError {
    /// The description of the error.
    pub fn to_string(&self) -> (r: String)
        ensures
            r@ == parse_error_text(*self),
    {
        match self {
            ParseError::ExpectedChar(c) => {
                let mut out = "reserved char `".to_owned();
                push_char(&mut out, *c);
                out.append("` does not match");
                out
            },
            ParseError::ExpectedWord => "reserved word does not match".to_owned(),
            ParseError::IdentifierStart => "identifier needs to start with alphabetic character"
                .to_owned(),
            ParseError::IdentifierEnd => "identifier needs a character behind it".to_owned(),
            ParseError::ExpectedColon => "field and argument must be divided by `:`".to_owned(),
            ParseError::ExpectedDollar => "variable name must start with '$'".to_owned(),
            ParseError::ExpectedDigit => "can not be parsed as integer".to_owned(),
            ParseError::IntegerOverflow => "integer does not fit in 32 bits".to_owned(),
            ParseError::UnterminatedString => "string literal does not close".to_owned(),
            ParseError::ExpectedPath => "invalid path".to_owned(),
            ParseError::BytesNotImplemented => "not implemented".to_owned(),
            ParseError::Incomplete => "incomplete".to_owned(),
        }
    }
}

impl TypingError {
    /// The description of the error.
    pub fn to_string(&self) -> (r: String)
        ensures
            r@ == typing_error_text(self@),
    {
        match self {
            TypingError::UnboundVariable(name) => {
                let mut out = "unbound variable: ".to_owned();
                out.append(name.0.as_str());
                out
            },
            TypingError::NotApplicable(t) => {
                let mut out = t.to_string();
                out.append(" is not a function type");
                out
            },
            TypingError::NoSuchParameter(field) => {
                let mut out = "no parameter named ".to_owned();
                out.append(field.0.as_str());
                out
            },
            TypingError::Mismatch(a, b) => {
                let mut out = "unification error: ".to_owned();
                out.append(a.to_string().as_str());
                out.append(" vs ");
                out.append(b.to_string().as_str());
                out
            },
            TypingError::Cyclic(name, t) => {
                let mut out = "unification error: type variable ".to_owned();
                out.append(name.0.as_str());
                out.append(" occurs in ");
                out.append(t.to_string().as_str());
                out
            },
            TypingError::UndefinedCommand(name) => {
                let mut out = "undefined command: ".to_owned();
                out.append(name.0.as_str());
                out
            },
            TypingError::TooDeep => "unification error: nested too deep".to_owned(),
        }
    }
}

} // verus!
