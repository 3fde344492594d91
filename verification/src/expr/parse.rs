//! The parsers: from source text to expressions and types.
//!
//! Each parser reads from the front of a sequence of characters and gives
//! what it read together with the rest, after the whitespace that follows.

use crate::expr::{Expr, Ident, SpecExpr, SpecType, Type};
use crate::text::{
    alphabetic, from_chars, ident_part, is_alphabetic, is_ident_part, is_space, to_chars,
    whitespace,
};
use vstd::prelude::*;
use vstd::slice::slice_subrange;

pub mod expr;
pub mod typ;

verus! {

/// Why a text is no expression or no type.
#[derive(Debug, Clone, Copy, PartialEq, Eq, Structural)]
pub enum ParseError {
    /// This character is asked for and not there.
    ExpectedChar(char),
    /// A reserved word is asked for and not there.
    ExpectedWord,
    /// An identifier has to start with an alphabetic character.
    IdentifierStart,
    /// An identifier has to be followed by a character that ends it.
    IdentifierEnd,
    /// A field and its argument, or its type, are divided by `:`.
    ExpectedColon,
    /// A variable starts with `$`.
    ExpectedDollar,
    /// A number starts with a digit, or `-` and a digit.
    ExpectedDigit,
    /// The number does not fit in 32 bits.
    IntegerOverflow,
    /// The text ends inside a string.
    UnterminatedString,
    /// A path starts with `..`, `.` or `/`.
    ExpectedPath,
    /// Byte strings have no syntax yet.
    BytesNotImplemented,
    /// Something is left over after the expression or the type.
    Incomplete,
}

/// The first position from `i` on that holds no whitespace.
pub open spec fn space_end(s: Seq<char>, i: int) -> int
    decreases s.len() - i,
{
    if 0 <= i < s.len() && is_space(s[i]) {
        space_end(s, i + 1)
    } else {
        i
    }
}

/// `s` without the whitespace at its front.
pub open spec fn skip_spaces(s: Seq<char>) -> Seq<char> {
    s.subrange(space_end(s, 0), s.len() as int)
}

/// `s` from position `i` on.
pub open spec fn suffix(s: Seq<char>, i: int) -> Seq<char> {
    s.subrange(i, s.len() as int)
}

/// `s` after the character `c` at its front.
pub open spec fn char_spec(s: Seq<char>, c: char) -> Result<Seq<char>, ParseError> {
    if s.len() > 0 && s[0] == c {
        Ok(suffix(s, 1))
    } else {
        Err(ParseError::ExpectedChar(c))
    }
}

/// `s` after the word at its front and the whitespace behind it.
pub open spec fn reserved_spec(s: Seq<char>, word: Seq<char>) -> Result<Seq<char>, ParseError> {
    if word.len() <= s.len() && s.subrange(0, word.len() as int) == word {
        Ok(skip_spaces(suffix(s, word.len() as int)))
    } else {
        Err(ParseError::ExpectedWord)
    }
}

/// `s` starts with `--`, as an argument or a parameter does.
pub open spec fn starts_argument(s: Seq<char>) -> bool {
    s.len() >= 2 && s[0] == '-' && s[1] == '-'
}

/// The first position from `i` on that holds no identifier character.
pub open spec fn ident_end(s: Seq<char>, i: int) -> int
    decreases s.len() - i,
{
    if 0 <= i < s.len() && is_ident_part(s[i]) {
        ident_end(s, i + 1)
    } else {
        i
    }
}

/// The identifier at the front of `s`: an alphabetic character, then
/// alphanumeric characters and underscores up to a character that is
/// neither, which has to be there.
pub open spec fn ident_spec(s: Seq<char>) -> Result<(Seq<char>, Seq<char>), ParseError> {
    if s.len() == 0 {
        Err(ParseError::IdentifierEnd)
    } else if !is_alphabetic(s[0]) {
        Err(ParseError::IdentifierStart)
    } else if ident_end(s, 1) >= s.len() {
        Err(ParseError::IdentifierEnd)
    } else {
        Ok((s.subrange(0, ident_end(s, 1)), skip_spaces(suffix(s, ident_end(s, 1)))))
    }
}

/// The expression that the whole of `s` stands for.
pub open spec fn parse_expr_spec(s: Seq<char>) -> Result<SpecExpr, ParseError> {
    match expr::expr_spec(skip_spaces(s)) {
        Err(e) => Err(e),
        Ok((e, rest)) => if rest.len() == 0 {
            Ok(e)
        } else {
            Err(ParseError::Incomplete)
        },
    }
}

/// The type that the whole of `s` stands for.
pub open spec fn parse_type_spec(s: Seq<char>) -> Result<SpecType, ParseError> {
    match typ::typ_spec(skip_spaces(s)) {
        Err(e) => Err(e),
        Ok((t, rest)) => if rest.len() == 0 {
            Ok(t)
        } else {
            Err(ParseError::Incomplete)
        },
    }
}

/// Where the whitespace from `i` on ends.
pub proof fn lemma_space_end(s: Seq<char>, i: int)
    requires
        0 <= i <= s.len(),
    ensures
        i <= space_end(s, i) <= s.len(),
        forall|j: int| i <= j < space_end(s, i) ==> is_space(#[trigger] s[j]),
        space_end(s, i) < s.len() ==> !is_space(s[space_end(s, i)]),
    decreases s.len() - i,
{
    if i < s.len() && is_space(s[i]) {
        lemma_space_end(s, i + 1);
    }
}

/// Where the identifier characters from `i` on end.
pub proof fn lemma_ident_end(s: Seq<char>, i: int)
    requires
        0 <= i <= s.len(),
    ensures
        i <= ident_end(s, i) <= s.len(),
        forall|j: int| i <= j < ident_end(s, i) ==> is_ident_part(#[trigger] s[j]),
        ident_end(s, i) < s.len() ==> !is_ident_part(s[ident_end(s, i)]),
    decreases s.len() - i,
{
    if i < s.len() && is_ident_part(s[i]) {
        lemma_ident_end(s, i + 1);
    }
}

/// Skipping whitespace makes a text no longer.
pub proof fn lemma_skip_spaces(s: Seq<char>)
    ensures
        skip_spaces(s).len() <= s.len(),
        skip_spaces(s).len() > 0 ==> !is_space(skip_spaces(s)[0]),
        s.len() > 0 && !is_space(s[0]) ==> skip_spaces(s) == s,
        s.len() == 0 ==> skip_spaces(s) == s,
{
    lemma_space_end(s, 0);
    if s.len() == 0 || !is_space(s[0]) {
        assert(skip_spaces(s) =~= s);
    }
}

/// An identifier takes at least one character.
pub proof fn lemma_ident_shorter(s: Seq<char>)
    ensures
        ident_spec(s) matches Ok((id, rest)) ==> rest.len() < s.len() && id.len() > 0,
{
    if s.len() > 0 {
        lemma_ident_end(s, 1);
        lemma_skip_spaces(suffix(s, ident_end(s, 1)));
    }
}

/// A reserved word takes as many characters as it has.
pub proof fn lemma_reserved_shorter(s: Seq<char>, word: Seq<char>)
    ensures
        reserved_spec(s, word) matches Ok(rest) ==> rest.len() + word.len() <= s.len(),
{
    if word.len() <= s.len() {
        lemma_skip_spaces(suffix(s, word.len() as int));
    }
}

/// Reads an expression from the whole of `s`.
pub fn expr(s: &str) -> (r: Result<Expr, ParseError>)
    ensures
        match r {
            Ok(e) => Ok(e@),
            Err(e) => Err(e),
        } == parse_expr_spec(s@),
{
    let chars = to_chars(s);
    expr_of_chars(chars.as_slice())
}

/// Reads an expression from the whole of `s`.
pub fn expr_of_chars(s: &[char]) -> (r: Result<Expr, ParseError>)
    ensures
        match r {
            Ok(e) => Ok(e@),
            Err(e) => Err(e),
        } == parse_expr_spec(s@),
{
    let start = whitespaces(s);
    match expr::expr(start) {
        Err(e) => Err(e),
        Ok((e, rest)) => if rest.len() == 0 {
            Ok(e)
        } else {
            Err(ParseError::Incomplete)
        },
    }
}

/// Reads a type from the whole of `s`.
pub fn typ(s: &str) -> (r: Result<Type, ParseError>)
    ensures
        match r {
            Ok(t) => Ok(t@),
            Err(e) => Err(e),
        } == parse_type_spec(s@),
{
    let chars = to_chars(s);
    let start = whitespaces(chars.as_slice());
    match typ::typ(start) {
        Err(e) => Err(e),
        Ok((t, rest)) => if rest.len() == 0 {
            Ok(t)
        } else {
            Err(ParseError::Incomplete)
        },
    }
}

/// Skips the whitespace at the front of `s`.
pub fn whitespaces<'a>(s: &'a [char]) -> (r: &'a [char])
    ensures
        r@ == skip_spaces(s@),
{
    let mut i: usize = 0;
    let mut scanning = true;
    while scanning && i < s.len()
        invariant
            i <= s.len(),
            space_end(s@, 0) == space_end(s@, i as int),
            !scanning ==> i < s.len() && !is_space(s@[i as int]),
        decreases s.len() - i + if scanning { 1int } else { 0int },
    {
        if whitespace(s[i]) {
            i += 1;
        } else {
            scanning = false;
        }
    }
    slice_subrange(s, i, s.len())
}

/// Takes the character `c` from the front of `s`.
pub fn char_<'a>(s: &'a [char], c: char) -> (r: Result<&'a [char], ParseError>)
    ensures
        match r {
            Ok(rest) => Ok(rest@),
            Err(e) => Err(e),
        } == char_spec(s@, c),
{
    if s.len() > 0 && s[0] == c {
        Ok(slice_subrange(s, 1, s.len()))
    } else {
        Err(ParseError::ExpectedChar(c))
    }
}

/// Takes `word` from the front of `s`, and the whitespace behind it.
pub fn reserved<'a>(s: &'a [char], word: &str) -> (r: Result<&'a [char], ParseError>)
    ensures
        match r {
            Ok(rest) => Ok(rest@),
            Err(e) => Err(e),
        } == reserved_spec(s@, word@),
{
    let w = to_chars(word);
    if w.len() > s.len() {
        return Err(ParseError::ExpectedWord);
    }
    let mut i: usize = 0;
    while i < w.len()
        invariant
            i <= w.len(),
            w.len() <= s.len(),
            w@ == word@,
            forall|j: int| 0 <= j < i ==> s@[j] == w@[j],
        decreases w.len() - i,
    {
        if s[i] != w[i] {
            assert(s@.subrange(0, w@.len() as int)[i as int] != w@[i as int]);
            return Err(ParseError::ExpectedWord);
        }
        i += 1;
    }
    assert(s@.subrange(0, w@.len() as int) =~= w@);
    Ok(whitespaces(slice_subrange(s, w.len(), s.len())))
}

/// Reads an identifier from the front of `s`.
pub fn ident<'a>(s: &'a [char]) -> (r: Result<(Ident, &'a [char]), ParseError>)
    ensures
        match r {
            Ok((id, rest)) => Ok((id@, rest@)),
            Err(e) => Err(e),
        } == ident_spec(s@),
{
    if s.len() == 0 {
        return Err(ParseError::IdentifierEnd);
    }
    if !alphabetic(s[0]) {
        return Err(ParseError::IdentifierStart);
    }
    let mut i: usize = 1;
    let mut scanning = true;
    while scanning && i < s.len()
        invariant
            1 <= i <= s.len(),
            ident_end(s@, 1) == ident_end(s@, i as int),
            !scanning ==> i < s.len() && !is_ident_part(s@[i as int]),
        decreases s.len() - i + if scanning { 1int } else { 0int },
    {
        if ident_part(s[i]) {
            i += 1;
        } else {
            scanning = false;
        }
    }
    if i >= s.len() {
        return Err(ParseError::IdentifierEnd);
    }
    let name = from_chars(slice_subrange(s, 0, i));
    Ok((name, whitespaces(slice_subrange(s, i, s.len()))))
}

} // verus!
