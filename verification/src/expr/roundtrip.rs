//! Printing a literal and reading it back.

use crate::expr::parse::expr::{
    decimal_value, digits_end, entry_end, entry_name_spec, expr_spec, factor_spec, int_spec,
    lemma_digits_end, lemma_entry_end, number_spec, path_from, path_spec, starts_number,
    string_from, string_spec, MAGNITUDE_LIMIT,
};
use crate::expr::parse::{
    lemma_skip_spaces, parse_expr_spec, starts_argument, suffix, ParseError,
};
use crate::expr::print::{
    decimal_digits, digit_char, escaped, escaped_from, expr_text, int_text, joined_from,
};
use crate::expr::SpecExpr;
use crate::text::{digit_value, is_digit, is_space};
use vstd::prelude::*;

verus! {

/// The literals that can be written: every integer, every string, and a
/// path that starts with `..`, `.` or an empty segment before further
/// ones, whose further segments hold neither whitespace nor `/`.
pub open spec fn plain_literal(e: SpecExpr) -> bool {
    match e {
        SpecExpr::Int(_) => true,
        SpecExpr::String(_) => true,
        SpecExpr::Path(dirs) => {
            &&& dirs.len() > 0
            &&& dirs[0] == seq!['.', '.'] || dirs[0] == seq!['.'] || (dirs[0] == Seq::<
                char,
            >::empty() && dirs.len() > 1)
            &&& forall|i: int, j: int|
                1 <= i < dirs.len() && 0 <= j < dirs[i].len() ==> !is_space(#[trigger] dirs[i][j])
                    && dirs[i][j] != '/'
        },
        _ => false,
    }
}

/// The decimal digits of a number are digits, and stand for the number.
pub proof fn lemma_decimal_digits(n: nat)
    ensures
        decimal_digits(n).len() > 0,
        forall|i: int|
            0 <= i < decimal_digits(n).len() ==> is_digit(#[trigger] decimal_digits(n)[i]),
        decimal_value(decimal_digits(n)) == n,
    decreases n,
{
    let ds = decimal_digits(n);
    if n < 10 {
        assert(ds.drop_last() =~= Seq::<char>::empty());
        assert(decimal_value(ds.drop_last()) == 0);
        assert(digit_value(digit_char(n)) == n);
    } else {
        lemma_decimal_digits(n / 10);
        assert(ds.drop_last() =~= decimal_digits(n / 10));
        assert(digit_value(digit_char(n % 10)) == n % 10);
    }
}

/// A text made of digits alone is read as the number it stands for.
proof fn lemma_number_of_digits(ds: Seq<char>)
    requires
        ds.len() > 0,
        forall|i: int| 0 <= i < ds.len() ==> is_digit(#[trigger] ds[i]),
        decimal_value(ds) <= MAGNITUDE_LIMIT,
    ensures
        number_spec(ds) == Ok::<(nat, Seq<char>), ParseError>(
            (decimal_value(ds), Seq::<char>::empty()),
        ),
{
    lemma_digits_end(ds, 0);
    assert(digits_end(ds, 0) == ds.len());
    assert(ds.subrange(0, ds.len() as int) =~= ds);
    assert(suffix(ds, ds.len() as int) =~= Seq::<char>::empty());
    lemma_skip_spaces(Seq::<char>::empty());
}

/// The printed form of an integer is read back as the integer.
proof fn lemma_int_roundtrip(n: i32)
    ensures
        expr_spec(int_text(n as int)) == Ok::<(SpecExpr, Seq<char>), ParseError>(
            (SpecExpr::Int(n), Seq::<char>::empty()),
        ),
        int_text(n as int).len() > 0,
        !is_space(int_text(n as int)[0]),
{
    let text = int_text(n as int);
    if n < 0 {
        let m = (-n) as nat;
        let ds = decimal_digits(m);
        lemma_decimal_digits(m);
        assert(suffix(text, 1) =~= ds);
        assert(text[1] == ds[0]);
        lemma_number_of_digits(ds);
        assert(starts_number(text));
        assert(int_spec(text) == Ok::<(SpecExpr, Seq<char>), ParseError>(
            (SpecExpr::Int(n), Seq::<char>::empty()),
        ));
    } else {
        let ds = decimal_digits(n as nat);
        lemma_decimal_digits(n as nat);
        assert(is_digit(ds[0]));
        lemma_number_of_digits(ds);
        assert(starts_number(text));
    }
    assert(!starts_argument(Seq::<char>::empty()));
}

/// The characters of a string from the `i`-th on, as they are written
/// from position `j` of `body` on with the closing quote behind them, are
/// read back as they were.
proof fn lemma_string_body(body: Seq<char>, j: int, s: Seq<char>, i: int)
    requires
        0 <= i <= s.len(),
        0 <= j <= body.len(),
        suffix(body, j) == escaped_from(s, i) + seq!['"'],
    ensures
        string_from(body, j, false, s.subrange(0, i)) == Ok::<(SpecExpr, Seq<char>), ParseError>(
            (SpecExpr::String(s), Seq::<char>::empty()),
        ),
    decreases s.len() - i,
{
    let rest = escaped_from(s, i) + seq!['"'];
    assert(suffix(body, j).len() == rest.len());
    if i < s.len() {
        let next = escaped_from(s, i + 1) + seq!['"'];
        assert(s.subrange(0, i).push(s[i]) =~= s.subrange(0, i + 1));
        if s[i] == '"' || s[i] == '\\' {
            assert(rest =~= seq!['\\', s[i]] + next);
            assert(body[j] == suffix(body, j)[0]);
            assert(body[j + 1] == suffix(body, j)[1]);
            assert(suffix(body, j + 2) =~= suffix(body, j).subrange(2, rest.len() as int));
            assert(rest.subrange(2, rest.len() as int) =~= next);
            lemma_string_body(body, j + 2, s, i + 1);
            let text = s.subrange(0, i);
            assert(body.len() - j == rest.len());
            assert(string_from(body, j, false, text) == string_from(body, j + 1, true, text));
            assert(string_from(body, j + 1, true, text) == string_from(
                body,
                j + 2,
                false,
                text.push(body[j + 1]),
            ));
        } else {
            assert(rest =~= seq![s[i]] + next);
            assert(body[j] == suffix(body, j)[0]);
            assert(suffix(body, j + 1) =~= suffix(body, j).subrange(1, rest.len() as int));
            assert(rest.subrange(1, rest.len() as int) =~= next);
            lemma_string_body(body, j + 1, s, i + 1);
            assert(body.len() - j == rest.len());
        }
    } else {
        assert(rest =~= seq!['"']);
        assert(body.len() - j == rest.len());
        assert(body[j] == suffix(body, j)[0]);
        assert(s.subrange(0, i) =~= s);
        assert(suffix(body, j + 1) =~= Seq::<char>::empty());
        lemma_skip_spaces(Seq::<char>::empty());
    }
}

/// The segments of a path from the `i`-th on are read back from their
/// printed form.
proof fn lemma_path_segments(dirs: Seq<Seq<char>>, i: int)
    requires
        1 <= i <= dirs.len(),
        forall|k: int, j: int|
            1 <= k < dirs.len() && 0 <= j < dirs[k].len() ==> !is_space(#[trigger] dirs[k][j])
                && dirs[k][j] != '/',
    ensures
        path_from(dirs.take(i), joined_from(dirs, "/"@, i)) == (
            SpecExpr::Path(dirs),
            Seq::<char>::empty(),
        ),
        i < dirs.len() ==> joined_from(dirs, "/"@, i).len() > 0 && joined_from(dirs, "/"@, i)[0]
            == '/',
    decreases dirs.len() - i,
{
    reveal_strlit("/");
    let text = joined_from(dirs, "/"@, i);
    if i < dirs.len() {
        let next = joined_from(dirs, "/"@, i + 1);
        lemma_path_segments(dirs, i + 1);
        assert(text =~= seq!['/'] + dirs[i] + next);
        let after = suffix(text, 1);
        assert(after =~= dirs[i] + next);
        lemma_entry_end(after, 0);
        let e = entry_end(after, 0);
        if e < dirs[i].len() {
            assert(after[e] == dirs[i][e]);
        }
        if e > dirs[i].len() {
            assert(after[dirs[i].len() as int] == next[0]);
        }
        assert(e == dirs[i].len());
        assert(entry_name_spec(after).0 =~= dirs[i]);
        assert(entry_name_spec(after).1 =~= next);
        assert(dirs.take(i).push(dirs[i]) =~= dirs.take(i + 1));
    } else {
        assert(dirs.take(i) =~= dirs);
        lemma_skip_spaces(Seq::<char>::empty());
    }
}

/// A literal that can be written is read back from its printed form.
pub proof fn lemma_print_then_parse(e: SpecExpr)
    requires
        plain_literal(e),
    ensures
        parse_expr_spec(expr_text(e)) == Ok::<SpecExpr, ParseError>(e),
{
    let text = expr_text(e);
    assert(!starts_argument(Seq::<char>::empty()));
    match e {
        SpecExpr::Int(n) => {
            lemma_int_roundtrip(n);
            lemma_skip_spaces(text);
        },
        SpecExpr::String(s) => {
            assert(text[0] == '"');
            lemma_skip_spaces(text);
            let body = suffix(text, 1);
            assert(body =~= escaped(s) + seq!['"']);
            assert(suffix(body, 0) =~= body);
            assert(s.subrange(0, 0) =~= Seq::<char>::empty());
            lemma_string_body(body, 0, s, 0);
            assert(!starts_number(text));
            assert(factor_spec(text) == string_spec(text));
        },
        SpecExpr::Path(dirs) => {
            reveal_strlit("/");
            let rest = joined_from(dirs, "/"@, 1);
            lemma_path_segments(dirs, 1);
            assert(dirs.take(1) =~= seq![dirs[0]]);
            assert(text == dirs[0] + rest);
            if dirs[0] == seq!['.', '.'] {
                assert(text[0] == '.' && text[1] == '.');
                assert(suffix(text, 2) =~= rest);
            } else if dirs[0] == seq!['.'] {
                assert(text[0] == '.');
                if text.len() >= 2 {
                    assert(text[1] == rest[0]);
                }
                assert(suffix(text, 1) =~= rest);
            } else {
                assert(text =~= rest);
            }
            lemma_skip_spaces(text);
            assert(!starts_number(text));
            assert(factor_spec(text) == path_spec(text));
        },
        _ => {},
    }
}

} // verus!
