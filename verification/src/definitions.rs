//! The text that declares the commands: one declaration `name:type` on
//! each line.

use crate::expr::parse::ParseError;
use crate::expr::strings_view;
use crate::text::{from_chars, to_chars};
use vstd::prelude::*;
use vstd::slice::slice_subrange;

verus! {

/// Why a text declares no commands.
#[derive(Debug, Clone, Copy, PartialEq, Eq, Structural)]
pub enum DefinitionError {
    /// The line of this number, counted from 0, has no `:`.
    MissingColon(usize),
    /// The type on the line of this number, counted from 0, is no type.
    InvalidType(usize, ParseError),
}

/// The first position from `i` on that holds a line feed.
pub open spec fn line_end(s: Seq<char>, i: int) -> int
    decreases s.len() - i,
{
    if 0 <= i < s.len() && s[i] != '\n' {
        line_end(s, i + 1)
    } else {
        i
    }
}

/// The line that starts at position `i`: the text up to the line feed,
/// without a carriage return just before it.
pub open spec fn line_at(s: Seq<char>, i: int) -> Seq<char> {
    if i < line_end(s, i) < s.len() && s[line_end(s, i) - 1] == '\r' {
        s.subrange(i, line_end(s, i) - 1)
    } else {
        s.subrange(i, line_end(s, i))
    }
}

/// The lines of `s` from position `i` on. A line feed at the very end
/// starts no further line.
pub open spec fn lines_from(s: Seq<char>, i: int) -> Seq<Seq<char>>
    decreases s.len() - i,
{
    if i < 0 || i >= s.len() {
        Seq::empty()
    } else {
        proof {
            lemma_line_end(s, i);
        }
        if line_end(s, i) < s.len() {
            seq![line_at(s, i)] + lines_from(s, line_end(s, i) + 1)
        } else {
            seq![line_at(s, i)]
        }
    }
}

/// The first position from `i` on that holds a colon.
pub open spec fn colon_at(s: Seq<char>, i: int) -> int
    decreases s.len() - i,
{
    if 0 <= i < s.len() && s[i] != ':' {
        colon_at(s, i + 1)
    } else {
        i
    }
}

/// The name and the type text of a declaration: what stands before and
/// behind the first colon of the line.
pub open spec fn definition_spec(line: Seq<char>) -> Option<(Seq<char>, Seq<char>)> {
    if colon_at(line, 0) < line.len() {
        Some(
            (
                line.subrange(0, colon_at(line, 0)),
                line.subrange(colon_at(line, 0) + 1, line.len() as int),
            ),
        )
    } else {
        None
    }
}

/// The declarations on the lines from the `i`-th on, after those in `done`.
pub open spec fn definitions_from(
    lines: Seq<Seq<char>>,
    i: int,
    done: Seq<(Seq<char>, Seq<char>)>,
) -> Result<Seq<(Seq<char>, Seq<char>)>, DefinitionError>
    decreases lines.len() - i,
{
    if i < 0 || i >= lines.len() {
        Ok(done)
    } else {
        match definition_spec(lines[i]) {
            None => Err(DefinitionError::MissingColon(i as usize)),
            Some(d) => definitions_from(lines, i + 1, done.push(d)),
        }
    }
}

/// The declarations of a text, line by line.
pub open spec fn definitions_spec(text: Seq<char>) -> Result<
    Seq<(Seq<char>, Seq<char>)>,
    DefinitionError,
> {
    definitions_from(lines_from(text, 0), 0, Seq::empty())
}

/// The views of a list of pairs of strings.
pub open spec fn pairs_view(v: Seq<(String, String)>) -> Seq<(Seq<char>, Seq<char>)> {
    Seq::new(v.len(), |i: int| (v[i].0@, v[i].1@))
}

/// Where the line from `i` on ends.
pub proof fn lemma_line_end(s: Seq<char>, i: int)
    requires
        0 <= i <= s.len(),
    ensures
        i <= line_end(s, i) <= s.len(),
    decreases s.len() - i,
{
    if i < s.len() && s[i] != '\n' {
        lemma_line_end(s, i + 1);
    }
}

/// The lines of `text`.
#[verifier::loop_isolation(false)]
pub fn split_lines(text: &str) -> (r: Vec<String>)
    ensures
        strings_view(r@) == lines_from(text@, 0),
{
    let chars = to_chars(text);
    let s = chars.as_slice();
    let mut lines: Vec<String> = Vec::new();
    let mut start: usize = 0;
    assert(strings_view(lines@) =~= Seq::<Seq<char>>::empty());
    while start < s.len()
        invariant
            start <= s.len(),
            lines_from(s@, 0) == strings_view(lines@) + lines_from(s@, start as int),
        decreases s.len() - start,
    {
        let mut end = start;
        while end < s.len() && s[end] != '\n'
            invariant
                start <= end <= s.len(),
                line_end(s@, start as int) == line_end(s@, end as int),
            decreases s.len() - end,
        {
            end += 1;
        }
        let stop = if start < end && end < s.len() && s[end - 1] == '\r' {
            end - 1
        } else {
            end
        };
        let line = from_chars(slice_subrange(s, start, stop));
        let ghost before = strings_view(lines@);
        lines.push(line);
        proof {
            assert(strings_view(lines@) =~= before.push(line_at(s@, start as int)));
            assert(before + (seq![line_at(s@, start as int)] + lines_from(s@, end + 1))
                =~= strings_view(lines@) + lines_from(s@, end + 1));
            assert(before + seq![line_at(s@, start as int)] =~= strings_view(lines@));
        }
        if end < s.len() {
            start = end + 1;
        } else {
            start = end;
        }
    }
    assert(strings_view(lines@) + lines_from(s@, start as int) =~= strings_view(lines@));
    lines
}

/// The name and the type text of the declaration on `line`.
pub fn split_definition(line: &str) -> (r: Option<(String, String)>)
    ensures
        match r {
            Some((name, typ)) => Some((name@, typ@)),
            None => None,
        } == definition_spec(line@),
{
    let chars = to_chars(line);
    let s = chars.as_slice();
    let mut colon: usize = 0;
    while colon < s.len() && s[colon] != ':'
        invariant
            colon <= s.len(),
            colon_at(s@, 0) == colon_at(s@, colon as int),
        decreases s.len() - colon,
    {
        colon += 1;
    }
    if colon < s.len() {
        Some(
            (
                from_chars(slice_subrange(s, 0, colon)),
                from_chars(slice_subrange(s, colon + 1, s.len())),
            ),
        )
    } else {
        None
    }
}

/// The declarations of `text`, line by line.
#[verifier::loop_isolation(false)]
pub fn split_definitions(text: &str) -> (r: Result<Vec<(String, String)>, DefinitionError>)
    ensures
        match r {
            Ok(v) => Ok(pairs_view(v@)),
            Err(e) => Err(e),
        } == definitions_spec(text@),
{
    let lines = split_lines(text);
    let mut done: Vec<(String, String)> = Vec::new();
    let mut i: usize = 0;
    assert(pairs_view(done@) =~= Seq::<(Seq<char>, Seq<char>)>::empty());
    while i < lines.len()
        invariant
            i <= lines.len(),
            definitions_spec(text@) == definitions_from(
                strings_view(lines@),
                i as int,
                pairs_view(done@),
            ),
        decreases lines.len() - i,
    {
        match split_definition(lines[i].as_str()) {
            None => {
                return Err(DefinitionError::MissingColon(i));
            },
            Some(d) => {
                let ghost before = pairs_view(done@);
                done.push(d);
                assert(pairs_view(done@) =~= before.push((d.0@, d.1@)));
            },
        }
        i += 1;
    }
    Ok(done)
}

} // verus!
