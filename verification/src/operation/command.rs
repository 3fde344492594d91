//! A command with its arguments, both as they are written.

use crate::definitions::{definitions_spec, pairs_view, split_definitions, DefinitionError};
use crate::expr::print::{join, joined};
use crate::expr::strings_view;
use crate::name_map::{lemma_map_values, lemma_map_values_with, map_values, with, NameMap};
use crate::operation::TypedOperation;
use vstd::prelude::*;
use vstd::string::StringExecFns;

verus! {

/// A command and the texts of its arguments, by name.
#[derive(Debug)]
pub struct CommandOperation {
    pub command_name: String,
    pub args: NameMap<String>,
}

/// A command operation as a mathematical value.
pub struct SpecCommandOperation {
    pub name: Seq<char>,
    pub args: Seq<(Seq<char>, Seq<char>)>,
}

/// The function that takes a string to its characters.
pub open spec fn string_view() -> spec_fn(String) -> Seq<char> {
    |s: String| s@
}

/// The views of the values of a map of strings.
pub open spec fn texts_view(m: Seq<(Seq<char>, String)>) -> Seq<(Seq<char>, Seq<char>)> {
    map_values(m, string_view())
}

/// The written forms of the arguments.
pub open spec fn arguments_text(args: Seq<(Seq<char>, Seq<char>)>) -> Seq<Seq<char>> {
    Seq::new(args.len(), |i: int| "--"@ + args[i].0 + ":"@ + args[i].1)
}

/// The written form of a command operation: its name, a blank, and its
/// arguments with blanks between them.
pub open spec fn operation_text(op: SpecCommandOperation) -> Seq<char> {
    op.name + " "@ + joined(arguments_text(op.args), " "@)
}

/// The declared types, as they are written, that the declarations from
/// the `i`-th on make after those in `acc`.
pub open spec fn type_texts_from(
    defs: Seq<(Seq<char>, Seq<char>)>,
    i: int,
    acc: Seq<(Seq<char>, Seq<char>)>,
) -> Seq<(Seq<char>, Seq<char>)>
    decreases defs.len() - i,
{
    if i < 0 || i >= defs.len() {
        acc
    } else {
        type_texts_from(defs, i + 1, with(acc, defs[i].0, defs[i].1))
    }
}

impl CommandOperation {
    pub open spec fn view(&self) -> SpecCommandOperation {
        SpecCommandOperation { name: self.command_name@, args: texts_view(self.args@) }
    }

    /// The operation as it is written.
    pub fn to_string(&self) -> (r: String)
        ensures
            r@ == operation_text(self@),
    {
        let mut parts: Vec<String> = Vec::new();
        let n = self.args.len();
        let mut i: usize = 0;
        while i < n
            invariant
                i <= n,
                n == self.args@.len(),
                parts@.len() == i,
                forall|j: int|
                    0 <= j < i ==> (#[trigger] parts@[j])@ == arguments_text(
                        texts_view(self.args@),
                    )[j],
            decreases n - i,
        {
            let (k, v) = self.args.entry(i).unwrap();
            let mut part = "--".to_owned();
            part.append(k.as_str());
            part.append(":");
            part.append(v.as_str());
            parts.push(part);
            i += 1;
        }
        assert(strings_view(parts@) =~= arguments_text(self@.args));
        let mut out = self.command_name.clone();
        out.append(" ");
        out.append(join(&parts, " ").as_str());
        out
    }
}

impl TypedOperation for CommandOperation {
    open spec fn declared_name(&self) -> Seq<char> {
        self.command_name@
    }

    fn typ<'a>(&self, definitions: &'a NameMap<String>) -> (r: Option<&'a String>) {
        proof {
            lemma_map_values(definitions@, string_view(), self.command_name@);
        }
        definitions.get(self.command_name.as_str())
    }
}

/// Reads the declared types of the commands, as they are written, from
/// the text that declares them.
#[verifier::loop_isolation(false)]
pub fn type_definitions(text: &str) -> (r: Result<NameMap<String>, DefinitionError>)
    ensures
        match r {
            Ok(m) => Ok(texts_view(m@)),
            Err(e) => Err(e),
        } == match definitions_spec(text@) {
            Ok(defs) => Ok::<_, DefinitionError>(type_texts_from(defs, 0, Seq::empty())),
            Err(e) => Err(e),
        },
{
    let defs = match split_definitions(text) {
        Err(e) => {
            return Err(e);
        },
        Ok(defs) => defs,
    };
    let mut types: NameMap<String> = NameMap::new();
    let mut i: usize = 0;
    assert(texts_view(types@) =~= Seq::<(Seq<char>, Seq<char>)>::empty());
    while i < defs.len()
        invariant
            i <= defs.len(),
            type_texts_from(pairs_view(defs@), 0, Seq::empty()) == type_texts_from(
                pairs_view(defs@),
                i as int,
                texts_view(types@),
            ),
        decreases defs.len() - i,
    {
        let typ = defs[i].1.clone();
        proof {
            lemma_map_values_with(types@, string_view(), defs@[i as int].0@, typ);
        }
        types.insert(defs[i].0.clone(), typ);
        i += 1;
    }
    Ok(types)
}

} // verus!
