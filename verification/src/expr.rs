//! The syntax trees: expressions and types, with their mathematical views.

use crate::name_map::{
    binds, lemma_map_values, lemma_map_values_with, lookup, map_values, names, sorted, with,
    without, NameMap,
};
use vstd::prelude::*;

pub mod laws;
pub mod parse;
pub mod print;
pub mod roundtrip;
pub mod typecheck;

verus! {

/// A name as it is written.
pub type Ident = String;

/// The name of a variable, a command, a field or a context.
#[derive(Debug, Eq, Hash)]
pub struct ExprVar(pub Ident);

/// The name of a type variable.
#[derive(Debug, Eq, Hash)]
pub struct TypeVar(pub Ident);

/// An expression.
#[derive(Debug)]
pub enum Expr {
    Var(ExprVar),
    Int(i32),
    String(String),
    Path(Vec<String>),
    Bytes(Vec<u8>),
    App(Box<Expr>, ExprVar, Box<Expr>),
    Command(Command),
}

/// A command by its name. The parser attaches no arguments here: they come
/// as applications around the command.
#[derive(Debug)]
pub struct Command {
    pub name: ExprVar,
    pub args: NameMap<Expr>,
}

/// An expression as a mathematical value.
pub enum SpecExpr {
    Var(Seq<char>),
    Int(i32),
    String(Seq<char>),
    Path(Seq<Seq<char>>),
    Bytes(Seq<u8>),
    App(Box<SpecExpr>, Seq<char>, Box<SpecExpr>),
    Command(SpecCommand),
}

/// A command as a mathematical value, its arguments in increasing order
/// of name.
pub struct SpecCommand {
    pub name: Seq<char>,
    pub args: Seq<(Seq<char>, SpecExpr)>,
}

/// A type.
#[derive(Debug)]
pub enum Type {
    Var(TypeVar),
    Func { context: ExprVar, params: NameMap<Type>, ret: Box<Type> },
    Int,
    String,
    Path,
    Bytes,
    Context,
}

/// A type as a mathematical value: names are sequences of characters, and
/// the parameters of a function type are listed in increasing order of name.
pub enum SpecType {
    Var(Seq<char>),
    Func { context: Seq<char>, params: Seq<(Seq<char>, SpecType)>, ret: Box<SpecType> },
    Int,
    String,
    Path,
    Bytes,
    Context,
}

impl ExprVar {
    pub open spec fn view(&self) -> Seq<char> {
        self.0@
    }
}

impl TypeVar {
    pub open spec fn view(&self) -> Seq<char> {
        self.0@
    }
}

impl Clone for ExprVar {
    fn clone(&self) -> (r: Self)
        ensures
            r == *self,
    {
        ExprVar(self.0.clone())
    }
}

impl Clone for TypeVar {
    fn clone(&self) -> (r: Self)
        ensures
            r == *self,
    {
        TypeVar(self.0.clone())
    }
}

impl PartialEq for ExprVar {
    fn eq(&self, other: &Self) -> (r: bool) {
        self.0 == other.0
    }
}

impl vstd::std_specs::cmp::PartialEqSpecImpl for ExprVar {
    open spec fn obeys_eq_spec() -> bool {
        true
    }

    open spec fn eq_spec(&self, other: &Self) -> bool {
        self@ == other@
    }
}

impl PartialEq for TypeVar {
    fn eq(&self, other: &Self) -> (r: bool) {
        self.0 == other.0
    }
}

impl vstd::std_specs::cmp::PartialEqSpecImpl for TypeVar {
    open spec fn obeys_eq_spec() -> bool {
        true
    }

    open spec fn eq_spec(&self, other: &Self) -> bool {
        self@ == other@
    }
}

/// The function that takes a type to its view.
pub open spec fn type_view() -> spec_fn(Type) -> SpecType {
    |t: Type| t@
}

/// The views of the values of a map of types.
pub open spec fn params_view(m: Seq<(Seq<char>, Type)>) -> Seq<(Seq<char>, SpecType)> {
    map_values(m, type_view())
}

/// Looking up, binding and dropping names in a map of types, seen
/// through the view.
pub proof fn lemma_params_view(m: Seq<(Seq<char>, Type)>, k: Seq<char>)
    ensures
        params_view(m).len() == m.len(),
        names(params_view(m)) == names(m),
        binds(params_view(m), k) == binds(m, k),
        lookup(params_view(m), k) == match lookup(m, k) {
            Some(t) => Some(t@),
            None => None,
        },
        without(params_view(m), k) == params_view(without(m, k)),
        sorted(m) ==> sorted(params_view(m)),
{
    lemma_map_values(m, type_view(), k);
}

/// Binding a name in a map of types, seen through the view.
pub proof fn lemma_params_view_with(m: Seq<(Seq<char>, Type)>, k: Seq<char>, t: Type)
    ensures
        with(params_view(m), k, t@) == params_view(with(m, k, t)),
{
    lemma_map_values_with(m, type_view(), k, t);
}

impl Type {
    pub open spec fn view(&self) -> SpecType
        decreases self,
    {
        match self {
            Type::Var(n) => SpecType::Var(n@),
            Type::Func { context, params, ret } => SpecType::Func {
                context: context@,
                params: Seq::new(
                    params@.len(),
                    |i: int|
                        if 0 <= i < params@.len() {
                            proof {
                                params.lemma_value_smaller(i);
                            }
                            (params@[i].0, params@[i].1.view())
                        } else {
                            arbitrary()
                        },
                ),
                ret: Box::new(ret.view()),
            },
            Type::Int => SpecType::Int,
            Type::String => SpecType::String,
            Type::Path => SpecType::Path,
            Type::Bytes => SpecType::Bytes,
            Type::Context => SpecType::Context,
        }
    }

    /// The view of a function type, part by part.
    pub proof fn lemma_view_func(context: ExprVar, params: NameMap<Type>, ret: Box<Type>)
        ensures
            (Type::Func { context, params, ret })@ == (SpecType::Func {
                context: context@,
                params: params_view(params@),
                ret: Box::new(ret@),
            }),
    {
        let t = Type::Func { context, params, ret };
        assert(t@->params =~= params_view(params@));
    }

    /// Whether two types are the same type.
    pub fn same(&self, other: &Type) -> (r: bool)
        ensures
            r == (self@ == other@),
        decreases self,
    {
        match (self, other) {
            (Type::Var(a), Type::Var(b)) => a.0 == b.0,
            (
                Type::Func { context: c1, params: ps1, ret: r1 },
                Type::Func { context: c2, params: ps2, ret: r2 },
            ) => {
                proof {
                    Type::lemma_view_func(*c1, *ps1, *r1);
                    Type::lemma_view_func(*c2, *ps2, *r2);
                }
                if !(c1.0 == c2.0) || ps1.len() != ps2.len() {
                    assert(params_view(ps1@).len() == ps1@.len());
                    assert(params_view(ps2@).len() == ps2@.len());
                    return false;
                }
                let n = ps1.len();
                let mut i: usize = 0;
                while i < n
                    invariant
                        i <= n,
                        n == ps1@.len(),
                        n == ps2@.len(),
                        forall|j: int|
                            0 <= j < i ==> #[trigger] params_view(ps1@)[j] == params_view(ps2@)[j],
                        self == (Type::Func { context: *c1, params: *ps1, ret: *r1 }),
                        self@->params == params_view(ps1@),
                        other@->params == params_view(ps2@),
                    decreases n - i,
                {
                    let (k1, t1) = ps1.entry(i).unwrap();
                    let (k2, t2) = ps2.entry(i).unwrap();
                    proof {
                        ps1.lemma_value_smaller(i as int);
                    }
                    if !(*k1 == *k2) || !t1.same(t2) {
                        assert(params_view(ps1@)[i as int] != params_view(ps2@)[i as int]);
                        return false;
                    }
                    i += 1;
                }
                assert(params_view(ps1@) =~= params_view(ps2@));
                r1.same(r2)
            },
            (Type::Int, Type::Int) => true,
            (Type::String, Type::String) => true,
            (Type::Path, Type::Path) => true,
            (Type::Bytes, Type::Bytes) => true,
            (Type::Context, Type::Context) => true,
            _ => false,
        }
    }

    /// A copy of the type.
    pub fn copy(&self) -> (r: Type)
        ensures
            r@ == self@,
        decreases self,
    {
        match self {
            Type::Var(n) => Type::Var(n.clone()),
            Type::Func { context, params, ret } => {
                let mut copy: NameMap<Type> = NameMap::new();
                let n = params.len();
                let mut i: usize = 0;
                params.sorted_view();
                while i < n
                    invariant
                        i <= n,
                        n == params@.len(),
                        copy@.len() == i,
                        sorted(params@),
                        forall|j: int|
                            0 <= j < i ==> (#[trigger] copy@[j]).0 == params@[j].0 && copy@[j].1@
                                == params@[j].1@,
                        self == (Type::Func { context: *context, params: *params, ret: *ret }),
                    decreases n - i,
                {
                    let (k, t) = params.entry(i).unwrap();
                    proof {
                        params.lemma_value_smaller(i as int);
                        assert(self->params == *params);
                    }
                    let value = t.copy();
                    copy.push_last(k.clone(), value);
                    i += 1;
                }
                let r = Type::Func {
                    context: context.clone(),
                    params: copy,
                    ret: Box::new(ret.copy()),
                };
                proof {
                    Type::lemma_view_func(*context, *params, *ret);
                    assert(params_view(copy@) =~= params_view(params@));
                    assert(r@->params =~= params_view(copy@));
                }
                r
            },
            Type::Int => Type::Int,
            Type::String => Type::String,
            Type::Path => Type::Path,
            Type::Bytes => Type::Bytes,
            Type::Context => Type::Context,
        }
    }
}

impl Clone for Type {
    fn clone(&self) -> (r: Self)
        ensures
            r@ == self@,
    {
        self.copy()
    }
}

impl PartialEq for Type {
    fn eq(&self, other: &Self) -> (r: bool) {
        self.same(other)
    }
}

impl vstd::std_specs::cmp::PartialEqSpecImpl for Type {
    open spec fn obeys_eq_spec() -> bool {
        true
    }

    open spec fn eq_spec(&self, other: &Self) -> bool {
        self@ == other@
    }
}

impl Eq for Type {

}

/// `t` with `by` in place of each occurrence of the variable `name`.
pub open spec fn subst_spec(t: SpecType, name: Seq<char>, by: SpecType) -> SpecType
    decreases t,
{
    match t {
        SpecType::Var(n) => if n == name {
            by
        } else {
            t
        },
        SpecType::Func { context, params, ret } => SpecType::Func {
            context,
            params: Seq::new(
                params.len(),
                |i: int|
                    if 0 <= i < params.len() {
                        (params[i].0, subst_spec(params[i].1, name, by))
                    } else {
                        arbitrary()
                    },
            ),
            ret: Box::new(subst_spec(*ret, name, by)),
        },
        _ => t,
    }
}

impl Type {
    /// The type with `typ` in place of each occurrence of the variable `name`.
    pub fn subst(self, name: &TypeVar, typ: &Type) -> (r: Type)
        ensures
            r@ == subst_spec(self@, name@, typ@),
    {
        self.subst_in(name, typ)
    }

    fn subst_in(&self, name: &TypeVar, typ: &Type) -> (r: Type)
        ensures
            r@ == subst_spec(self@, name@, typ@),
        decreases self,
    {
        match self {
            Type::Var(n) => if n.0 == name.0 {
                typ.copy()
            } else {
                self.copy()
            },
            Type::Func { context, params, ret } => {
                let mut mapped: NameMap<Type> = NameMap::new();
                let n = params.len();
                let mut i: usize = 0;
                params.sorted_view();
                while i < n
                    invariant
                        i <= n,
                        n == params@.len(),
                        mapped@.len() == i,
                        sorted(params@),
                        forall|j: int|
                            0 <= j < i ==> (#[trigger] mapped@[j]).0 == params@[j].0
                                && mapped@[j].1@ == subst_spec(params@[j].1@, name@, typ@),
                        self == (Type::Func { context: *context, params: *params, ret: *ret }),
                    decreases n - i,
                {
                    let (k, t) = params.entry(i).unwrap();
                    proof {
                        params.lemma_value_smaller(i as int);
                        assert(self->params == *params);
                    }
                    let value = t.subst_in(name, typ);
                    mapped.push_last(k.clone(), value);
                    i += 1;
                }
                let r = Type::Func {
                    context: context.clone(),
                    params: mapped,
                    ret: Box::new(ret.subst_in(name, typ)),
                };
                proof {
                    Type::lemma_view_func(*context, *params, *ret);
                    Type::lemma_view_func(r->context, r->params, r->ret);
                    assert(r@->params =~= subst_spec(self@, name@, typ@)->params);
                }
                r
            },
            _ => self.copy(),
        }
    }
}

impl Expr {
    pub open spec fn view(&self) -> SpecExpr
        decreases self,
    {
        match self {
            Expr::Var(n) => SpecExpr::Var(n@),
            Expr::Int(n) => SpecExpr::Int(*n),
            Expr::String(s) => SpecExpr::String(s@),
            Expr::Path(dirs) => SpecExpr::Path(strings_view(dirs@)),
            Expr::Bytes(b) => SpecExpr::Bytes(b@),
            Expr::App(callee, field, arg) => SpecExpr::App(
                Box::new(callee.view()),
                field@,
                Box::new(arg.view()),
            ),
            Expr::Command(cmd) => SpecExpr::Command(
                SpecCommand {
                    name: cmd.name@,
                    args: Seq::new(
                        cmd.args@.len(),
                        |i: int|
                            if 0 <= i < cmd.args@.len() {
                                proof {
                                    cmd.args.lemma_value_smaller(i);
                                }
                                (cmd.args@[i].0, cmd.args@[i].1.view())
                            } else {
                                arbitrary()
                            },
                    ),
                },
            ),
        }
    }
}

impl Command {
    pub open spec fn view(&self) -> SpecCommand {
        (Expr::Command(*self))@->Command_0
    }
}

/// The views of the values of a map of expressions.
pub open spec fn args_view(m: Seq<(Seq<char>, Expr)>) -> Seq<(Seq<char>, SpecExpr)> {
    Seq::new(m.len(), |i: int| (m[i].0, m[i].1@))
}

/// The views of a list of strings.
pub open spec fn strings_view(v: Seq<String>) -> Seq<Seq<char>> {
    Seq::new(v.len(), |i: int| v[i]@)
}

fn copy_strings(v: &Vec<String>) -> (r: Vec<String>)
    ensures
        strings_view(r@) == strings_view(v@),
{
    let mut r: Vec<String> = Vec::new();
    let mut i: usize = 0;
    while i < v.len()
        invariant
            i <= v.len(),
            r@.len() == i,
            forall|j: int| 0 <= j < i ==> (#[trigger] r@[j])@ == v@[j]@,
        decreases v.len() - i,
    {
        r.push(v[i].clone());
        i += 1;
    }
    assert(strings_view(r@) =~= strings_view(v@));
    r
}

fn copy_bytes(v: &Vec<u8>) -> (r: Vec<u8>)
    ensures
        r@ == v@,
{
    let mut r: Vec<u8> = Vec::new();
    let mut i: usize = 0;
    while i < v.len()
        invariant
            i <= v.len(),
            r@ == v@.take(i as int),
        decreases v.len() - i,
    {
        r.push(v[i]);
        assert(v@.take(i + 1) == v@.take(i as int).push(v@[i as int]));
        i += 1;
    }
    assert(v@.take(v@.len() as int) == v@);
    r
}

impl Expr {
    /// The view of a command, part by part.
    pub proof fn lemma_view_command(cmd: Command)
        ensures
            (Expr::Command(cmd))@ == SpecExpr::Command(cmd@),
            cmd@.name == cmd.name@,
            cmd@.args == args_view(cmd.args@),
    {
        assert(cmd@.args =~= args_view(cmd.args@));
    }

    /// A copy of the expression.
    pub fn copy(&self) -> (r: Expr)
        ensures
            r@ == self@,
        decreases self,
    {
        match self {
            Expr::Var(n) => Expr::Var(n.clone()),
            Expr::Int(n) => Expr::Int(*n),
            Expr::String(s) => Expr::String(s.clone()),
            Expr::Path(dirs) => Expr::Path(copy_strings(dirs)),
            Expr::Bytes(b) => Expr::Bytes(copy_bytes(b)),
            Expr::App(callee, field, arg) => Expr::App(
                Box::new(callee.copy()),
                field.clone(),
                Box::new(arg.copy()),
            ),
            Expr::Command(cmd) => {
                let copied = cmd.copy();
                proof {
                    Expr::lemma_view_command(*cmd);
                    Expr::lemma_view_command(copied);
                }
                Expr::Command(copied)
            },
        }
    }
}

impl Command {
    /// A copy of the command.
    pub fn copy(&self) -> (r: Command)
        ensures
            r@ == self@,
        decreases self,
    {
        let mut args: NameMap<Expr> = NameMap::new();
        let n = self.args.len();
        let mut i: usize = 0;
        self.args.sorted_view();
        while i < n
            invariant
                i <= n,
                n == self.args@.len(),
                args@.len() == i,
                sorted(self.args@),
                forall|j: int|
                    0 <= j < i ==> (#[trigger] args@[j]).0 == self.args@[j].0 && args@[j].1@
                        == self.args@[j].1@,
            decreases n - i,
        {
            let (k, e) = self.args.entry(i).unwrap();
            proof {
                self.args.lemma_value_smaller(i as int);
            }
            let value = e.copy();
            args.push_last(k.clone(), value);
            i += 1;
        }
        let copied = Command { name: self.name.clone(), args };
        proof {
            Expr::lemma_view_command(*self);
            Expr::lemma_view_command(copied);
            assert(args_view(copied.args@) =~= args_view(self.args@));
        }
        copied
    }
}

/// Whether two lists of strings hold the same strings in the same order.
fn same_strings(a: &Vec<String>, b: &Vec<String>) -> (r: bool)
    ensures
        r == (strings_view(a@) == strings_view(b@)),
{
    if a.len() != b.len() {
        assert(strings_view(a@).len() != strings_view(b@).len());
        return false;
    }
    let mut i: usize = 0;
    while i < a.len()
        invariant
            i <= a.len(),
            a.len() == b.len(),
            forall|j: int| 0 <= j < i ==> (#[trigger] a@[j])@ == b@[j]@,
        decreases a.len() - i,
    {
        if !(a[i] == b[i]) {
            assert(strings_view(a@)[i as int] != strings_view(b@)[i as int]);
            return false;
        }
        i += 1;
    }
    assert(strings_view(a@) =~= strings_view(b@));
    true
}

/// Whether two lists of bytes hold the same bytes in the same order.
fn same_bytes(a: &Vec<u8>, b: &Vec<u8>) -> (r: bool)
    ensures
        r == (a@ == b@),
{
    if a.len() != b.len() {
        return false;
    }
    let mut i: usize = 0;
    while i < a.len()
        invariant
            i <= a.len(),
            a.len() == b.len(),
            forall|j: int| 0 <= j < i ==> a@[j] == b@[j],
        decreases a.len() - i,
    {
        if a[i] != b[i] {
            return false;
        }
        i += 1;
    }
    assert(a@ =~= b@);
    true
}

impl Expr {
    /// Whether two expressions are the same expression.
    pub fn same(&self, other: &Expr) -> (r: bool)
        ensures
            r == (self@ == other@),
        decreases self,
    {
        match (self, other) {
            (Expr::Var(a), Expr::Var(b)) => a.0 == b.0,
            (Expr::Int(a), Expr::Int(b)) => *a == *b,
            (Expr::String(a), Expr::String(b)) => *a == *b,
            (Expr::Path(a), Expr::Path(b)) => same_strings(a, b),
            (Expr::Bytes(a), Expr::Bytes(b)) => same_bytes(a, b),
            (Expr::App(c1, f1, a1), Expr::App(c2, f2, a2)) => {
                c1.same(c2) && f1.0 == f2.0 && a1.same(a2)
            },
            (Expr::Command(c1), Expr::Command(c2)) => {
                proof {
                    Expr::lemma_view_command(*c1);
                    Expr::lemma_view_command(*c2);
                }
                c1.same(c2)
            },
            _ => false,
        }
    }
}

impl Command {
    /// Whether two commands are the same command.
    pub fn same(&self, other: &Command) -> (r: bool)
        ensures
            r == (self@ == other@),
        decreases self,
    {
        proof {
            Expr::lemma_view_command(*self);
            Expr::lemma_view_command(*other);
        }
        if !(self.name.0 == other.name.0) || self.args.len() != other.args.len() {
            assert(args_view(self.args@).len() == self.args@.len());
            assert(args_view(other.args@).len() == other.args@.len());
            return false;
        }
        let n = self.args.len();
        let mut i: usize = 0;
        while i < n
            invariant
                i <= n,
                n == self.args@.len(),
                n == other.args@.len(),
                self@.args == args_view(self.args@),
                other@.args == args_view(other.args@),
                forall|j: int|
                    0 <= j < i ==> #[trigger] args_view(self.args@)[j] == args_view(
                        other.args@,
                    )[j],
            decreases n - i,
        {
            let (k1, e1) = self.args.entry(i).unwrap();
            let (k2, e2) = other.args.entry(i).unwrap();
            proof {
                self.args.lemma_value_smaller(i as int);
            }
            if !(*k1 == *k2) || !e1.same(e2) {
                assert(args_view(self.args@)[i as int] != args_view(other.args@)[i as int]);
                return false;
            }
            i += 1;
        }
        assert(args_view(self.args@) =~= args_view(other.args@));
        true
    }
}

impl PartialEq for Expr {
    fn eq(&self, other: &Self) -> (r: bool) {
        self.same(other)
    }
}

impl vstd::std_specs::cmp::PartialEqSpecImpl for Expr {
    open spec fn obeys_eq_spec() -> bool {
        true
    }

    open spec fn eq_spec(&self, other: &Self) -> bool {
        self@ == other@
    }
}

impl PartialEq for Command {
    fn eq(&self, other: &Self) -> (r: bool) {
        self.same(other)
    }
}

impl vstd::std_specs::cmp::PartialEqSpecImpl for Command {
    open spec fn obeys_eq_spec() -> bool {
        true
    }

    open spec fn eq_spec(&self, other: &Self) -> bool {
        self@ == other@
    }
}

impl Clone for Expr {
    fn clone(&self) -> (r: Self)
        ensures
            r@ == self@,
    {
        self.copy()
    }
}

impl Clone for Command {
    fn clone(&self) -> (r: Self)
        ensures
            r@ == self@,
    {
        self.copy()
    }
}

impl From<Command> for Expr {
    fn from(cmd: Command) -> (r: Expr) {
        Expr::Command(cmd)
    }
}

impl vstd::std_specs::convert::FromSpecImpl<Command> for Expr {
    open spec fn obeys_from_spec() -> bool {
        true
    }

    open spec fn from_spec(cmd: Command) -> Expr {
        Expr::Command(cmd)
    }
}

} // verus!
