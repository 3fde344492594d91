//! Type inference: substitutions, unification, and the walk over an
//! expression that assigns it a type.

use crate::definitions::{
    definition_spec, lines_from, split_definition, split_lines, DefinitionError,
};
use crate::expr::parse::parse_type_spec;
use crate::expr::{
    lemma_params_view, lemma_params_view_with, params_view, strings_view, Command, Expr, ExprVar,
    SpecExpr, SpecType, Type, TypeVar,
};
use crate::name_map::{lookup, names, sorted, with, without, NameMap};
use vstd::prelude::*;

verus! {

/// How deep composition may nest, one merge of two bindings of a variable
/// calling for the next, before it gives up.
pub const NESTING_LIMIT: usize = 128;

/// Why an expression has no type.
#[derive(Debug)]
pub enum TypingError {
    /// The variable is not bound in the environment.
    UnboundVariable(ExprVar),
    /// An argument is applied to an expression of this type, which is not a
    /// function type.
    NotApplicable(Type),
    /// The function type has no parameter of this name.
    NoSuchParameter(ExprVar),
    /// The two types have no common instance.
    Mismatch(Type, Type),
    /// The type variable occurs in the type it would be bound to.
    Cyclic(TypeVar, Type),
    /// No command of this name is registered.
    UndefinedCommand(ExprVar),
    /// Merging the bindings of one variable called for merging those of
    /// another, and so on beyond the limit.
    TooDeep,
}

/// A typing error as a mathematical value.
pub enum SpecTypingError {
    UnboundVariable(Seq<char>),
    NotApplicable(SpecType),
    NoSuchParameter(Seq<char>),
    Mismatch(SpecType, SpecType),
    Cyclic(Seq<char>, SpecType),
    UndefinedCommand(Seq<char>),
    TooDeep,
}

impl TypingError {
    pub open spec fn view(&self) -> SpecTypingError {
        match self {
            TypingError::UnboundVariable(n) => SpecTypingError::UnboundVariable(n@),
            TypingError::NotApplicable(t) => SpecTypingError::NotApplicable(t@),
            TypingError::NoSuchParameter(n) => SpecTypingError::NoSuchParameter(n@),
            TypingError::Mismatch(a, b) => SpecTypingError::Mismatch(a@, b@),
            TypingError::Cyclic(n, t) => SpecTypingError::Cyclic(n@, t@),
            TypingError::UndefinedCommand(n) => SpecTypingError::UndefinedCommand(n@),
            TypingError::TooDeep => SpecTypingError::TooDeep,
        }
    }
}

/// The types of the variables, by name.
pub type Env = NameMap<Type>;

/// A substitution as a mathematical value: its bindings of type variables,
/// in increasing order of name.
pub type SpecSubst = Seq<(Seq<char>, SpecType)>;

/// A finite map from type variables to types.
#[derive(Debug)]
pub struct Subst(pub NameMap<Type>);

/// `t` with every variable that `s` binds replaced by what `s` binds it to,
/// in one pass: what is put in is not looked through again.
pub open spec fn apply_spec(s: SpecSubst, t: SpecType) -> SpecType
    decreases t, 0nat,
{
    match t {
        SpecType::Var(n) => match lookup(s, n) {
            Some(b) => b,
            None => t,
        },
        SpecType::Func { context, params, ret } => SpecType::Func {
            context,
            params: apply_params(s, params),
            ret: Box::new(apply_spec(s, *ret)),
        },
        _ => t,
    }
}

/// The parameters `ps` with `s` applied to each of their types.
pub open spec fn apply_params(s: SpecSubst, ps: Seq<(Seq<char>, SpecType)>) -> Seq<
    (Seq<char>, SpecType),
>
    decreases ps, 1nat,
{
    Seq::new(
        ps.len(),
        |i: int|
            if 0 <= i < ps.len() {
                (ps[i].0, apply_spec(s, ps[i].1))
            } else {
                arbitrary()
            },
    )
}

/// Applying a substitution to a function type keeps its context and the
/// names of its parameters, and applies to each parameter type and to the
/// return type.
pub proof fn lemma_apply_func(
    s: SpecSubst,
    context: Seq<char>,
    params: Seq<(Seq<char>, SpecType)>,
    ret: SpecType,
)
    ensures
        apply_spec(s, SpecType::Func { context, params, ret: Box::new(ret) }) == (SpecType::Func {
            context,
            params: apply_params(s, params),
            ret: Box::new(apply_spec(s, ret)),
        }),
        apply_params(s, params).len() == params.len(),
        forall|i: int|
            0 <= i < params.len() ==> #[trigger] apply_params(s, params)[i] == (
                params[i].0,
                apply_spec(s, params[i].1),
            ),
{
}

/// The type variable `name` occurs in `t`.
pub open spec fn occurs(t: SpecType, name: Seq<char>) -> bool
    decreases t,
{
    match t {
        SpecType::Var(n) => n == name,
        SpecType::Func { context, params, ret } => {
            ||| occurs_in_params(params, name, params.len() as int)
            ||| occurs(*ret, name)
        },
        _ => false,
    }
}

/// The type variable `name` occurs in one of the first `n` parameter types.
pub open spec fn occurs_in_params(ps: Seq<(Seq<char>, SpecType)>, name: Seq<char>, n: int) -> bool
    decreases ps, n,
{
    if 0 < n <= ps.len() {
        occurs(ps[n - 1].1, name) || occurs_in_params(ps, name, n - 1)
    } else {
        false
    }
}

impl Subst {
    pub open spec fn view(&self) -> SpecSubst {
        params_view(self.0@)
    }

    /// The substitution that binds nothing.
    pub fn new() -> (r: Self)
        ensures
            r@ == Seq::<(Seq<char>, SpecType)>::empty(),
    {
        let r = Subst(NameMap::new());
        assert(r@ =~= Seq::<(Seq<char>, SpecType)>::empty());
        r
    }

    /// Applies the substitution to `typ`.
    pub fn apply(&self, typ: Type) -> (r: Type)
        ensures
            r@ == apply_spec(self@, typ@),
    {
        self.apply_to(&typ)
    }

    /// Applies the substitution to `typ`, which stays as it is.
    pub fn apply_to(&self, typ: &Type) -> (r: Type)
        ensures
            r@ == apply_spec(self@, typ@),
        decreases typ,
    {
        match typ {
            Type::Var(n) => {
                proof {
                    lemma_params_view(self.0@, n@);
                }
                match self.0.get(n.0.as_str()) {
                    Some(b) => b.copy(),
                    None => typ.copy(),
                }
            },
            Type::Func { context, params, ret } => {
                let mapped = self.apply_to_params(params);
                let r = Type::Func {
                    context: context.clone(),
                    params: mapped,
                    ret: Box::new(self.apply_to(ret)),
                };
                proof {
                    Type::lemma_view_func(*context, *params, *ret);
                    Type::lemma_view_func(r->context, r->params, r->ret);
                    assert(r@->params =~= apply_spec(self@, typ@)->params);
                }
                r
            },
            _ => typ.copy(),
        }
    }

    /// Applies the substitution to each type of `params`.
    pub fn apply_to_params(&self, params: &NameMap<Type>) -> (r: NameMap<Type>)
        ensures
            params_view(r@) == apply_params(self@, params_view(params@)),
        decreases params,
    {
        let mut mapped: NameMap<Type> = NameMap::new();
        let n = params.len();
        let mut i: usize = 0;
        params.sorted_view();
        while i < n
            invariant
                i <= n,
                n == params@.len(),
                mapped@.len() == i,
                sorted(params@),
                forall|j: int|
                    0 <= j < i ==> (#[trigger] mapped@[j]).0 == params@[j].0 && mapped@[j].1@
                        == apply_spec(self@, params@[j].1@),
            decreases n - i,
        {
            let (k, t) = params.entry(i).unwrap();
            proof {
                params.lemma_value_smaller(i as int);
            }
            let value = self.apply_to(t);
            mapped.push_last(k.clone(), value);
            i += 1;
        }
        assert(params_view(mapped@) =~= apply_params(self@, params_view(params@)));
        mapped
    }
}

/// Whether the type variable `name` occurs in `typ`.
pub fn occur(typ: &Type, name: &TypeVar) -> (r: bool)
    ensures
        r == occurs(typ@, name@),
    decreases typ,
{
    match typ {
        Type::Var(n) => n.0 == name.0,
        Type::Func { context, params, ret } => {
            proof {
                Type::lemma_view_func(*context, *params, *ret);
            }
            let n = params.len();
            let mut i: usize = 0;
            while i < n
                invariant
                    i <= n,
                    n == params@.len(),
                    !occurs_in_params(params_view(params@), name@, i as int),
                    typ == (Type::Func { context: *context, params: *params, ret: *ret }),
                    typ@ is Func,
                    typ@->params == params_view(params@),
                decreases n - i,
            {
                let (_, t) = params.entry(i).unwrap();
                proof {
                    params.lemma_value_smaller(i as int);
                    assert(typ->params == *params);
                }
                if occur(t, name) {
                    proof {
                        assert(params_view(params@)[i as int].1 == t@);
                        lemma_occurs_in_params(params_view(params@), name@, i as int, n as int);
                    }
                    return true;
                }
                i += 1;
            }
            occur(ret, name)
        },
        _ => false,
    }
}

/// A variable that occurs in one parameter type occurs among the first `n`
/// of them, for every `n` beyond that parameter.
pub proof fn lemma_occurs_in_params(
    ps: Seq<(Seq<char>, SpecType)>,
    name: Seq<char>,
    i: int,
    n: int,
)
    requires
        0 <= i < n <= ps.len(),
        occurs(ps[i].1, name),
    ensures
        occurs_in_params(ps, name, n),
    decreases n,
{
    if i < n - 1 {
        lemma_occurs_in_params(ps, name, i, n - 1);
    }
}

/// What unification gives: the unified type and the substitution that
/// leads to it, or the reason why there is none.
pub type SpecUnified = Result<(SpecType, SpecSubst), SpecTypingError>;

/// Binding the variable `name` to `t`, unless it occurs there.
pub open spec fn bind_spec(name: Seq<char>, t: SpecType) -> SpecUnified {
    if occurs(t, name) {
        Err(SpecTypingError::Cyclic(name, t))
    } else {
        Ok((t, seq![(name, t)]))
    }
}

/// The most general common instance of `t1` and `t2` that unification
/// finds, where composition may nest `fuel` levels deep.
///
/// Equal types unify to themselves. Two function types need the same
/// parameter names; their parameter types are unified in increasing order
/// of name, then their return types, and the substitutions are composed in
/// that order; the context is the left one's. A variable unifies with any
/// type it does not occur in. Nothing else unifies.
pub open spec fn unify_spec(t1: SpecType, t2: SpecType, fuel: nat) -> SpecUnified
    decreases fuel, 1nat, t1,
{
    if t1 == t2 {
        Ok((t1, Seq::empty()))
    } else {
        match (t1, t2) {
            (
                SpecType::Func { context: c1, params: ps1, ret: r1 },
                SpecType::Func { context: c2, params: ps2, ret: r2 },
            ) => {
                if names(ps1) != names(ps2) {
                    Err(SpecTypingError::Mismatch(t1, t2))
                } else {
                    match unify_params_from(ps1, ps2, 0, Seq::empty(), Seq::empty(), fuel) {
                        Err(e) => Err(e),
                        Ok((ps, s)) => match unify_spec(*r1, *r2, fuel) {
                            Err(e) => Err(e),
                            Ok((r, sr)) => match compose_from(s, sr, 0, fuel) {
                                Err(e) => Err(e),
                                Ok(all) => Ok(
                                    (
                                        SpecType::Func {
                                            context: c1,
                                            params: ps,
                                            ret: Box::new(r),
                                        },
                                        all,
                                    ),
                                ),
                            },
                        },
                    }
                }
            },
            (SpecType::Var(n), _) => bind_spec(n, t2),
            (_, SpecType::Var(n)) => bind_spec(n, t1),
            _ => Err(SpecTypingError::Mismatch(t1, t2)),
        }
    }
}

/// Unification of the parameters from the `i`-th on, given the unified
/// parameters `done` and the substitution `s` of those before.
pub open spec fn unify_params_from(
    ps1: Seq<(Seq<char>, SpecType)>,
    ps2: Seq<(Seq<char>, SpecType)>,
    i: int,
    done: Seq<(Seq<char>, SpecType)>,
    s: SpecSubst,
    fuel: nat,
) -> Result<(Seq<(Seq<char>, SpecType)>, SpecSubst), SpecTypingError>
    decreases fuel, 1nat, ps1, ps1.len() - i,
{
    if i < 0 || i >= ps1.len() {
        Ok((done, s))
    } else {
        match unify_spec(ps1[i].1, ps2[i].1, fuel) {
            Err(e) => Err(e),
            Ok((u, su)) => match compose_from(s, su, 0, fuel) {
                Err(e) => Err(e),
                Ok(next) => unify_params_from(
                    ps1,
                    ps2,
                    i + 1,
                    done.push((ps1[i].0, u)),
                    next,
                    fuel,
                ),
            },
        }
    }
}

/// Composition of `acc` with the bindings of `b` from the `i`-th on, where
/// it may nest `fuel` levels deep.
///
/// A binding of a variable that `acc` does not bind is added. Where `acc`
/// binds the variable too, the two types are unified, the substitution of
/// that unification is composed into the rest of `acc`, and the variable is
/// bound to the unified type. That merge takes one level of nesting.
pub open spec fn compose_from(acc: SpecSubst, b: SpecSubst, i: int, fuel: nat) -> Result<
    SpecSubst,
    SpecTypingError,
>
    decreases fuel, 0nat, b, b.len() - i,
{
    if i < 0 || i >= b.len() {
        Ok(acc)
    } else {
        match lookup(acc, b[i].0) {
            None => compose_from(with(acc, b[i].0, b[i].1), b, i + 1, fuel),
            Some(t1) => {
                if fuel == 0 {
                    Err(SpecTypingError::TooDeep)
                } else {
                    match unify_spec(t1, b[i].1, (fuel - 1) as nat) {
                        Err(e) => Err(e),
                        Ok((u, su)) => match compose_from(
                            without(acc, b[i].0),
                            su,
                            0,
                            (fuel - 1) as nat,
                        ) {
                            Err(e) => Err(e),
                            Ok(merged) => compose_from(with(merged, b[i].0, u), b, i + 1, fuel),
                        },
                    }
                }
            },
        }
    }
}

/// The composition of `a` and `b`, nesting at most `fuel` levels deep.
pub open spec fn compose_spec(a: SpecSubst, b: SpecSubst, fuel: nat) -> Result<
    SpecSubst,
    SpecTypingError,
> {
    compose_from(a, b, 0, fuel)
}

/// The view of what unification returns.
pub open spec fn unified_view(r: Result<(Type, Subst), TypingError>) -> SpecUnified {
    match r {
        Ok((t, s)) => Ok((t@, s@)),
        Err(e) => Err(e@),
    }
}

/// The view of what composition returns.
pub open spec fn composed_view(r: Result<Subst, TypingError>) -> Result<
    SpecSubst,
    SpecTypingError,
> {
    match r {
        Ok(s) => Ok(s@),
        Err(e) => Err(e@),
    }
}

impl Subst {
    /// Composes two substitutions: the bindings of `s2` are merged into
    /// `s1` one by one, in increasing order of name.
    pub fn compose(s1: Subst, s2: Subst) -> (r: Result<Subst, TypingError>)
        ensures
            composed_view(r) == compose_spec(s1@, s2@, NESTING_LIMIT as nat),
    {
        compose_within(s1, &s2, NESTING_LIMIT)
    }
}

/// Unifies two types.
pub fn unify(typ1: Type, typ2: Type) -> (r: Result<(Type, Subst), TypingError>)
    ensures
        unified_view(r) == unify_spec(typ1@, typ2@, NESTING_LIMIT as nat),
{
    unify_within(&typ1, &typ2, NESTING_LIMIT)
}

/// Whether two parameter maps bind the same names.
fn same_names(ps1: &NameMap<Type>, ps2: &NameMap<Type>) -> (r: bool)
    ensures
        r == (names(ps1@) == names(ps2@)),
{
    if ps1.len() != ps2.len() {
        assert(names(ps1@).len() != names(ps2@).len());
        return false;
    }
    let n = ps1.len();
    let mut i: usize = 0;
    while i < n
        invariant
            i <= n,
            n == ps1@.len(),
            n == ps2@.len(),
            forall|j: int| 0 <= j < i ==> (#[trigger] ps1@[j]).0 == ps2@[j].0,
        decreases n - i,
    {
        let (k1, _) = ps1.entry(i).unwrap();
        let (k2, _) = ps2.entry(i).unwrap();
        if !(*k1 == *k2) {
            assert(names(ps1@)[i as int] != names(ps2@)[i as int]);
            return false;
        }
        i += 1;
    }
    assert(names(ps1@) =~= names(ps2@));
    true
}

/// Binds the variable `name` to `typ`, unless it occurs there.
fn bind(name: &TypeVar, typ: &Type) -> (r: Result<(Type, Subst), TypingError>)
    ensures
        unified_view(r) == bind_spec(name@, typ@),
{
    if occur(typ, name) {
        Err(TypingError::Cyclic(name.clone(), typ.copy()))
    } else {
        let mut s = Subst::new();
        let bound = typ.copy();
        proof {
            lemma_params_view_with(s.0@, name@, bound);
        }
        s.0.insert(name.0.clone(), bound);
        assert(s@ =~= seq![(name@, typ@)]);
        Ok((typ.copy(), s))
    }
}

/// Unifies two types, where composition may nest `fuel` levels deep.
pub fn unify_within(typ1: &Type, typ2: &Type, fuel: usize) -> (r: Result<
    (Type, Subst),
    TypingError,
>)
    ensures
        unified_view(r) == unify_spec(typ1@, typ2@, fuel as nat),
    decreases fuel, 1nat, typ1,
{
    if typ1.same(typ2) {
        return Ok((typ1.copy(), Subst::new()));
    }
    match (typ1, typ2) {
        (
            Type::Func { context: c1, params: ps1, ret: r1 },
            Type::Func { context: c2, params: ps2, ret: r2 },
        ) => {
            proof {
                Type::lemma_view_func(*c1, *ps1, *r1);
                Type::lemma_view_func(*c2, *ps2, *r2);
                lemma_params_view(ps1@, c1@);
                lemma_params_view(ps2@, c1@);
            }
            if !same_names(ps1, ps2) {
                return Err(TypingError::Mismatch(typ1.copy(), typ2.copy()));
            }
            proof {
                assert(typ1->params == *ps1);
                assert(typ1->ret == *r1);
            }
            let (params, s) = match unify_params(ps1, ps2, fuel) {
                Err(e) => {
                    return Err(e);
                },
                Ok(done) => done,
            };
            let (ret, sr) = match unify_within(r1, r2, fuel) {
                Err(e) => {
                    return Err(e);
                },
                Ok(done) => done,
            };
            let all = match compose_within(s, &sr, fuel) {
                Err(e) => {
                    return Err(e);
                },
                Ok(done) => done,
            };
            let unified = Type::Func { context: c1.clone(), params, ret: Box::new(ret) };
            proof {
                Type::lemma_view_func(unified->context, unified->params, unified->ret);
            }
            Ok((unified, all))
        },
        (Type::Var(name), _) => bind(name, typ2),
        (_, Type::Var(name)) => bind(name, typ1),
        _ => Err(TypingError::Mismatch(typ1.copy(), typ2.copy())),
    }
}

/// Unifies the types of two parameter maps that bind the same names, in
/// increasing order of name.
#[verifier::loop_isolation(false)]
fn unify_params(ps1: &NameMap<Type>, ps2: &NameMap<Type>, fuel: usize) -> (r: Result<
    (NameMap<Type>, Subst),
    TypingError,
>)
    requires
        names(ps1@) == names(ps2@),
    ensures
        match r {
            Ok((ps, s)) => Ok((params_view(ps@), s@)),
            Err(e) => Err(e@),
        } == unify_params_from(
            params_view(ps1@),
            params_view(ps2@),
            0,
            Seq::empty(),
            Seq::empty(),
            fuel as nat,
        ),
    decreases fuel, 1nat, ps1,
{
    let ghost v1 = params_view(ps1@);
    let ghost v2 = params_view(ps2@);
    let ghost goal = unify_params_from(v1, v2, 0, Seq::empty(), Seq::empty(), fuel as nat);
    let mut done: NameMap<Type> = NameMap::new();
    let mut s = Subst::new();
    let n = ps1.len();
    let mut i: usize = 0;
    ps1.sorted_view();
    proof {
        assert(names(ps1@).len() == ps1@.len());
        assert(names(ps2@).len() == ps2@.len());
        assert(params_view(done@) =~= Seq::<(Seq<char>, SpecType)>::empty());
    }
    while i < n
        invariant
            i <= n,
            n == ps1@.len(),
            n == ps2@.len(),
            v1 == params_view(ps1@),
            v2 == params_view(ps2@),
            sorted(ps1@),
            done@.len() == i,
            forall|j: int| 0 <= j < i ==> (#[trigger] done@[j]).0 == ps1@[j].0,
            goal == unify_params_from(v1, v2, i as int, params_view(done@), s@, fuel as nat),
        decreases n - i,
    {
        let (k, t1) = ps1.entry(i).unwrap();
        let (_, t2) = ps2.entry(i).unwrap();
        assert(v1[i as int] == (k@, t1@));
        assert(v2[i as int].1 == t2@);
        proof {
            ps1.lemma_value_smaller(i as int);
        }
        let (u, su) = match unify_within(t1, t2, fuel) {
            Err(e) => {
                return Err(e);
            },
            Ok(unified) => unified,
        };
        s = match compose_within(s, &su, fuel) {
            Err(e) => {
                return Err(e);
            },
            Ok(next) => next,
        };
        let ghost before = params_view(done@);
        done.push_last(k.clone(), u);
        assert(params_view(done@) =~= before.push((k@, u@)));
        i += 1;
    }
    Ok((done, s))
}

/// Composes `s2` into `s1`, nesting at most `fuel` levels deep.
#[verifier::loop_isolation(false)]
pub fn compose_within(s1: Subst, s2: &Subst, fuel: usize) -> (r: Result<Subst, TypingError>)
    ensures
        composed_view(r) == compose_spec(s1@, s2@, fuel as nat),
    decreases fuel, 0nat,
{
    let ghost goal = compose_spec(s1@, s2@, fuel as nat);
    let mut acc = s1.0;
    let n = s2.0.len();
    let mut i: usize = 0;
    while i < n
        invariant
            i <= n,
            n == s2.0@.len(),
            goal == compose_from(params_view(acc@), s2@, i as int, fuel as nat),
        decreases n - i,
    {
        let (k, t2) = s2.0.entry(i).unwrap();
        assert(s2@[i as int] == (k@, t2@));
        let ghost before = acc@;
        proof {
            lemma_params_view(before, k@);
        }
        match acc.remove(k.as_str()) {
            None => {
                let bound = t2.copy();
                proof {
                    lemma_params_view_with(before, k@, bound);
                }
                acc.insert(k.clone(), bound);
            },
            Some(t1) => {
                if fuel == 0 {
                    return Err(TypingError::TooDeep);
                }
                let (u, su) = match unify_within(&t1, t2, fuel - 1) {
                    Err(e) => {
                        return Err(e);
                    },
                    Ok(unified) => unified,
                };
                let merged = match compose_within(Subst(acc), &su, fuel - 1) {
                    Err(e) => {
                        return Err(e);
                    },
                    Ok(merged) => merged,
                };
                acc = merged.0;
                proof {
                    lemma_params_view_with(acc@, k@, u);
                }
                acc.insert(k.clone(), u);
            },
        }
        i += 1;
    }
    Ok(Subst(acc))
}

/// The declared types of the commands, by name.
#[derive(Debug)]
pub struct Registry(pub NameMap<Type>);

impl Registry {
    pub open spec fn view(&self) -> Seq<(Seq<char>, SpecType)> {
        params_view(self.0@)
    }

    /// The registry that knows no command.
    pub fn new() -> (r: Self)
        ensures
            r@ == Seq::<(Seq<char>, SpecType)>::empty(),
    {
        let r = Registry(NameMap::new());
        assert(r@ =~= Seq::<(Seq<char>, SpecType)>::empty());
        r
    }

    /// The declared type of the command `name`.
    pub fn get(&self, name: &str) -> (r: Option<&Type>)
        ensures
            match r {
                Some(t) => Some(t@),
                None => None,
            } == lookup(self@, name@),
    {
        proof {
            lemma_params_view(self.0@, name@);
        }
        self.0.get(name)
    }
}

/// The registry that the lines from the `i`-th on declare, after what is
/// in `acc`. Each line declares the name before its first colon to have
/// the type behind it, and a later declaration of a name takes the place
/// of an earlier one. The first line that has no colon, or no type behind
/// it, ends the reading.
pub open spec fn registry_from(
    lines: Seq<Seq<char>>,
    i: int,
    acc: Seq<(Seq<char>, SpecType)>,
) -> Result<Seq<(Seq<char>, SpecType)>, DefinitionError>
    decreases lines.len() - i,
{
    if i < 0 || i >= lines.len() {
        Ok(acc)
    } else {
        match definition_spec(lines[i]) {
            None => Err(DefinitionError::MissingColon(i as usize)),
            Some((name, text)) => match parse_type_spec(text) {
                Err(e) => Err(DefinitionError::InvalidType(i as usize, e)),
                Ok(t) => registry_from(lines, i + 1, with(acc, name, t)),
            },
        }
    }
}

/// The registry that a text of declarations makes.
pub open spec fn registry_spec(text: Seq<char>) -> Result<
    Seq<(Seq<char>, SpecType)>,
    DefinitionError,
> {
    registry_from(lines_from(text, 0), 0, Seq::empty())
}

impl Registry {
    /// Reads a registry from the text that declares the commands.
    #[verifier::loop_isolation(false)]
    pub fn parse(text: &str) -> (r: Result<Registry, DefinitionError>)
        ensures
            match r {
                Ok(registry) => Ok(registry@),
                Err(e) => Err(e),
            } == registry_spec(text@),
    {
        let lines = split_lines(text);
        let mut types: NameMap<Type> = NameMap::new();
        let mut i: usize = 0;
        assert(params_view(types@) =~= Seq::<(Seq<char>, SpecType)>::empty());
        while i < lines.len()
            invariant
                i <= lines.len(),
                registry_spec(text@) == registry_from(
                    strings_view(lines@),
                    i as int,
                    params_view(types@),
                ),
            decreases lines.len() - i,
        {
            let (name, typ) = match split_definition(lines[i].as_str()) {
                None => {
                    return Err(DefinitionError::MissingColon(i));
                },
                Some(definition) => definition,
            };
            let t = match crate::expr::parse::typ(typ.as_str()) {
                Err(e) => {
                    return Err(DefinitionError::InvalidType(i, e));
                },
                Ok(t) => t,
            };
            proof {
                lemma_params_view_with(types@, name@, t);
            }
            types.insert(name, t);
            i += 1;
        }
        Ok(Registry(types))
    }
}

/// The type of a function of type `context`, `params`, `ret` once the
/// parameter `field` has got an argument of type `ta`: the parameter's
/// type is unified with `ta`, and the function keeps the parameters that
/// are left, or gives way to its return type when none is.
pub open spec fn apply_argument(
    context: Seq<char>,
    params: Seq<(Seq<char>, SpecType)>,
    ret: SpecType,
    s1: SpecSubst,
    field: Seq<char>,
    ta: SpecType,
    s2: SpecSubst,
) -> SpecUnified {
    match compose_spec(s1, s2, NESTING_LIMIT as nat) {
        Err(e) => Err(e),
        Ok(s) => match lookup(params, field) {
            None => Err(SpecTypingError::NoSuchParameter(field)),
            Some(pt) => match unify_spec(ta, pt, NESTING_LIMIT as nat) {
                Err(e) => Err(e),
                Ok((_, su)) => match compose_spec(s, su, NESTING_LIMIT as nat) {
                    Err(e) => Err(e),
                    Ok(all) => {
                        let rest = without(params, field);
                        if rest.len() == 0 {
                            Ok((apply_spec(all, ret), all))
                        } else {
                            Ok(
                                (
                                    SpecType::Func {
                                        context,
                                        params: apply_params(all, rest),
                                        ret: Box::new(apply_spec(all, ret)),
                                    },
                                    all,
                                ),
                            )
                        }
                    },
                },
            },
        },
    }
}

/// The type of `e` and the substitution found on the way, where `env`
/// types the variables and `registry` the commands.
pub open spec fn infer_spec(
    e: SpecExpr,
    env: Seq<(Seq<char>, SpecType)>,
    registry: Seq<(Seq<char>, SpecType)>,
) -> SpecUnified
    decreases e,
{
    match e {
        SpecExpr::Var(n) => match lookup(env, n) {
            Some(t) => Ok((t, Seq::empty())),
            None => Err(SpecTypingError::UnboundVariable(n)),
        },
        SpecExpr::Int(_) => Ok((SpecType::Int, Seq::empty())),
        SpecExpr::String(_) => Ok((SpecType::String, Seq::empty())),
        SpecExpr::Path(_) => Ok((SpecType::Path, Seq::empty())),
        SpecExpr::Bytes(_) => Ok((SpecType::Bytes, Seq::empty())),
        SpecExpr::Command(cmd) => match lookup(registry, cmd.name) {
            Some(t) => Ok((t, Seq::empty())),
            None => Err(SpecTypingError::UndefinedCommand(cmd.name)),
        },
        SpecExpr::App(callee, field, arg) => match infer_spec(*callee, env, registry) {
            Err(e) => Err(e),
            Ok((tf, s1)) => match tf {
                SpecType::Func { context, params, ret } => match infer_spec(*arg, env, registry) {
                    Err(e) => Err(e),
                    Ok((ta, s2)) => apply_argument(context, params, *ret, s1, field, ta, s2),
                },
                _ => Err(SpecTypingError::NotApplicable(tf)),
            },
        },
    }
}

/// The type of `e` under the empty environment, with the substitution
/// found on the way applied to it.
pub open spec fn typecheck_spec(e: SpecExpr, registry: Seq<(Seq<char>, SpecType)>) -> Result<
    SpecType,
    SpecTypingError,
> {
    match infer_spec(e, Seq::empty(), registry) {
        Ok((t, s)) => Ok(apply_spec(s, t)),
        Err(e) => Err(e),
    }
}

impl Expr {
    /// The type of the expression, where `registry` types the commands.
    pub fn typecheck(&self, registry: &Registry) -> (r: Result<Type, TypingError>)
        ensures
            match r {
                Ok(t) => Ok(t@),
                Err(e) => Err(e@),
            } == typecheck_spec(self@, registry@),
    {
        let env: Env = NameMap::new();
        assert(params_view(env@) =~= Seq::<(Seq<char>, SpecType)>::empty());
        match expr(self, &env, registry) {
            Ok((typ, subst)) => Ok(subst.apply(typ)),
            Err(e) => Err(e),
        }
    }
}

/// Infers the type of `e`, where `env` types the variables and `registry`
/// the commands.
pub fn expr(e: &Expr, env: &Env, registry: &Registry) -> (r: Result<
    (Type, Subst),
    TypingError,
>)
    ensures
        unified_view(r) == infer_spec(e@, params_view(env@), registry@),
    decreases e,
{
    match e {
        Expr::Var(name) => {
            proof {
                lemma_params_view(env@, name@);
            }
            match env.get(name.0.as_str()) {
                Some(t) => Ok((t.copy(), Subst::new())),
                None => Err(TypingError::UnboundVariable(name.clone())),
            }
        },
        Expr::Int(_) => Ok((Type::Int, Subst::new())),
        Expr::String(_) => Ok((Type::String, Subst::new())),
        Expr::Path(_) => Ok((Type::Path, Subst::new())),
        Expr::Bytes(_) => Ok((Type::Bytes, Subst::new())),
        Expr::App(callee, field, arg) => {
            let (tf, s1) = match expr(callee, env, registry) {
                Err(e) => {
                    return Err(e);
                },
                Ok(inferred) => inferred,
            };
            match tf {
                Type::Func { context, params, ret } => {
                    proof {
                        Type::lemma_view_func(context, params, ret);
                    }
                    let (ta, s2) = match expr(arg, env, registry) {
                        Err(e) => {
                            return Err(e);
                        },
                        Ok(inferred) => inferred,
                    };
                    argument(context, params, *ret, s1, field, ta, s2)
                },
                other => Err(TypingError::NotApplicable(other)),
            }
        },
        Expr::Command(cmd) => {
            proof {
                Expr::lemma_view_command(*cmd);
            }
            command(cmd, registry)
        },
    }
}

/// Gives the parameter `field` of a function type an argument of type `ta`.
fn argument(
    context: ExprVar,
    params: NameMap<Type>,
    ret: Type,
    s1: Subst,
    field: &ExprVar,
    ta: Type,
    s2: Subst,
) -> (r: Result<(Type, Subst), TypingError>)
    ensures
        unified_view(r) == apply_argument(
            context@,
            params_view(params@),
            ret@,
            s1@,
            field@,
            ta@,
            s2@,
        ),
{
    let s = match Subst::compose(s1, s2) {
        Err(e) => {
            return Err(e);
        },
        Ok(s) => s,
    };
    let mut rest = params;
    proof {
        lemma_params_view(params@, field@);
    }
    let pt = match rest.remove(field.0.as_str()) {
        None => {
            return Err(TypingError::NoSuchParameter(field.clone()));
        },
        Some(pt) => pt,
    };
    let (_, su) = match unify(ta, pt) {
        Err(e) => {
            return Err(e);
        },
        Ok(unified) => unified,
    };
    let all = match Subst::compose(s, su) {
        Err(e) => {
            return Err(e);
        },
        Ok(all) => all,
    };
    if rest.is_empty() {
        let typ = all.apply(ret);
        Ok((typ, all))
    } else {
        let typ = Type::Func {
            context,
            params: all.apply_to_params(&rest),
            ret: Box::new(all.apply(ret)),
        };
        proof {
            Type::lemma_view_func(typ->context, typ->params, typ->ret);
        }
        Ok((typ, all))
    }
}

/// The declared type of a command.
fn command(cmd: &Command, registry: &Registry) -> (r: Result<(Type, Subst), TypingError>)
    ensures
        unified_view(r) == infer_spec(SpecExpr::Command(cmd@), Seq::empty(), registry@),
{
    proof {
        Expr::lemma_view_command(*cmd);
    }
    match registry.get(cmd.name.0.as_str()) {
        Some(t) => Ok((t.copy(), Subst::new())),
        None => Err(TypingError::UndefinedCommand(cmd.name.clone())),
    }
}

} // verus!
