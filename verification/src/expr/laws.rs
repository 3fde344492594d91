//! Laws of substitution: what applying and composing substitutions
//! amount to.

use crate::expr::typecheck::{
    apply_params, apply_spec, compose_from, compose_spec, lemma_apply_func, occurs,
    occurs_in_params, unify_params_from, unify_spec, SpecSubst, SpecTypingError, SpecUnified,
};
use crate::expr::SpecType;
use crate::name_map::{
    binds, lemma_lookup_with, lemma_lookup_without, lemma_rank, lemma_rank_of_entry,
    lemma_same_names, lemma_with_sorted, lemma_without_sorted, lookup, names, rank, sorted,
    with, without,
};
use vstd::prelude::*;

verus! {

/// Applying the empty substitution changes nothing.
pub proof fn lemma_apply_empty(t: SpecType)
    ensures
        apply_spec(Seq::empty(), t) == t,
    decreases t,
{
    match t {
        SpecType::Func { context, params, ret } => {
            lemma_apply_empty(*ret);
            assert forall|i: int| 0 <= i < params.len() implies apply_spec(
                Seq::empty(),
                #[trigger] params[i].1,
            ) == params[i].1 by {
                lemma_apply_empty(params[i].1);
            }
            lemma_apply_func(Seq::empty(), context, params, *ret);
            assert(apply_params(Seq::empty(), params) =~= params);
        },
        _ => {},
    }
}

/// A variable occurs among the first `n` parameter types exactly when it
/// occurs in one of them.
pub proof fn lemma_occurs_in_some_param(ps: Seq<(Seq<char>, SpecType)>, name: Seq<char>, n: int)
    requires
        0 <= n <= ps.len(),
    ensures
        occurs_in_params(ps, name, n) <==> exists|i: int|
            0 <= i < n && occurs(#[trigger] ps[i].1, name),
    decreases n,
{
    if n > 0 {
        lemma_occurs_in_some_param(ps, name, n - 1);
        if occurs(ps[n - 1].1, name) {
        }
    }
}

/// A substitution that binds no variable of `t` leaves `t` as it is.
pub proof fn lemma_apply_untouched(s: SpecSubst, t: SpecType)
    requires
        forall|n: Seq<char>| occurs(t, n) ==> !binds(s, n),
    ensures
        apply_spec(s, t) == t,
    decreases t,
{
    match t {
        SpecType::Var(m) => {
            assert(occurs(t, m));
        },
        SpecType::Func { context, params, ret } => {
            assert forall|n: Seq<char>| occurs(*ret, n) implies !binds(s, n) by {
                assert(occurs(t, n));
            }
            lemma_apply_untouched(s, *ret);
            assert forall|i: int| 0 <= i < params.len() implies apply_spec(
                s,
                #[trigger] params[i].1,
            ) == params[i].1 by {
                assert forall|n: Seq<char>| occurs(params[i].1, n) implies !binds(s, n) by {
                    lemma_occurs_in_some_param(params, n, params.len() as int);
                    assert(occurs(t, n));
                }
                lemma_apply_untouched(s, params[i].1);
            }
            lemma_apply_func(s, context, params, *ret);
            assert(apply_params(s, params) =~= params);
        },
        _ => {},
    }
}

/// Two ways of rewriting a type, a single substitution `c` and the
/// substitutions `s1` then `s2` one after the other, agree on `t` exactly
/// when they agree on every variable that occurs in `t`.
pub proof fn lemma_apply_by_variables(c: SpecSubst, s1: SpecSubst, s2: SpecSubst, t: SpecType)
    ensures
        apply_spec(c, t) == apply_spec(s2, apply_spec(s1, t)) <==> forall|n: Seq<char>|
            occurs(t, n) ==> apply_spec(c, SpecType::Var(n)) == apply_spec(
                s2,
                apply_spec(s1, SpecType::Var(n)),
            ),
    decreases t,
{
    let agree = |u: SpecType| apply_spec(c, u) == apply_spec(s2, apply_spec(s1, u));
    let on_vars = |u: SpecType|
        forall|n: Seq<char>| occurs(u, n) ==> agree(SpecType::Var(n));
    match t {
        SpecType::Var(m) => {
            assert(occurs(t, m));
        },
        SpecType::Func { context, params, ret } => {
            let l = apply_spec(c, t);
            let m = apply_spec(s1, t);
            let r = apply_spec(s2, m);
            lemma_apply_func(c, context, params, *ret);
            lemma_apply_func(s1, context, params, *ret);
            lemma_apply_func(s2, context, apply_params(s1, params), apply_spec(s1, *ret));
            lemma_apply_by_variables(c, s1, s2, *ret);
            assert forall|i: int| 0 <= i < params.len() implies (agree(#[trigger] params[i].1)
                <==> on_vars(params[i].1)) by {
                lemma_apply_by_variables(c, s1, s2, params[i].1);
            }
            assert forall|i: int| 0 <= i < params.len() implies (#[trigger] l->params[i]).1
                == apply_spec(c, params[i].1) && (#[trigger] r->params[i]).1 == apply_spec(
                s2,
                apply_spec(s1, params[i].1),
            ) by {
                assert(m->params[i].1 == apply_spec(s1, params[i].1));
            }
            if on_vars(t) {
                assert forall|n: Seq<char>| occurs(*ret, n) implies agree(SpecType::Var(n)) by {
                    assert(occurs(t, n));
                }
                assert forall|i: int| 0 <= i < params.len() implies agree(
                    #[trigger] params[i].1,
                ) by {
                    assert forall|n: Seq<char>| occurs(params[i].1, n) implies agree(
                        SpecType::Var(n),
                    ) by {
                        lemma_occurs_in_some_param(params, n, params.len() as int);
                        assert(occurs(t, n));
                    }
                }
                assert(l->params =~= r->params);
                assert(l == r);
            }
            if l == r {
                assert forall|n: Seq<char>| occurs(t, n) implies agree(SpecType::Var(n)) by {
                    lemma_occurs_in_some_param(params, n, params.len() as int);
                    if occurs(*ret, n) {
                    } else {
                        let i = choose|i: int|
                            0 <= i < params.len() && occurs(#[trigger] params[i].1, n);
                        assert(l->params[i].1 == r->params[i].1);
                        assert(agree(params[i].1));
                    }
                }
            }
        },
        _ => {},
    }
}

/// The two substitutions bind each variable that both bind to the same
/// type.
pub open spec fn agree(s1: SpecSubst, s2: SpecSubst) -> bool {
    forall|n: Seq<char>| #[trigger]
        binds(s1, n) && binds(s2, n) ==> lookup(s1, n) == lookup(s2, n)
}

/// The two substitutions bind no variable in common.
pub open spec fn apart(s1: SpecSubst, s2: SpecSubst) -> bool {
    forall|n: Seq<char>| !(#[trigger] binds(s1, n) && binds(s2, n))
}

/// What `s` puts in the place of the variable `name`.
pub open spec fn image(s: SpecSubst, name: Seq<char>) -> SpecType {
    apply_spec(s, SpecType::Var(name))
}

/// Composition where each binding of `b` from the `i`-th on either meets
/// no binding of `acc` or meets one to the same type: it succeeds, given
/// fuel for the bindings that meet, and binds what either binds.
proof fn lemma_compose_agreeing(acc: SpecSubst, b: SpecSubst, i: int, fuel: nat)
    requires
        sorted(acc),
        sorted(b),
        0 <= i <= b.len(),
        forall|j: int|
            i <= j < b.len() ==> (#[trigger] lookup(acc, b[j].0) is None || lookup(acc, b[j].0)
                == Some(b[j].1)),
        fuel > 0 || compose_from(acc, b, i, fuel) is Ok || forall|j: int|
            i <= j < b.len() ==> #[trigger] lookup(acc, b[j].0) is None,
    ensures
        compose_from(acc, b, i, fuel) is Ok,
        sorted(compose_from(acc, b, i, fuel)->Ok_0),
        forall|k: Seq<char>|
            lookup(compose_from(acc, b, i, fuel)->Ok_0, k) == if binds(b, k) && rank(b, k) >= i {
                lookup(b, k)
            } else {
                lookup(acc, k)
            },
    decreases b.len() - i,
{
    if i < b.len() {
        let key = b[i].0;
        lemma_rank_of_entry(b, i);
        assert(lookup(acc, b[i].0) is None || lookup(acc, b[i].0) == Some(b[i].1));
        let next = match lookup(acc, key) {
            None => with(acc, key, b[i].1),
            Some(t1) => with(without(acc, key), key, t1),
        };
        match lookup(acc, key) {
            None => {
                lemma_with_sorted(acc, key, b[i].1);
            },
            Some(t1) => {
                assert(fuel > 0);
                assert(unify_spec(t1, b[i].1, (fuel - 1) as nat) == Ok::<
                    (SpecType, SpecSubst),
                    SpecTypingError,
                >((t1, Seq::empty())));
                assert(compose_from(without(acc, key), Seq::empty(), 0, (fuel - 1) as nat) == Ok::<
                    SpecSubst,
                    SpecTypingError,
                >(without(acc, key)));
                lemma_without_sorted(acc, key);
                lemma_with_sorted(without(acc, key), key, t1);
            },
        }
        assert(compose_from(acc, b, i, fuel) == compose_from(next, b, i + 1, fuel));
        assert forall|q: Seq<char>| lookup(next, q) == if q == key {
            Some(b[i].1)
        } else {
            lookup(acc, q)
        } by {
            match lookup(acc, key) {
                None => {
                    lemma_lookup_with(acc, key, b[i].1, q);
                },
                Some(t1) => {
                    lemma_lookup_without(acc, key, q);
                    lemma_lookup_with(without(acc, key), key, t1, q);
                },
            }
        }
        assert forall|j: int| i + 1 <= j < b.len() implies lookup(next, #[trigger] b[j].0)
            == lookup(acc, b[j].0) by {
            lemma_rank_of_entry(b, j);
        }
        assert forall|j: int| i + 1 <= j < b.len() implies (#[trigger] lookup(next, b[j].0) is None
            || lookup(next, b[j].0) == Some(b[j].1)) by {
            assert(lookup(acc, b[j].0) is None || lookup(acc, b[j].0) == Some(b[j].1));
        }
        if !(fuel > 0 || compose_from(acc, b, i, fuel) is Ok) {
            assert forall|j: int| i + 1 <= j < b.len() implies #[trigger] lookup(
                next,
                b[j].0,
            ) is None by {
                assert(lookup(acc, b[j].0) is None);
            }
        }
        lemma_compose_agreeing(next, b, i + 1, fuel);
    }
}

/// Where two substitutions agree on the variables that both bind, their
/// composition binds what either binds. It exists when there is fuel, and
/// whatever the fuel when they bind no variable in common.
pub proof fn lemma_compose_union(s1: SpecSubst, s2: SpecSubst, fuel: nat)
    requires
        sorted(s1),
        sorted(s2),
        agree(s1, s2),
        fuel > 0 || apart(s1, s2) || compose_spec(s1, s2, fuel) is Ok,
    ensures
        compose_spec(s1, s2, fuel) is Ok,
        sorted(compose_spec(s1, s2, fuel)->Ok_0),
        forall|k: Seq<char>|
            lookup(compose_spec(s1, s2, fuel)->Ok_0, k) == if binds(s1, k) {
                lookup(s1, k)
            } else {
                lookup(s2, k)
            },
{
    assert forall|j: int| 0 <= j < s2.len() implies (#[trigger] lookup(s1, s2[j].0) is None
        || lookup(s1, s2[j].0) == Some(s2[j].1)) by {
        lemma_rank_of_entry(s2, j);
        assert(binds(s1, s2[j].0) && binds(s2, s2[j].0) ==> lookup(s1, s2[j].0) == lookup(
            s2,
            s2[j].0,
        ));
    }
    if apart(s1, s2) {
        assert forall|j: int| 0 <= j < s2.len() implies #[trigger] lookup(s1, s2[j].0) is None by {
            lemma_rank_of_entry(s2, j);
            assert(!(binds(s1, s2[j].0) && binds(s2, s2[j].0)));
        }
    }
    lemma_compose_agreeing(s1, s2, 0, fuel);
    let c = compose_spec(s1, s2, fuel)->Ok_0;
    assert forall|k: Seq<char>| lookup(c, k) == if binds(s1, k) {
        lookup(s1, k)
    } else {
        lookup(s2, k)
    } by {
        lemma_rank(s2, k, 0);
        assert(binds(s1, k) && binds(s2, k) ==> lookup(s1, k) == lookup(s2, k));
    }
}

/// Composing two substitutions and applying the result to `t` is applying
/// the first and then the second exactly where the two do the same to
/// every variable that occurs in `t`.
pub proof fn lemma_compose_by_variables(s1: SpecSubst, s2: SpecSubst, t: SpecType, fuel: nat)
    requires
        compose_spec(s1, s2, fuel) is Ok,
    ensures
        apply_spec(compose_spec(s1, s2, fuel)->Ok_0, t) == apply_spec(s2, apply_spec(s1, t))
            <==> forall|n: Seq<char>|
            occurs(t, n) ==> image(compose_spec(s1, s2, fuel)->Ok_0, n) == apply_spec(
                s2,
                image(s1, n),
            ),
{
    lemma_apply_by_variables(compose_spec(s1, s2, fuel)->Ok_0, s1, s2, t);
}

/// Where two substitutions agree on the variables that both bind, and
/// their composition exists, applying it to `t` is applying the first and
/// then the second exactly where the second leaves as it is what the
/// first puts in the place of each variable of `t` that it binds.
pub proof fn lemma_compose_sequential(s1: SpecSubst, s2: SpecSubst, t: SpecType, fuel: nat)
    requires
        sorted(s1),
        sorted(s2),
        agree(s1, s2),
        compose_spec(s1, s2, fuel) is Ok,
    ensures
        apply_spec(compose_spec(s1, s2, fuel)->Ok_0, t) == apply_spec(s2, apply_spec(s1, t))
            <==> forall|n: Seq<char>|
            occurs(t, n) && binds(s1, n) ==> apply_spec(s2, image(s1, n)) == image(s1, n),
{
    lemma_compose_union(s1, s2, fuel);
    let c = compose_spec(s1, s2, fuel)->Ok_0;
    assert forall|n: Seq<char>| occurs(t, n) implies (image(c, n) == apply_spec(s2, image(s1, n))
        <==> (binds(s1, n) ==> apply_spec(s2, image(s1, n)) == image(s1, n))) by {
        lemma_rank(s2, n, 0);
        lemma_rank(s1, n, 0);
    }
    lemma_compose_by_variables(s1, s2, t, fuel);
}

/// Where two substitutions agree on the variables that both bind, their
/// composition exists, and the second binds no variable of what the first
/// puts in the place of a variable of `t`, applying the composition to
/// `t` is applying the first and then the second.
pub proof fn lemma_compose_then_apply(s1: SpecSubst, s2: SpecSubst, t: SpecType, fuel: nat)
    requires
        sorted(s1),
        sorted(s2),
        agree(s1, s2),
        compose_spec(s1, s2, fuel) is Ok,
        forall|n: Seq<char>, m: Seq<char>|
            occurs(t, n) && binds(s1, n) && #[trigger] occurs(image(s1, n), m) ==> !binds(s2, m),
    ensures
        apply_spec(compose_spec(s1, s2, fuel)->Ok_0, t) == apply_spec(s2, apply_spec(s1, t)),
{
    assert forall|n: Seq<char>| occurs(t, n) && binds(s1, n) implies apply_spec(
        s2,
        image(s1, n),
    ) == image(s1, n) by {
        assert forall|m: Seq<char>| occurs(image(s1, n), m) implies !binds(s2, m) by {}
        lemma_apply_untouched(s2, image(s1, n));
    }
    lemma_compose_sequential(s1, s2, t, fuel);
}

/// Two function types whose parameters bind different sets of names do
/// not unify, whatever their parameter types are.
pub proof fn lemma_unify_names(t1: SpecType, t2: SpecType, fuel: nat)
    requires
        t1 is Func,
        t2 is Func,
        sorted(t1->params),
        sorted(t2->params),
        exists|n: Seq<char>| binds(t1->params, n) != binds(t2->params, n),
    ensures
        unify_spec(t1, t2, fuel) == Err::<(SpecType, SpecSubst), SpecTypingError>(
            SpecTypingError::Mismatch(t1, t2),
        ),
{
    lemma_same_names(t1->params, t2->params);
}

/// Unification gave up for want of fuel.
pub open spec fn unify_gave_up(r: SpecUnified) -> bool {
    r == Err::<(SpecType, SpecSubst), SpecTypingError>(SpecTypingError::TooDeep)
}

/// Composition gave up for want of fuel.
pub open spec fn compose_gave_up(r: Result<SpecSubst, SpecTypingError>) -> bool {
    r == Err::<SpecSubst, SpecTypingError>(SpecTypingError::TooDeep)
}

/// The limit on nesting decides when unification gives up and nothing
/// else: unless it gives up, more fuel leads to the same outcome.
pub proof fn lemma_unify_fuel(t1: SpecType, t2: SpecType, fuel: nat, more: nat)
    requires
        fuel <= more,
        !unify_gave_up(unify_spec(t1, t2, fuel)),
    ensures
        unify_spec(t1, t2, more) == unify_spec(t1, t2, fuel),
    decreases fuel, 1nat, t1,
{
    if t1 != t2 {
        match (t1, t2) {
            (
                SpecType::Func { context: c1, params: ps1, ret: r1 },
                SpecType::Func { context: c2, params: ps2, ret: r2 },
            ) => {
                if names(ps1) == names(ps2) {
                    lemma_unify_params_fuel(ps1, ps2, 0, Seq::empty(), Seq::empty(), fuel, more);
                    match unify_params_from(ps1, ps2, 0, Seq::empty(), Seq::empty(), fuel) {
                        Ok((ps, s)) => {
                            lemma_unify_fuel(*r1, *r2, fuel, more);
                            match unify_spec(*r1, *r2, fuel) {
                                Ok((r, sr)) => {
                                    lemma_compose_fuel(s, sr, 0, fuel, more);
                                },
                                Err(_) => {},
                            }
                        },
                        Err(_) => {},
                    }
                }
            },
            _ => {},
        }
    }
}

/// More fuel leads to the same outcome for the parameters of two
/// function types, unless their unification gives up.
pub proof fn lemma_unify_params_fuel(
    ps1: Seq<(Seq<char>, SpecType)>,
    ps2: Seq<(Seq<char>, SpecType)>,
    i: int,
    done: Seq<(Seq<char>, SpecType)>,
    s: SpecSubst,
    fuel: nat,
    more: nat,
)
    requires
        fuel <= more,
        unify_params_from(ps1, ps2, i, done, s, fuel) != Err::<
            (Seq<(Seq<char>, SpecType)>, SpecSubst),
            SpecTypingError,
        >(SpecTypingError::TooDeep),
    ensures
        unify_params_from(ps1, ps2, i, done, s, more) == unify_params_from(
            ps1,
            ps2,
            i,
            done,
            s,
            fuel,
        ),
    decreases fuel, 1nat, ps1, ps1.len() - i,
{
    if 0 <= i < ps1.len() {
        lemma_unify_fuel(ps1[i].1, ps2[i].1, fuel, more);
        match unify_spec(ps1[i].1, ps2[i].1, fuel) {
            Ok((u, su)) => {
                lemma_compose_fuel(s, su, 0, fuel, more);
                match compose_from(s, su, 0, fuel) {
                    Ok(next) => {
                        lemma_unify_params_fuel(
                            ps1,
                            ps2,
                            i + 1,
                            done.push((ps1[i].0, u)),
                            next,
                            fuel,
                            more,
                        );
                    },
                    Err(_) => {},
                }
            },
            Err(_) => {},
        }
    }
}

/// The limit on nesting decides when composition gives up and nothing
/// else: unless it gives up, more fuel leads to the same outcome.
pub proof fn lemma_compose_fuel(acc: SpecSubst, b: SpecSubst, i: int, fuel: nat, more: nat)
    requires
        fuel <= more,
        !compose_gave_up(compose_from(acc, b, i, fuel)),
    ensures
        compose_from(acc, b, i, more) == compose_from(acc, b, i, fuel),
    decreases fuel, 0nat, b, b.len() - i,
{
    if 0 <= i < b.len() {
        match lookup(acc, b[i].0) {
            None => {
                lemma_compose_fuel(with(acc, b[i].0, b[i].1), b, i + 1, fuel, more);
            },
            Some(t1) => {
                let f = (fuel - 1) as nat;
                let m = (more - 1) as nat;
                lemma_unify_fuel(t1, b[i].1, f, m);
                match unify_spec(t1, b[i].1, f) {
                    Ok((u, su)) => {
                        lemma_compose_fuel(without(acc, b[i].0), su, 0, f, m);
                        match compose_from(without(acc, b[i].0), su, 0, f) {
                            Ok(merged) => {
                                lemma_compose_fuel(with(merged, b[i].0, u), b, i + 1, fuel, more);
                            },
                            Err(_) => {},
                        }
                    },
                    Err(_) => {},
                }
            },
        }
    }
}

} // verus!
