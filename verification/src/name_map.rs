//! A map from names to values, kept as a list in increasing order of name.
//!
//! Two maps with the same bindings hold the same list, so equality of the
//! lists is equality of the maps, and every walk over a map meets its
//! bindings in the same order.

use crate::text::to_chars;
use vstd::prelude::*;

verus! {

/// `a` comes before `b` in the order of names, looking from position `i` on:
/// the first difference decides, and a proper prefix comes first.
pub open spec fn name_lt_from(a: Seq<char>, b: Seq<char>, i: int) -> bool
    decreases a.len() - i,
{
    if i < 0 || i >= b.len() {
        false
    } else if i >= a.len() {
        true
    } else if a[i] != b[i] {
        (a[i] as int) < (b[i] as int)
    } else {
        name_lt_from(a, b, i + 1)
    }
}

/// `a` comes strictly before `b` in the order of names.
pub open spec fn name_lt(a: Seq<char>, b: Seq<char>) -> bool {
    name_lt_from(a, b, 0)
}

/// The names of `s` are strictly increasing.
pub open spec fn sorted<V>(s: Seq<(Seq<char>, V)>) -> bool {
    forall|i: int, j: int| 0 <= i < j < s.len() ==> name_lt(#[trigger] s[i].0, #[trigger] s[j].0)
}

/// The first position from `i` on whose name is not before `k`.
pub open spec fn rank_from<V>(s: Seq<(Seq<char>, V)>, k: Seq<char>, i: int) -> int
    decreases s.len() - i,
{
    if 0 <= i < s.len() && name_lt(s[i].0, k) {
        rank_from(s, k, i + 1)
    } else {
        i
    }
}

/// The position at which `k` stands in a sorted list, or would be put.
pub open spec fn rank<V>(s: Seq<(Seq<char>, V)>, k: Seq<char>) -> int {
    rank_from(s, k, 0)
}

/// `s` binds `k`.
pub open spec fn binds<V>(s: Seq<(Seq<char>, V)>, k: Seq<char>) -> bool {
    rank(s, k) < s.len() && s[rank(s, k)].0 == k
}

/// The value that `s` binds `k` to.
pub open spec fn lookup<V>(s: Seq<(Seq<char>, V)>, k: Seq<char>) -> Option<V> {
    if binds(s, k) {
        Some(s[rank(s, k)].1)
    } else {
        None
    }
}

/// `s` with `k` bound to `v`, in place of what it was bound to before.
pub open spec fn with<V>(s: Seq<(Seq<char>, V)>, k: Seq<char>, v: V) -> Seq<(Seq<char>, V)> {
    if binds(s, k) {
        s.update(rank(s, k), (k, v))
    } else {
        s.insert(rank(s, k), (k, v))
    }
}

/// `s` without its binding of `k`.
pub open spec fn without<V>(s: Seq<(Seq<char>, V)>, k: Seq<char>) -> Seq<(Seq<char>, V)> {
    if binds(s, k) {
        s.remove(rank(s, k))
    } else {
        s
    }
}

/// The names of `s`, in order.
pub open spec fn names<V>(s: Seq<(Seq<char>, V)>) -> Seq<Seq<char>> {
    Seq::new(s.len(), |i: int| s[i].0)
}

/// `s` with `f` applied to each value.
pub open spec fn map_values<V, W>(s: Seq<(Seq<char>, V)>, f: spec_fn(V) -> W) -> Seq<
    (Seq<char>, W),
> {
    Seq::new(s.len(), |i: int| (s[i].0, f(s[i].1)))
}

/// No name comes before itself.
pub proof fn lemma_lt_irreflexive(a: Seq<char>, i: int)
    ensures
        !name_lt_from(a, a, i),
    decreases a.len() - i,
{
    if 0 <= i < a.len() {
        lemma_lt_irreflexive(a, i + 1);
    }
}

/// What comes before a name comes before all that the name comes before.
pub proof fn lemma_lt_transitive(a: Seq<char>, b: Seq<char>, c: Seq<char>, i: int)
    requires
        name_lt_from(a, b, i),
        name_lt_from(b, c, i),
    ensures
        name_lt_from(a, c, i),
    decreases a.len() - i,
{
    if i < a.len() && a[i] == b[i] && b[i] == c[i] {
        lemma_lt_transitive(a, b, c, i + 1);
    }
}

/// Of two names that agree up to position `i`, one comes before the
/// other, or they are the same name.
pub proof fn lemma_lt_total(a: Seq<char>, b: Seq<char>, i: int)
    requires
        0 <= i <= a.len(),
        i <= b.len(),
        forall|j: int| 0 <= j < i ==> a[j] == b[j],
    ensures
        name_lt_from(a, b, i) || name_lt_from(b, a, i) || a == b,
    decreases a.len() - i,
{
    if i < a.len() && i < b.len() {
        if a[i] == b[i] {
            lemma_lt_total(a, b, i + 1);
        }
    } else if i == a.len() && i == b.len() {
        assert(a =~= b);
    }
}

/// The order of names is a strict total order.
pub proof fn lemma_name_order(a: Seq<char>, b: Seq<char>, c: Seq<char>)
    ensures
        !name_lt(a, a),
        name_lt(a, b) && name_lt(b, c) ==> name_lt(a, c),
        name_lt(a, b) || name_lt(b, a) || a == b,
        !(name_lt(a, b) && name_lt(b, a)),
{
    lemma_lt_irreflexive(a, 0);
    if name_lt(a, b) && name_lt(b, c) {
        lemma_lt_transitive(a, b, c, 0);
    }
    lemma_lt_total(a, b, 0);
    if name_lt(a, b) && name_lt(b, a) {
        lemma_lt_transitive(a, b, a, 0);
    }
}

/// Where the search from `i` ends: at `p`, when every name in between is
/// before `k` and the one at `p` is not.
pub proof fn lemma_rank_from<V>(s: Seq<(Seq<char>, V)>, k: Seq<char>, i: int, p: int)
    requires
        0 <= i <= p <= s.len(),
        forall|j: int| i <= j < p ==> name_lt(#[trigger] s[j].0, k),
        p < s.len() ==> !name_lt(s[p].0, k),
    ensures
        rank_from(s, k, i) == p,
    decreases p - i,
{
    if i < p {
        lemma_rank_from(s, k, i + 1, p);
    }
}

/// What the search position says of the names around it.
pub proof fn lemma_rank<V>(s: Seq<(Seq<char>, V)>, k: Seq<char>, i: int)
    requires
        0 <= i <= s.len(),
    ensures
        i <= rank_from(s, k, i) <= s.len(),
        forall|j: int| i <= j < rank_from(s, k, i) ==> name_lt(#[trigger] s[j].0, k),
        rank_from(s, k, i) < s.len() ==> !name_lt(s[rank_from(s, k, i)].0, k),
    decreases s.len() - i,
{
    if i < s.len() && name_lt(s[i].0, k) {
        lemma_rank(s, k, i + 1);
    }
}

/// In a sorted list each name is found at its own position.
pub proof fn lemma_rank_of_entry<V>(s: Seq<(Seq<char>, V)>, i: int)
    requires
        sorted(s),
        0 <= i < s.len(),
    ensures
        rank(s, s[i].0) == i,
        binds(s, s[i].0),
        lookup(s, s[i].0) == Some(s[i].1),
{
    lemma_name_order(s[i].0, s[i].0, s[i].0);
    lemma_rank_from(s, s[i].0, 0, i);
}

/// A sorted list binds `k` exactly when one of its entries is named `k`.
pub proof fn lemma_binds<V>(s: Seq<(Seq<char>, V)>, k: Seq<char>)
    requires
        sorted(s),
    ensures
        binds(s, k) <==> exists|i: int| 0 <= i < s.len() && #[trigger] s[i].0 == k,
{
    if binds(s, k) {
        lemma_rank(s, k, 0);
        assert(s[rank(s, k)].0 == k);
    }
    if exists|i: int| 0 <= i < s.len() && #[trigger] s[i].0 == k {
        let i = choose|i: int| 0 <= i < s.len() && #[trigger] s[i].0 == k;
        lemma_rank_of_entry(s, i);
    }
}

/// Binding a name keeps the list sorted.
pub proof fn lemma_with_sorted<V>(s: Seq<(Seq<char>, V)>, k: Seq<char>, v: V)
    requires
        sorted(s),
    ensures
        sorted(with(s, k, v)),
{
    let p = rank(s, k);
    let r = with(s, k, v);
    lemma_rank(s, k, 0);
    assert forall|i: int, j: int| 0 <= i < j < r.len() implies name_lt(
        #[trigger] r[i].0,
        #[trigger] r[j].0,
    ) by {
        if binds(s, k) {
            assert(r[i].0 == s[i].0);
            assert(r[j].0 == s[j].0);
        } else {
            if p < s.len() {
                lemma_name_order(s[p].0, k, k);
                assert(name_lt(k, s[p].0));
            }
            if j < p {
                assert(r[i] == s[i] && r[j] == s[j]);
            } else if j == p {
                assert(r[i] == s[i]);
                assert(name_lt(s[i].0, k));
            } else if i < p {
                assert(r[i] == s[i] && r[j] == s[j - 1]);
                if i < j - 1 {
                } else {
                }
                assert(name_lt(s[i].0, k));
                if p < j - 1 {
                    assert(name_lt(s[p].0, s[j - 1].0));
                    lemma_name_order(k, s[p].0, s[j - 1].0);
                }
                lemma_name_order(s[i].0, k, s[j - 1].0);
            } else if i == p {
                assert(r[j] == s[j - 1]);
                if p < j - 1 {
                    assert(name_lt(s[p].0, s[j - 1].0));
                    lemma_name_order(k, s[p].0, s[j - 1].0);
                }
            } else {
                assert(r[i] == s[i - 1] && r[j] == s[j - 1]);
            }
        }
    }
}

/// Dropping a name keeps the list sorted.
pub proof fn lemma_without_sorted<V>(s: Seq<(Seq<char>, V)>, k: Seq<char>)
    requires
        sorted(s),
    ensures
        sorted(without(s, k)),
{
    let p = rank(s, k);
    let r = without(s, k);
    lemma_rank(s, k, 0);
    assert forall|i: int, j: int| 0 <= i < j < r.len() implies name_lt(
        #[trigger] r[i].0,
        #[trigger] r[j].0,
    ) by {
        if binds(s, k) {
            let i0 = if i < p { i } else { i + 1 };
            let j0 = if j < p { j } else { j + 1 };
            assert(r[i] == s[i0] && r[j] == s[j0]);
        }
    }
}

/// What a list binds after one name was bound anew.
pub proof fn lemma_lookup_with<V>(s: Seq<(Seq<char>, V)>, k: Seq<char>, v: V, q: Seq<char>)
    requires
        sorted(s),
    ensures
        lookup(with(s, k, v), q) == if q == k {
            Some(v)
        } else {
            lookup(s, q)
        },
{
    let p = rank(s, k);
    let r = with(s, k, v);
    lemma_rank(s, k, 0);
    lemma_with_sorted(s, k, v);
    lemma_rank(s, q, 0);
    lemma_rank(r, q, 0);
    assert(r[p] == (k, v));
    if q == k {
        lemma_rank_of_entry(r, p);
    } else {
        lemma_binds(s, q);
        lemma_binds(r, q);
        if binds(s, q) {
            let i = rank(s, q);
            let i1 = if binds(s, k) || i < p { i } else { i + 1 };
            assert(r[i1] == s[i]);
            lemma_rank_of_entry(r, i1);
        } else if binds(r, q) {
            let j = rank(r, q);
            assert(j != p);
            let j0 = if binds(s, k) || j < p { j } else { j - 1 };
            assert(s[j0] == r[j]);
            assert(s[j0].0 == q);
        }
    }
}

/// What a list binds after one name was dropped.
pub proof fn lemma_lookup_without<V>(s: Seq<(Seq<char>, V)>, k: Seq<char>, q: Seq<char>)
    requires
        sorted(s),
    ensures
        lookup(without(s, k), q) == if q == k {
            None
        } else {
            lookup(s, q)
        },
{
    let p = rank(s, k);
    let r = without(s, k);
    lemma_rank(s, k, 0);
    lemma_without_sorted(s, k);
    lemma_rank(s, q, 0);
    lemma_rank(r, q, 0);
    lemma_binds(s, q);
    lemma_binds(r, q);
    if binds(s, k) {
        if binds(r, q) {
            let j = rank(r, q);
            let j0 = if j < p { j } else { j + 1 };
            assert(s[j0] == r[j]);
            lemma_rank_of_entry(s, j0);
            lemma_rank_of_entry(s, p);
            lemma_rank_of_entry(r, j);
        } else if binds(s, q) && q != k {
            let i = rank(s, q);
            let i1 = if i < p { i } else { i - 1 };
            assert(r[i1] == s[i]);
            assert(r[i1].0 == q);
        }
    }
}

/// The search position depends on the names alone.
pub proof fn lemma_rank_same_names<V, W>(
    s: Seq<(Seq<char>, V)>,
    t: Seq<(Seq<char>, W)>,
    k: Seq<char>,
    i: int,
)
    requires
        names(s) == names(t),
    ensures
        rank_from(s, k, i) == rank_from(t, k, i),
    decreases s.len() - i,
{
    assert(names(s).len() == s.len());
    assert(names(t).len() == t.len());
    if 0 <= i < s.len() {
        assert(names(s)[i] == s[i].0);
        assert(names(t)[i] == t[i].0);
        if name_lt(s[i].0, k) {
            lemma_rank_same_names(s, t, k, i + 1);
        }
    }
}

/// Looking up, binding and dropping names go through a change of the
/// values.
pub proof fn lemma_map_values<V, W>(s: Seq<(Seq<char>, V)>, f: spec_fn(V) -> W, k: Seq<char>)
    ensures
        names(map_values(s, f)) == names(s),
        rank(map_values(s, f), k) == rank(s, k),
        binds(map_values(s, f), k) == binds(s, k),
        lookup(map_values(s, f), k) == match lookup(s, k) {
            Some(v) => Some(f(v)),
            None => None,
        },
        without(map_values(s, f), k) == map_values(without(s, k), f),
        sorted(s) ==> sorted(map_values(s, f)),
{
    assert(names(map_values(s, f)) =~= names(s));
    lemma_rank_same_names(map_values(s, f), s, k, 0);
    lemma_rank(s, k, 0);
    assert(without(map_values(s, f), k) =~= map_values(without(s, k), f));
    if sorted(s) {
        let m = map_values(s, f);
        assert forall|i: int, j: int| 0 <= i < j < m.len() implies name_lt(
            #[trigger] m[i].0,
            #[trigger] m[j].0,
        ) by {
            assert(name_lt(s[i].0, s[j].0));
        }
    }
}

/// Binding a name goes through a change of the values.
pub proof fn lemma_map_values_with<V, W>(
    s: Seq<(Seq<char>, V)>,
    f: spec_fn(V) -> W,
    k: Seq<char>,
    v: V,
)
    ensures
        with(map_values(s, f), k, f(v)) == map_values(with(s, k, v), f),
{
    lemma_map_values(s, f, k);
    lemma_rank(s, k, 0);
    assert(with(map_values(s, f), k, f(v)) =~= map_values(with(s, k, v), f));
}

/// `s` has an entry named `k` at position `i` or behind it.
pub open spec fn named_from<V>(s: Seq<(Seq<char>, V)>, i: int, k: Seq<char>) -> bool {
    exists|j: int| i <= j < s.len() && #[trigger] s[j].0 == k
}

/// Two sorted lists that hold the same names from position `i` on are
/// equally long and hold them at the same positions.
proof fn lemma_same_names_from<V, W>(a: Seq<(Seq<char>, V)>, b: Seq<(Seq<char>, W)>, i: int)
    requires
        sorted(a),
        sorted(b),
        0 <= i <= a.len(),
        i <= b.len(),
        forall|k: Seq<char>| #[trigger] named_from(a, i, k) == named_from(b, i, k),
    ensures
        a.len() == b.len(),
        forall|j: int| i <= j < a.len() ==> a[j].0 == b[j].0,
    decreases a.len() - i,
{
    if i == a.len() {
        if i < b.len() {
            assert(b[i].0 == b[i].0);
            assert(named_from(b, i, b[i].0));
            assert(named_from(a, i, b[i].0));
        }
    } else {
        assert(a[i].0 == a[i].0);
        assert(named_from(a, i, a[i].0));
        assert(named_from(b, i, a[i].0));
        let jb = choose|j: int| i <= j < b.len() && #[trigger] b[j].0 == a[i].0;
        assert(b[i].0 == b[i].0);
        assert(named_from(b, i, b[i].0));
        assert(named_from(a, i, b[i].0));
        let ja = choose|j: int| i <= j < a.len() && #[trigger] a[j].0 == b[i].0;
        lemma_name_order(a[i].0, b[i].0, a[i].0);
        if jb > i {
            assert(name_lt(b[i].0, b[jb].0));
        }
        if ja > i {
            assert(name_lt(a[i].0, a[ja].0));
        }
        assert(a[i].0 == b[i].0);
        let n = i + 1;
        assert forall|k: Seq<char>| #[trigger] named_from(a, n, k) == named_from(b, n, k) by {
            lemma_name_order(k, k, k);
            if named_from(a, n, k) {
                let j = choose|j: int| i + 1 <= j < a.len() && #[trigger] a[j].0 == k;
                assert(name_lt(a[i].0, a[j].0));
                assert(named_from(a, i, k));
                assert(named_from(b, i, k));
                let j2 = choose|j: int| i <= j < b.len() && #[trigger] b[j].0 == k;
                assert(j2 != i);
                assert(b[j2].0 == k);
            }
            if named_from(b, n, k) {
                let j = choose|j: int| i + 1 <= j < b.len() && #[trigger] b[j].0 == k;
                assert(name_lt(b[i].0, b[j].0));
                assert(named_from(b, i, k));
                assert(named_from(a, i, k));
                let j2 = choose|j: int| i <= j < a.len() && #[trigger] a[j].0 == k;
                assert(j2 != i);
                assert(a[j2].0 == k);
            }
        }
        lemma_same_names_from(a, b, n);
    }
}

/// Two sorted lists hold the same names in the same order exactly when
/// they bind the same set of names.
pub proof fn lemma_same_names<V, W>(a: Seq<(Seq<char>, V)>, b: Seq<(Seq<char>, W)>)
    requires
        sorted(a),
        sorted(b),
    ensures
        names(a) == names(b) <==> forall|k: Seq<char>| binds(a, k) == binds(b, k),
{
    if names(a) == names(b) {
        assert forall|k: Seq<char>| binds(a, k) == binds(b, k) by {
            lemma_rank_same_names(a, b, k, 0);
            lemma_rank(a, k, 0);
            assert(names(a).len() == a.len());
            assert(names(b).len() == b.len());
            if rank(a, k) < a.len() {
                assert(names(a)[rank(a, k)] == a[rank(a, k)].0);
                assert(names(b)[rank(a, k)] == b[rank(a, k)].0);
            }
        }
    }
    if forall|k: Seq<char>| binds(a, k) == binds(b, k) {
        assert forall|k: Seq<char>| #[trigger] named_from(a, 0, k) == named_from(b, 0, k) by {
            lemma_binds(a, k);
            lemma_binds(b, k);
        }
        lemma_same_names_from(a, b, 0);
        assert(names(a) =~= names(b));
    }
}

/// How two names compare.
#[derive(Debug, Clone, Copy)]
pub enum NameOrder {
    Before,
    Same,
    After,
}

/// Compares two names in the order of names.
pub fn compare_names(a: &[char], b: &[char]) -> (r: NameOrder)
    ensures
        r is Before <==> name_lt(a@, b@),
        r is Same <==> a@ == b@,
        r is After <==> name_lt(b@, a@),
{
    proof {
        lemma_name_order(a@, b@, a@);
    }
    let mut i: usize = 0;
    while i < a.len() && i < b.len()
        invariant
            i <= a.len(),
            i <= b.len(),
            forall|j: int| 0 <= j < i ==> a@[j] == b@[j],
            name_lt(a@, b@) == name_lt_from(a@, b@, i as int),
            name_lt(b@, a@) == name_lt_from(b@, a@, i as int),
        decreases a.len() - i,
    {
        if a[i] < b[i] {
            return NameOrder::Before;
        }
        if b[i] < a[i] {
            return NameOrder::After;
        }
        i += 1;
    }
    if i < b.len() {
        NameOrder::Before
    } else if i < a.len() {
        NameOrder::After
    } else {
        assert(a@ =~= b@);
        NameOrder::Same
    }
}

/// A finite map from names to values of type `V`.
#[derive(Debug)]
pub struct NameMap<V> {
    entries: Vec<(String, V)>,
}

/// The bindings that a list of entries stands for.
pub closed spec fn bindings<V>(entries: Seq<(String, V)>) -> Seq<(Seq<char>, V)> {
    Seq::new(entries.len(), |i: int| (entries[i].0@, entries[i].1))
}

impl<V> NameMap<V> {
    /// The bindings, in increasing order of name.
    pub closed spec fn view(&self) -> Seq<(Seq<char>, V)> {
        bindings(self.entries@)
    }

    #[verifier::type_invariant]
    spec fn well_formed(&self) -> bool {
        sorted(self@)
    }

    /// Every value of the map is smaller than the map, for recursion over
    /// types that hold maps of themselves.
    pub proof fn lemma_value_smaller(&self, i: int)
        requires
            0 <= i < self@.len(),
        ensures
            decreases_to!(self => self@[i].1),
    {
        broadcast use vstd::std_specs::vec::axiom_vec_index_decreases;

        assert(decreases_to!(self.entries => self.entries[i]));
    }

    /// Recalls that the bindings of a map are sorted by name. Does nothing
    /// when run.
    pub fn sorted_view(&self)
        ensures
            sorted(self@),
    {
        proof {
            use_type_invariant(self);
        }
    }

    /// The map that binds nothing.
    pub fn new() -> (r: Self)
        ensures
            r@ == Seq::<(Seq<char>, V)>::empty(),
    {
        let r = NameMap { entries: Vec::new() };
        assert(r@ =~= Seq::<(Seq<char>, V)>::empty());
        r
    }

    /// The number of bindings.
    pub fn len(&self) -> (n: usize)
        ensures
            n == self@.len(),
    {
        self.entries.len()
    }

    /// Whether the map binds nothing.
    pub fn is_empty(&self) -> (r: bool)
        ensures
            r == (self@.len() == 0),
    {
        self.entries.len() == 0
    }

    /// The `i`-th binding in increasing order of name.
    pub fn entry(&self, i: usize) -> (r: Option<(&String, &V)>)
        ensures
            i >= self@.len() ==> r is None,
            i < self@.len() ==> (r matches Some(e) && e.0@ == self@[i as int].0 && *e.1
                == self@[i as int].1),
    {
        if i < self.entries.len() {
            Some((&self.entries[i].0, &self.entries[i].1))
        } else {
            None
        }
    }

    /// Where `key` stands or would be put, and whether it is bound.
    fn position(&self, key: &str) -> (r: (usize, bool))
        ensures
            r.0 == rank(self@, key@),
            r.1 == binds(self@, key@),
            r.0 <= self@.len(),
    {
        let k = to_chars(key);
        let mut i: usize = 0;
        while i < self.entries.len()
            invariant
                i <= self.entries.len(),
                k@ == key@,
                forall|j: int| 0 <= j < i ==> name_lt(#[trigger] self@[j].0, key@),
            decreases self.entries.len() - i,
        {
            let e = to_chars(self.entries[i].0.as_str());
            match compare_names(e.as_slice(), k.as_slice()) {
                NameOrder::Before => {},
                NameOrder::Same => {
                    proof {
                        lemma_name_order(key@, key@, key@);
                        lemma_rank_from(self@, key@, 0, i as int);
                    }
                    return (i, true);
                },
                NameOrder::After => {
                    proof {
                        lemma_name_order(key@, self@[i as int].0, key@);
                        lemma_rank_from(self@, key@, 0, i as int);
                    }
                    return (i, false);
                },
            }
            i += 1;
        }
        proof {
            lemma_rank_from(self@, key@, 0, i as int);
        }
        (i, false)
    }

    /// The value bound to `key`.
    pub fn get(&self, key: &str) -> (r: Option<&V>)
        ensures
            r matches Some(v) ==> lookup(self@, key@) == Some(*v),
            r is None ==> lookup(self@, key@) is None,
    {
        let (p, found) = self.position(key);
        if found {
            Some(&self.entries[p].1)
        } else {
            None
        }
    }

    /// Whether the map binds `key`.
    pub fn contains_key(&self, key: &str) -> (r: bool)
        ensures
            r == binds(self@, key@),
    {
        self.position(key).1
    }

    /// Binds `key` to `value` and returns what it was bound to before.
    pub fn insert(&mut self, key: String, value: V) -> (r: Option<V>)
        ensures
            final(self)@ == with(old(self)@, key@, value),
            r == lookup(old(self)@, key@),
    {
        proof {
            use_type_invariant(&*self);
            lemma_with_sorted(self@, key@, value);
        }
        let (p, found) = self.position(key.as_str());
        let mut entries: Vec<(String, V)> = Vec::new();
        core::mem::swap(&mut self.entries, &mut entries);
        assert(self@ =~= Seq::<(Seq<char>, V)>::empty());
        let before = if found {
            let e = entries.remove(p);
            Some(e.1)
        } else {
            None
        };
        entries.insert(p, (key, value));
        assert(bindings(entries@) =~= with(old(self)@, key@, value));
        self.entries = entries;
        before
    }

    /// Drops the binding of `key` and returns what it was bound to.
    pub fn remove(&mut self, key: &str) -> (r: Option<V>)
        ensures
            final(self)@ == without(old(self)@, key@),
            r == lookup(old(self)@, key@),
    {
        proof {
            use_type_invariant(&*self);
            lemma_without_sorted(self@, key@);
        }
        let (p, found) = self.position(key);
        if found {
            let mut entries: Vec<(String, V)> = Vec::new();
            core::mem::swap(&mut self.entries, &mut entries);
            assert(self@ =~= Seq::<(Seq<char>, V)>::empty());
            let e = entries.remove(p);
            assert(bindings(entries@) =~= without(old(self)@, key@));
            self.entries = entries;
            Some(e.1)
        } else {
            None
        }
    }

    /// Adds a binding whose name comes after every name of the map.
    pub(crate) fn push_last(&mut self, key: String, value: V)
        requires
            forall|i: int|
                0 <= i < old(self)@.len() ==> name_lt(#[trigger] old(self)@[i].0, key@),
        ensures
            final(self)@ == old(self)@.push((key@, value)),
    {
        proof {
            use_type_invariant(&*self);
        }
        let mut entries: Vec<(String, V)> = Vec::new();
        core::mem::swap(&mut self.entries, &mut entries);
        assert(self@ =~= Seq::<(Seq<char>, V)>::empty());
        entries.push((key, value));
        assert(bindings(entries@) =~= old(self)@.push((key@, value)));
        self.entries = entries;
    }
}

} // verus!
