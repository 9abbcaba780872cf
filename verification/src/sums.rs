use vstd::prelude::*;
use std::collections::HashMap;
use vstd::std_specs::iter::IteratorSpec;

verus! {

broadcast use vstd::std_specs::hash::group_hash_axioms;

/// The sum of `f(k)` over all keys `k` of a finite set.
pub open spec fn sum_over(keys: Set<usize>, f: spec_fn(usize) -> int) -> int
    decreases keys.len(),
    when keys.finite()
{
    if keys.len() == 0 {
        0
    } else {
        let k = keys.choose();
        f(k) + sum_over(keys.remove(k), f)
    }
}

/// Removing any one key splits it off the sum.
pub proof fn lemma_sum_over_remove(keys: Set<usize>, f: spec_fn(usize) -> int, k: usize)
    requires
        keys.finite(),
        keys.contains(k),
    ensures
        sum_over(keys, f) == f(k) + sum_over(keys.remove(k), f),
    decreases keys.len(),
{
    let c = keys.choose();
    if c != k {
        lemma_sum_over_remove(keys.remove(c), f, k);
        lemma_sum_over_remove(keys.remove(k), f, c);
        assert(keys.remove(c).remove(k) =~= keys.remove(k).remove(c));
    }
}

/// On a non-negative `f`, the sum over a subset is at most the sum over the whole set.
pub proof fn lemma_sum_over_subset(a: Set<usize>, b: Set<usize>, f: spec_fn(usize) -> int)
    requires
        b.finite(),
        a.subset_of(b),
        forall|k: usize| b.contains(k) ==> f(k) >= 0,
    ensures
        sum_over(a, f) <= sum_over(b, f),
    decreases b.len(),
{
    vstd::set_lib::lemma_len_subset(a, b);
    if a =~= b {
    } else {
        let k = choose|k: usize| b.contains(k) && !a.contains(k);
        lemma_sum_over_remove(b, f, k);
        lemma_sum_over_subset(a, b.remove(k), f);
    }
}

/// The value a map of counts holds at `k`, 0 where it holds none.
pub open spec fn held(m: Map<usize, usize>, k: usize) -> int {
    if m.contains_key(k) { m[k] as int } else { 0 }
}

/// A sum of terms each at most `b` is at most `b` times the number of terms.
pub proof fn lemma_sum_over_bound(keys: Set<usize>, f: spec_fn(usize) -> int, b: int)
    requires
        keys.finite(),
        b >= 0,
        forall|k: usize| keys.contains(k) ==> 0 <= #[trigger] f(k) <= b,
    ensures
        0 <= sum_over(keys, f) <= keys.len() * b,
    decreases keys.len(),
{
    if keys.len() > 0 {
        let c = keys.choose();
        lemma_sum_over_bound(keys.remove(c), f, b);
        assert(keys.remove(c).len() * b + b == keys.len() * b) by (nonlinear_arith)
            requires keys.remove(c).len() + 1 == keys.len();
    }
}

/// Setting the term of one key (new or not) raises a non-negative sum by at most that term.
pub proof fn lemma_sum_over_set_term(keys: Set<usize>, f: spec_fn(usize) -> int, g: spec_fn(usize) -> int, k: usize)
    requires
        keys.finite(),
        forall|x: usize| keys.contains(x) && x != k ==> f(x) == g(x),
        forall|x: usize| keys.contains(x) ==> f(x) >= 0,
    ensures
        sum_over(keys.insert(k), g) <= sum_over(keys, f) + g(k),
{
    if keys.contains(k) {
        assert(keys.insert(k) =~= keys);
        lemma_sum_over_update(keys, f, g, k);
    } else {
        lemma_sum_over_insert(keys, g, k);
        lemma_sum_over_congruent(keys, f, g);
    }
}

/// One term of a non-negative sum is at most the sum.
pub proof fn lemma_sum_over_term(keys: Set<usize>, f: spec_fn(usize) -> int, k: usize)
    requires
        keys.finite(),
        keys.contains(k),
        forall|x: usize| keys.contains(x) ==> f(x) >= 0,
    ensures
        f(k) <= sum_over(keys, f),
{
    lemma_sum_over_remove(keys, f, k);
    lemma_sum_over_nonneg(keys.remove(k), f);
}

/// A sum of non-negative terms is non-negative.
pub proof fn lemma_sum_over_nonneg(keys: Set<usize>, f: spec_fn(usize) -> int)
    requires
        keys.finite(),
        forall|x: usize| keys.contains(x) ==> f(x) >= 0,
    ensures
        sum_over(keys, f) >= 0,
    decreases keys.len(),
{
    if keys.len() > 0 {
        lemma_sum_over_nonneg(keys.remove(keys.choose()), f);
    }
}

/// The sum of a pointwise sum is the sum of the sums.
pub proof fn lemma_sum_over_add(keys: Set<usize>, f: spec_fn(usize) -> int, g: spec_fn(usize) -> int, h: spec_fn(usize) -> int)
    requires
        keys.finite(),
        forall|k: usize| keys.contains(k) ==> h(k) == f(k) + g(k),
    ensures
        sum_over(keys, h) == sum_over(keys, f) + sum_over(keys, g),
    decreases keys.len(),
{
    if keys.len() > 0 {
        lemma_sum_over_add(keys.remove(keys.choose()), f, g, h);
    }
}

/// A double sum over two finite sets can be taken in either order.
pub proof fn lemma_sum_over_exchange(outer: Set<usize>, inner: Set<usize>, g: spec_fn(usize, usize) -> int)
    requires
        outer.finite(),
        inner.finite(),
    ensures
        sum_over(outer, |s: usize| sum_over(inner, |j: usize| g(s, j)))
            == sum_over(inner, |j: usize| sum_over(outer, |s: usize| g(s, j))),
    decreases outer.len(),
{
    if outer.len() > 0 {
        let c = outer.choose();
        let rest = outer.remove(c);
        lemma_sum_over_exchange(rest, inner, g);
        let left = |s: usize| sum_over(inner, |j: usize| g(s, j));
        assert(sum_over(outer, left) == left(c) + sum_over(rest, left));
        let by_rest = |j: usize| sum_over(rest, |s: usize| g(s, j));
        let by_all = |j: usize| sum_over(outer, |s: usize| g(s, j));
        assert forall|j: usize| inner.contains(j) implies by_all(j) == g(c, j) + by_rest(j) by {
            lemma_sum_over_remove(outer, |s: usize| g(s, j), c);
        }
        lemma_sum_over_add(inner, |j: usize| g(c, j), by_rest, by_all);
    } else {
        let by_all = |j: usize| sum_over(outer, |s: usize| g(s, j));
        lemma_sum_over_congruent(inner, by_all, |j: usize| 0int);
        lemma_sum_over_zero(inner);
    }
}

/// Terms that are zero outside a subset add nothing to the sum.
pub proof fn lemma_sum_over_zero_outside(a: Set<usize>, b: Set<usize>, f: spec_fn(usize) -> int)
    requires
        b.finite(),
        a.subset_of(b),
        forall|k: usize| b.contains(k) && !a.contains(k) ==> f(k) == 0,
    ensures
        sum_over(b, f) == sum_over(a, f),
    decreases b.len(),
{
    vstd::set_lib::lemma_len_subset(a, b);
    if a =~= b {
    } else {
        let k = choose|k: usize| b.contains(k) && !a.contains(k);
        lemma_sum_over_remove(b, f, k);
        lemma_sum_over_zero_outside(a, b.remove(k), f);
    }
}

/// A sum is at most a sum of terms at least as large.
pub proof fn lemma_sum_over_le(keys: Set<usize>, f: spec_fn(usize) -> int, g: spec_fn(usize) -> int)
    requires
        keys.finite(),
        forall|k: usize| keys.contains(k) ==> f(k) <= g(k),
    ensures
        sum_over(keys, f) <= sum_over(keys, g),
    decreases keys.len(),
{
    if keys.len() > 0 {
        lemma_sum_over_le(keys.remove(keys.choose()), f, g);
    }
}

/// Setting the count of `k` to `v` changes the sum of a map's values by `v` minus what
/// `k` held.
pub proof fn lemma_value_sum_insert(m: Map<usize, usize>, k: usize, v: usize)
    requires
        m.dom().finite(),
    ensures
        value_sum(m.insert(k, v)) == value_sum(m) + v - held(m, k),
{
    let m2 = m.insert(k, v);
    if m.contains_key(k) {
        assert(m2.dom() =~= m.dom());
        lemma_sum_over_update(m.dom(), value_of(m), value_of(m2), k);
    } else {
        lemma_sum_over_insert(m.dom(), value_of(m2), k);
        assert(m2.dom() =~= m.dom().insert(k));
        lemma_sum_over_congruent(m.dom(), value_of(m), value_of(m2));
    }
}

/// The sum of zeros is zero.
pub proof fn lemma_sum_over_zero(keys: Set<usize>)
    requires
        keys.finite(),
    ensures
        sum_over(keys, |k: usize| 0int) == 0,
    decreases keys.len(),
{
    if keys.len() > 0 {
        lemma_sum_over_zero(keys.remove(keys.choose()));
    }
}

/// Two functions that agree on a set have the same sum over it.
pub proof fn lemma_sum_over_congruent(keys: Set<usize>, f: spec_fn(usize) -> int, g: spec_fn(usize) -> int)
    requires
        keys.finite(),
        forall|k: usize| keys.contains(k) ==> f(k) == g(k),
    ensures
        sum_over(keys, f) == sum_over(keys, g),
    decreases keys.len(),
{
    if keys.len() > 0 {
        let c = keys.choose();
        lemma_sum_over_congruent(keys.remove(c), f, g);
    }
}

/// Changing `f` at one key of the set changes the sum by the same amount.
pub proof fn lemma_sum_over_update(keys: Set<usize>, f: spec_fn(usize) -> int, g: spec_fn(usize) -> int, k: usize)
    requires
        keys.finite(),
        keys.contains(k),
        forall|x: usize| keys.contains(x) && x != k ==> f(x) == g(x),
    ensures
        sum_over(keys, g) == sum_over(keys, f) + g(k) - f(k),
{
    lemma_sum_over_remove(keys, f, k);
    lemma_sum_over_remove(keys, g, k);
    lemma_sum_over_congruent(keys.remove(k), f, g);
}

/// Adding a key that is not yet in the set adds its term to the sum.
pub proof fn lemma_sum_over_insert(keys: Set<usize>, f: spec_fn(usize) -> int, k: usize)
    requires
        keys.finite(),
        !keys.contains(k),
    ensures
        sum_over(keys.insert(k), f) == f(k) + sum_over(keys, f),
{
    lemma_sum_over_remove(keys.insert(k), f, k);
    assert(keys.insert(k).remove(k) =~= keys);
}

/// The keys of a sequence of map entries.
pub open spec fn entry_keys<V>(s: Seq<(&usize, &V)>) -> Set<usize> {
    s.map_values(|p: (&usize, &V)| *p.0).to_set()
}

/// Pushing onto a sequence adds the element to its set.
pub proof fn lemma_push_to_set(s: Seq<usize>, x: usize)
    ensures
        s.push(x).to_set() =~= s.to_set().insert(x),
{
    assert forall|e: usize| #[trigger] s.push(x).to_set().contains(e) implies s.to_set().insert(x).contains(e) by {
        let j = choose|j: int| 0 <= j < s.push(x).len() && s.push(x)[j] == e;
        if j < s.len() {
            assert(s[j] == e);
        }
    }
    assert forall|e: usize| #[trigger] s.to_set().insert(x).contains(e) implies s.push(x).to_set().contains(e) by {
        if e == x {
            assert(s.push(x)[s.len() as int] == e);
        } else {
            let j = choose|j: int| 0 <= j < s.len() && s[j] == e;
            assert(s.push(x)[j] == e);
        }
    }
}

/// `all` lists every entry of `m` once, as a walk over a hash map does.
pub open spec fn is_walk<V>(m: Map<usize, V>, all: Seq<(&usize, &V)>) -> bool {
    &&& all.no_duplicates()
    &&& all.len() == m.dom().len()
    &&& forall|i: int|
        #![trigger all[i]]
        0 <= i < all.len() ==> m.contains_key(*all[i].0) && m[*all[i].0] == *all[i].1
    &&& forall|k: usize| #[trigger] m.contains_key(k) ==> all.contains((&k, &m[k]))
}

/// One step of a walk adds a fresh key of the map to the keys visited so far.
pub proof fn lemma_walk_step<V>(m: Map<usize, V>, all: Seq<(&usize, &V)>, i: int)
    requires
        is_walk(m, all),
        0 <= i < all.len(),
    ensures
        m.contains_key(*all[i].0),
        m[*all[i].0] == *all[i].1,
        !entry_keys(all.take(i)).contains(*all[i].0),
        entry_keys(all.take(i + 1)) == entry_keys(all.take(i)).insert(*all[i].0),
        entry_keys(all.take(i + 1)).subset_of(m.dom()),
        entry_keys(all.take(i + 1)).finite(),
{
    let k = *all[i].0;
    let pre = all.take(i);
    let post = all.take(i + 1);
    assert(all[i] == post[i]);
    assert(post.map_values(|p: (&usize, &V)| *p.0) =~= pre.map_values(|p: (&usize, &V)| *p.0).push(k));
    lemma_push_to_set(pre.map_values(|p: (&usize, &V)| *p.0), k);
    if entry_keys(pre).contains(k) {
        let ks = pre.map_values(|p: (&usize, &V)| *p.0);
        let j = choose|j: int| 0 <= j < ks.len() && ks[j] == k;
        assert(all[j] == pre[j]);
        assert(*all[j].0 == k);
        assert(all[j] == all[i]);
    }
    assert forall|x: usize| entry_keys(post).contains(x) implies m.dom().contains(x) by {
        let ks = post.map_values(|p: (&usize, &V)| *p.0);
        let j = choose|j: int| 0 <= j < ks.len() && ks[j] == x;
        assert(all[j] == post[j]);
    }
    vstd::seq_lib::seq_to_set_is_finite(post.map_values(|p: (&usize, &V)| *p.0));
}

/// Nothing has been visited before a walk starts.
pub proof fn lemma_walk_start<V>(all: Seq<(&usize, &V)>)
    ensures
        entry_keys(all.take(0)) == Set::<usize>::empty(),
        entry_keys(all.take(0)).finite(),
{
    assert(entry_keys(all.take(0)) =~= Set::<usize>::empty());
}

/// The keys visited by a full walk of a map are exactly its domain.
pub proof fn lemma_walk_done<V>(m: Map<usize, V>, all: Seq<(&usize, &V)>)
    requires
        is_walk(m, all),
    ensures
        entry_keys(all.take(all.len() as int)) == m.dom(),
{
    assert(all.take(all.len() as int) =~= all);
    assert forall|k: usize| #[trigger] m.dom().contains(k) implies entry_keys(all).contains(k) by {
        assert(m.contains_key(k));
        let j = choose|j: int| 0 <= j < all.len() && all[j] == (&k, &m[k]);
        assert(all.map_values(|p: (&usize, &V)| *p.0)[j] == k);
    }
    assert forall|k: usize| #[trigger] entry_keys(all).contains(k) implies m.dom().contains(k) by {
        let ks = all.map_values(|p: (&usize, &V)| *p.0);
        let j = choose|j: int| 0 <= j < ks.len() && ks[j] == k;
        assert(all[j] == all[j]);
    }
    assert(entry_keys(all) =~= m.dom());
}

/// The sum of the values of a map keyed by integers.
pub open spec fn value_sum(m: Map<usize, usize>) -> int {
    sum_over(m.dom(), value_of(m))
}

/// Reading a map at a key, as an integer.
pub open spec fn value_of(m: Map<usize, usize>) -> spec_fn(usize) -> int {
    |k: usize| m[k] as int
}

/// Adds up the values of a map.
pub fn map_total(m: &HashMap<usize, usize>) -> (r: usize)
    requires
        value_sum(m@) <= usize::MAX,
    ensures
        r == value_sum(m@),
{
    let mut acc: usize = 0;
    let ghost f = value_of(m@);
    let ghost all = vstd::std_specs::hash::spec_hash_map_iter(m).remaining();
    proof {
        lemma_walk_start(all);
    }
    for (k, v) in it: m.iter()
        invariant
            it.seq() == all,
            is_walk(m@, all),
            f == value_of(m@),
            value_sum(m@) <= usize::MAX,
            acc == sum_over(entry_keys(all.take(it.index() as int)), f),
    {
        proof {
            let i = it.index() as int;
            lemma_walk_step(m@, all, i);
            lemma_sum_over_insert(entry_keys(all.take(i)), f, *k);
            lemma_sum_over_subset(entry_keys(all.take(i + 1)), m@.dom(), f);
        }
        acc = acc + *v;
    }
    proof {
        lemma_walk_done(m@, all);
    }
    acc
}

} // verus!
