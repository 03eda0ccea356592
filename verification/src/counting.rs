//! How many orderings there are: `n` things have `n!` of them, so that a list
//! of `n!` entries which holds every ordering holds nothing else, and none
//! twice.

use crate::permute::{
    each_ordering_once, every_ordering, factorial, is_ordering, lemma_ordering_onto,
    lemma_ordering_without_last,
};
use vstd::prelude::*;
use vstd::relations::injective_on;
use vstd::set_lib::{
    lemma_int_range, lemma_map_size, lemma_set_disjoint_lens, lemma_subset_equality,
    set_int_range,
};

verus! {

/// The orderings of `n` things.
pub open spec fn ordering_set(n: nat) -> Set<Seq<usize>> {
    Set::new(|order: Seq<usize>| is_ordering(order, n))
}

/// The orderings of `n` things that have the last thing at place `k`.
spec fn with_last_at(n: nat, k: int) -> Set<Seq<usize>> {
    Set::new(|order: Seq<usize>| is_ordering(order, n) && order[k] == n - 1)
}

/// The orderings of `n` things that have the last thing at a place below
/// `limit`.
spec fn with_last_below(n: nat, limit: int) -> Set<Seq<usize>> {
    Set::new(
        |order: Seq<usize>|
            is_ordering(order, n) && exists|k: int| 0 <= k < limit && #[trigger] order[k] == n - 1,
    )
}

/// Puts the last of `n` things at place `k` of an ordering of the others.
spec fn put_last(n: nat, k: int) -> spec_fn(Seq<usize>) -> Seq<usize> {
    |order: Seq<usize>| order.insert(k, (n - 1) as usize)
}

/// An ordering of `n` things without its last thing is an ordering of the
/// others, and putting the last thing back where it was gives the ordering
/// again.
proof fn lemma_take_last_out(order: Seq<usize>, n: nat, k: int)
    requires
        is_ordering(order, n),
        0 <= k < n,
        order[k] == n - 1,
    ensures
        is_ordering(order.remove(k), (n - 1) as nat),
        put_last(n, k)(order.remove(k)) == order,
{
    lemma_ordering_without_last(order, n, k);
}

/// An ordering of `n - 1` things with the last of `n` things put at a place
/// is an ordering of the `n` things, and taking the last thing out gives the
/// ordering of the others again.
proof fn lemma_put_last_in(rest: Seq<usize>, n: nat, k: int)
    requires
        1 <= n <= usize::MAX,
        is_ordering(rest, (n - 1) as nat),
        0 <= k < n,
    ensures
        is_ordering(put_last(n, k)(rest), n),
        put_last(n, k)(rest)[k] == n - 1,
        put_last(n, k)(rest).remove(k) == rest,
{
}

/// There are as many orderings of `n` things with the last thing at place
/// `k` as there are orderings of the others.
proof fn lemma_count_with_last_at(n: nat, k: int)
    requires
        1 <= n <= usize::MAX,
        0 <= k < n,
        ordering_set((n - 1) as nat).finite(),
    ensures
        with_last_at(n, k).finite(),
        with_last_at(n, k).len() == ordering_set((n - 1) as nat).len(),
{
    let others = ordering_set((n - 1) as nat);
    let put = put_last(n, k);
    assert(injective_on(put, others)) by {
        assert forall|a: Seq<usize>, b: Seq<usize>|
            others.contains(a) && others.contains(b) && #[trigger] put(a) == #[trigger] put(
                b,
            ) implies a == b by {
            lemma_put_last_in(a, n, k);
            lemma_put_last_in(b, n, k);
        }
    }
    assert(others.map(put) =~= with_last_at(n, k)) by {
        assert forall|order: Seq<usize>| others.map(put).contains(order) implies with_last_at(
            n,
            k,
        ).contains(order) by {
            let rest = choose|rest: Seq<usize>| others.contains(rest) && order == put(rest);
            lemma_put_last_in(rest, n, k);
        }
        assert forall|order: Seq<usize>| with_last_at(n, k).contains(order) implies others.map(
            put,
        ).contains(order) by {
            lemma_take_last_out(order, n, k);
            assert(others.contains(order.remove(k)));
        }
    }
    lemma_map_size(others, with_last_at(n, k), put);
}

/// There are `limit` times as many orderings of `n` things with the last
/// thing at a place below `limit` as there are orderings of the others.
proof fn lemma_count_with_last_below(n: nat, limit: int)
    requires
        1 <= n <= usize::MAX,
        0 <= limit <= n,
        ordering_set((n - 1) as nat).finite(),
    ensures
        with_last_below(n, limit).finite(),
        with_last_below(n, limit).len() == limit * ordering_set((n - 1) as nat).len(),
    decreases limit,
{
    let each = ordering_set((n - 1) as nat).len();
    if limit == 0 {
        assert(with_last_below(n, 0) =~= Set::<Seq<usize>>::empty());
    } else {
        let before = with_last_below(n, limit - 1);
        let here = with_last_at(n, limit - 1);
        lemma_count_with_last_below(n, limit - 1);
        lemma_count_with_last_at(n, limit - 1);
        assert(before.disjoint(here));
        assert(before + here =~= with_last_below(n, limit));
        lemma_set_disjoint_lens(before, here);
        assert(limit * each == (limit - 1) * each + each) by (nonlinear_arith);
    }
}

/// `n` things have `n!` orderings.
pub proof fn lemma_count_orderings(n: nat)
    requires
        n <= usize::MAX,
    ensures
        ordering_set(n).finite(),
        ordering_set(n).len() == factorial(n),
    decreases n,
{
    if n == 0 {
        assert(ordering_set(0) =~= set![Seq::<usize>::empty()]) by {
            assert forall|order: Seq<usize>| ordering_set(0).contains(order) implies order
                == Seq::<usize>::empty() by {}
        }
    } else {
        lemma_count_orderings((n - 1) as nat);
        lemma_count_with_last_below(n, n as int);
        assert(with_last_below(n, n as int) =~= ordering_set(n)) by {
            assert forall|order: Seq<usize>| ordering_set(n).contains(
                order,
            ) implies with_last_below(n, n as int).contains(order) by {
                lemma_ordering_onto(order, n, n - 1);
            }
        }
    }
}

/// Where an ordering stands in a list that holds it.
spec fn place_of(all: Seq<Seq<usize>>) -> spec_fn(Seq<usize>) -> int {
    |order: Seq<usize>| choose|k: int| 0 <= k < all.len() && (#[trigger] all[k]) == order
}

/// A list of `n!` entries that holds every ordering of `n` things holds
/// nothing else.
proof fn lemma_full_list_has_orderings_only(all: Seq<Seq<usize>>, n: nat)
    requires
        n <= usize::MAX,
        every_ordering(all, n),
    ensures
        forall|k: int| 0 <= k < all.len() ==> is_ordering(#[trigger] all[k], n),
{
    lemma_count_orderings(n);
    let orders = ordering_set(n);
    let place = place_of(all);
    let places = set_int_range(0, all.len() as int);
    lemma_int_range(0, all.len() as int);
    // every ordering has a place in the list, and stands there
    assert forall|order: Seq<usize>| orders.contains(order) implies 0 <= place(order) < all.len()
        && all[place(order)] == order by {}
    assert(injective_on(place, orders));
    // so the orderings take up as many places as there are orderings: all
    let taken = orders.map(place);
    lemma_map_size(orders, taken, place);
    assert(taken.subset_of(places));
    lemma_subset_equality(taken, places);
    assert forall|k: int| 0 <= k < all.len() implies is_ordering(#[trigger] all[k], n) by {
        assert(taken.contains(k));
    }
}

/// A list of `n!` entries that holds every ordering of `n` things holds
/// nothing else, and none of them twice.
pub proof fn lemma_full_list_is_exact(all: Seq<Seq<usize>>, n: nat)
    requires
        n <= usize::MAX,
        every_ordering(all, n),
    ensures
        each_ordering_once(all, n),
{
    lemma_count_orderings(n);
    lemma_full_list_has_orderings_only(all, n);
    assert(all.to_set() =~= ordering_set(n));
    all.lemma_no_dup_set_cardinality();
}

} // verus!
