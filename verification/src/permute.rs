//! Orderings of a token set: which they are, how many, and how to lay the
//! tokens out in one.

use crate::counting::lemma_full_list_is_exact;
use crate::join::{joined, lemma_joined_len, total_len, views};
use permutohedron::Heap;
use vstd::prelude::*;
use vstd::set_lib::{lemma_int_range, lemma_subset_equality, set_int_range};

verus! {

/// `permutohedron::Heap`, the generator of permutations by Heap's algorithm,
/// taken as it is: nothing is known of what a value holds but what
/// `heap_rest` names.
#[verifier::external_type_specification]
#[verifier::external_body]
#[verifier::reject_recursive_types(Data)]
#[verifier::reject_recursive_types(T)]
pub struct ExHeap<'a, Data: 'a + ?Sized, T: 'a>(Heap<'a, Data, T>);

/// Most tokens that one sweep can take: `permutohedron::MAXHEAP`.
pub const MAX_TOKENS: usize = 16;

/// The orderings of `n` things, handed out one at a time. Nothing is held
/// but the working buffer that the generator was started on.
pub struct Orderings<'a> {
    heap: Heap<'a, Vec<usize>, usize>,
}

/// `n!`, the number of orderings of `n` things.
pub open spec fn factorial(n: nat) -> nat
    decreases n,
{
    if n == 0 {
        1
    } else {
        n * factorial((n - 1) as nat)
    }
}

/// An ordering of `n` things: each of the positions `0 .. n` named once.
pub open spec fn is_ordering(order: Seq<usize>, n: nat) -> bool {
    &&& order.len() == n
    &&& forall|i: int| 0 <= i < order.len() ==> (#[trigger] order[i]) < n
    &&& forall|i: int, j: int|
        0 <= i < j < order.len() ==> (#[trigger] order[i]) != (#[trigger] order[j])
}

/// The items laid out in the given order: at place `i` stands the item that
/// `order[i]` names.
pub open spec fn arranged<T>(items: Seq<T>, order: Seq<usize>) -> Seq<T> {
    Seq::new(order.len(), |i: int| items[order[i] as int])
}

/// What a list of orderings holds.
pub open spec fn order_views(orders: Seq<Vec<usize>>) -> Seq<Seq<usize>> {
    Seq::new(orders.len(), |i: int| orders[i]@)
}

/// Whether `all` has `n!` entries and every ordering of `n` things is one of
/// them.
pub open spec fn every_ordering(all: Seq<Seq<usize>>, n: nat) -> bool {
    &&& all.len() == factorial(n)
    &&& forall|order: Seq<usize>| #[trigger]
        is_ordering(order, n) ==> exists|k: int| 0 <= k < all.len() && (#[trigger] all[k]) == order
}

/// Whether `all` lists the orderings of `n` things in full and without
/// repeating one: there are `n!` entries, every ordering is an entry, every
/// entry is an ordering, and no two entries are the same.
pub open spec fn each_ordering_once(all: Seq<Seq<usize>>, n: nat) -> bool {
    &&& every_ordering(all, n)
    &&& forall|k: int| 0 <= k < all.len() ==> is_ordering(#[trigger] all[k], n)
    &&& forall|j: int, k: int|
        0 <= j < k < all.len() ==> (#[trigger] all[j]) != (#[trigger] all[k])
}

/// The orderings that a generator has yet to hand out, in the order in which
/// it will.
pub uninterp spec fn heap_rest(heap: Heap<'_, Vec<usize>, usize>) -> Seq<Seq<usize>>;

/// A factorial is at least one, and no smaller than that of a smaller number.
pub proof fn lemma_factorial_grows(m: nat, n: nat)
    requires
        m <= n,
    ensures
        1 <= factorial(m) <= factorial(n),
    decreases n,
{
    if n == 0 {
        // both are zero, and the factorial of zero is one
    } else if m == n {
        lemma_factorial_grows((m - 1) as nat, (n - 1) as nat);
        assert(n * factorial((n - 1) as nat) >= 1) by (nonlinear_arith)
            requires
                n >= 1,
                factorial((n - 1) as nat) >= 1,
        ;
    } else {
        lemma_factorial_grows(m, (n - 1) as nat);
        assert(n * factorial((n - 1) as nat) >= factorial((n - 1) as nat)) by (nonlinear_arith)
            requires
                n >= 1,
        ;
    }
}

/// An ordering of `n` things names every position below `n`.
pub proof fn lemma_ordering_onto(order: Seq<usize>, n: nat, position: int)
    requires
        is_ordering(order, n),
        0 <= position < n,
    ensures
        exists|k: int| 0 <= k < n && order[k] == position,
{
    let named = order.map_values(|v: usize| v as int);
    named.unique_seq_to_set();
    lemma_int_range(0, n as int);
    let below = set_int_range(0, n as int);
    assert(named.to_set().subset_of(below));
    lemma_subset_equality(named.to_set(), below);
    assert(below.contains(position));
}

/// An ordering of `n` things without its last thing is an ordering of the
/// others.
pub proof fn lemma_ordering_without_last(order: Seq<usize>, n: nat, k: int)
    requires
        is_ordering(order, n),
        0 <= k < n,
        order[k] == n - 1,
    ensures
        is_ordering(order.remove(k), (n - 1) as nat),
{
    let rest = order.remove(k);
    // the last thing is at place `k` alone, so what is left names the others
    assert forall|i: int| 0 <= i < rest.len() implies (#[trigger] rest[i]) < n - 1 by {
        if i < k {
            assert(order[i] != order[k]);
        } else {
            assert(order[k] != order[i + 1]);
        }
    }
}

/// Items that all differ, laid out in two orderings that differ, give two
/// sequences that differ: of `n` different tokens there are `n!` different
/// candidates.
pub proof fn lemma_arranged_differ<T>(items: Seq<T>, first: Seq<usize>, second: Seq<usize>)
    requires
        is_ordering(first, items.len()),
        is_ordering(second, items.len()),
        first != second,
        forall|i: int, j: int| 0 <= i < j < items.len() ==> items[i] != items[j],
    ensures
        arranged(items, first) != arranged(items, second),
{
    if arranged(items, first) == arranged(items, second) {
        assert forall|i: int| 0 <= i < first.len() implies first[i] == second[i] by {
            assert(arranged(items, first)[i] == arranged(items, second)[i]);
        }
        assert(first =~= second);
    }
}

/// The total length is the length of one token plus that of the rest.
proof fn lemma_total_len_remove(tokens: Seq<Seq<u8>>, k: int)
    requires
        0 <= k < tokens.len(),
    ensures
        total_len(tokens) == total_len(tokens.remove(k)) + tokens[k].len(),
    decreases tokens.len(),
{
    if k < tokens.len() - 1 {
        lemma_total_len_remove(tokens.drop_last(), k);
        assert(tokens.remove(k).drop_last() =~= tokens.drop_last().remove(k));
    }
}

/// Laying the tokens out in another order leaves their total length as it
/// is.
pub proof fn lemma_arranged_total_len(tokens: Seq<Seq<u8>>, order: Seq<usize>)
    requires
        is_ordering(order, tokens.len()),
    ensures
        total_len(arranged(tokens, order)) == total_len(tokens),
    decreases tokens.len(),
{
    let n = tokens.len();
    let laid = arranged(tokens, order);
    if n > 0 {
        lemma_ordering_onto(order, n, n - 1);
        let k = choose|k: int| 0 <= k < n && order[k] == n - 1;
        let rest = order.remove(k);
        let front = tokens.drop_last();
        lemma_ordering_without_last(order, n, k);
        lemma_arranged_total_len(front, rest);
        assert(laid.remove(k) =~= arranged(front, rest));
        lemma_total_len_remove(laid, k);
    }
}

/// The joined string is as long in every ordering of the tokens.
pub proof fn lemma_arranged_joined_len(tokens: Seq<Seq<u8>>, order: Seq<usize>, sep: Seq<u8>)
    requires
        is_ordering(order, tokens.len()),
    ensures
        joined(arranged(tokens, order), sep).len() == joined(tokens, sep).len(),
{
    lemma_arranged_total_len(tokens, order);
    lemma_joined_len(tokens, sep);
    lemma_joined_len(arranged(tokens, order), sep);
}

/// `n!`, where it fits in `usize`.
pub fn checked_factorial(n: usize) -> (product: Option<usize>)
    ensures
        match product {
            Some(f) => f == factorial(n as nat),
            None => factorial(n as nat) > usize::MAX,
        },
{
    let mut acc: usize = 1;
    let mut i: usize = 0;
    while i < n
        invariant
            0 <= i <= n,
            acc == factorial(i as nat),
        decreases n - i,
    {
        i += 1;
        match acc.checked_mul(i) {
            Some(next) => {
                assert(i * factorial((i - 1) as nat) == factorial((i - 1) as nat) * i)
                    by (nonlinear_arith);
                acc = next;
            },
            None => {
                proof {
                    assert(i * factorial((i - 1) as nat) == factorial((i - 1) as nat) * i)
                        by (nonlinear_arith);
                    lemma_factorial_grows(i as nat, n as nat);
                }
                return None;
            },
        }
    }
    Some(acc)
}

/// The ordering that leaves every item in its place: `0, 1, .., n - 1`.
pub fn identity_ordering(n: usize) -> (order: Vec<usize>)
    ensures
        order@.len() == n,
        forall|i: int| 0 <= i < n ==> order@[i] == i,
        is_ordering(order@, n as nat),
{
    let mut order: Vec<usize> = Vec::with_capacity(n);
    let mut i: usize = 0;
    while i < n
        invariant
            0 <= i <= n,
            order@.len() == i,
            forall|j: int| 0 <= j < i ==> order@[j] == j,
        decreases n - i,
    {
        order.push(i);
        i += 1;
    }
    order
}

/// Calls `permutohedron::Heap::new` on the working buffer. Trusted, from the
/// source of `Heap` and its documentation ("generating all permutations of a
/// sequence", "for n elements there are n! permutations"): started on an
/// ordering of `0 .. n`, the generator has `n!` vectors to hand out, and
/// every ordering of `0 .. n` is among them. `Heap::new` panics above
/// `MAXHEAP` elements, which `requires` leaves out.
#[verifier::external_body]
fn heap_new<'a>(working: &'a mut Vec<usize>) -> (heap: Heap<'a, Vec<usize>, usize>)
    requires
        old(working)@.len() <= MAX_TOKENS,
        is_ordering(old(working)@, old(working)@.len()),
    ensures
        every_ordering(heap_rest(heap), old(working)@.len()),
{
    Heap::new(working)
}

/// Calls `Iterator::next` of `permutohedron::Heap`. Trusted, from its source:
/// it steps the working buffer to the next ordering and hands out a copy of
/// it, the first of those that the generator had yet to hand out; once they
/// are spent it hands out nothing, however often it is asked.
#[verifier::external_body]
fn heap_next(heap: &mut Heap<'_, Vec<usize>, usize>) -> (order: Option<Vec<usize>>)
    ensures
        match order {
            Some(next) => {
                &&& heap_rest(*old(heap)).len() > 0
                &&& next@ == heap_rest(*old(heap))[0]
                &&& heap_rest(*final(heap)) == heap_rest(*old(heap)).skip(1)
            },
            None => heap_rest(*old(heap)).len() == 0 && heap_rest(*final(heap)).len() == 0,
        },
{
    heap.next()
}

impl<'a> Orderings<'a> {
    /// The orderings that are yet to come, in the order in which they will.
    pub closed spec fn rest(&self) -> Seq<Seq<usize>> {
        heap_rest(self.heap)
    }

    /// A generator of the orderings of `n` things, where `working` holds an
    /// ordering of `n` things to start from. The generator steps through the
    /// orderings in the working buffer itself, and hands out copies.
    pub fn new(working: &'a mut Vec<usize>) -> (all: Orderings<'a>)
        requires
            old(working)@.len() <= MAX_TOKENS,
            is_ordering(old(working)@, old(working)@.len()),
        ensures
            each_ordering_once(all.rest(), old(working)@.len()),
    {
        let heap = heap_new(working);
        proof {
            lemma_full_list_is_exact(heap_rest(heap), old(working)@.len());
        }
        Orderings { heap }
    }

    /// The next ordering, as a vector of its own, or nothing once every
    /// ordering has been handed out.
    pub fn next(&mut self) -> (order: Option<Vec<usize>>)
        ensures
            match order {
                Some(next) => {
                    &&& old(self).rest().len() > 0
                    &&& next@ == old(self).rest()[0]
                    &&& final(self).rest() == old(self).rest().skip(1)
                },
                None => old(self).rest().len() == 0 && final(self).rest().len() == 0,
            },
    {
        heap_next(&mut self.heap)
    }

    /// The next orderings, up to `limit` of them: fewer only where no more
    /// are to come.
    pub fn take(&mut self, limit: usize) -> (batch: Vec<Vec<usize>>)
        ensures
            batch@.len() <= limit,
            batch@.len() <= old(self).rest().len(),
            batch@.len() < limit ==> batch@.len() == old(self).rest().len(),
            order_views(batch@) == old(self).rest().take(batch@.len() as int),
            final(self).rest() == old(self).rest().skip(batch@.len() as int),
    {
        let ghost before = self.rest();
        let mut batch: Vec<Vec<usize>> = Vec::new();
        while batch.len() < limit
            invariant
                before == old(self).rest(),
                batch@.len() <= limit,
                batch@.len() <= before.len(),
                order_views(batch@) == before.take(batch@.len() as int),
                self.rest() == before.skip(batch@.len() as int),
            decreases limit - batch@.len(),
        {
            match self.next() {
                Some(order) => {
                    batch.push(order);
                },
                None => {
                    return batch;
                },
            }
        }
        batch
    }
}

/// Every ordering of `n` things, each once and as a vector of its own: `n!`
/// of them, all held at once. The order in which they come is not fixed.
pub fn orderings(n: usize) -> (all: Vec<Vec<usize>>)
    requires
        n <= MAX_TOKENS,
        factorial(n as nat) <= usize::MAX,
    ensures
        each_ordering_once(order_views(all@), n as nat),
{
    let mut working = identity_ordering(n);
    let mut source = Orderings::new(&mut working);
    let ghost total = source.rest();
    let mut all: Vec<Vec<usize>> = Vec::new();
    loop
        invariant
            all@.len() <= total.len(),
            order_views(all@) == total.take(all@.len() as int),
            source.rest() == total.skip(all@.len() as int),
        ensures
            order_views(all@) == total,
        decreases total.len() - all@.len(),
    {
        match source.next() {
            Some(order) => {
                all.push(order);
            },
            None => {
                break ;
            },
        }
    }
    all
}

/// The tokens in the given order, as a vector of its own that borrows each
/// token's bytes.
pub fn arrange<'a>(tokens: &'a [Vec<u8>], order: &[usize]) -> (picked: Vec<&'a [u8]>)
    requires
        forall|i: int| 0 <= i < order@.len() ==> (#[trigger] order@[i]) < tokens@.len(),
    ensures
        views(picked@) == arranged(views(tokens@), order@),
{
    let mut picked: Vec<&'a [u8]> = Vec::with_capacity(order.len());
    let mut i: usize = 0;
    while i < order.len()
        invariant
            0 <= i <= order.len(),
            forall|j: int| 0 <= j < order@.len() ==> (#[trigger] order@[j]) < tokens@.len(),
            picked@.len() == i,
            forall|j: int| 0 <= j < i ==> (#[trigger] picked@[j])@ == tokens@[order@[j] as int]@,
        decreases order.len() - i,
    {
        picked.push(tokens[order[i]].as_slice());
        i += 1;
    }
    picked
}

} // verus!
