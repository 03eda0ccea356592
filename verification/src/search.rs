//! One sweep: every ordering of a token set is joined and hashed, the
//! candidates spread over the worker pool, until one of them has the target
//! digest or all are spent.

use crate::hashes::{check_hash, digest_of, Hashes};
use crate::join::{join_len, joined, slice_join, views};
use crate::permute::{
    arrange, arranged, each_ordering_once, factorial, identity_ordering, is_ordering,
    lemma_arranged_joined_len, lemma_factorial_grows, order_views, Orderings, MAX_TOKENS,
};
use rayon::iter::{IntoParallelIterator, ParallelIterator};
use vstd::prelude::*;

verus! {

/// The number of candidates that a sweep hands to the worker pool at a time.
pub const BATCH: usize = 65536;

/// How a sweep ended.
#[derive(Debug, PartialEq, Eq)]
pub enum SearchResult {
    /// The joined bytes of an ordering whose digest is the target.
    Found(Vec<u8>),
    /// No ordering of the tokens has the target digest.
    Exhausted,
}

/// Whether the tokens, joined in the given order, have the target digest.
pub open spec fn candidate_matches(
    alg: Hashes,
    tokens: Seq<Seq<u8>>,
    order: Seq<usize>,
    delim: Seq<u8>,
    target: Seq<u8>,
) -> bool {
    digest_of(alg, joined(arranged(tokens, order), delim)) == target
}

/// Whether some ordering of the tokens has the target digest.
pub open spec fn has_match(
    alg: Hashes,
    tokens: Seq<Seq<u8>>,
    delim: Seq<u8>,
    target: Seq<u8>,
) -> bool {
    exists|order: Seq<usize>| #[trigger]
        is_ordering(order, tokens.len()) && candidate_matches(alg, tokens, order, delim, target)
}

/// Whether `bytes` is what some ordering of the tokens joins to, and has the
/// target digest.
pub open spec fn is_match(
    alg: Hashes,
    tokens: Seq<Seq<u8>>,
    delim: Seq<u8>,
    target: Seq<u8>,
    bytes: Seq<u8>,
) -> bool {
    exists|order: Seq<usize>| #[trigger]
        is_ordering(order, tokens.len()) && bytes == joined(arranged(tokens, order), delim)
            && digest_of(alg, bytes) == target
}

/// What a sweep owes: a match where it reports one, and no ordering with the
/// target digest where it reports exhaustion. Which match is reported, where
/// several orderings have the digest, is left open.
pub open spec fn sweep_outcome(
    alg: Hashes,
    tokens: Seq<Seq<u8>>,
    delim: Seq<u8>,
    target: Seq<u8>,
    result: SearchResult,
) -> bool {
    match result {
        SearchResult::Found(bytes) => is_match(alg, tokens, delim, target, bytes@),
        SearchResult::Exhausted => !has_match(alg, tokens, delim, target),
    }
}

/// The token sets that one sweep can take: few enough tokens for the
/// generator, and a joined string whose length fits in `usize`.
pub open spec fn sweepable(tokens: Seq<Seq<u8>>, delim: Seq<u8>) -> bool {
    &&& tokens.len() <= MAX_TOKENS
    &&& joined(tokens, delim).len() <= usize::MAX
}

/// The orders in which the tokens can be joined and hashed: every place names
/// a token, and the joined string has a length that fits in `usize`.
pub open spec fn checkable(tokens: Seq<Seq<u8>>, order: Seq<usize>, delim: Seq<u8>) -> bool {
    &&& forall|i: int| 0 <= i < order.len() ==> (#[trigger] order[i]) < tokens.len()
    &&& joined(arranged(tokens, order), delim).len() <= usize::MAX
}

/// Whether the tokens, joined in the given order with `delim`, have the
/// digest `target` under `alg`.
pub fn ordering_matches(
    alg: Hashes,
    tokens: &[Vec<u8>],
    order: &[usize],
    delim: &[u8],
    target: &[u8],
) -> (found: bool)
    requires
        checkable(views(tokens@), order@, delim@),
    ensures
        found == candidate_matches(alg, views(tokens@), order@, delim@, target@),
{
    let candidate = arrange(tokens, order);
    check_hash(alg, candidate.as_slice(), delim, target)
}

/// Calls `ParallelIterator::find_any` of rayon on the candidates, with
/// `ordering_matches` as the predicate; rayon spreads the calls over its
/// worker pool and stops handing out candidates once one has matched.
/// Trusted, from the documentation of `find_any` ("searches for some item in
/// the parallel iterator that matches the given predicate and returns it"):
/// what comes back is one of the candidates on which the predicate held,
/// whichever was seen first, and nothing only where it held on none.
#[verifier::external_body]
fn find_any_match(
    candidates: Vec<Vec<usize>>,
    alg: Hashes,
    tokens: &[Vec<u8>],
    delim: &[u8],
    target: &[u8],
) -> (hit: Option<Vec<usize>>)
    requires
        forall|k: int|
            0 <= k < candidates@.len() ==> checkable(
                views(tokens@),
                (#[trigger] candidates@[k])@,
                delim@,
            ),
    ensures
        match hit {
            Some(order) => {
                &&& exists|k: int|
                    0 <= k < candidates@.len() && (#[trigger] candidates@[k])@ == order@
                &&& candidate_matches(alg, views(tokens@), order@, delim@, target@)
            },
            None => forall|k: int|
                0 <= k < candidates@.len() ==> !candidate_matches(
                    alg,
                    views(tokens@),
                    (#[trigger] candidates@[k])@,
                    delim@,
                    target@,
                ),
        },
{
    candidates.into_par_iter().find_any(|order| ordering_matches(alg, tokens, order, delim, target))
}

/// Whether `sweep` can take these tokens with this delimiter.
pub fn can_sweep(tokens: &[Vec<u8>], delim: &[u8]) -> (ok: bool)
    ensures
        ok == sweepable(views(tokens@), delim@),
{
    if tokens.len() > MAX_TOKENS {
        return false;
    }
    let in_place = identity_ordering(tokens.len());
    let all = arrange(tokens, in_place.as_slice());
    proof {
        assert(views(all@) =~= views(tokens@));
    }
    join_len(all.as_slice(), delim).is_some()
}

/// `16!` fits in 64 bits, and so does the factorial of anything smaller.
proof fn lemma_factorial_fits(n: nat)
    requires
        n <= MAX_TOKENS,
    ensures
        factorial(n) <= 20922789888000,
{
    lemma_factorial_grows(n, 16);
    assert(factorial(16) == 20922789888000) by {
        reveal_with_fuel(factorial, 17);
    }
}

/// Searches the orderings of `tokens` for one that, joined with `delim`, has
/// the digest `target` under `alg`. The orderings are generated as they are
/// needed, at most `batch` at a time, and each batch is spread over the
/// worker pool, which stops at the first match that a worker comes upon. The
/// sweep reports the joined bytes of that match, or exhaustion once every
/// ordering has been tried in vain; beside it, the number of candidates that
/// were handed to the pool, which at exhaustion is all `n!`.
pub fn sweep_in_batches(
    alg: Hashes,
    tokens: &[Vec<u8>],
    delim: &[u8],
    target: &[u8],
    batch: usize,
) -> (outcome: (SearchResult, u64))
    requires
        sweepable(views(tokens@), delim@),
        batch >= 1,
    ensures
        sweep_outcome(alg, views(tokens@), delim@, target@, outcome.0),
        1 <= outcome.1 <= factorial(tokens@.len()),
        outcome.0 is Exhausted ==> outcome.1 == factorial(tokens@.len()),
{
    let ghost token_views = views(tokens@);
    let ghost n = tokens@.len();
    let mut working = identity_ordering(tokens.len());
    let mut source = Orderings::new(&mut working);
    let ghost all = source.rest();
    let mut tried: u64 = 0;
    proof {
        lemma_factorial_fits(n);
        lemma_factorial_grows(n, n);
    }
    loop
        invariant
            batch >= 1,
            token_views == views(tokens@),
            n == tokens@.len(),
            sweepable(token_views, delim@),
            each_ordering_once(all, n),
            1 <= all.len() <= 20922789888000,
            tried <= all.len(),
            source.rest() == all.skip(tried as int),
            forall|k: int|
                0 <= k < tried ==> !candidate_matches(
                    alg,
                    token_views,
                    #[trigger] all[k],
                    delim@,
                    target@,
                ),
        decreases all.len() - tried,
    {
        let candidates = source.take(batch);
        let size = candidates.len();
        let ghost handed = order_views(candidates@);
        proof {
            assert forall|k: int| 0 <= k < candidates@.len() implies checkable(
                token_views,
                (#[trigger] candidates@[k])@,
                delim@,
            ) by {
                assert(handed[k] == all.skip(tried as int)[k]);
                lemma_arranged_joined_len(token_views, candidates@[k]@, delim@);
            }
        }
        if size == 0 {
            return (SearchResult::Exhausted, tried);
        }
        match find_any_match(candidates, alg, tokens, delim, target) {
            Some(order) => {
                proof {
                    let k = choose|k: int|
                        0 <= k < handed.len() && (#[trigger] candidates@[k])@ == order@;
                    assert(handed[k] == all.skip(tried as int)[k]);
                    lemma_arranged_joined_len(token_views, order@, delim@);
                }
                let candidate = arrange(tokens, order.as_slice());
                let bytes = slice_join(candidate.as_slice(), delim);
                return (SearchResult::Found(bytes), tried + size as u64);
            },
            None => {
                proof {
                    let before = tried as int;
                    assert forall|k: int| 0 <= k < before + size implies !candidate_matches(
                        alg,
                        token_views,
                        #[trigger] all[k],
                        delim@,
                        target@,
                    ) by {
                        if k >= before {
                            assert(handed[k - before] == all.skip(before)[k - before]);
                        }
                    }
                }
                tried = tried + size as u64;
            },
        }
    }
}

/// Searches the orderings of `tokens` for one that, joined with `delim`, has
/// the digest `target` under `alg`, in batches of `BATCH` candidates.
pub fn sweep(alg: Hashes, tokens: &[Vec<u8>], delim: &[u8], target: &[u8]) -> (result:
    SearchResult)
    requires
        sweepable(views(tokens@), delim@),
    ensures
        sweep_outcome(alg, views(tokens@), delim@, target@, result),
{
    sweep_in_batches(alg, tokens, delim, target, BATCH).0
}

/// Exhaustion is reported exactly where no ordering of the tokens has the
/// target digest, and a match exactly where one has.
pub proof fn lemma_exhausted_iff_no_match(
    alg: Hashes,
    tokens: Seq<Seq<u8>>,
    delim: Seq<u8>,
    target: Seq<u8>,
    result: SearchResult,
)
    requires
        sweep_outcome(alg, tokens, delim, target, result),
    ensures
        result is Exhausted <==> !has_match(alg, tokens, delim, target),
        result is Found <==> has_match(alg, tokens, delim, target),
{
    if let SearchResult::Found(bytes) = result {
        let order = choose|order: Seq<usize>| #[trigger]
            is_ordering(order, tokens.len()) && bytes@ == joined(arranged(tokens, order), delim)
                && digest_of(alg, bytes@) == target;
    }
}

/// Where exactly one ordering of the tokens has the target digest, the sweep
/// reports the bytes that this ordering joins to, however the candidates were
/// spread over the workers.
pub proof fn lemma_single_match_is_reported(
    alg: Hashes,
    tokens: Seq<Seq<u8>>,
    delim: Seq<u8>,
    target: Seq<u8>,
    order: Seq<usize>,
    result: SearchResult,
)
    requires
        sweep_outcome(alg, tokens, delim, target, result),
        is_ordering(order, tokens.len()),
        candidate_matches(alg, tokens, order, delim, target),
        forall|other: Seq<usize>| #[trigger]
            is_ordering(other, tokens.len()) && candidate_matches(
                alg,
                tokens,
                other,
                delim,
                target,
            ) ==> other == order,
    ensures
        result matches SearchResult::Found(bytes) && bytes@ == joined(
            arranged(tokens, order),
            delim,
        ),
{
    lemma_exhausted_iff_no_match(alg, tokens, delim, target, result);
    if let SearchResult::Found(bytes) = result {
        let seen = choose|seen: Seq<usize>| #[trigger]
            is_ordering(seen, tokens.len()) && bytes@ == joined(arranged(tokens, seen), delim)
                && digest_of(alg, bytes@) == target;
    }
}

} // verus!
