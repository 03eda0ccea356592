//! The time axis: a window of whole seconds, each of which adds its decimal
//! form to the tokens as one more token and gets a sweep of its own.

use crate::hashes::Hashes;
use crate::join::{lemma_joined_len, views};
use crate::search::{
    can_sweep, has_match, is_match, lemma_exhausted_iff_no_match, sweep, sweepable, SearchResult,
};
use crate::timestamp::TimeWindow;
use vstd::prelude::*;

verus! {

/// A match together with the second of the window whose sweep found it.
#[derive(Debug, PartialEq, Eq)]
pub struct TimedMatch {
    pub second: i64,
    pub bytes: Vec<u8>,
}

/// The decimal digits of `n`, most significant first, as ASCII bytes.
pub open spec fn decimal_digits(n: nat) -> Seq<u8>
    decreases n,
{
    if n < 10 {
        seq![(0x30 + n) as u8]
    } else {
        decimal_digits(n / 10).push((0x30 + n % 10) as u8)
    }
}

/// The decimal form of `value` as ASCII bytes, with a minus sign before the
/// digits of a negative number.
pub open spec fn decimal(value: int) -> Seq<u8> {
    if value < 0 {
        seq![0x2du8] + decimal_digits((-value) as nat)
    } else {
        decimal_digits(value as nat)
    }
}

/// The tokens of the sweep for one second: the base tokens, and after them
/// the decimal form of the second.
pub open spec fn with_second(tokens: Seq<Seq<u8>>, second: int) -> Seq<Seq<u8>> {
    tokens.push(decimal(second))
}

/// Whether every second of the window gives a token set that a sweep can
/// take.
pub open spec fn window_sweepable(
    tokens: Seq<Seq<u8>>,
    delim: Seq<u8>,
    window: TimeWindow,
) -> bool {
    forall|second: int|
        window.start <= second < window.end ==> sweepable(
            #[trigger] with_second(tokens, second),
            delim,
        )
}

/// The seconds of the window that a search looks at: all of them, or, where
/// it stops at the first match, those up to that match.
pub open spec fn is_searched(
    window: TimeWindow,
    stop_at_first: bool,
    hits: Seq<TimedMatch>,
    second: int,
) -> bool {
    &&& window.start <= second < window.end
    &&& stop_at_first && hits.len() > 0 ==> second <= hits[0].second
}

/// What a search over a window owes. Every reported match is one of the
/// sweep for its second, and the matches come by rising second, at most one
/// for a second, and at most one in all where the search stops at the first.
/// No second that was looked at and has an ordering with the target digest
/// is missing.
pub open spec fn window_outcome(
    alg: Hashes,
    tokens: Seq<Seq<u8>>,
    delim: Seq<u8>,
    target: Seq<u8>,
    window: TimeWindow,
    stop_at_first: bool,
    hits: Seq<TimedMatch>,
) -> bool {
    &&& forall|k: int|
        0 <= k < hits.len() ==> {
            &&& window.start <= (#[trigger] hits[k]).second < window.end
            &&& is_match(
                alg,
                with_second(tokens, hits[k].second as int),
                delim,
                target,
                hits[k].bytes@,
            )
        }
    &&& forall|j: int, k: int|
        0 <= j < k < hits.len() ==> (#[trigger] hits[j]).second < (#[trigger] hits[k]).second
    &&& stop_at_first ==> hits.len() <= 1
    &&& forall|second: int|
        is_searched(window, stop_at_first, hits, second) && has_match(
            alg,
            #[trigger] with_second(tokens, second),
            delim,
            target,
        ) ==> exists|k: int| 0 <= k < hits.len() && (#[trigger] hits[k]).second == second
}

/// Appends the decimal digits of `n` to `out`.
fn push_digits(n: u64, out: &mut Vec<u8>)
    ensures
        final(out)@ == old(out)@ + decimal_digits(n as nat),
    decreases n,
{
    if n >= 10 {
        push_digits(n / 10, out);
    }
    out.push(48u8 + (n % 10) as u8);
}

/// The decimal form of `value`, the token that stands for one second of a
/// window.
pub fn decimal_bytes(value: i64) -> (text: Vec<u8>)
    ensures
        text@ == decimal(value as int),
{
    let mut text: Vec<u8> = Vec::new();
    if value < 0 {
        text.push(45u8);
        let magnitude: u64 = (-(value + 1)) as u64 + 1;
        push_digits(magnitude, &mut text);
    } else {
        push_digits(value as u64, &mut text);
    }
    text
}

/// A greater number has no fewer digits.
proof fn lemma_digits_len_grows(m: nat, n: nat)
    requires
        m <= n,
    ensures
        1 <= decimal_digits(m).len() <= decimal_digits(n).len(),
    decreases n,
{
    if n >= 10 {
        if m >= 10 {
            lemma_digits_len_grows(m / 10, n / 10);
        } else {
            lemma_digits_len_grows(n / 10, n / 10);
        }
    }
}

/// No second of a window has a longer decimal form than both of its ends.
proof fn lemma_decimal_len_between(low: int, second: int, high: int)
    requires
        low <= second <= high,
    ensures
        decimal(second).len() <= decimal(low).len() || decimal(second).len() <= decimal(
            high,
        ).len(),
{
    if second >= 0 {
        lemma_digits_len_grows(second as nat, high as nat);
    } else {
        lemma_digits_len_grows((-second) as nat, (-low) as nat);
    }
}

/// Whether a token set can be swept depends on one more token only by that
/// token's length.
proof fn lemma_sweepable_shorter(
    tokens: Seq<Seq<u8>>,
    delim: Seq<u8>,
    shorter: Seq<u8>,
    longer: Seq<u8>,
)
    requires
        shorter.len() <= longer.len(),
        sweepable(tokens.push(longer), delim),
    ensures
        sweepable(tokens.push(shorter), delim),
{
    lemma_joined_len(tokens.push(longer), delim);
    lemma_joined_len(tokens.push(shorter), delim);
    assert(tokens.push(longer).drop_last() =~= tokens);
    assert(tokens.push(shorter).drop_last() =~= tokens);
}

/// A copy of the tokens with one more token after them.
pub fn with_token(tokens: &[Vec<u8>], extra: Vec<u8>) -> (all: Vec<Vec<u8>>)
    requires
        tokens@.len() < usize::MAX,
    ensures
        views(all@) == views(tokens@).push(extra@),
{
    let mut all: Vec<Vec<u8>> = Vec::with_capacity(tokens.len() + 1);
    let mut i: usize = 0;
    while i < tokens.len()
        invariant
            0 <= i <= tokens.len(),
            all@.len() == i,
            forall|j: int| 0 <= j < i ==> (#[trigger] all@[j])@ == tokens@[j]@,
        decreases tokens.len() - i,
    {
        let copy = tokens[i].clone();
        all.push(copy);
        i += 1;
    }
    all.push(extra);
    all
}

/// Whether `sweep_window` can take these tokens, this delimiter and this
/// window.
pub fn can_sweep_window(tokens: &[Vec<u8>], delim: &[u8], window: TimeWindow) -> (ok: bool)
    ensures
        ok == window_sweepable(views(tokens@), delim@, window),
{
    if window.start >= window.end {
        return true;
    }
    if tokens.len() >= usize::MAX {
        proof {
            assert(!sweepable(with_second(views(tokens@), window.start as int), delim@));
        }
        return false;
    }
    let ghost base = views(tokens@);
    let first = with_token(tokens, decimal_bytes(window.start));
    let last = with_token(tokens, decimal_bytes(window.end - 1));
    let ok = can_sweep(first.as_slice(), delim) && can_sweep(last.as_slice(), delim);
    proof {
        if ok {
            assert forall|second: int| window.start <= second < window.end implies sweepable(
                #[trigger] with_second(base, second),
                delim@,
            ) by {
                lemma_decimal_len_between(window.start as int, second, window.end - 1);
                if decimal(second).len() <= decimal(window.start as int).len() {
                    lemma_sweepable_shorter(
                        base,
                        delim@,
                        decimal(second),
                        decimal(window.start as int),
                    );
                } else {
                    lemma_sweepable_shorter(base, delim@, decimal(second), decimal(window.end - 1));
                }
            }
        } else {
            assert(!sweepable(with_second(base, window.start as int), delim@) || !sweepable(
                with_second(base, window.end - 1),
                delim@,
            ));
        }
    }
    ok
}

/// Searches a window of seconds. For each second from the start up to, but
/// without, the end, the decimal form of the second joins a fresh copy of the
/// tokens as one more token, and that token set gets a full sweep before the
/// next second is looked at. With `stop_at_first` the search ends with the
/// first second whose sweep finds a match; without it every second of the
/// window is swept, and each match is reported with its second.
pub fn sweep_window(
    alg: Hashes,
    tokens: &[Vec<u8>],
    delim: &[u8],
    target: &[u8],
    window: TimeWindow,
    stop_at_first: bool,
) -> (hits: Vec<TimedMatch>)
    requires
        window_sweepable(views(tokens@), delim@, window),
    ensures
        window_outcome(alg, views(tokens@), delim@, target@, window, stop_at_first, hits@),
{
    let ghost base = views(tokens@);
    let mut hits: Vec<TimedMatch> = Vec::new();
    let mut second: i64 = window.start;
    while second < window.end
        invariant
            window.start <= second,
            window_sweepable(base, delim@, window),
            base == views(tokens@),
            stop_at_first ==> hits@.len() == 0,
            hits@.len() > 0 ==> second <= window.end,
            forall|k: int|
                0 <= k < hits@.len() ==> {
                    &&& window.start <= (#[trigger] hits@[k]).second < second
                    &&& is_match(
                        alg,
                        with_second(base, hits@[k].second as int),
                        delim@,
                        target@,
                        hits@[k].bytes@,
                    )
                },
            forall|j: int, k: int|
                0 <= j < k < hits@.len() ==> (#[trigger] hits@[j]).second < (
                #[trigger] hits@[k]).second,
            forall|earlier: int|
                window.start <= earlier < second && has_match(
                    alg,
                    #[trigger] with_second(base, earlier),
                    delim@,
                    target@,
                ) ==> exists|k: int|
                    0 <= k < hits@.len() && (#[trigger] hits@[k]).second == earlier,
        decreases window.end - second,
    {
        let ghost found_before = hits@;
        proof {
            assert(sweepable(with_second(base, second as int), delim@));
        }
        let extended = with_token(tokens, decimal_bytes(second));
        let result = sweep(alg, extended.as_slice(), delim, target);
        proof {
            lemma_exhausted_iff_no_match(
                alg,
                with_second(base, second as int),
                delim@,
                target@,
                result,
            );
        }
        match result {
            SearchResult::Found(bytes) => {
                hits.push(TimedMatch { second, bytes });
                proof {
                    let at = found_before.len() as int;
                    assert forall|earlier: int|
                        window.start <= earlier < second + 1 && has_match(
                            alg,
                            #[trigger] with_second(base, earlier),
                            delim@,
                            target@,
                        ) implies exists|k: int|
                        0 <= k < hits@.len() && (#[trigger] hits@[k]).second == earlier by {
                        if earlier < second {
                            let k = choose|k: int|
                                0 <= k < found_before.len() && (
                                #[trigger] found_before[k]).second == earlier;
                            assert(hits@[k].second == earlier);
                        } else {
                            assert(hits@[at].second == earlier);
                        }
                    }
                }
                if stop_at_first {
                    return hits;
                }
            },
            SearchResult::Exhausted => {},
        }
        second += 1;
    }
    hits
}

} // verus!
