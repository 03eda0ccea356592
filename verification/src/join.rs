//! Joining byte tokens with a delimiter, and splitting a byte string on a
//! delimiter byte.

use vstd::prelude::*;

verus! {

/// The byte sequences that a sequence of byte containers holds.
pub open spec fn views<T: View<V = Seq<u8>>>(items: Seq<T>) -> Seq<Seq<u8>> {
    Seq::new(items.len(), |i: int| items[i]@)
}

/// `tokens[0] + sep + tokens[1] + .. + sep + tokens[k - 1]`: empty for no
/// token, the token itself for one.
pub open spec fn joined(tokens: Seq<Seq<u8>>, sep: Seq<u8>) -> Seq<u8>
    decreases tokens.len(),
{
    if tokens.len() == 0 {
        Seq::empty()
    } else if tokens.len() == 1 {
        tokens[0]
    } else {
        joined(tokens.drop_last(), sep) + sep + tokens.last()
    }
}

/// Sum of the lengths of the tokens.
pub open spec fn total_len(tokens: Seq<Seq<u8>>) -> nat
    decreases tokens.len(),
{
    if tokens.len() == 0 {
        0
    } else {
        total_len(tokens.drop_last()) + tokens.last().len()
    }
}

/// The pieces of `bytes` between the occurrences of `sep`. There is always at
/// least one piece: a string without `sep` is its own single piece, and a
/// separator at either end leaves an empty piece there.
pub open spec fn split_on(bytes: Seq<u8>, sep: u8) -> Seq<Seq<u8>>
    decreases bytes.len(),
{
    if bytes.len() == 0 {
        seq![Seq::empty()]
    } else {
        let front = split_on(bytes.drop_last(), sep);
        if bytes.last() == sep {
            front.push(Seq::empty())
        } else {
            front.drop_last().push(front.last().push(bytes.last()))
        }
    }
}

/// The length of a joined string is the sum of the token lengths plus one
/// separator between each two neighbours.
pub proof fn lemma_joined_len(tokens: Seq<Seq<u8>>, sep: Seq<u8>)
    ensures
        tokens.len() == 0 ==> joined(tokens, sep).len() == 0,
        tokens.len() > 0 ==> joined(tokens, sep).len() == total_len(tokens) + (tokens.len() - 1)
            * sep.len(),
    decreases tokens.len(),
{
    if tokens.len() == 1 {
        assert(total_len(tokens.drop_last()) == 0);
    } else if tokens.len() > 1 {
        lemma_joined_len(tokens.drop_last(), sep);
        assert((tokens.len() - 1) * sep.len() == (tokens.len() - 2) * sep.len() + sep.len())
            by (nonlinear_arith);
    }
}

/// Joining more tokens never gives a shorter string.
proof fn lemma_joined_prefix_len(tokens: Seq<Seq<u8>>, sep: Seq<u8>, i: int)
    requires
        0 <= i <= tokens.len(),
    ensures
        joined(tokens.take(i), sep).len() <= joined(tokens, sep).len(),
    decreases tokens.len(),
{
    if i == tokens.len() {
        assert(tokens.take(i) =~= tokens);
    } else {
        assert(tokens.drop_last().take(i) =~= tokens.take(i));
        lemma_joined_prefix_len(tokens.drop_last(), sep, i);
    }
}

/// One more token joined on: the step from the first `i` tokens to the first
/// `i + 1`.
proof fn lemma_joined_step(tokens: Seq<Seq<u8>>, sep: Seq<u8>, i: int)
    requires
        0 <= i < tokens.len(),
    ensures
        i == 0 ==> joined(tokens.take(i + 1), sep) == tokens[0],
        i > 0 ==> joined(tokens.take(i + 1), sep) == joined(tokens.take(i), sep) + sep + tokens[i],
{
    let next = tokens.take(i + 1);
    assert(next.drop_last() =~= tokens.take(i));
}

/// Length of the string that `slice_join` would build, where it fits in
/// `usize`.
pub fn join_len(slice: &[&[u8]], sep: &[u8]) -> (len: Option<usize>)
    ensures
        match len {
            Some(n) => n == joined(views(slice@), sep@).len(),
            None => joined(views(slice@), sep@).len() > usize::MAX,
        },
{
    let ghost tokens = views(slice@);
    let mut acc: usize = 0;
    let mut i: usize = 0;
    while i < slice.len()
        invariant
            0 <= i <= slice.len(),
            tokens == views(slice@),
            acc == joined(tokens.take(i as int), sep@).len(),
        decreases slice.len() - i,
    {
        proof {
            lemma_joined_step(tokens, sep@, i as int);
            lemma_joined_prefix_len(tokens, sep@, i + 1);
        }
        let with_sep = if i == 0 {
            Some(acc)
        } else {
            acc.checked_add(sep.len())
        };
        let next = match with_sep {
            Some(n) => n.checked_add(slice[i].len()),
            None => None,
        };
        match next {
            Some(n) => {
                acc = n;
            },
            None => {
                return None;
            },
        }
        i += 1;
    }
    proof {
        assert(tokens.take(i as int) =~= tokens);
    }
    Some(acc)
}

/// Concatenates the tokens of `slice` in order, with `sep` between each two
/// neighbours, into a buffer allocated once at its final size.
pub fn slice_join(slice: &[&[u8]], sep: &[u8]) -> (out: Vec<u8>)
    requires
        joined(views(slice@), sep@).len() <= usize::MAX,
    ensures
        out@ == joined(views(slice@), sep@),
{
    if slice.len() == 0 {
        return Vec::new();
    }
    let ghost tokens = views(slice@);
    let total = join_len(slice, sep).unwrap();
    let mut out: Vec<u8> = Vec::with_capacity(total);
    out.extend_from_slice(slice[0]);
    proof {
        lemma_joined_step(tokens, sep@, 0);
    }
    let mut i: usize = 1;
    while i < slice.len()
        invariant
            1 <= i <= slice.len(),
            tokens == views(slice@),
            out@ == joined(tokens.take(i as int), sep@),
        decreases slice.len() - i,
    {
        out.extend_from_slice(sep);
        out.extend_from_slice(slice[i]);
        proof {
            lemma_joined_step(tokens, sep@, i as int);
        }
        i += 1;
    }
    proof {
        assert(tokens.take(i as int) =~= tokens);
    }
    out
}

/// Cuts `bytes` at every occurrence of `sep`, which is dropped; the pieces
/// come in the order in which they stand in `bytes`.
pub fn split(bytes: &[u8], sep: u8) -> (pieces: Vec<Vec<u8>>)
    ensures
        views(pieces@) == split_on(bytes@, sep),
{
    let mut pieces: Vec<Vec<u8>> = Vec::new();
    let mut current: Vec<u8> = Vec::new();
    let mut i: usize = 0;
    while i < bytes.len()
        invariant
            0 <= i <= bytes.len(),
            views(pieces@).push(current@) == split_on(bytes@.take(i as int), sep),
        decreases bytes.len() - i,
    {
        proof {
            assert(bytes@.take(i + 1).drop_last() =~= bytes@.take(i as int));
        }
        if bytes[i] == sep {
            pieces.push(current);
            current = Vec::new();
        } else {
            current.push(bytes[i]);
        }
        i += 1;
    }
    proof {
        assert(bytes@.take(i as int) =~= bytes@);
    }
    pieces.push(current);
    pieces
}

/// Splitting always gives at least one piece.
pub proof fn lemma_split_nonempty(bytes: Seq<u8>, sep: u8)
    ensures
        split_on(bytes, sep).len() >= 1,
    decreases bytes.len(),
{
    if bytes.len() > 0 {
        lemma_split_nonempty(bytes.drop_last(), sep);
    }
}

/// Bytes without the separator, appended to a string, lengthen its last
/// piece and leave the others as they are.
proof fn lemma_split_append(head: Seq<u8>, tail: Seq<u8>, sep: u8)
    requires
        !tail.contains(sep),
    ensures
        split_on(head, sep).len() >= 1,
        split_on(head + tail, sep) == split_on(head, sep).drop_last().push(
            split_on(head, sep).last() + tail,
        ),
    decreases tail.len(),
{
    let pieces = split_on(head, sep);
    lemma_split_nonempty(head, sep);
    if tail.len() > 0 {
        let shorter = tail.drop_last();
        assert(!shorter.contains(sep));
        lemma_split_append(head, shorter, sep);
        assert((head + tail).drop_last() =~= head + shorter);
        assert((pieces.last() + shorter).push(tail.last()) =~= pieces.last() + tail);
    }
}

/// Splitting undoes joining: where there is at least one token and no token
/// holds the separator byte, the pieces of the joined string are the tokens.
pub proof fn lemma_split_inverts_join(tokens: Seq<Seq<u8>>, sep: u8)
    requires
        tokens.len() >= 1,
        forall|i: int| 0 <= i < tokens.len() ==> !(#[trigger] tokens[i]).contains(sep),
    ensures
        split_on(joined(tokens, seq![sep]), sep) == tokens,
    decreases tokens.len(),
{
    let empty = Seq::<u8>::empty();
    if tokens.len() == 1 {
        lemma_split_append(empty, tokens[0], sep);
    } else {
        let front = tokens.drop_last();
        lemma_split_inverts_join(front, sep);
        let head = joined(front, seq![sep]) + seq![sep];
        assert(head.drop_last() =~= joined(front, seq![sep]));
        lemma_split_append(head, tokens.last(), sep);
    }
}

} // verus!
