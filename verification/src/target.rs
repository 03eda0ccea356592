//! The target digest: decoded once from its hexadecimal form, and held to the
//! length that the chosen algorithm gives.

use crate::hashes::{digest_len, Hashes};
use rustc_serialize::hex::FromHex;
use vstd::prelude::*;
use vstd::string::StringSliceAdditionalSpecFns;

verus! {

/// Why a target digest was turned down.
#[derive(Clone, Copy, Debug, PartialEq, Eq, Structural)]
pub enum TargetError {
    /// The text does not have two characters for each byte of a digest of
    /// the chosen algorithm.
    WrongLength { expected: usize, found: usize },
    /// The text has the right length, but holds something other than
    /// hexadecimal digits.
    NotHex,
}

/// `0`-`9`, `a`-`f` or `A`-`F`.
pub open spec fn is_hex_digit(byte: u8) -> bool {
    ||| 0x30 <= byte <= 0x39
    ||| 0x41 <= byte <= 0x46
    ||| 0x61 <= byte <= 0x66
}

/// The bytes that the hexadecimal decoder passes over: space, carriage
/// return, newline and tab.
pub open spec fn is_hex_space(byte: u8) -> bool {
    byte == 0x20 || byte == 0x0d || byte == 0x0a || byte == 0x09
}

/// What is no such byte.
pub open spec fn not_hex_space() -> spec_fn(u8) -> bool {
    |byte: u8| !is_hex_space(byte)
}

/// The number that a hexadecimal digit stands for.
pub open spec fn hex_value(byte: u8) -> int {
    if 0x30 <= byte <= 0x39 {
        byte - 0x30
    } else if 0x41 <= byte <= 0x46 {
        byte - 0x41 + 10
    } else {
        byte - 0x61 + 10
    }
}

/// Whether every byte is a hexadecimal digit.
pub open spec fn all_hex(text: Seq<u8>) -> bool {
    forall|i: int| 0 <= i < text.len() ==> is_hex_digit(#[trigger] text[i])
}

/// The bytes that pairs of hexadecimal digits stand for, the high half of
/// each byte first.
pub open spec fn hex_pairs(digits: Seq<u8>) -> Seq<u8> {
    Seq::new(
        digits.len() / 2,
        |i: int| (16 * hex_value(digits[2 * i]) + hex_value(digits[2 * i + 1])) as u8,
    )
}

/// What `from_hex` makes of a text: with the passed-over bytes taken out, an
/// even number of hexadecimal digits stands for the bytes of their pairs, and
/// anything else for nothing.
pub open spec fn hex_decoded(text: Seq<u8>) -> Option<Seq<u8>> {
    let digits = text.filter(not_hex_space());
    if all_hex(digits) && digits.len() % 2 == 0 {
        Some(hex_pairs(digits))
    } else {
        None
    }
}

/// The target digest that a text stands for under `alg`, or why it stands
/// for none. The text must hold two hexadecimal digits, of either case, for
/// each byte of a digest of `alg`, and nothing else; its length is looked at
/// first.
pub open spec fn target_of(alg: Hashes, text: Seq<u8>) -> Result<Seq<u8>, TargetError> {
    if text.len() != 2 * digest_len(alg) {
        Err(
            TargetError::WrongLength {
                expected: (2 * digest_len(alg)) as usize,
                found: text.len() as usize,
            },
        )
    } else if !all_hex(text) {
        Err(TargetError::NotHex)
    } else {
        Ok(hex_pairs(text))
    }
}

/// Calls `from_hex` of `rustc_serialize::hex::FromHex` on `text`. Trusted,
/// from its source: it walks the bytes of the text, passes over space,
/// carriage return, newline and tab, fails on any other byte that is no
/// hexadecimal digit and on an odd number of digits, and otherwise yields one
/// byte for each two digits, the first digit of a pair in the high half.
#[verifier::external_body]
fn from_hex(text: &str) -> (bytes: Option<Vec<u8>>)
    ensures
        match bytes {
            Some(decoded) => hex_decoded(text.spec_bytes()) == Some(decoded@),
            None => hex_decoded(text.spec_bytes()) is None,
        },
{
    text.from_hex().ok()
}

/// A filter that keeps as many items as there are keeps them all.
proof fn lemma_filter_keeps_all(text: Seq<u8>, keep: spec_fn(u8) -> bool)
    requires
        text.filter(keep).len() == text.len(),
    ensures
        text.filter(keep) == text,
    decreases text.len(),
{
    reveal(Seq::filter);
    if text.len() > 0 {
        let front = text.drop_last();
        front.lemma_filter_len(keep);
        lemma_filter_keeps_all(front, keep);
    }
}

/// A filter that every item passes keeps them all.
proof fn lemma_filter_of_passing(text: Seq<u8>, keep: spec_fn(u8) -> bool)
    requires
        forall|i: int| 0 <= i < text.len() ==> keep(#[trigger] text[i]),
    ensures
        text.filter(keep) == text,
    decreases text.len(),
{
    reveal(Seq::filter);
    if text.len() > 0 {
        lemma_filter_of_passing(text.drop_last(), keep);
    }
}

/// On a text of hexadecimal digits alone, the decoder gives the bytes of
/// their pairs; on any other text of even length it gives either nothing or
/// fewer bytes than half the length.
proof fn lemma_hex_decoded_strict(text: Seq<u8>)
    requires
        text.len() % 2 == 0,
    ensures
        all_hex(text) ==> hex_decoded(text) == Some(hex_pairs(text)),
        !all_hex(text) ==> match hex_decoded(text) {
            Some(decoded) => decoded.len() != text.len() / 2,
            None => true,
        },
{
    if all_hex(text) {
        lemma_filter_of_passing(text, not_hex_space());
    } else if let Some(decoded) = hex_decoded(text) {
        text.lemma_filter_len(not_hex_space());
        if decoded.len() == text.len() / 2 {
            lemma_filter_keeps_all(text, not_hex_space());
        }
    }
}

/// Reads the target digest of a search from its hexadecimal form; the
/// digest that comes back has the length of a digest of `alg`.
pub fn parse_target(alg: Hashes, text: &str) -> (target: Result<Vec<u8>, TargetError>)
    ensures
        match target {
            Ok(bytes) => target_of(alg, text.spec_bytes()) == Ok::<Seq<u8>, TargetError>(bytes@)
                && bytes@.len() == digest_len(alg),
            Err(error) => target_of(alg, text.spec_bytes()) == Err::<Seq<u8>, TargetError>(error),
        },
{
    let expected = 2 * alg.hash_len();
    let found = text.as_bytes().len();
    if found != expected {
        return Err(TargetError::WrongLength { expected, found });
    }
    proof {
        lemma_hex_decoded_strict(text.spec_bytes());
    }
    match from_hex(text) {
        Some(bytes) => {
            if bytes.len() == alg.hash_len() {
                Ok(bytes)
            } else {
                Err(TargetError::NotHex)
            }
        },
        None => Err(TargetError::NotHex),
    }
}

} // verus!
