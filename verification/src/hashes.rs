//! The closed set of digest algorithms and the hash-equality oracle.

use crate::join::{joined, slice_join, views};
use digest::Digest;
use vstd::prelude::*;

verus! {

/// The digest algorithms a search can run under.
#[derive(Clone, Copy, Debug, PartialEq, Eq, Structural)]
pub enum Hashes {
    Md5,
    Sha1,
    Sha224,
    Sha256,
    Sha384,
    Sha512,
}

/// Number of bytes in a digest of the given algorithm.
pub open spec fn digest_len(alg: Hashes) -> nat {
    match alg {
        Hashes::Md5 => 16,
        Hashes::Sha1 => 20,
        Hashes::Sha224 => 28,
        Hashes::Sha256 => 32,
        Hashes::Sha384 => 48,
        Hashes::Sha512 => 64,
    }
}

/// The name by which an algorithm is chosen.
pub open spec fn algorithm_name(alg: Hashes) -> Seq<char> {
    match alg {
        Hashes::Md5 => "md5"@,
        Hashes::Sha1 => "sha1"@,
        Hashes::Sha224 => "sha224"@,
        Hashes::Sha256 => "sha256"@,
        Hashes::Sha384 => "sha384"@,
        Hashes::Sha512 => "sha512"@,
    }
}

/// The algorithm that a name chooses, if it is the name of one. Names are
/// taken as they are written: in lower case.
pub open spec fn algorithm_named(name: Seq<char>) -> Option<Hashes> {
    if name == algorithm_name(Hashes::Md5) {
        Some(Hashes::Md5)
    } else if name == algorithm_name(Hashes::Sha1) {
        Some(Hashes::Sha1)
    } else if name == algorithm_name(Hashes::Sha224) {
        Some(Hashes::Sha224)
    } else if name == algorithm_name(Hashes::Sha256) {
        Some(Hashes::Sha256)
    } else if name == algorithm_name(Hashes::Sha384) {
        Some(Hashes::Sha384)
    } else if name == algorithm_name(Hashes::Sha512) {
        Some(Hashes::Sha512)
    } else {
        None
    }
}

/// The MD5 digest of `data`, as `md5::Md5` computes it.
pub uninterp spec fn md5_of(data: Seq<u8>) -> Seq<u8>;

/// The SHA-1 digest of `data`, as `sha1::Sha1` computes it.
pub uninterp spec fn sha1_of(data: Seq<u8>) -> Seq<u8>;

/// The SHA-224 digest of `data`, as `sha2::Sha224` computes it.
pub uninterp spec fn sha224_of(data: Seq<u8>) -> Seq<u8>;

/// The SHA-256 digest of `data`, as `sha2::Sha256` computes it.
pub uninterp spec fn sha256_of(data: Seq<u8>) -> Seq<u8>;

/// The SHA-384 digest of `data`, as `sha2::Sha384` computes it.
pub uninterp spec fn sha384_of(data: Seq<u8>) -> Seq<u8>;

/// The SHA-512 digest of `data`, as `sha2::Sha512` computes it.
pub uninterp spec fn sha512_of(data: Seq<u8>) -> Seq<u8>;

/// The digest of `data` under `alg`.
pub open spec fn digest_of(alg: Hashes, data: Seq<u8>) -> Seq<u8> {
    match alg {
        Hashes::Md5 => md5_of(data),
        Hashes::Sha1 => sha1_of(data),
        Hashes::Sha224 => sha224_of(data),
        Hashes::Sha256 => sha256_of(data),
        Hashes::Sha384 => sha384_of(data),
        Hashes::Sha512 => sha512_of(data),
    }
}

/// Calls `Digest::digest` of `md5::Md5`. Trusted: the result is the MD5
/// digest of `data`, a function of `data` alone, and has 16 bytes
/// (`OutputSize = U16`).
#[verifier::external_body]
fn md5_digest(data: &[u8]) -> (out: Vec<u8>)
    ensures
        out@ == md5_of(data@),
        out@.len() == 16,
{
    md5::Md5::digest(data).to_vec()
}

/// Calls `Digest::digest` of `sha1::Sha1`. Trusted: the result is the SHA-1
/// digest of `data`, a function of `data` alone, and has 20 bytes
/// (`OutputSize = U20`).
#[verifier::external_body]
fn sha1_digest(data: &[u8]) -> (out: Vec<u8>)
    ensures
        out@ == sha1_of(data@),
        out@.len() == 20,
{
    sha1::Sha1::digest(data).to_vec()
}

/// Calls `Digest::digest` of `sha2::Sha224`. Trusted: the result is the
/// SHA-224 digest of `data`, a function of `data` alone, and has 28 bytes
/// (`OutputSize = U28`).
#[verifier::external_body]
fn sha224_digest(data: &[u8]) -> (out: Vec<u8>)
    ensures
        out@ == sha224_of(data@),
        out@.len() == 28,
{
    sha2::Sha224::digest(data).to_vec()
}

/// Calls `Digest::digest` of `sha2::Sha256`. Trusted: the result is the
/// SHA-256 digest of `data`, a function of `data` alone, and has 32 bytes
/// (`OutputSize = U32`).
#[verifier::external_body]
fn sha256_digest(data: &[u8]) -> (out: Vec<u8>)
    ensures
        out@ == sha256_of(data@),
        out@.len() == 32,
{
    sha2::Sha256::digest(data).to_vec()
}

/// Calls `Digest::digest` of `sha2::Sha384`. Trusted: the result is the
/// SHA-384 digest of `data`, a function of `data` alone, and has 48 bytes
/// (`OutputSize = U48`).
#[verifier::external_body]
fn sha384_digest(data: &[u8]) -> (out: Vec<u8>)
    ensures
        out@ == sha384_of(data@),
        out@.len() == 48,
{
    sha2::Sha384::digest(data).to_vec()
}

/// Calls `Digest::digest` of `sha2::Sha512`. Trusted: the result is the
/// SHA-512 digest of `data`, a function of `data` alone, and has 64 bytes
/// (`OutputSize = U64`).
#[verifier::external_body]
fn sha512_digest(data: &[u8]) -> (out: Vec<u8>)
    ensures
        out@ == sha512_of(data@),
        out@.len() == 64,
{
    sha2::Sha512::digest(data).to_vec()
}

impl Default for Hashes {
    /// The algorithm of a search that names none: MD5.
    fn default() -> (alg: Hashes)
        ensures
            alg == Hashes::Md5,
    {
        Hashes::Md5
    }
}

impl Hashes {
    /// The names of the algorithms, in the order of the variants.
    pub fn variants() -> (names: [&'static str; 6])
        ensures
            names@[0]@ == algorithm_name(Hashes::Md5),
            names@[1]@ == algorithm_name(Hashes::Sha1),
            names@[2]@ == algorithm_name(Hashes::Sha224),
            names@[3]@ == algorithm_name(Hashes::Sha256),
            names@[4]@ == algorithm_name(Hashes::Sha384),
            names@[5]@ == algorithm_name(Hashes::Sha512),
    {
        ["md5", "sha1", "sha224", "sha256", "sha384", "sha512"]
    }

    /// The name of this algorithm.
    pub fn name(self) -> (name: &'static str)
        ensures
            name@ == algorithm_name(self),
    {
        match self {
            Hashes::Md5 => "md5",
            Hashes::Sha1 => "sha1",
            Hashes::Sha224 => "sha224",
            Hashes::Sha256 => "sha256",
            Hashes::Sha384 => "sha384",
            Hashes::Sha512 => "sha512",
        }
    }

    /// The algorithm of the given name.
    pub fn from_name(name: &str) -> (alg: Option<Hashes>)
        ensures
            alg == algorithm_named(name@),
    {
        let wanted = name.to_owned();
        if wanted == Hashes::Md5.name().to_owned() {
            Some(Hashes::Md5)
        } else if wanted == Hashes::Sha1.name().to_owned() {
            Some(Hashes::Sha1)
        } else if wanted == Hashes::Sha224.name().to_owned() {
            Some(Hashes::Sha224)
        } else if wanted == Hashes::Sha256.name().to_owned() {
            Some(Hashes::Sha256)
        } else if wanted == Hashes::Sha384.name().to_owned() {
            Some(Hashes::Sha384)
        } else if wanted == Hashes::Sha512.name().to_owned() {
            Some(Hashes::Sha512)
        } else {
            None
        }
    }

    /// Number of bytes in a digest of this algorithm.
    pub fn hash_len(self) -> (n: usize)
        ensures
            n == digest_len(self),
    {
        match self {
            Hashes::Md5 => 16,
            Hashes::Sha1 => 20,
            Hashes::Sha224 => 28,
            Hashes::Sha256 => 32,
            Hashes::Sha384 => 48,
            Hashes::Sha512 => 64,
        }
    }

    /// The digest of `data` under this algorithm, as raw bytes.
    pub fn digest(self, data: &[u8]) -> (out: Vec<u8>)
        ensures
            out@ == digest_of(self, data@),
            out@.len() == digest_len(self),
    {
        match self {
            Hashes::Md5 => md5_digest(data),
            Hashes::Sha1 => sha1_digest(data),
            Hashes::Sha224 => sha224_digest(data),
            Hashes::Sha256 => sha256_digest(data),
            Hashes::Sha384 => sha384_digest(data),
            Hashes::Sha512 => sha512_digest(data),
        }
    }
}

/// Whether two byte strings hold the same bytes.
pub fn same_bytes(left: &[u8], right: &[u8]) -> (same: bool)
    ensures
        same == (left@ == right@),
{
    if left.len() != right.len() {
        return false;
    }
    let mut i: usize = 0;
    while i < left.len()
        invariant
            0 <= i <= left.len(),
            left.len() == right.len(),
            forall|j: int| 0 <= j < i ==> left@[j] == right@[j],
        decreases left.len() - i,
    {
        if left[i] != right[i] {
            return false;
        }
        i += 1;
    }
    proof {
        assert(left@ =~= right@);
    }
    true
}

/// Whether the digest under `hash` of the tokens of `lines`, joined in order
/// with `delim`, is `target_hash`. Digest and target are compared as raw
/// bytes.
pub fn check_hash(hash: Hashes, lines: &[&[u8]], delim: &[u8], target_hash: &[u8]) -> (found: bool)
    requires
        joined(views(lines@), delim@).len() <= usize::MAX,
    ensures
        found == (digest_of(hash, joined(views(lines@), delim@)) == target_hash@),
{
    let candidate = slice_join(lines, delim);
    let digest = hash.digest(candidate.as_slice());
    same_bytes(digest.as_slice(), target_hash)
}

} // verus!
