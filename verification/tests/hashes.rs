use digest::{Digest, FixedOutput};
use generic_array::typenum::Unsigned;
use permhash::hashes::{check_hash, same_bytes, Hashes};
use permhash::target::parse_target;

fn hex(alg: Hashes, text: &str) -> Vec<u8> {
    parse_target(alg, text).unwrap()
}

#[test]
fn md5_of_the_empty_string() {
    let expected: Vec<u8> = vec![
        0xd4, 0x1d, 0x8c, 0xd9, 0x8f, 0x00, 0xb2, 0x04, 0xe9, 0x80, 0x09, 0x98, 0xec, 0xf8, 0x42,
        0x7e,
    ];
    assert_eq!(Hashes::Md5.digest(b""), expected);
}

#[test]
fn known_answers_for_the_empty_string() {
    assert_eq!(
        Hashes::Md5.digest(b""),
        hex(Hashes::Md5, "d41d8cd98f00b204e9800998ecf8427e")
    );
    assert_eq!(
        Hashes::Sha1.digest(b""),
        hex(Hashes::Sha1, "da39a3ee5e6b4b0d3255bfef95601890afd80709")
    );
    assert_eq!(
        Hashes::Sha224.digest(b""),
        hex(
            Hashes::Sha224,
            "d14a028c2a3a2bc9476102bb288234c415a2b01f828ea62ac5b3e42f"
        )
    );
    assert_eq!(
        Hashes::Sha256.digest(b""),
        hex(
            Hashes::Sha256,
            "e3b0c44298fc1c149afbf4c8996fb92427ae41e4649b934ca495991b7852b855"
        )
    );
    assert_eq!(
        Hashes::Sha384.digest(b""),
        hex(
            Hashes::Sha384,
            "38b060a751ac96384cd9327eb1b1e36a21fdb71114be07434c0cc7bf63f6e1da274edebfe76f65fbd51ad2f14898b95b"
        )
    );
    assert_eq!(
        Hashes::Sha512.digest(b""),
        hex(
            Hashes::Sha512,
            "cf83e1357eefb8bdf1542850d66d8007d620e4050b5715dc83f4a921d36ce9ce47d0d13c5d85f2b0ff8318d2877eec2f63b931bd47417a81a538327af927da3e"
        )
    );
}

#[test]
fn known_answers_for_abc() {
    assert_eq!(
        Hashes::Md5.digest(b"abc"),
        hex(Hashes::Md5, "900150983cd24fb0d6963f7d28e17f72")
    );
    assert_eq!(
        Hashes::Sha1.digest(b"abc"),
        hex(Hashes::Sha1, "a9993e364706816aba3e25717850c26c9cd0d89d")
    );
    assert_eq!(
        Hashes::Sha224.digest(b"abc"),
        hex(
            Hashes::Sha224,
            "23097d223405d8228642a477bda255b32aadbce4bda0b3f7e36c9da7"
        )
    );
    assert_eq!(
        Hashes::Sha256.digest(b"abc"),
        hex(
            Hashes::Sha256,
            "ba7816bf8f01cfea414140de5dae2223b00361a396177a9cb410ff61f20015ad"
        )
    );
    assert_eq!(
        Hashes::Sha384.digest(b"abc"),
        hex(
            Hashes::Sha384,
            "cb00753f45a35e8bb5a03d699ac65007272c32ab0eded1631a8b605a43ff5bed8086072ba1e7cc2358baeca134c825a7"
        )
    );
    assert_eq!(
        Hashes::Sha512.digest(b"abc"),
        hex(
            Hashes::Sha512,
            "ddaf35a193617abacc417349ae20413112e6fa4e89a97ea20a9eeee64b55d39a2192992a274fc1a836ba3c23a3feebbd454d4423643ce80e2a9ac94fa54ca49f"
        )
    );
}

#[test]
fn hash_len_is_the_output_size_of_each_hasher() {
    assert_eq!(Hashes::Md5.hash_len(), 16);
    assert_eq!(Hashes::Sha1.hash_len(), 20);
    assert_eq!(Hashes::Sha224.hash_len(), 28);
    assert_eq!(Hashes::Sha256.hash_len(), 32);
    assert_eq!(Hashes::Sha384.hash_len(), 48);
    assert_eq!(Hashes::Sha512.hash_len(), 64);
    assert_eq!(
        Hashes::Md5.hash_len(),
        <md5::Md5 as FixedOutput>::OutputSize::to_usize()
    );
    assert_eq!(
        Hashes::Sha1.hash_len(),
        <sha1::Sha1 as FixedOutput>::OutputSize::to_usize()
    );
    assert_eq!(
        Hashes::Sha224.hash_len(),
        <sha2::Sha224 as FixedOutput>::OutputSize::to_usize()
    );
    assert_eq!(
        Hashes::Sha256.hash_len(),
        <sha2::Sha256 as FixedOutput>::OutputSize::to_usize()
    );
    assert_eq!(
        Hashes::Sha384.hash_len(),
        <sha2::Sha384 as FixedOutput>::OutputSize::to_usize()
    );
    assert_eq!(
        Hashes::Sha512.hash_len(),
        <sha2::Sha512 as FixedOutput>::OutputSize::to_usize()
    );
}

#[test]
fn digest_has_the_length_of_its_algorithm() {
    let algorithms = [
        Hashes::Md5,
        Hashes::Sha1,
        Hashes::Sha224,
        Hashes::Sha256,
        Hashes::Sha384,
        Hashes::Sha512,
    ];
    for alg in algorithms {
        assert_eq!(alg.digest(b"some bytes").len(), alg.hash_len());
    }
}

#[test]
fn digest_of_the_parts_fed_in_turn_is_the_digest_of_the_whole() {
    let mut hasher = sha2::Sha256::default();
    hasher.input(b"abc");
    hasher.input(b"-");
    hasher.input(b"def");
    assert_eq!(hasher.result().to_vec(), Hashes::Sha256.digest(b"abc-def"));
}

#[test]
fn md5_is_the_default() {
    assert_eq!(Hashes::default(), Hashes::Md5);
    assert_eq!(Hashes::default().name(), "md5");
}

#[test]
fn algorithm_names() {
    assert_eq!(
        Hashes::variants(),
        ["md5", "sha1", "sha224", "sha256", "sha384", "sha512"]
    );
    assert_eq!(Hashes::Md5.name(), "md5");
    assert_eq!(Hashes::Sha512.name(), "sha512");
    assert_eq!(Hashes::from_name("md5"), Some(Hashes::Md5));
    assert_eq!(Hashes::from_name("sha1"), Some(Hashes::Sha1));
    assert_eq!(Hashes::from_name("sha224"), Some(Hashes::Sha224));
    assert_eq!(Hashes::from_name("sha256"), Some(Hashes::Sha256));
    assert_eq!(Hashes::from_name("sha384"), Some(Hashes::Sha384));
    assert_eq!(Hashes::from_name("sha512"), Some(Hashes::Sha512));
    assert_eq!(Hashes::from_name("MD5"), None);
    assert_eq!(Hashes::from_name("sha3"), None);
    assert_eq!(Hashes::from_name(""), None);
    for name in Hashes::variants() {
        assert_eq!(Hashes::from_name(name).unwrap().name(), name);
    }
}

#[test]
fn same_bytes_compares_length_and_content() {
    assert!(same_bytes(b"", b""));
    assert!(same_bytes(b"abc", b"abc"));
    assert!(!same_bytes(b"abc", b"abd"));
    assert!(!same_bytes(b"abc", b"ab"));
    assert!(!same_bytes(b"", b"a"));
}

#[test]
fn check_hash_joins_then_compares_raw_bytes() {
    let lines: Vec<&[u8]> = vec![b"abc", b"def"];
    let target = Hashes::Md5.digest(b"abc-def");
    assert!(check_hash(Hashes::Md5, &lines, b"-", &target));
    assert!(!check_hash(Hashes::Md5, &lines, b"", &target));
    assert!(!check_hash(Hashes::Sha1, &lines, b"-", &target));
    let swapped: Vec<&[u8]> = vec![b"def", b"abc"];
    assert!(!check_hash(Hashes::Md5, &swapped, b"-", &target));
    let plain = Hashes::Sha256.digest(b"abcdef");
    assert!(check_hash(Hashes::Sha256, &lines, b"", &plain));
}

#[test]
fn check_hash_of_no_token_is_the_digest_of_nothing() {
    let none: Vec<&[u8]> = Vec::new();
    let target = Hashes::Sha1.digest(b"");
    assert!(check_hash(Hashes::Sha1, &none, b"-", &target));
}

#[test]
fn check_hash_turns_down_a_target_of_another_length() {
    let lines: Vec<&[u8]> = vec![b"abc"];
    let mut target = Hashes::Md5.digest(b"abc");
    target.push(0);
    assert!(!check_hash(Hashes::Md5, &lines, b"", &target));
}
