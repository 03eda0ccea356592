use permhash::hashes::Hashes;
use permhash::target::{parse_target, TargetError};

#[test]
fn target_is_decoded_from_hex() {
    let expected: Vec<u8> = vec![
        0xd4, 0x1d, 0x8c, 0xd9, 0x8f, 0x00, 0xb2, 0x04, 0xe9, 0x80, 0x09, 0x98, 0xec, 0xf8, 0x42,
        0x7e,
    ];
    assert_eq!(
        parse_target(Hashes::Md5, "d41d8cd98f00b204e9800998ecf8427e"),
        Ok(expected.clone())
    );
    assert_eq!(
        parse_target(Hashes::Md5, "D41D8CD98F00B204E9800998ECF8427E"),
        Ok(expected.clone())
    );
    assert_eq!(
        parse_target(Hashes::Md5, "d41D8cd98F00b204E9800998ecF8427e"),
        Ok(expected)
    );
}

#[test]
fn target_digits_pair_high_half_first() {
    let text = "000102030405060708090a0b0c0d0e0f10ff807f";
    let expected: Vec<u8> = vec![
        0, 1, 2, 3, 4, 5, 6, 7, 8, 9, 10, 11, 12, 13, 14, 15, 16, 255, 128, 127,
    ];
    assert_eq!(parse_target(Hashes::Sha1, text), Ok(expected));
}

#[test]
fn target_of_the_wrong_length_is_turned_down() {
    assert_eq!(
        parse_target(Hashes::Md5, "d41d8cd98f00b204e9800998ecf8427"),
        Err(TargetError::WrongLength {
            expected: 32,
            found: 31
        })
    );
    assert_eq!(
        parse_target(Hashes::Md5, ""),
        Err(TargetError::WrongLength {
            expected: 32,
            found: 0
        })
    );
    assert_eq!(
        parse_target(Hashes::Sha1, "d41d8cd98f00b204e9800998ecf8427e"),
        Err(TargetError::WrongLength {
            expected: 40,
            found: 32
        })
    );
    assert_eq!(
        parse_target(Hashes::Sha512, "d41d8cd98f00b204e9800998ecf8427e"),
        Err(TargetError::WrongLength {
            expected: 128,
            found: 32
        })
    );
}

#[test]
fn length_is_looked_at_before_the_digits() {
    assert_eq!(
        parse_target(Hashes::Md5, "not hexadecimal"),
        Err(TargetError::WrongLength {
            expected: 32,
            found: 15
        })
    );
}

#[test]
fn target_with_other_characters_is_turned_down() {
    assert_eq!(
        parse_target(Hashes::Md5, "d41d8cd98f00b204e9800998ecf8427g"),
        Err(TargetError::NotHex)
    );
    assert_eq!(
        parse_target(Hashes::Md5, "x41d8cd98f00b204e9800998ecf8427e"),
        Err(TargetError::NotHex)
    );
    assert_eq!(
        parse_target(Hashes::Md5, "d41d8cd98f00b204-9800998ecf8427e"),
        Err(TargetError::NotHex)
    );
}

#[test]
fn target_with_blanks_is_turned_down() {
    assert_eq!(
        parse_target(Hashes::Md5, "d41d8cd98f00b204 e9800998ecf8427"),
        Err(TargetError::NotHex)
    );
    assert_eq!(
        parse_target(Hashes::Md5, "d41d8cd98f00b204  e9800998ecf842"),
        Err(TargetError::NotHex)
    );
    assert_eq!(
        parse_target(Hashes::Md5, "d41d8cd98f00b204e9800998ecf842\r\n"),
        Err(TargetError::NotHex)
    );
    assert_eq!(
        parse_target(Hashes::Md5, "\td41d8cd98f00b204e9800998ecf8427"),
        Err(TargetError::NotHex)
    );
}

#[test]
fn target_with_characters_of_several_bytes_is_turned_down() {
    let text = "d41d8cd98f00b204e9800998ecf84\u{20ac}";
    assert_eq!(text.len(), 32);
    assert_eq!(parse_target(Hashes::Md5, text), Err(TargetError::NotHex));
}
