use bitcoin_prac::hash::{hash256, hex_encode, u8_to_hex};
use bitcoin_prac::uint::U256;

#[test]
fn u8_to_hex_has_no_leading_zeros() {
    assert_eq!(u8_to_hex(0), "");
    assert_eq!(u8_to_hex(1), "1");
    assert_eq!(u8_to_hex(9), "9");
    assert_eq!(u8_to_hex(10), "A");
    assert_eq!(u8_to_hex(15), "F");
    assert_eq!(u8_to_hex(16), "10");
    assert_eq!(u8_to_hex(0x1A), "1A");
    assert_eq!(u8_to_hex(0xA0), "A0");
    assert_eq!(u8_to_hex(255), "FF");
}

#[test]
fn u8_to_hex_agrees_with_upper_hex_formatting() {
    for n in 1..=255u8 {
        assert_eq!(u8_to_hex(n), format!("{:X}", n));
    }
}

#[test]
fn hex_encode_joins_the_bytes() {
    assert_eq!(hex_encode(&[]), "");
    assert_eq!(hex_encode(&[0xDE, 0xAD, 0xBE, 0xEF]), "DEADBEEF");
    assert_eq!(hex_encode(&[0x01, 0x00, 0x0F, 0x10]), "1F10");
    assert_eq!(hex_encode(&[0, 0, 0]), "");
}

#[test]
fn hash256_known_values() {
    assert_eq!(
        hash256(String::from("genius_jaeyeop")),
        U256 {
            w3: 0x7BF5DBB98083A353,
            w2: 0x3B1A23F2F42DDCB1,
            w1: 0xF9B4CDF102EF5D18,
            w0: 0x5DC530574F1A8E8C
        }
    );
    assert_eq!(
        hash256(String::from("gangcheon")),
        U256 {
            w3: 0x4CD6B8A8B0463F44,
            w2: 0x930CFABB76FB9732,
            w1: 0xB0A778B32564121E,
            w0: 0xDD4C76A4AAC4E7E3
        }
    );
    assert_eq!(
        hash256(String::new()),
        U256 {
            w3: 0xF8BBB0CCB2491CA2,
            w2: 0x9A3DF03D6F92277A,
            w1: 0x4F3574266507ACD7,
            w0: 0x7214D37ECA3F3082
        }
    );
}

#[test]
fn hash256_drops_the_zero_bytes_of_the_first_digest() {
    // The SHA-256 digest of "Hello world" holds a zero byte, which adds nothing
    // to the text that is hashed again.
    assert_eq!(
        hash256(String::from("Hello world")),
        U256 {
            w3: 0x96954841728C8F95,
            w2: 0x6CEEC551FDEA2176,
            w1: 0xEC67D06AB9F87785,
            w0: 0x218D06645E62D183
        }
    );
}
