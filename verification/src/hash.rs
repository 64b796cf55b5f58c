//! The message digest that is signed: SHA-256 of the upper-case hexadecimal
//! text of the SHA-256 of the message, read as a big-endian number.

use crate::uint::{be_value, U256};
use vstd::prelude::*;
use vstd::string::*;
use vstd::utf8::encode_utf8;

verus! {

/// The SHA-256 digest of a byte string.
pub uninterp spec fn sha256_digest(data: Seq<u8>) -> Seq<u8>;

/// The upper-case hexadecimal digit for a number below sixteen.
pub open spec fn hex_digit(d: nat) -> char {
    if d == 0 {
        '0'
    } else if d == 1 {
        '1'
    } else if d == 2 {
        '2'
    } else if d == 3 {
        '3'
    } else if d == 4 {
        '4'
    } else if d == 5 {
        '5'
    } else if d == 6 {
        '6'
    } else if d == 7 {
        '7'
    } else if d == 8 {
        '8'
    } else if d == 9 {
        '9'
    } else if d == 10 {
        'A'
    } else if d == 11 {
        'B'
    } else if d == 12 {
        'C'
    } else if d == 13 {
        'D'
    } else if d == 14 {
        'E'
    } else {
        'F'
    }
}

/// The hexadecimal text of a number, without leading zeros: zero has no digits.
pub open spec fn hex_text(n: nat) -> Seq<char>
    decreases n,
{
    if n == 0 {
        Seq::empty()
    } else {
        hex_text(n / 16).push(hex_digit(n % 16))
    }
}

/// The hexadecimal texts of the bytes, one after the other.
pub open spec fn hex_string(bytes: Seq<u8>) -> Seq<char>
    decreases bytes.len(),
{
    if bytes.len() == 0 {
        Seq::empty()
    } else {
        hex_string(bytes.drop_last()) + hex_text(bytes.last() as nat)
    }
}

/// The number that a message of the given text is signed as.
pub open spec fn message_digest(text: Seq<char>) -> nat {
    be_value(sha256_digest(encode_utf8(hex_string(sha256_digest(encode_utf8(text))))))
}

/// The one-character text of a hexadecimal digit.
fn hex_digit_str(d: u8) -> (r: &'static str)
    requires
        d < 16,
    ensures
        r@ == seq![hex_digit(d as nat)],
{
    proof {
        reveal_strlit("0");
        reveal_strlit("1");
        reveal_strlit("2");
        reveal_strlit("3");
        reveal_strlit("4");
        reveal_strlit("5");
        reveal_strlit("6");
        reveal_strlit("7");
        reveal_strlit("8");
        reveal_strlit("9");
        reveal_strlit("A");
        reveal_strlit("B");
        reveal_strlit("C");
        reveal_strlit("D");
        reveal_strlit("E");
        reveal_strlit("F");
    }
    let r = if d == 0 {
        "0"
    } else if d == 1 {
        "1"
    } else if d == 2 {
        "2"
    } else if d == 3 {
        "3"
    } else if d == 4 {
        "4"
    } else if d == 5 {
        "5"
    } else if d == 6 {
        "6"
    } else if d == 7 {
        "7"
    } else if d == 8 {
        "8"
    } else if d == 9 {
        "9"
    } else if d == 10 {
        "A"
    } else if d == 11 {
        "B"
    } else if d == 12 {
        "C"
    } else if d == 13 {
        "D"
    } else if d == 14 {
        "E"
    } else {
        "F"
    };
    assert(r@ =~= seq![hex_digit(d as nat)]);
    r
}

/// The hexadecimal text of a byte, in upper case and without leading zeros:
/// the byte zero gives the empty text, a byte below sixteen a single digit.
pub fn u8_to_hex(n: u8) -> (r: String)
    ensures
        r@ == hex_text(n as nat),
{
    let high: u8 = n / 16;
    let low: u8 = n % 16;
    let mut text = String::new();
    if high > 0 {
        text.append(hex_digit_str(high));
    }
    if n > 0 {
        text.append(hex_digit_str(low));
    }
    proof {
        reveal_with_fuel(hex_text, 3);
        assert(text@ =~= hex_text(n as nat));
    }
    text
}

/// The hexadecimal texts of the bytes, one after the other.
pub fn hex_encode(bytes: &[u8]) -> (r: String)
    ensures
        r@ == hex_string(bytes@),
{
    let mut text = String::new();
    let mut i: usize = 0;
    while i < bytes.len()
        invariant
            i <= bytes@.len(),
            text@ == hex_string(bytes@.take(i as int)),
        decreases bytes@.len() - i,
    {
        let piece = u8_to_hex(bytes[i]);
        text.append(piece.as_str());
        proof {
            let next = bytes@.take(i + 1);
            assert(next.drop_last() =~= bytes@.take(i as int));
            assert(next.last() == bytes@[i as int]);
        }
        i = i + 1;
    }
    proof {
        assert(bytes@.take(i as int) =~= bytes@);
    }
    text
}

/// The number that the message `s` is signed as: the SHA-256 digest of the
/// hexadecimal text of its SHA-256 digest, read most significant byte first.
pub fn hash256(s: String) -> (r: U256)
    ensures
        r@ == message_digest(s@),
{
    let first = sha256(s.as_str().as_bytes());
    let text = hex_encode(first.as_slice());
    let second = sha256(text.as_str().as_bytes());
    U256::from_big_endian(second.as_slice())
}

/// `sha2::Sha256`'s `Digest::digest`: the SHA-256 digest of the bytes, which is
/// 32 bytes long.
#[verifier::external_body]
fn sha256(data: &[u8]) -> (r: Vec<u8>)
    ensures
        r@ == sha256_digest(data@),
        r@.len() == 32,
{
    <sha2::Sha256 as sha2::Digest>::digest(data).to_vec()
}

} // verus!
