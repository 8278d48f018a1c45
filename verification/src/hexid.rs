//! Identity generator: random lowercase hexadecimal identifiers for rooms
//! and participants.

use vstd::prelude::*;
use vstd::string::StringExecFns;

verus! {

/// A lowercase hexadecimal digit character.
pub open spec fn is_hex_char(c: char) -> bool {
    ('0' <= c && c <= '9') || ('a' <= c && c <= 'f')
}

/// A character sequence made only of lowercase hexadecimal digits.
pub open spec fn is_hex_seq(s: Seq<char>) -> bool {
    forall|i: int| 0 <= i < s.len() ==> is_hex_char(s[i])
}

/// The lowercase hexadecimal digit for a value below sixteen.
pub open spec fn hex_digit(n: u8) -> char
    recommends
        n < 16,
{
    if n == 0 {
        '0'
    } else if n == 1 {
        '1'
    } else if n == 2 {
        '2'
    } else if n == 3 {
        '3'
    } else if n == 4 {
        '4'
    } else if n == 5 {
        '5'
    } else if n == 6 {
        '6'
    } else if n == 7 {
        '7'
    } else if n == 8 {
        '8'
    } else if n == 9 {
        '9'
    } else if n == 10 {
        'a'
    } else if n == 11 {
        'b'
    } else if n == 12 {
        'c'
    } else if n == 13 {
        'd'
    } else if n == 14 {
        'e'
    } else {
        'f'
    }
}

/// The lowercase hexadecimal rendering of a byte sequence, two digits per
/// byte, high nibble first.
pub open spec fn hex_of(bytes: Seq<u8>) -> Seq<char>
    decreases bytes.len(),
{
    if bytes.len() == 0 {
        Seq::empty()
    } else {
        hex_of(bytes.drop_last()) + seq![
            hex_digit(bytes.last() / 16),
            hex_digit(bytes.last() % 16),
        ]
    }
}

/// Relies on rand::thread_rng and rand::RngCore::fill_bytes: fills a buffer
/// of the requested length with bytes from the thread-local random
/// generator. Nothing is assumed of the values drawn, only the length.
#[verifier::external_body]
fn random_bytes(n: usize) -> (r: Vec<u8>)
    ensures
        r@.len() == n,
{
    let mut rng = rand::thread_rng();
    let mut bytes = vec![0u8; n];
    rand::RngCore::fill_bytes(&mut rng, &mut bytes);
    bytes
}

/// The one-character string for a value below sixteen, as a lowercase
/// hexadecimal digit.
fn hex_digit_str(n: u8) -> (r: &'static str)
    requires
        n < 16,
    ensures
        r@ == seq![hex_digit(n)],
{
    let r: &'static str = if n == 0 {
        proof { reveal_strlit("0"); }
        "0"
    } else if n == 1 {
        proof { reveal_strlit("1"); }
        "1"
    } else if n == 2 {
        proof { reveal_strlit("2"); }
        "2"
    } else if n == 3 {
        proof { reveal_strlit("3"); }
        "3"
    } else if n == 4 {
        proof { reveal_strlit("4"); }
        "4"
    } else if n == 5 {
        proof { reveal_strlit("5"); }
        "5"
    } else if n == 6 {
        proof { reveal_strlit("6"); }
        "6"
    } else if n == 7 {
        proof { reveal_strlit("7"); }
        "7"
    } else if n == 8 {
        proof { reveal_strlit("8"); }
        "8"
    } else if n == 9 {
        proof { reveal_strlit("9"); }
        "9"
    } else if n == 10 {
        proof { reveal_strlit("a"); }
        "a"
    } else if n == 11 {
        proof { reveal_strlit("b"); }
        "b"
    } else if n == 12 {
        proof { reveal_strlit("c"); }
        "c"
    } else if n == 13 {
        proof { reveal_strlit("d"); }
        "d"
    } else if n == 14 {
        proof { reveal_strlit("e"); }
        "e"
    } else {
        proof { reveal_strlit("f"); }
        "f"
    };
    proof {
        assert(r@ =~= seq![hex_digit(n)]);
    }
    r
}

/// Renders a byte sequence as lowercase hexadecimal, two digits per byte.
pub fn bytes_to_hex(bytes: &Vec<u8>) -> (r: String)
    ensures
        r@ == hex_of(bytes@),
        r@.len() == 2 * bytes@.len(),
        is_hex_seq(r@),
{
    let mut s = String::new();
    let mut i: usize = 0;
    while i < bytes.len()
        invariant
            0 <= i <= bytes@.len(),
            s@ == hex_of(bytes@.subrange(0, i as int)),
            s@.len() == 2 * i,
            is_hex_seq(s@),
        decreases bytes@.len() - i,
    {
        let b = bytes[i];
        let hi: u8 = b / 16;
        let lo: u8 = b % 16;
        assert(hi < 16 && lo < 16);
        s.append(hex_digit_str(hi));
        s.append(hex_digit_str(lo));
        proof {
            let pre = bytes@.subrange(0, i as int);
            let cur = bytes@.subrange(0, i + 1);
            assert(cur.drop_last() =~= pre);
            assert(cur.last() == bytes@[i as int]);
            assert(s@ =~= hex_of(cur));
            assert(is_hex_char(hex_digit(hi)));
            assert(is_hex_char(hex_digit(lo)));
        }
        i += 1;
    }
    proof {
        assert(bytes@.subrange(0, bytes@.len() as int) =~= bytes@);
    }
    s
}

/// Generates a random identifier: a lowercase hexadecimal string of the
/// given even length. Used with length 6 for room ids and length 20 for
/// auto-generated participant ids.
pub fn random_hex(len: usize) -> (r: String)
    requires
        len % 2 == 0,
    ensures
        r@.len() == len,
        is_hex_seq(r@),
{
    let bytes = random_bytes(len / 2);
    bytes_to_hex(&bytes)
}

} // verus!
