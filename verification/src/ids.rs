//! Random identifiers minted for RPC calls and plugin tasks.

use vstd::prelude::*;
use crate::json::hex_digit;

verus! {

pub open spec fn is_lower_hex(c: char) -> bool {
    ('0' <= c && c <= '9') || ('a' <= c && c <= 'f')
}

/// The text of a random (version 4, RFC 4122 variant) UUID in hyphenated
/// lower-case form: `xxxxxxxx-xxxx-4xxx-Nxxx-xxxxxxxxxxxx`, `N` one of `8 9 a b`.
pub open spec fn is_uuid_v4_text(s: Seq<char>) -> bool {
    &&& s.len() == 36
    &&& forall|i: int|
        0 <= i < 36 ==> (if i == 8 || i == 13 || i == 18 || i == 23 {
            #[trigger] s[i] == '-'
        } else {
            is_lower_hex(s[i])
        })
    &&& s[14] == '4'
    &&& (s[19] == '8' || s[19] == '9' || s[19] == 'a' || s[19] == 'b')
}

/// Lower-case hexadecimal text of bytes, two digits per byte, high nibble
/// first.
pub open spec fn simple_hex(b: Seq<u8>) -> Seq<char> {
    Seq::new(
        2 * b.len(),
        |i: int|
            if i % 2 == 0 {
                hex_digit((b[i / 2] / 16) as int)
            } else {
                hex_digit((b[i / 2] % 16) as int)
            },
    )
}

/// The hyphenated form of 16 bytes: `8-4-4-4-12` hexadecimal digits.
pub open spec fn hyphenated(b: Seq<u8>) -> Seq<char> {
    let h = simple_hex(b);
    h.subrange(0, 8) + seq!['-'] + h.subrange(8, 12) + seq!['-'] + h.subrange(12, 16) + seq!['-']
        + h.subrange(16, 20) + seq!['-'] + h.subrange(20, 32)
}

/// Random bytes with the version 4 and RFC 4122 variant bits set.
pub open spec fn v4_bytes(b: Seq<u8>) -> Seq<u8> {
    b.update(6, (b[6] & 0x0f) | 0x40).update(8, (b[8] & 0x3f) | 0x80)
}

/// Sixteen bytes from the operating system's random source
/// (`getrandom::fill`), or `None` when that source fails. Which bytes come
/// back is left open: they are random.
#[verifier::external_body]
fn random_bytes() -> (r: Option<[u8; 16]>) {
    let mut b = [0u8; 16];
    match getrandom::fill(&mut b) {
        Ok(()) => Some(b),
        Err(_) => None,
    }
}

/// `uuid::Builder::from_random_bytes(bytes).into_uuid().to_string()`.
///
/// Claimed of the outside code: `from_random_bytes` sets the version nibble of
/// byte 6 to 4 and the top bits of byte 8 to the RFC 4122 variant (`10`), and
/// `Display` writes the bytes in order as lower-case hexadecimal in the
/// hyphenated `8-4-4-4-12` form.
#[verifier::external_body]
fn uuid_v4_text(bytes: [u8; 16]) -> (s: String)
    ensures
        s@ == hyphenated(v4_bytes(bytes@)),
{
    uuid::Builder::from_random_bytes(bytes).into_uuid().to_string()
}

proof fn lemma_hex_digit_lower(d: int)
    requires
        0 <= d < 16,
    ensures
        is_lower_hex(hex_digit(d)),
{
}

/// The text of a version 4 UUID made from any 16 bytes has the v4 shape.
pub proof fn lemma_v4_text_shape(b: Seq<u8>)
    requires
        b.len() == 16,
    ensures
        is_uuid_v4_text(hyphenated(v4_bytes(b))),
{
    let v = v4_bytes(b);
    let h = simple_hex(v);
    let t = hyphenated(v);
    assert(v.len() == 16);
    assert(h.len() == 32);
    assert(t.len() == 36);
    assert forall|i: int| 0 <= i < 36 implies (if i == 8 || i == 13 || i == 18 || i == 23 {
        #[trigger] t[i] == '-'
    } else {
        is_lower_hex(t[i])
    }) by {
        if i < 8 {
            assert(t[i] == h[i]);
        } else if 8 < i < 13 {
            assert(t[i] == h[i - 1]);
        } else if 13 < i < 18 {
            assert(t[i] == h[i - 2]);
        } else if 18 < i < 23 {
            assert(t[i] == h[i - 3]);
        } else if i > 23 {
            assert(t[i] == h[i - 4]);
        }
        if i != 8 && i != 13 && i != 18 && i != 23 {
            let k: int = if i < 8 {
                i
            } else if i < 13 {
                i - 1
            } else if i < 18 {
                i - 2
            } else if i < 23 {
                i - 3
            } else {
                i - 4
            };
            assert(t[i] == h[k]);
            let x = v[k / 2];
            assert(x / 16 < 16 && x % 16 < 16);
            lemma_hex_digit_lower((x / 16) as int);
            lemma_hex_digit_lower((x % 16) as int);
        }
    }
    let x6 = b[6];
    let x8 = b[8];
    assert(((x6 & 0x0f) | 0x40) / 16 == 4) by (bit_vector);
    assert(((x8 & 0x3f) | 0x80) / 16 >= 8 && ((x8 & 0x3f) | 0x80) / 16 <= 11) by (bit_vector);
    assert(t[14] == h[12]);
    assert(h[12] == hex_digit((v[6] / 16) as int));
    assert(t[19] == h[16]);
    assert(h[16] == hex_digit((v[8] / 16) as int));
}

/// A fresh random UUID (version 4) as hyphenated lower-case text, or `None`
/// when the operating system's random source fails.
pub fn new_uuid_v4() -> (r: Option<String>)
    ensures
        r matches Some(s) ==> is_uuid_v4_text(s@),
        r matches Some(s) ==> exists|b: Seq<u8>| b.len() == 16 && s@ == #[trigger] hyphenated(v4_bytes(b)),
{
    match random_bytes() {
        Some(b) => {
            let s = uuid_v4_text(b);
            proof {
                lemma_v4_text_shape(b@);
            }
            Some(s)
        },
        None => None,
    }
}

} // verus!
