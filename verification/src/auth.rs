//! Authentication tokens: drawing one, and comparing one against another.

use crate::text::digit_char;
use rand::Rng;
use vstd::prelude::*;
use vstd::string::{StrSliceExecFns, StringExecFns};

verus! {

/// The lower-case hexadecimal digit of value `d`.
pub open spec fn hex_digit(d: int) -> char {
    if d < 10 {
        digit_char(d as nat)
    } else {
        ('a' as int + (d - 10)) as char
    }
}

/// Two hexadecimal digits per byte, high half first.
pub open spec fn hex_text(bytes: Seq<u8>) -> Seq<char>
    decreases bytes.len(),
{
    if bytes.len() == 0 {
        Seq::empty()
    } else {
        hex_text(bytes.drop_last()) + seq![
            hex_digit(bytes.last() as int / 16),
            hex_digit(bytes.last() as int % 16),
        ]
    }
}

pub open spec fn is_hex_digit(c: char) -> bool {
    ('0' <= c && c <= '9') || ('a' <= c && c <= 'f')
}

/// The hexadecimal form of `n` bytes is `2 * n` hexadecimal digits.
pub proof fn law_hex_text_shape(bytes: Seq<u8>)
    ensures
        hex_text(bytes).len() == 2 * bytes.len(),
        forall|i: int| 0 <= i < hex_text(bytes).len() ==> is_hex_digit(#[trigger] hex_text(bytes)[i]),
    decreases bytes.len(),
{
    if bytes.len() > 0 {
        law_hex_text_shape(bytes.drop_last());
        let init = hex_text(bytes.drop_last());
        let s = hex_text(bytes);
        assert forall|i: int| 0 <= i < s.len() implies is_hex_digit(#[trigger] s[i]) by {
            if i < init.len() {
                assert(s[i] == init[i]);
            } else if i == init.len() {
                assert(s[i] == hex_digit(bytes.last() as int / 16));
            } else {
                assert(s[i] == hex_digit(bytes.last() as int % 16));
            }
        }
    }
}

/// Different bytes have different hexadecimal forms.
pub proof fn law_hex_text_injective(a: Seq<u8>, b: Seq<u8>)
    requires
        hex_text(a) == hex_text(b),
    ensures
        a == b,
    decreases a.len(),
{
    law_hex_text_shape(a);
    law_hex_text_shape(b);
    if a.len() > 0 {
        let s = hex_text(a);
        let n = s.len();
        assert(s[n - 2] == hex_digit(a.last() as int / 16));
        assert(s[n - 1] == hex_digit(a.last() as int % 16));
        assert(s[n - 2] == hex_digit(b.last() as int / 16));
        assert(s[n - 1] == hex_digit(b.last() as int % 16));
        assert(a.last() == b.last());
        assert(hex_text(a.drop_last()) =~= s.take(n - 2));
        assert(hex_text(b.drop_last()) =~= s.take(n - 2));
        law_hex_text_injective(a.drop_last(), b.drop_last());
        assert(a =~= a.drop_last().push(a.last()));
        assert(b =~= b.drop_last().push(b.last()));
    } else {
        assert(a =~= b);
    }
}

fn hex_digit_text(d: u8) -> (r: &'static str)
    requires
        d < 16,
    ensures
        r@ == seq![hex_digit(d as int)],
{
    proof {
        reveal_strlit("0");
        reveal_strlit("1");
        reveal_strlit("2");
        reveal_strlit("3");
        reveal_strlit("4");
        reveal_strlit("5");
        reveal_strlit("6");
        reveal_strlit("7");
        reveal_strlit("8");
        reveal_strlit("9");
        reveal_strlit("a");
        reveal_strlit("b");
        reveal_strlit("c");
        reveal_strlit("d");
        reveal_strlit("e");
        reveal_strlit("f");
    }
    let r = match d {
        0 => "0",
        1 => "1",
        2 => "2",
        3 => "3",
        4 => "4",
        5 => "5",
        6 => "6",
        7 => "7",
        8 => "8",
        9 => "9",
        10 => "a",
        11 => "b",
        12 => "c",
        13 => "d",
        14 => "e",
        _ => "f",
    };
    assert(r@ =~= seq![hex_digit(d as int)]);
    r
}

/// Lower-case hexadecimal form of `bytes`, two digits per byte.
pub fn hex_encode(bytes: &[u8]) -> (r: String)
    ensures
        r@ == hex_text(bytes@),
{
    let mut out = String::new();
    let mut i: usize = 0;
    assert(bytes@.take(0).len() == 0);
    while i < bytes.len()
        invariant
            0 <= i <= bytes@.len(),
            out@ == hex_text(bytes@.take(i as int)),
        decreases bytes@.len() - i,
    {
        let ghost before = out@;
        let b: u8 = bytes[i];
        out.append(hex_digit_text(b / 16));
        out.append(hex_digit_text(b % 16));
        proof {
            let next = bytes@.take(i as int + 1);
            assert(next.drop_last() =~= bytes@.take(i as int));
            assert(next.last() == b);
            assert(out@ =~= before + seq![hex_digit(b as int / 16), hex_digit(b as int % 16)]);
        }
        i = i + 1;
    }
    assert(bytes@.take(bytes@.len() as int) =~= bytes@);
    out
}

/// `rand::Rng::fill_bytes` on the thread's generator, `rand::rng()`: 32 bytes drawn at random.
///
/// Nothing is claimed of the bytes: any values may come. The generator panics if the system
/// cannot seed it, which no argument of this call decides.
#[verifier::external_body]
fn random_bytes() -> (r: [u8; 32])
{
    let mut bytes = [0u8; 32];
    rand::rng().fill_bytes(&mut bytes);
    bytes
}

/// Generate a random auth token (32 bytes, hex-encoded = 64 characters).
pub fn generate_token() -> (r: String)
    ensures
        r@.len() == 64,
        forall|i: int| 0 <= i < 64 ==> is_hex_digit(#[trigger] r@[i]),
        exists|bytes: Seq<u8>| bytes.len() == 32 && r@ == #[trigger] hex_text(bytes),
{
    let bytes = random_bytes();
    let token = hex_encode(bytes.as_slice());
    proof {
        law_hex_text_shape(bytes@);
    }
    token
}

/// Token comparison that looks at every byte of equally long tokens, wherever they differ.
pub fn validate_token(provided: &str, expected: &str) -> (r: bool)
    ensures
        r == (provided@ == expected@),
{
    let a = provided.as_bytes();
    let b = expected.as_bytes();
    proof {
        vstd::utf8::encode_utf8_decode_utf8(provided@);
        vstd::utf8::encode_utf8_decode_utf8(expected@);
    }
    if a.len() != b.len() {
        return false;
    }
    let mut diff: u8 = 0;
    let mut i: usize = 0;
    while i < a.len()
        invariant
            0 <= i <= a@.len(),
            a@.len() == b@.len(),
            diff == 0 <==> (forall|j: int| 0 <= j < i ==> a@[j] == b@[j]),
        decreases a@.len() - i,
    {
        let x: u8 = a[i];
        let y: u8 = b[i];
        let before: u8 = diff;
        diff = diff | (x ^ y);
        assert(before | (x ^ y) == 0 <==> before == 0 && x == y) by (bit_vector);
        i = i + 1;
    }
    proof {
        if diff == 0 {
            assert(a@ =~= b@);
        }
    }
    diff == 0
}

/// Each byte is written as two digits, the higher half first, in order; digits above nine are
/// small letters.
pub proof fn law_bytes_are_written_in_order(bytes: Seq<u8>, b: u8)
    ensures
        hex_text(Seq::empty()).len() == 0,
        hex_text(bytes.push(b)) == hex_text(bytes).push(hex_digit(b as int / 16)).push(
            hex_digit(b as int % 16),
        ),
        forall|d: int| 0 <= d < 10 ==> #[trigger] hex_digit(d) as int == 48 + d,
        forall|d: int| 10 <= d < 16 ==> #[trigger] hex_digit(d) as int == 87 + d,
{
    assert(bytes.push(b).drop_last() =~= bytes);
    assert(hex_text(bytes.push(b)) =~= hex_text(bytes).push(hex_digit(b as int / 16)).push(
        hex_digit(b as int % 16),
    ));
}

} // verus!
