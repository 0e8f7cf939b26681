//! Text from bytes: UTF-8 decoding, and the decimal rendering of integers
//! as strings.

use vstd::prelude::*;
use vstd::utf8::{decode_utf8, pop_first_scalar, valid_utf8};
use crate::decimal::{decimal, lemma_decimal_digits, push_decimal};

verus! {

/// Relies on `String::from_utf8`: it succeeds exactly on valid UTF-8 and
/// then holds the characters those bytes encode.
#[verifier::external_body]
pub(crate) fn utf8_string(bytes: Vec<u8>) -> (r: Option<String>)
    ensures
        r is Some <==> valid_utf8(bytes@),
        r matches Some(s) ==> s@ == decode_utf8(bytes@),
{
    String::from_utf8(bytes).ok()
}

/// The characters of ASCII bytes.
pub open spec fn ascii_text(b: Seq<u8>) -> Seq<char> {
    b.map_values(|x: u8| x as char)
}

/// ASCII bytes are valid UTF-8, one character per byte.
pub proof fn lemma_ascii_utf8(b: Seq<u8>)
    requires
        forall|i: int| 0 <= i < b.len() ==> #[trigger] b[i] < 128,
    ensures
        valid_utf8(b),
        decode_utf8(b) == ascii_text(b),
    decreases b.len(),
{
    if b.len() > 0 {
        let x = b[0];
        assert(x & 0x7f == x) by (bit_vector)
            requires
                x < 128,
        ;
        assert(pop_first_scalar(b) =~= b.skip(1));
        lemma_ascii_utf8(b.skip(1));
        assert(ascii_text(b) =~= seq![x as char] + ascii_text(b.skip(1)));
    }
}

/// The decimal rendering of an integer, with a `-` in front when it is
/// negative.
pub open spec fn signed_decimal(n: int) -> Seq<u8> {
    if n < 0 {
        seq![45u8] + decimal((-n) as nat)
    } else {
        decimal(n as nat)
    }
}

fn ascii_string(b: Vec<u8>) -> (r: String)
    requires
        forall|i: int| 0 <= i < b@.len() ==> #[trigger] b@[i] < 128,
    ensures
        r@ == ascii_text(b@),
{
    proof {
        lemma_ascii_utf8(b@);
    }
    match utf8_string(b) {
        Some(s) => s,
        None => String::new(),
    }
}

/// The decimal rendering of `n` as a string.
pub fn digits_string(n: u64) -> (r: String)
    ensures
        r@ == ascii_text(decimal(n as nat)),
{
    let mut b: Vec<u8> = Vec::new();
    push_decimal(n, &mut b);
    proof {
        lemma_decimal_digits(n as nat);
        assert(b@ =~= decimal(n as nat));
        assert forall|i: int| 0 <= i < b@.len() implies #[trigger] b@[i] < 128 by {
            assert(b@[i] == decimal(n as nat)[i]);
        }
    }
    ascii_string(b)
}

/// The decimal rendering of `n` as a string.
pub fn decimal_string(n: i64) -> (r: String)
    ensures
        r@ == ascii_text(signed_decimal(n as int)),
{
    let mut b: Vec<u8> = Vec::new();
    if n < 0 {
        b.push(45);
        let m: u64 = (-(n + 1)) as u64 + 1;
        push_decimal(m, &mut b);
        assert(b@ =~= signed_decimal(n as int));
    } else {
        push_decimal(n as u64, &mut b);
        assert(b@ =~= signed_decimal(n as int));
    }
    proof {
        let m: nat = if n < 0 { (-n) as nat } else { n as nat };
        lemma_decimal_digits(m);
        assert forall|i: int| 0 <= i < b@.len() implies #[trigger] b@[i] < 128 by {
            if n < 0 && i > 0 {
                assert(b@[i] == decimal(m)[i - 1]);
            } else if n >= 0 {
                assert(b@[i] == decimal(m)[i]);
            }
        }
        lemma_ascii_utf8(b@);
    }
    match utf8_string(b) {
        Some(s) => s,
        None => String::new(),
    }
}

} // verus!
