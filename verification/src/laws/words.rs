//! Words and the numbers that they write.

use vstd::prelude::*;
use crate::words;

verus! {

/// Rounding goes to the nearest, up from the middle.
pub proof fn nearest_is_nearest(a: int, b: int)
    requires
        b > 0,
    ensures
        -b < 2 * (words::nearest(a, b) * b - a) <= b,
{
    let (x, y) = (2 * a + b, 2 * b);
    vstd::arithmetic::div_mod::lemma_fundamental_div_mod(x, y);
    vstd::arithmetic::div_mod::lemma_mod_bound(x, y);
    let q = x / y;
    assert(2 * (q * b) == (2 * b) * q) by (nonlinear_arith);
}

/// A number is written with its highest byte first: each byte more makes it two hundred and
/// fifty-six times as large, and adds itself.
pub proof fn the_highest_byte_comes_first(s: Seq<u8>, b: u8)
    ensures
        words::be(s.push(b)) == 256 * words::be(s) + b,
        words::be(Seq::<u8>::empty()) == 0,
{
    assert(s.push(b).drop_last() =~= s);
}

/// An address stands at the end of its word, behind zeros.
pub proof fn an_address_stands_at_the_end(a: Seq<u8>)
    requires
        a.len() == 20,
    ensures
        words::address_word(a).len() == 32,
        words::address_word(a).skip(12) == a,
        words::be(words::address_word(a)) == words::be(a),
{
    let w = words::address_word(a);
    assert(w.skip(12) =~= a);
    assert(words::is_zero(w.take(12)));
    words::zeros_in_front(w, 12);
}

} // verus!
