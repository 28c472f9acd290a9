//! The number of a lane and the lease of a wallet.

use vstd::prelude::*;
use crate::laneid;
use crate::lease;
use crate::text;

verus! {

/// Only what is a digit of sixteen counts, all of it, in its order.
pub proof fn only_digits_count(s: Seq<char>)
    ensures
        laneid::hex_only(s) == s.filter(|c: char| text::is_hex(c)),
    decreases s.len(),
{
    reveal(Seq::filter);
    if s.len() > 0 {
        only_digits_count(s.drop_last());
    }
}

/// A digit of a number is what is left of it when the lower digits are taken off.
pub proof fn a_digit_has_its_place(h: int, place: int)
    requires
        h >= 0,
        place >= 0,
    ensures
        laneid::nibble(h, 0) == h % 16,
        laneid::nibble(h, place + 1) == laneid::nibble(h / 16, place),
{
}

/// Two leaders that are written alike, but for case, spaces around them, the mark of a number
/// and what is no digit, are the same lane.
pub proof fn a_lane_is_its_leader(a: Seq<char>, b: Seq<char>)
    requires
        laneid::normal(a) == laneid::normal(b),
    ensures
        laneid::lane_id(a) == laneid::lane_id(b),
        laneid::is_id(laneid::lane_id(a)),
{
    laneid::minted_is_valid(a);
}

/// A wallet has one lease however it is written: the mark of a number and the case of its
/// digits make no other.
pub proof fn a_wallet_has_one_lease(w: Seq<char>)
    ensures
        lease::wallet_of("0x"@ + w) == lease::wallet_of(w),
        lease::wallet_of(w) == text::lower_of(lease::wallet_of(w)),
        lease::wallet_of(w).len() == laneid::hex_only(text::bare(w)).len(),
{
    reveal_strlit("0x");
    assert(("0x"@ + w).skip(2) =~= w);
    assert(text::lower_of(lease::wallet_of(w)) =~= lease::wallet_of(w));
}

/// The digits of a number are those of its sixteenth, one place further, and its last one.
pub proof fn the_last_digit_comes_last(h: u64)
    ensures
        laneid::hex12(h)[11] == text::hex_digit(h as int % 16),
        forall|i: int|
            0 <= i < 11 ==> laneid::hex12(h)[i] == #[trigger] laneid::hex12((h / 16) as u64)[i + 1],
        laneid::hex12(h).len() == 12,
{
}

} // verus!
