//! When an order that was signed ahead is used.

use vstd::prelude::*;
use crate::presign;
use crate::presign::{CacheView, OrderView, Presigned};

verus! {

/// An order that was signed ahead is used for exactly that order: where it is wanted as it was
/// signed it counts as a hit; where another is wanted of its token it is refused, and in either
/// case it is used up. Of a token that none was signed of, a want is a miss.
pub proof fn a_signature_is_for_its_order(v: CacheView, p: Presigned, want: OrderView)
    requires
        v.hits < u64::MAX,
        v.misses < u64::MAX,
        v.rejected < u64::MAX,
        want.token_id == p.order.token_id@,
    ensures
        ({
            let s = v.stored(p);
            let a = s.taken(want);
            &&& s.holds(want) <==> p.order@ == want
            &&& a.hits == v.hits + (if p.order@ == want {
                1int
            } else {
                0
            })
            &&& a.rejected == v.rejected + (if p.order@ == want {
                0int
            } else {
                1
            })
            &&& a.misses == v.misses
            &&& !a.orders.contains_key(want.token_id)
            &&& a.taken(want).misses == v.misses + 1
        }),
{
}

/// A want of one token leaves the orders of every other.
pub proof fn tokens_are_apart(v: CacheView, want: OrderView, other: Seq<char>)
    requires
        other != want.token_id,
    ensures
        v.taken(want).orders.contains_key(other) == v.orders.contains_key(other),
        v.orders.contains_key(other) ==> v.taken(want).orders[other] == v.orders[other],
{
}

/// Of a token that none was signed of, none is held, and a want counts as a miss and changes
/// nothing else.
pub proof fn what_was_not_signed_is_missed(v: CacheView, want: OrderView)
    requires
        !v.orders.contains_key(want.token_id),
        v.misses < u64::MAX,
    ensures
        !v.holds(want),
        v.taken(want) == (CacheView { misses: (v.misses + 1) as u64, ..v }),
{
}

} // verus!
