//! What is told of an order.

use vstd::prelude::*;
use crate::provenance;
use crate::provenance::Provenance;

verus! {

/// A ratio is the nearest, away from nothing from the middle.
pub proof fn a_ratio_is_nearest(n: int, d: int, scale: int)
    requires
        d > 0,
        scale > 0,
        n >= 0,
    ensures
        -d < 2 * (provenance::ratio(n, d, scale) * d - n * scale) <= d,
        provenance::ratio(-n, d, scale) == -provenance::ratio(n, d, scale),
{
    let x = 2 * n * scale + d;
    let y = 2 * d;
    vstd::arithmetic::div_mod::lemma_fundamental_div_mod(x, y);
    vstd::arithmetic::div_mod::lemma_mod_bound(x, y);
    let q = x / y;
    assert((2 * d) * q == 2 * (q * d)) by (nonlinear_arith);
    assert(2 * n * scale == 2 * (n * scale)) by (nonlinear_arith);
    if n == 0 {
        assert(0 * scale == 0);
        assert(2 * 0 * scale == 0) by (nonlinear_arith);
        assert(q == 0) by (nonlinear_arith)
            requires
                q == d / (2 * d),
                d > 0,
        ;
    }
}

/// What was copied is what we had and what we add, of what the leader filled; it is not told
/// where the leader filled nothing.
pub proof fn what_is_copied_counts_what_is_added(p: Provenance)
    ensures
        p.copied_part() is Some <==> (p.his_filled matches Some(f) && f > 0),
        p.copied_part() matches Some(c) ==> Some(c.1) == (match p.his_filled {
            Some(f) => Some(f as int),
            None => None,
        }) && (p.our_copied matches Some(o) ==> c.0 - p.shares == o) && (p.our_copied is None
            ==> c.0 == p.shares),
        p.sold_part() is Some <==> p.side == 1 && p.held_before > 0,
        p.sold_part() matches Some(c) ==> c.0 == p.shares && c.1 == p.held_before,
{
}

/// A sale is too large where it is of more than is held, by more than a hundredth of a share
/// and a thousandth of what is held.
pub proof fn a_sale_is_of_what_is_held(p: Provenance)
    requires
        p.held_before >= 0,
    ensures
        p.oversells() <==> p.side == 1 && p.held_before > 0 && p.shares - p.held_before > 10_000
            && 1_000 * (p.shares - p.held_before) > p.held_before,
{
}

} // verus!
