//! What a redemption pays and which are booked.

use vstd::prelude::*;
use crate::json;
use crate::json::Json;
use crate::settlement;
use crate::settlement::{PositionView, RedemptionView};
use crate::units::Qty;

verus! {

/// A position pays what it is worth once it can be redeemed, from nothing to a dollar; before,
/// or at any other price, it pays nothing yet.
pub proof fn a_resolved_position_pays_its_price(pos: PositionView, p: i64)
    requires
        pos.cur_price == Qty::Finite(p),
    ensures
        settlement::payout_of(pos) == Some(p) <==> pos.redeemable && 0 <= p <= 1_000_000,
        settlement::payout_of(pos) is Some ==> settlement::payout_of(pos) == Some(p),
{
}

/// A redemption is booked where it is named whole, has a time, is of more than dust, and pays no
/// less than nothing and no more than a dollar a share.
pub proof fn a_redemption_pays_at_most_a_dollar(r: RedemptionView)
    ensures
        r.bookable() <==> r.tx.len() > 0 && r.condition_id.len() > 0 && r.ts > 0 && r.size > 1_000
            && r.usdc >= 0 && r.usdc <= r.size,
{
}

/// The redemptions of a list are those of its rows that are redemptions and can be booked: each
/// is there and nothing else is.
pub proof fn every_redemption_is_read(rows: Seq<Json>, i: int)
    requires
        0 <= i < rows.len(),
    ensures
        (settlement::redemption_in(rows[i]) matches Some(r) ==> (json::text_in(
            json::field(rows[i], "type"@),
        ) == Some("REDEEM"@) && r.bookable() ==> settlement::redemptions_in(rows).contains(r))),
        settlement::redemptions_in(rows).len() <= rows.len(),
        forall|k: int|
            0 <= k < settlement::redemptions_in(rows).len() ==> (
            #[trigger] settlement::redemptions_in(rows)[k]).bookable() && comes_from(
                rows,
                settlement::redemptions_in(rows)[k],
            ),
    decreases rows.len(),
{
    let before = rows.drop_last();
    let had = settlement::redemptions_in(before);
    let all = settlement::redemptions_in(rows);
    assert(rows[rows.len() - 1] == rows.last());
    if before.len() > 0 {
        every_redemption_is_read(
            before,
            if i < before.len() {
                i
            } else {
                0
            },
        );
        if i < before.len() {
            assert(before[i] == rows[i]);
            if settlement::redemption_in(rows[i]) is Some && had.contains(
                settlement::redemption_in(rows[i])->0,
            ) {
                let r = settlement::redemption_in(rows[i])->0;
                let k = choose|k: int| 0 <= k < had.len() && had[k] == r;
                assert(all[k] == r);
            }
        }
    } else {
        assert(had =~= Seq::empty());
    }
    if i == rows.len() - 1 && settlement::redemption_in(rows[i]) is Some && all.len() > had.len() {
        assert(all[all.len() - 1] == settlement::redemption_in(rows[i])->0);
    }
    assert forall|k: int| 0 <= k < all.len() implies (#[trigger] all[k]).bookable() && comes_from(
        rows,
        all[k],
    ) by {
        if k < had.len() {
            assert(all[k] == had[k]);
            let j = choose|j: int|
                0 <= j < before.len() && settlement::redemption_in(#[trigger] before[j]) == Some(
                    had[k],
                ) && json::text_in(json::field(before[j], "type"@)) == Some("REDEEM"@);
            assert(rows[j] == before[j]);
        }
    }
}

/// Whether a redemption stands in a list.
pub open spec fn comes_from(rows: Seq<Json>, r: RedemptionView) -> bool {
    exists|j: int|
        0 <= j < rows.len() && settlement::redemption_in(#[trigger] rows[j]) == Some(r)
            && json::text_in(json::field(rows[j], "type"@)) == Some("REDEEM"@)
}

/// Two tokens of a lane are settled under keys of their own.
pub proof fn tokens_are_settled_apart(lane: Seq<char>, a: Seq<char>, b: Seq<char>)
    ensures
        settlement::settle_key(lane, a) == settlement::settle_key(lane, b) <==> a == b,
        settlement::settle_key(lane, a).len() == lane.len() + a.len() + 8,
{
    reveal_strlit("settle:");
    reveal_strlit(":");
    let h = "settle:"@ + lane + ":"@;
    assert(settlement::settle_key(lane, a).skip(h.len() as int) =~= a);
    assert(settlement::settle_key(lane, b).skip(h.len() as int) =~= b);
}

/// A redemption says each thing under its own name.
pub proof fn a_redemption_says_each_thing_under_its_name(j: Json)
    ensures
        settlement::redemption_in(j) matches Some(r) ==> {
            &&& settlement::text_field(j, "transactionHash"@) == Some(r.tx)
            &&& settlement::text_field(j, "conditionId"@) == Some(r.condition_id)
            &&& settlement::text_field(j, "asset"@) == Some(r.asset)
            &&& json::unsigned_in(json::field(j, "outcomeIndex"@)) == Some(r.outcome_index as u64)
            &&& json::picos_in(json::field(j, "usdcSize"@)) matches Some(u) && u as i128 == r.usdc
            &&& json::picos_in(json::field(j, "size"@)) matches Some(u) ==> u as i128 == r.size
            &&& json::signed_in(json::field(j, "timestamp"@)) matches Some(t) ==> t == r.ts
        },
        settlement::text_field(j, "transactionHash"@) is Some && settlement::text_field(
            j,
            "conditionId"@,
        ) is Some && settlement::text_field(j, "asset"@) is Some && json::picos_in(
            json::field(j, "usdcSize"@),
        ) is Some && json::picos_in(json::field(j, "size"@)) is Some && json::signed_in(
            json::field(j, "timestamp"@),
        ) is Some && (json::unsigned_in(json::field(j, "outcomeIndex"@)) matches Some(n) && n
            <= 0xffff_ffff) ==> settlement::redemption_in(j) is Some,
{
}

/// What is left to book keeps its order and is only what was read.
pub proof fn only_what_was_read_is_booked(
    v: Seq<RedemptionView>,
    booked: Map<Seq<char>, ()>,
    k: int,
)
    requires
        0 <= k < settlement::left_to_book(v, booked).len(),
    ensures
        v.contains(settlement::left_to_book(v, booked)[k]),
        settlement::left_to_book(v, booked).len() <= v.len(),
    decreases v.len(),
{
    let before = v.drop_last();
    let had = settlement::left_to_book(before, booked);
    let all = settlement::left_to_book(v, booked);
    if had.len() > 0 {
        only_what_was_read_is_booked(
            before,
            booked,
            if k < had.len() {
                k
            } else {
                0
            },
        );
    }
    if k < had.len() {
        assert(all[k] == had[k]);
        let j = choose|j: int| 0 <= j < before.len() && before[j] == had[k];
        assert(v[j] == had[k]);
    } else {
        assert(v[v.len() - 1] == v.last());
    }
}

} // verus!
