//! What a row of the ledger says.

use vstd::prelude::*;
use crate::json;
use crate::json::Json;
use crate::rows;

verus! {

/// A row says each thing under its own name: what stands under a name is what is read, and
/// what is not there is nothing.
pub proof fn a_row_says_each_thing_under_its_name(j: Json)
    ensures
        ({
            let r = rows::read_row(j);
            &&& json::micros_in(json::field(j, "shares"@)) matches Some(v) ==> r.shares == v
            &&& json::micros_in(json::field(j, "price"@)) matches Some(v) ==> r.price == v
            &&& json::micros_in(json::field(j, "fee"@)) matches Some(v) ==> r.fee == v
            &&& json::micros_in(json::field(j, "payout"@)) matches Some(v) ==> r.payout == v
            &&& json::micros_in(json::field(j, "fee"@)) is None ==> r.fee == 0
            &&& r.his_price == json::micros_in(json::field(j, "his_price"@))
            &&& json::picos_in(json::field(j, "pnl"@)) matches Some(v) ==> r.pnl == v
            &&& json::signed_in(json::field(j, "t"@)) matches Some(v) ==> r.t == v
            &&& json::unsigned_in(json::field(j, "side"@)) matches Some(v) ==> (v - r.side) % 256
                == 0
            &&& r.recon <==> json::bool_in(json::field(j, "recon"@)) == Some(true)
            &&& json::text_in(json::field(j, "lane"@)) matches Some(s) ==> r.lane == s
            &&& json::text_in(json::field(j, "token"@)) matches Some(s) ==> r.token == s
            &&& json::text_in(json::field(j, "ev"@)) matches Some(s) ==> r.ev == s
            &&& json::text_in(json::field(j, "order_hash"@)) matches Some(s) ==> r.order_hash == s
            &&& json::text_in(json::field(j, "yes"@)) matches Some(s) ==> r.yes == s
            &&& json::text_in(json::field(j, "no"@)) matches Some(s) ==> r.no == s
        }),
{
}

/// Every amount is written as it is, but for the least of all, which is written one higher.
pub proof fn amounts_are_written_as_they_are(m: i64)
    ensures
        m > i64::MIN ==> rows::writable(m) == m,
        rows::writable(m) - m <= 1,
{
}

/// Of a field that is given twice the first counts, and a number is read of a number alone.
pub proof fn the_first_field_counts(f: Seq<(String, Json)>, name: Seq<char>, i: int)
    requires
        0 <= i < f.len(),
        f[i].0@ == name,
        forall|j: int| 0 <= j < i ==> (#[trigger] f[j]).0@ != name,
    ensures
        json::lookup(f, name) == Some(f[i].1),
        !(f[i].1 is Number) ==> json::micros_in(Some(f[i].1)) is None && json::signed_in(
            Some(f[i].1),
        ) is None,
        !(f[i].1 is Text) ==> json::text_in(Some(f[i].1)) is None && json::bounded_in(
            Some(f[i].1),
        ) is None,
{
    json::lookup_at(f, name, i);
}

} // verus!
