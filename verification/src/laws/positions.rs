//! What the venue's list of positions shows.

use vstd::prelude::*;
use crate::json;
use crate::json::Json;
use crate::positions;
use crate::positions::{Completeness, PageWalk, Positions};
use crate::units::Trace;

verus! {

/// What the rows show of an asset, summed.
pub open spec fn shown_of(rows: Seq<Json>, asset: Seq<char>) -> int
    decreases rows.len(),
{
    if rows.len() == 0 {
        0
    } else {
        shown_of(rows.drop_last(), asset) + (match positions::balance_in(rows.last()) {
            Some((a, v)) => if a == asset {
                v
            } else {
                0
            },
            None => 0,
        })
    }
}

/// What is held of an asset is the sum of what the rows show of it, and an asset that no row
/// shows is not held.
pub proof fn holdings_are_summed(rows: Seq<Json>, asset: Seq<char>)
    requires
        rows.len() < 1_000_000_000_000,
    ensures
        positions::balances_in(rows).contains_key(asset) ==> positions::balances_in(rows)[asset]
            == shown_of(rows, asset),
        !positions::balances_in(rows).contains_key(asset) ==> shown_of(rows, asset) == 0,
        -(rows.len() as int) * 0x1_0000_0000_0000_0000 <= shown_of(rows, asset) <= rows.len()
            * 0x1_0000_0000_0000_0000,
        positions::balances_in(rows).contains_key(asset) <==> exists|i: int|
            0 <= i < rows.len() && (positions::balance_in(#[trigger] rows[i]) matches Some(b)
                && b.0 == asset),
    decreases rows.len(),
{
    if rows.len() > 0 {
        let before = rows.drop_last();
        holdings_are_summed(before, asset);
        assert(rows[rows.len() - 1] == rows.last());
        if positions::balances_in(before).contains_key(asset) {
            let i = choose|i: int|
                0 <= i < before.len() && (positions::balance_in(#[trigger] before[i]) matches Some(b)
                    && b.0 == asset);
            assert(rows[i] == before[i]);
        }
        if exists|i: int|
            0 <= i < rows.len() && (positions::balance_in(#[trigger] rows[i]) matches Some(b)
                && b.0 == asset) {
            let i = choose|i: int|
                0 <= i < rows.len() && (positions::balance_in(#[trigger] rows[i]) matches Some(b)
                    && b.0 == asset);
            if i < before.len() {
                assert(before[i] == rows[i]);
            }
        }
    }
}

/// That none is held is shown only by a whole list, no older than asked, each row of which can
/// be read, and of which none shows more than a trace of the token; one row that does, or that
/// cannot be read, is enough to doubt it.
pub proof fn nothing_is_shown_only_by_a_whole_list(
    p: Positions,
    token: Seq<char>,
    not_before: i64,
    i: int,
)
    requires
        0 <= i < p.rows@.len(),
    ensures
        positions::shows_none(p, token, not_before) ==> p.completeness is Complete && p.as_of
            >= not_before,
        positions::shows_none(p, token, not_before) ==> json::text_in(
            json::field(p.rows@[i], "asset"@),
        ) is Some && positions::size_in(p.rows@[i]) is Some,
        json::text_in(json::field(p.rows@[i], "asset"@)) == Some(token) && positions::size_in(
            p.rows@[i],
        ) == Some(Trace::Something) ==> !positions::shows_none(p, token, not_before),
        positions::size_in(p.rows@[i]) == Some(Trace::Negative) ==> !positions::shows_none(
            p,
            token,
            not_before,
        ),
{
    assert(positions::shows_none(p, token, not_before) ==> positions::allows_zero(
        p.rows@[i],
        token,
    ));
}

/// Pages are read one behind the other, five hundred rows each, until one is short, one fails,
/// or fifty are read.
pub proof fn pages_follow_each_other(w: PageWalk)
    ensures
        w.offset() is Some <==> w.failed is None && w.lens@.len() < 50 && (w.lens@.len() == 0
            || w.lens@.last() >= 500),
        w.offset() matches Some(o) ==> o == 500 * w.lens@.len(),
{
}

/// A page adds its rows behind those before it, all of them; one that fails adds none and ends
/// the walk.
pub proof fn a_page_adds_its_rows(w: PageWalk, next: PageWalk, got: Result<Vec<Json>, String>)
    requires
        w.goes_to(next, got),
        w.failed is None,
    ensures
        next.rows@.len() == w.rows@.len() + (match got {
            Ok(b) => b@.len(),
            Err(_) => 0,
        }),
        next.rows@.take(w.rows@.len() as int) == w.rows@,
        got matches Ok(b) ==> next.rows@.skip(w.rows@.len() as int) == b@ && next.lens@.len()
            == w.lens@.len() + 1 && next.failed is None,
        got is Err ==> next.offset() is None && next.failed is Some,
{
    assert(next.rows@.take(w.rows@.len() as int) =~= w.rows@);
    if got is Ok {
        assert(next.rows@.skip(w.rows@.len() as int) =~= got->Ok_0@);
    }
}

/// A list is whole exactly where no page failed and the last was short.
pub proof fn a_list_is_whole_when_a_page_is_short(
    lens: Seq<usize>,
    failed: Option<(usize, String)>,
    cap: usize,
    c: Completeness,
)
    requires
        positions::judged(lens, failed, cap, c),
    ensures
        c is Complete <==> failed is None && (lens.len() == 0 || lens.last() < 500),
        c is Failed <==> failed is Some,
        c matches Completeness::Truncated { pages, .. } ==> pages == lens.len(),
{
}

} // verus!
