//! When a level that shrinks is a fill of the leader's order.

use vstd::prelude::*;
use crate::fingerprint;
use crate::fingerprint::{CandidateView, Conf, FingerprintsView, KnownView, ScoreView};
use crate::units;

verus! {

/// A level is contested where more than a tenth over the leader's order stands there.
pub proof fn a_level_is_contested_by_more_than_a_tenth(level: int, remaining: int)
    ensures
        fingerprint::is_contested(level, remaining) <==> 10 * level > 11 * remaining,
{
}

/// A fill is shown exactly where the level that an order is known of shrinks, while the order
/// was learnt no more than five minutes ago, by no more than is left of it and a thousandth;
/// it is of as much as the level shrank, on the order's own side.
pub proof fn a_fill_is_what_the_level_lost(
    f: FingerprintsView,
    token: Seq<char>,
    price: i64,
    size: i64,
    now_us: u64,
)
    requires
        f.known.contains_key(token),
    ensures
        ({
            let k = f.known[token];
            let was = if f.last_size.contains_key(token) {
                f.last_size[token]
            } else {
                k.book_size_at_learn
            };
            &&& f.shown(token, price, size, now_us) is Some <==> k.price == price && now_us
                <= k.learned + 300_000_000 && size < was && 1000 * (was - size) <= 1001
                * k.remaining
            &&& f.shown(token, price, size, now_us) matches Some(c) ==> c.size == was - size
                && c.side == k.side && c.price == price && c.token == token && (c.confidence
                == Conf::Contested <==> 10 * was > 11 * k.remaining)
        }),
{
}

/// What is shown of a token that no order is known of is no fill.
pub proof fn nothing_is_known_nothing_is_shown(
    f: FingerprintsView,
    token: Seq<char>,
    price: i64,
    size: i64,
    now_us: u64,
)
    requires
        !f.known.contains_key(token),
    ensures
        f.shown(token, price, size, now_us) is None,
        f.after_book(token, price, size, now_us) == f,
{
}

/// After a fill as much less is left of the order, the level counts from what it is now, and
/// one more was emitted; an order of which nothing is left is known no more.
pub proof fn a_fill_is_taken_off(
    f: FingerprintsView,
    token: Seq<char>,
    price: i64,
    size: i64,
    now_us: u64,
)
    requires
        f.shown(token, price, size, now_us) is Some,
        f.emitted < u64::MAX,
        f.known[token].remaining > 0,
    ensures
        ({
            let a = f.after_book(token, price, size, now_us);
            let c = f.shown(token, price, size, now_us)->0;
            let left = f.known[token].remaining - c.size;
            &&& a.emitted == f.emitted + 1
            &&& a.known.contains_key(token) <==> left > 0
            &&& left > 0 ==> a.known[token] == (KnownView {
                remaining: left as i64,
                ..f.known[token]
            }) && a.level_before(token) == size
        }),
{
}

/// Two looks at a level show together what one look at its end would: what was lost is counted
/// once.
pub proof fn what_is_lost_is_counted_once(
    f: FingerprintsView,
    token: Seq<char>,
    price: i64,
    mid: i64,
    size: i64,
    now_us: u64,
    later_us: u64,
)
    requires
        f.shown(token, price, mid, now_us) is Some,
        f.after_book(token, price, mid, now_us).shown(token, price, size, later_us) is Some,
    ensures
        (f.shown(token, price, mid, now_us)->0).size + (f.after_book(
            token,
            price,
            mid,
            now_us,
        ).shown(token, price, size, later_us)->0).size == f.level_before(token) - size,
{
}

/// What a level shows at one look is remembered for the next, a fill or not; other tokens stay
/// as they were.
pub proof fn a_look_is_remembered(
    f: FingerprintsView,
    token: Seq<char>,
    price: i64,
    size: i64,
    now_us: u64,
    other: Seq<char>,
)
    requires
        f.known.contains_key(token),
        f.known[token].price == price,
        now_us <= f.known[token].learned + 300_000_000,
        other != token,
    ensures
        ({
            let a = f.after_book(token, price, size, now_us);
            &&& a.last_size.contains_key(token) && a.last_size[token] == size
            &&& a.known.contains_key(other) == f.known.contains_key(other)
            &&& f.known.contains_key(other) ==> a.known[other] == f.known[other]
            &&& a.last_size.contains_key(other) == f.last_size.contains_key(other)
            &&& f.last_size.contains_key(other) ==> a.last_size[other] == f.last_size[other]
        }),
{
}

/// An order that is learnt is believed as it is, and one of which nothing is left is forgotten.
pub proof fn what_is_learnt_is_believed(
    f: FingerprintsView,
    token: Seq<char>,
    side: u8,
    price: i64,
    remaining: i64,
    book_size: i64,
    now_us: u64,
)
    ensures
        ({
            let a = f.learnt(token, side, price, remaining, book_size, now_us);
            &&& remaining <= 0 ==> a.believed(token) is None && !a.last_size.contains_key(token)
            &&& remaining > 0 ==> (a.believed(token) matches Some(b) && b.price == price
                && b.remaining == remaining && (b.contested ==> f.last_size.contains_key(token)
                && 10 * f.last_size[token] > 11 * remaining)) && a.known[token].side == side
                && a.known[token].learned == now_us
            &&& a.emitted == f.emitted
        }),
{
}

/// A fill that is told confirms the earliest candidate that fits it: the same token and side, a
/// price less than a fifth of a cent off and a size less than a twentieth off. It counts once,
/// the candidate waits no longer, and the lead is the time since it was seen.
pub proof fn a_told_fill_confirms_the_earliest(
    s: ScoreView,
    token: Seq<char>,
    side: u8,
    price: i64,
    size: i64,
    now_us: u64,
    i: int,
)
    requires
        0 <= i < s.pending.len(),
        fingerprint::matches_fill(s.pending[i].1, token, side, price, size),
        forall|j: int|
            0 <= j < i ==> !fingerprint::matches_fill(
                (#[trigger] s.pending[j]).1,
                token,
                side,
                price,
                size,
            ),
        s.agree < u64::MAX,
        s.pending[i].0 <= now_us,
    ensures
        ({
            let a = s.confirmed(token, side, price, size, now_us);
            &&& a.agree == s.agree + 1
            &&& a.disagree == s.disagree
            &&& a.unconfirmed == s.unconfirmed
            &&& a.pending == s.pending.remove(i)
            &&& a.leads_us == s.leads_us.push((now_us - s.pending[i].0) as u64)
        }),
{
    the_first_is_found(s.pending, token, side, price, size, 0, i);
}

proof fn the_first_is_found(
    p: Seq<(u64, CandidateView)>,
    token: Seq<char>,
    side: u8,
    price: i64,
    size: i64,
    from: int,
    i: int,
)
    requires
        0 <= from <= i < p.len(),
        fingerprint::matches_fill(p[i].1, token, side, price, size),
        forall|j: int|
            from <= j < i ==> !fingerprint::matches_fill(
                (#[trigger] p[j]).1,
                token,
                side,
                price,
                size,
            ),
    ensures
        fingerprint::first_match(p, token, side, price, size, from) == Some(i),
    decreases i - from,
{
    if from < i {
        the_first_is_found(p, token, side, price, size, from + 1, i);
    }
}

/// A fill that no candidate fits disagrees with one of its token and side, and says nothing of
/// the others.
pub proof fn a_fill_that_fits_none_disagrees(
    s: ScoreView,
    token: Seq<char>,
    side: u8,
    price: i64,
    size: i64,
    now_us: u64,
)
    requires
        forall|j: int|
            0 <= j < s.pending.len() ==> !fingerprint::matches_fill(
                (#[trigger] s.pending[j]).1,
                token,
                side,
                price,
                size,
            ),
        s.disagree < u64::MAX,
    ensures
        ({
            let a = s.confirmed(token, side, price, size, now_us);
            let waits = exists|i: int|
                0 <= i < s.pending.len() && (#[trigger] s.pending[i]).1.token == token
                    && s.pending[i].1.side == side;
            &&& a.agree == s.agree && a.pending == s.pending && a.leads_us == s.leads_us
            &&& a.disagree == s.disagree + (if waits {
                1int
            } else {
                0
            })
        }),
{
    none_is_found(s.pending, token, side, price, size, 0);
}

proof fn none_is_found(
    p: Seq<(u64, CandidateView)>,
    token: Seq<char>,
    side: u8,
    price: i64,
    size: i64,
    from: int,
)
    requires
        0 <= from <= p.len(),
        forall|j: int|
            from <= j < p.len() ==> !fingerprint::matches_fill(
                (#[trigger] p[j]).1,
                token,
                side,
                price,
                size,
            ),
    ensures
        fingerprint::first_match(p, token, side, price, size, from) is None,
    decreases p.len() - from,
{
    if from < p.len() {
        none_is_found(p, token, side, price, size, from + 1);
    }
}

/// What fits a fill: its own token and side, within a fifth of a cent, and within a twentieth
/// of the size, or of one share where the size is smaller.
pub proof fn what_fits_a_fill(c: CandidateView, token: Seq<char>, side: u8, price: i64, size: i64)
    requires
        size >= 1_000_000,
    ensures
        fingerprint::matches_fill(c, token, side, price, size) <==> c.token == token && c.side
            == side && -2_000 < c.price - price < 2_000 && 19 * size < 20 * c.size < 21 * size,
{
}

/// A candidate waits while it is younger than it may be.
pub proof fn a_candidate_waits_for_its_time(
    p: Seq<(u64, CandidateView)>,
    older_than_us: u64,
    now_us: u64,
    i: int,
)
    requires
        0 <= i < p.len(),
        p[i].0 <= now_us,
    ensures
        fingerprint::younger(p, older_than_us, now_us).contains(p[i]) <==> now_us - p[i].0
            < older_than_us,
        fingerprint::younger(p, older_than_us, now_us).len() <= p.len(),
{
    let f = |e: (u64, CandidateView)| units::minus_floored(now_us, e.0) < older_than_us;
    p.lemma_filter_len(f);
    if f(p[i]) {
        p.lemma_filter_contains(f, i);
    }
    if p.filter(f).contains(p[i]) {
        let k = choose|k: int| 0 <= k < p.filter(f).len() && p.filter(f)[k] == p[i];
        p.lemma_filter_pred(f, k);
    }
}

/// The fingerprints are ready exactly where nothing blocks them: no disagreement, enough
/// agreements, fewer than one ghost in fifty, and a lead of more than fifty milliseconds.
pub proof fn ready_is_unblocked(a: int, d: int, u: int, med_us: int, min_samples: int)
    requires
        a >= 0,
        d >= 0,
        u >= 0,
    ensures
        fingerprint::is_ready(a, d, u, med_us, min_samples) <==> d == 0 && a >= min_samples && (a
            + u == 0 || 50 * u < a + u) && med_us > 50_000,
        fingerprint::is_ready(a, d, u, med_us, min_samples) <==> fingerprint::blocker(
            a,
            d,
            u,
            med_us,
            min_samples,
        ) == "none"@,
{
    reveal_strlit("none");
    reveal_strlit("DISAGREED — do not promote");
    reveal_strlit("needs more confirmed fills");
    reveal_strlit("too many unconfirmed ghosts");
    reveal_strlit("lead too small to be worth the risk");
    assert("none"@.len() == 4);
    assert("DISAGREED — do not promote"@.len() > 4);
    assert("needs more confirmed fills"@.len() > 4);
    assert("too many unconfirmed ghosts"@.len() > 4);
    assert("lead too small to be worth the risk"@.len() > 4);
}

/// The rate of ghosts is the nearest thousandth of those that were not confirmed among all.
pub proof fn ghosts_are_a_part_of_all(a: int, u: int)
    requires
        a >= 0,
        u >= 0,
        a + u > 0,
    ensures
        -(a + u) < 2 * (fingerprint::ghost_permille(a, u) * (a + u) - 1000 * u) <= a + u,
{
    let n = a + u;
    let x = u * 2000 + n;
    vstd::arithmetic::div_mod::lemma_fundamental_div_mod(x, 2 * n);
    vstd::arithmetic::div_mod::lemma_mod_bound(x, 2 * n);
    let q = x / (2 * n);
    assert((2 * n) * q == 2 * (q * n)) by (nonlinear_arith);
    assert(q >= 0) by (nonlinear_arith)
        requires
            x >= 0,
            n > 0,
            q == x / (2 * n),
    ;
}

/// The median of some leads is one of them and the only one that is; of no leads it is nothing.
pub proof fn the_median_lead_is_the_middle(v: Seq<u64>, x: u64, y: u64, s: Seq<u64>)
    requires
        fingerprint::is_median(v, x),
        fingerprint::is_median(v, y),
        crate::sorting::sorts(s, v),
    ensures
        x == y,
        v.len() == 0 ==> x == 0,
        v.len() > 0 ==> v.contains(x) && x == s[v.len() as int / 2],
{
    if v.len() > 0 {
        let a = choose|a: Seq<u64>| #[trigger]
            crate::sorting::sorts(a, v) && a.len() == v.len() && x == a[v.len() as int / 2];
        let b = choose|b: Seq<u64>| #[trigger]
            crate::sorting::sorts(b, v) && b.len() == v.len() && y == b[v.len() as int / 2];
        crate::laws::sorting::there_is_one_way_to_sort(a, b, v);
        crate::laws::sorting::there_is_one_way_to_sort(a, s, v);
        assert(a.contains(x));
    }
}

/// A lead is told in milliseconds, to the nearest tenth, and half a tenth up.
pub proof fn a_lead_is_told_to_the_tenth(us: nat, tenths: nat)
    requires
        100 * tenths <= us + 50 < 100 * tenths + 100,
    ensures
        fingerprint::millis(us) == crate::text::dec(tenths / 10) + seq!['.'] + crate::text::pad(
            tenths % 10,
            1,
        ),
{
    assert((us + 50) / 100 == tenths);
}

} // verus!
