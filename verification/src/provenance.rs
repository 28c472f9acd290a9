//! Where an order came from, and what was known when it was made.

use vstd::prelude::*;
use crate::custody;
use crate::json;
use crate::json::{fixed_json, plain_json, put, text_json, Json, JsonView};
use crate::text;
use crate::text::{dec_u128, owned};
use crate::units;
use crate::units::product;

verus! {

/// Where an order came from.
#[derive(Debug, PartialEq, Eq)]
pub enum Origin {
    MirrorBuy,
    MirrorSell,
    ExitLadder,
    ExitRescue { attempt: u32 },
    DustSweep { reason: String },
    Flatten { mode: String },
    MergeReconcile,
    OrphanSweep,
}

/// The name of an origin.
pub open spec fn kind_of(o: Origin) -> Seq<char> {
    match o {
        Origin::MirrorBuy => "mirror_buy"@,
        Origin::MirrorSell => "mirror_sell"@,
        Origin::ExitLadder => "exit_ladder"@,
        Origin::ExitRescue { .. } => "exit_rescue"@,
        Origin::DustSweep { .. } => "dust_sweep"@,
        Origin::Flatten { .. } => "flatten"@,
        Origin::MergeReconcile => "merge_reconcile"@,
        Origin::OrphanSweep => "orphan_sweep"@,
    }
}

/// The name of an origin with what tells two of its orders apart.
pub open spec fn label_of(o: Origin) -> Seq<char> {
    match o {
        Origin::ExitRescue { attempt } => "exit_rescue:attempt"@ + text::dec(attempt as nat),
        Origin::DustSweep { reason } => "dust_sweep:"@ + reason@,
        Origin::Flatten { mode } => "flatten:"@ + mode@,
        _ => kind_of(o),
    }
}

/// Whether the leader acted first.
pub open spec fn led(o: Origin) -> bool {
    o is MirrorBuy || o is MirrorSell || o is ExitLadder
}

impl Origin {
    /// The name of an origin.
    pub fn kind(&self) -> (r: &'static str)
        ensures
            r@ == kind_of(*self),
    {
        match self {
            Origin::MirrorBuy => "mirror_buy",
            Origin::MirrorSell => "mirror_sell",
            Origin::ExitLadder => "exit_ladder",
            Origin::ExitRescue { .. } => "exit_rescue",
            Origin::DustSweep { .. } => "dust_sweep",
            Origin::Flatten { .. } => "flatten",
            Origin::MergeReconcile => "merge_reconcile",
            Origin::OrphanSweep => "orphan_sweep",
        }
    }

    /// The name of an origin with what tells two of its orders apart.
    pub fn label(&self) -> (r: String)
        ensures
            r@ == label_of(*self),
    {
        match self {
            Origin::ExitRescue { attempt } => {
                let mut s = owned("exit_rescue:attempt");
                s.append(dec_u128(*attempt as u128).as_str());
                s
            },
            Origin::DustSweep { reason } => {
                let mut s = owned("dust_sweep:");
                s.append(reason.as_str());
                s
            },
            Origin::Flatten { mode } => {
                let mut s = owned("flatten:");
                s.append(mode.as_str());
                s
            },
            _ => owned(self.kind()),
        }
    }

    /// Whether the leader acted first.
    pub fn is_leader_driven(&self) -> (r: bool)
        ensures
            r == led(*self),
    {
        match self {
            Origin::MirrorBuy => true,
            Origin::MirrorSell => true,
            Origin::ExitLadder => true,
            _ => false,
        }
    }
}

/// Where an order came from, what it is, and what was known. What is not known of the
/// leader is absent.
#[derive(Debug)]
pub struct Provenance {
    pub origin: Origin,
    pub lane: String,
    pub token: String,
    pub side: u8,
    pub shares: i64,
    pub limit: i64,
    pub held_before: i64,
    pub his_position: Option<i64>,
    pub his_order: Option<i64>,
    pub his_filled: Option<i64>,
    pub our_copied: Option<i64>,
}

/// `n * scale / d` for a positive `d`, rounded half away from zero.
pub open spec fn ratio(n: int, d: int, scale: int) -> int {
    if n >= 0 {
        (2 * n * scale + d) / (2 * d)
    } else {
        -((2 * -n * scale + d) / (2 * d))
    }
}

fn ratio_of(n: i128, d: i64, scale: i128) -> (r: i128)
    requires
        d > 0,
        0 < scale <= 1_000_000,
        -0x2_0000_0000_0000_0000 <= n <= 0x2_0000_0000_0000_0000,
    ensures
        r == ratio(n as int, d as int, scale as int),
{
    let m: i128 = if n >= 0 {
        n
    } else {
        -n
    };
    assert(0 <= 2 * m * scale <= 0x8_0000_0000_0000_0000 * 1_000_000) by (nonlinear_arith)
        requires
            0 <= m <= 0x2_0000_0000_0000_0000,
            0 < scale <= 1_000_000,
    ;
    let q = (2 * m * scale + d as i128) / (2 * d as i128);
    assert(0 <= q <= 2 * m * scale + d) by (nonlinear_arith)
        requires
            q == (2 * m * scale + d) / (2 * d),
            d > 0,
            2 * m * scale >= 0,
    ;
    if n >= 0 {
        q
    } else {
        -q
    }
}

impl Provenance {
    /// What of the leader's fill was copied once this order is: nothing where the fill is
    /// not known or not positive.
    pub open spec fn copied_part(self) -> Option<(int, int)> {
        match self.his_filled {
            Some(f) => if f <= 0 {
                None
            } else {
                Some(
                    (
                        (match self.our_copied {
                            Some(c) => c as int,
                            None => 0,
                        }) + self.shares,
                        f as int,
                    ),
                )
            },
            None => None,
        }
    }

    /// What of our holding a sale takes.
    pub open spec fn sold_part(self) -> Option<(int, int)> {
        if self.side != 1 || self.held_before <= 0 {
            None
        } else {
            Some((self.shares as int, self.held_before as int))
        }
    }

    /// Whether a sale takes more than is held, beyond what rounding explains.
    pub open spec fn oversells(self) -> bool {
        self.side == 1 && self.held_before > 0 && !custody::tolerated(
            self.shares - self.held_before,
            self.held_before as int,
        )
    }

    /// An order of our own accord: nothing is known of the leader.
    pub fn own(
        origin: Origin,
        lane: &str,
        token: &str,
        side: u8,
        shares: i64,
        limit: i64,
        held_before: i64,
    ) -> (r: Self)
        ensures
            r.origin == origin,
            r.lane@ == lane@,
            r.token@ == token@,
            r.side == side,
            r.shares == shares,
            r.limit == limit,
            r.held_before == held_before,
            r.his_position is None,
            r.his_order is None,
            r.his_filled is None,
            r.our_copied is None,
    {
        Provenance {
            origin,
            lane: owned(lane),
            token: owned(token),
            side,
            shares,
            limit,
            held_before,
            his_position: None,
            his_order: None,
            his_filled: None,
            our_copied: None,
        }
    }

    /// An order that follows the leader.
    pub fn mirrored(
        origin: Origin,
        lane: &str,
        token: &str,
        side: u8,
        shares: i64,
        limit: i64,
        held_before: i64,
        his_position: Option<i64>,
        his_order: Option<i64>,
        his_filled: Option<i64>,
        our_copied: Option<i64>,
    ) -> (r: Self)
        ensures
            r.origin == origin,
            r.lane@ == lane@,
            r.token@ == token@,
            r.side == side,
            r.shares == shares,
            r.limit == limit,
            r.held_before == held_before,
            r.his_position == his_position,
            r.his_order == his_order,
            r.his_filled == his_filled,
            r.our_copied == our_copied,
    {
        Provenance {
            origin,
            lane: owned(lane),
            token: owned(token),
            side,
            shares,
            limit,
            held_before,
            his_position,
            his_order,
            his_filled,
            our_copied,
        }
    }

    fn copied(&self, scale: i128) -> (r: Option<i128>)
        requires
            0 < scale <= 1_000_000,
        ensures
            match self.copied_part() {
                Some(p) => r matches Some(x) && x == ratio(p.0, p.1, scale as int),
                None => r is None,
            },
    {
        match self.his_filled {
            Some(f) => {
                if f <= 0 {
                    return None;
                }
                let c: i64 = match self.our_copied {
                    Some(c) => c,
                    None => 0,
                };
                Some(ratio_of(c as i128 + self.shares as i128, f, scale))
            },
            None => None,
        }
    }

    fn sold(&self, scale: i128) -> (r: Option<i128>)
        requires
            0 < scale <= 1_000_000,
        ensures
            match self.sold_part() {
                Some(p) => r matches Some(x) && x == ratio(p.0, p.1, scale as int),
                None => r is None,
            },
    {
        if self.side != 1 || self.held_before <= 0 {
            return None;
        }
        Some(ratio_of(self.shares as i128, self.held_before, scale))
    }

    /// What part of the leader's fill was copied, in millionths; see
    /// [`Provenance::copied_part`].
    pub fn pct_of_his_fill(&self) -> (r: Option<i128>)
        ensures
            match self.copied_part() {
                Some(p) => r matches Some(x) && x == ratio(p.0, p.1, 1_000_000),
                None => r is None,
            },
    {
        self.copied(1_000_000)
    }

    /// What part of our holding is sold, in millionths; see [`Provenance::sold_part`].
    pub fn pct_of_our_holding(&self) -> (r: Option<i128>)
        ensures
            match self.sold_part() {
                Some(p) => r matches Some(x) && x == ratio(p.0, p.1, 1_000_000),
                None => r is None,
            },
    {
        self.sold(1_000_000)
    }

    /// Whether a sale takes more than is held; see [`Provenance::oversells`].
    pub fn is_oversell(&self) -> (r: bool)
        ensures
            r == self.oversells(),
    {
        self.side == 1 && self.held_before > 0 && !custody::within(
            self.shares as i128 - self.held_before as i128,
            self.held_before,
        )
    }

    /// The reason that is kept with the order.
    pub fn why(&self) -> (r: String)
        ensures
            r@ == label_of(self.origin),
    {
        self.origin.label()
    }

    /// The order as a row of the journal, amounts and parts to four places. What is not
    /// known has no field.
    pub fn to_json(&self) -> (r: Json)
        ensures
            r@ == JsonView::Fields(self.told()),
    {
        let mut f = json::no_fields();
        put(&mut f, "origin", text_json(self.origin.kind()));
        put(&mut f, "origin_detail", text_json(self.origin.label().as_str()));
        put(&mut f, "leader_driven", Json::Bool(self.origin.is_leader_driven()));
        put(&mut f, "lane", text_json(self.lane.as_str()));
        put(&mut f, "tok", text_json(self.token.as_str()));
        put(
            &mut f,
            "side",
            text_json(
                if self.side == 1 {
                    "SELL"
                } else {
                    "BUY"
                },
            ),
        );
        put(&mut f, "shares", fixed_json(self.shares as i128, 6, 4));
        put(&mut f, "limit", fixed_json(self.limit as i128, 6, 4));
        put(&mut f, "usd", fixed_json(product(self.shares, self.limit), 12, 4));
        put(&mut f, "held_before", fixed_json(self.held_before as i128, 6, 4));
        assert(json::shown_fields(f@) =~= self.known());
        put_amount(&mut f, "his_position", self.his_position);
        put_amount(&mut f, "his_order", self.his_order);
        put_amount(&mut f, "his_filled", self.his_filled);
        put_amount(&mut f, "our_copied", self.our_copied);
        put_part(&mut f, "pct_of_his_fill", self.copied(10_000));
        put_part(&mut f, "pct_of_holding", self.sold(10_000));
        if self.is_oversell() {
            let ghost before = json::shown_fields(f@);
            put(&mut f, "OVERSELL", Json::Bool(true));
            assert(json::shown_fields(f@) =~= before + seq![("OVERSELL"@, JsonView::Bool(true))]);
        } else {
            assert(json::shown_fields(f@) =~= json::shown_fields(f@) + Seq::<
                (Seq<char>, JsonView),
            >::empty());
        }
        assert(json::shown_fields(f@) =~= self.told());
        Json::Fields(f)
    }

    /// The fields that every order has.
    pub open spec fn known(self) -> Seq<(Seq<char>, JsonView)> {
        seq![
            ("origin"@, JsonView::Text(kind_of(self.origin))),
            ("origin_detail"@, JsonView::Text(label_of(self.origin))),
            ("leader_driven"@, JsonView::Bool(led(self.origin))),
            ("lane"@, JsonView::Text(self.lane@)),
            ("tok"@, JsonView::Text(self.token@)),
            (
                "side"@,
                JsonView::Text(
                    if self.side == 1 {
                        "SELL"@
                    } else {
                        "BUY"@
                    },
                ),
            ),
            ("shares"@, JsonView::Number(text::fixed(self.shares as int, 6, 4))),
            ("limit"@, JsonView::Number(text::fixed(self.limit as int, 6, 4))),
            ("usd"@, JsonView::Number(text::fixed(self.shares * self.limit, 12, 4))),
            ("held_before"@, JsonView::Number(text::fixed(self.held_before as int, 6, 4))),
        ]
    }

    /// All fields of an order.
    pub open spec fn told(self) -> Seq<(Seq<char>, JsonView)> {
        self.known() + amount_field("his_position"@, self.his_position) + amount_field(
            "his_order"@,
            self.his_order,
        ) + amount_field("his_filled"@, self.his_filled) + amount_field(
            "our_copied"@,
            self.our_copied,
        ) + part_field("pct_of_his_fill"@, self.copied_part()) + part_field(
            "pct_of_holding"@,
            self.sold_part(),
        ) + (if self.oversells() {
            seq![("OVERSELL"@, JsonView::Bool(true))]
        } else {
            Seq::empty()
        })
    }
}

/// The field of an amount that may be absent.
pub open spec fn amount_field(name: Seq<char>, m: Option<i64>) -> Seq<(Seq<char>, JsonView)> {
    match m {
        Some(x) => seq![(name, JsonView::Number(text::fixed(x as int, 6, 4)))],
        None => Seq::empty(),
    }
}

/// The field of a part that may be absent.
pub open spec fn part_field(name: Seq<char>, p: Option<(int, int)>) -> Seq<(Seq<char>, JsonView)> {
    match p {
        Some(x) => seq![(name, JsonView::Number(text::plain(ratio(x.0, x.1, 10_000), 4)))],
        None => Seq::empty(),
    }
}

fn put_amount(f: &mut Vec<(String, Json)>, name: &str, m: Option<i64>)
    ensures
        json::shown_fields(final(f)@) == json::shown_fields(old(f)@) + amount_field(name@, m),
{
    let ghost before = json::shown_fields(f@);
    if let Some(x) = m {
        put(f, name, fixed_json(x as i128, 6, 4));
    }
    assert(json::shown_fields(f@) =~= before + amount_field(name@, m));
}

fn put_part(f: &mut Vec<(String, Json)>, name: &str, p: Option<i128>)
    ensures
        json::shown_fields(final(f)@) == json::shown_fields(old(f)@) + (match p {
            Some(x) => seq![(name@, JsonView::Number(text::plain(x as int, 4)))],
            None => Seq::empty(),
        }),
{
    let ghost before = json::shown_fields(f@);
    if let Some(x) = p {
        put(f, name, plain_json(x, 4));
    }
    assert(json::shown_fields(f@) =~= before + (match p {
        Some(x) => seq![(name@, JsonView::Number(text::plain(x as int, 4)))],
        None => Seq::empty(),
    }));
}

/// What is not known of the leader's position has no field: it never reads as zero.
pub proof fn unknown_position_is_absent(p: Provenance, i: int)
    requires
        p.his_position is None,
        0 <= i < p.told().len(),
    ensures
        p.told()[i].0 != "his_position"@,
{
    reveal_strlit("his_position");
    reveal_strlit("origin");
    reveal_strlit("origin_detail");
    reveal_strlit("leader_driven");
    reveal_strlit("lane");
    reveal_strlit("tok");
    reveal_strlit("side");
    reveal_strlit("shares");
    reveal_strlit("limit");
    reveal_strlit("usd");
    reveal_strlit("held_before");
    reveal_strlit("his_order");
    reveal_strlit("his_filled");
    reveal_strlit("our_copied");
    reveal_strlit("pct_of_his_fill");
    reveal_strlit("pct_of_holding");
    reveal_strlit("OVERSELL");
    assert(p.told()[i].0.len() != 12);
}

/// A purchase never reports a part of our holding, nor an oversell.
pub proof fn purchase_sells_nothing(p: Provenance)
    requires
        p.side != 1,
    ensures
        p.sold_part() is None,
        !p.oversells(),
{
}

/// Two orders that are said to be of one kind were made by the same thing.
pub proof fn kinds_are_distinct(a: Origin, b: Origin)
    requires
        kind_of(a) == kind_of(b),
    ensures
        (a is MirrorBuy) == (b is MirrorBuy),
        (a is MirrorSell) == (b is MirrorSell),
        (a is ExitLadder) == (b is ExitLadder),
        (a is ExitRescue) == (b is ExitRescue),
        (a is DustSweep) == (b is DustSweep),
        (a is Flatten) == (b is Flatten),
        (a is MergeReconcile) == (b is MergeReconcile),
        (a is OrphanSweep) == (b is OrphanSweep),
{
    reveal_strlit("mirror_buy");
    reveal_strlit("mirror_sell");
    reveal_strlit("exit_ladder");
    reveal_strlit("exit_rescue");
    reveal_strlit("dust_sweep");
    reveal_strlit("flatten");
    reveal_strlit("merge_reconcile");
    reveal_strlit("orphan_sweep");
    assert("mirror_buy"@.len() == 10 && "mirror_buy"@[0] == 'm');
    assert("mirror_sell"@.len() == 11 && "mirror_sell"@[0] == 'm');
    assert("exit_ladder"@.len() == 11 && "exit_ladder"@[0] == 'e' && "exit_ladder"@[5] == 'l');
    assert("exit_rescue"@.len() == 11 && "exit_rescue"@[0] == 'e' && "exit_rescue"@[5] == 'r');
    assert("dust_sweep"@.len() == 10 && "dust_sweep"@[0] == 'd');
    assert("flatten"@.len() == 7);
    assert("merge_reconcile"@.len() == 15);
    assert("orphan_sweep"@.len() == 12);
}

} // verus!
