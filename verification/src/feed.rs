//! What one frame of the public book changes: the best prices, the levels, the
//! prints, and what is believed of the leader's orders.

use vstd::prelude::*;
use crate::book;
use crate::book::{BookCache, Levels, LevelsView, PrintsView, Top, TradePrints};
use crate::fingerprint;
use crate::fingerprint::{
    Candidate, CandidateView, FingerprintScore, Fingerprints, FingerprintsView, ScoreView,
};
use crate::json;
use crate::json::{Json, JsonView};
use crate::sorting;
use crate::text;
use crate::text::owned;
use crate::units;
use crate::units::Reading;

verus! {

/// Beliefs, and the score that is kept of them.
pub struct Watch {
    pub fps: Fingerprints,
    pub score: FingerprintScore,
}

/// All that a frame can change. What is not followed is left out.
pub struct Feed {
    pub cache: BookCache,
    pub prints: Option<TradePrints>,
    pub levels: Option<Levels>,
    pub watch: Option<Watch>,
}

/// The moment at which a frame came: microseconds of a clock that does not go back,
/// and the time of day in milliseconds.
#[derive(Debug, Clone, Copy, PartialEq, Eq, Structural)]
pub struct Moment {
    pub now_us: u64,
    pub wall_ms: i64,
}

/// All that a frame can change, and the candidates that it has shown.
#[verifier::ext_equal]
pub struct FeedView {
    pub cache: Map<Seq<char>, Top>,
    pub prints: Option<PrintsView>,
    pub levels: Option<LevelsView>,
    pub watch: Option<(FingerprintsView, ScoreView)>,
    pub sent: Seq<CandidateView>,
}

/// What these candidates say.
pub open spec fn candidates(v: Seq<Candidate>) -> Seq<CandidateView> {
    v.map_values(|c: Candidate| c@)
}

impl Feed {
    /// The state, with the candidates shown so far.
    pub open spec fn showing(self, sent: Seq<CandidateView>) -> FeedView {
        FeedView {
            cache: self.cache@,
            prints: match self.prints {
                Some(p) => Some(p@),
                None => None,
            },
            levels: match self.levels {
                Some(l) => Some(l@),
                None => None,
            },
            watch: match self.watch {
                Some(w) => Some((w.fps@, w.score@)),
                None => None,
            },
            sent,
        }
    }
}

/// The side that a change names, in any case.
pub open spec fn named_side(s: Seq<char>) -> Option<u8> {
    if text::lower_of(s) == "buy"@ {
        Some(0u8)
    } else if text::lower_of(s) == "sell"@ {
        Some(1u8)
    } else {
        None
    }
}

fn side_named(s: &str) -> (r: Option<u8>)
    ensures
        r == named_side(s@),
{
    let l = text::lower_chars(s);
    let t = text::text_of(&l);
    if text::same(t.as_str(), "buy") {
        Some(0)
    } else if text::same(t.as_str(), "sell") {
        Some(1)
    } else {
        None
    }
}

impl FeedView {
    /// After the beliefs have seen a level. A candidate counts only on its own side
    /// of the book.
    pub open spec fn watched(
        self,
        token: Seq<char>,
        side: u8,
        price: i64,
        size: i64,
        now_us: u64,
    ) -> FeedView {
        match self.watch {
            None => self,
            Some((fps, score)) => {
                let next = fps.after_book(token, price, size, now_us);
                match fps.shown(token, price, size, now_us) {
                    Some(c) => if c.side == side {
                        FeedView {
                            watch: Some(
                                (
                                    next,
                                    ScoreView {
                                        pending: score.pending.push((now_us, c)),
                                        ..score
                                    },
                                ),
                            ),
                            sent: self.sent.push(c),
                            ..self
                        }
                    } else {
                        FeedView { watch: Some((next, score)), ..self }
                    },
                    None => FeedView { watch: Some((next, score)), ..self },
                }
            },
        }
    }

    /// Whether one change of prices leads from this state to the other.
    pub open spec fn change_leads_to(self, after: FeedView, c: Json, m: Moment) -> bool {
        let token = json::text_or_none(c, "asset_id"@);
        let price = json::bounded_in(json::field(c, "price"@));
        let size = json::bounded_in(json::field(c, "size"@));
        if token.len() == 0 {
            after == self
        } else {
            let cache = match (
                json::bounded_in(json::field(c, "best_bid"@)),
                json::bounded_in(json::field(c, "best_ask"@)),
            ) {
                (Some(b), Some(a)) => book::with_top(self.cache, token, b, a, m.now_us),
                _ => self.cache,
            };
            let put = FeedView { cache, levels: after.levels, ..self };
            &&& match self.levels {
                None => after.levels is None,
                Some(l) => match (price, size) {
                    (Some(p), Some(s)) => after.levels matches Some(n) && l.put_leads_to(
                        n,
                        token,
                        p,
                        s,
                        m.now_us,
                    ),
                    _ => after.levels == self.levels,
                },
            }
            &&& match (named_side(json::text_or_none(c, "side"@)), price, size) {
                (Some(side), Some(p), Some(s)) => after == put.watched(token, side, p, s, m.now_us),
                _ => after == put,
            }
        }
    }

    /// Whether a list of changes leads from this state to the other, one by one.
    pub open spec fn changes_lead_to(self, after: FeedView, changes: Seq<Json>, m: Moment) -> bool
        decreases changes.len(),
    {
        if changes.len() == 0 {
            after == self
        } else {
            exists|mid: FeedView|
                self.changes_lead_to(mid, changes.drop_last(), m)
                    && #[trigger] mid.change_leads_to(after, changes.last(), m)
        }
    }

    /// After a trade was printed.
    pub open spec fn traded(self, it: Json, m: Moment) -> FeedView {
        let token = json::text_or_none(it, "asset_id"@);
        match (
            self.prints,
            json::bounded_in(json::field(it, "price"@)),
            json::bounded_in(json::field(it, "size"@)),
        ) {
            (Some(p), Some(px), Some(sz)) => if token.len() == 0 {
                self
            } else {
                FeedView {
                    prints: Some(
                        p.printed(
                            token,
                            px,
                            sz,
                            json::text_or_none(it, "side"@),
                            m.wall_ms,
                        ),
                    ),
                    ..self
                }
            },
            _ => self,
        }
    }

    /// After the beliefs have seen one side of a full picture, level by level.
    pub open spec fn watched_all(
        self,
        token: Seq<char>,
        side: u8,
        side_levels: Seq<Json>,
        now_us: u64,
    ) -> FeedView
        decreases side_levels.len(),
    {
        if side_levels.len() == 0 {
            self
        } else {
            let before = self.watched_all(token, side, side_levels.drop_last(), now_us);
            match level_of(side_levels.last()) {
                Some((p, s)) => before.watched(token, side, p, s, now_us),
                None => before,
            }
        }
    }

    /// After a full picture of a token.
    pub open spec fn pictured(self, it: Json, m: Moment) -> FeedView {
        let token = json::text_or_none(it, "asset_id"@);
        match (side_list(it, "bids"@, "buys"@), side_list(it, "asks"@, "sells"@)) {
            (Some(b), Some(a)) => if token.len() == 0 {
                self
            } else {
                let top = FeedView {
                    cache: match lowest(a) {
                        Some(ask) => book::with_top(
                            self.cache,
                            token,
                            highest(b),
                            ask,
                            m.now_us,
                        ),
                        None => self.cache,
                    },
                    levels: match self.levels {
                        Some(l) => Some(
                            l.pictured(token, levels_of(b) + levels_of(a), m.now_us),
                        ),
                        None => None,
                    },
                    ..self
                };
                top.watched_all(token, 0, b, m.now_us).watched_all(token, 1, a, m.now_us)
            },
            _ => self,
        }
    }

    /// Whether a frame leads from this state to the other.
    pub open spec fn frame_leads_to(self, after: FeedView, it: Json, m: Moment) -> bool {
        let kind = json::text_or_none(it, "event_type"@);
        if kind == "price_change"@ {
            match json::list_in(json::field(it, "price_changes"@)) {
                Some(changes) => self.changes_lead_to(after, changes, m),
                None => after == self,
            }
        } else if kind == "last_trade_price"@ {
            after == self.traded(it, m)
        } else {
            after == self.pictured(it, m)
        }
    }
}

/// A side of a picture, under either of its names.
pub open spec fn side_list(it: Json, name: Seq<char>, other: Seq<char>) -> Option<Seq<Json>> {
    match json::list_in(json::field(it, name)) {
        Some(l) => Some(l),
        None => json::list_in(json::field(it, other)),
    }
}

/// The price and the size of a level, where both are numbers.
pub open spec fn level_of(j: Json) -> Option<(i64, i64)> {
    match (json::bounded_in(json::field(j, "price"@)), json::bounded_in(json::field(j, "size"@))) {
        (Some(p), Some(s)) => Some((p, s)),
        _ => None,
    }
}

/// The levels of a side.
pub open spec fn levels_of(side: Seq<Json>) -> Seq<(i64, i64)>
    decreases side.len(),
{
    if side.len() == 0 {
        Seq::empty()
    } else {
        match level_of(side.last()) {
            Some(l) => levels_of(side.drop_last()).push(l),
            None => levels_of(side.drop_last()),
        }
    }
}

/// The highest price of a side, and no less than nothing.
pub open spec fn highest(side: Seq<Json>) -> i64
    decreases side.len(),
{
    if side.len() == 0 {
        0
    } else {
        match json::bounded_in(json::field(side.last(), "price"@)) {
            Some(p) => units::larger(highest(side.drop_last()) as int, p as int) as i64,
            None => highest(side.drop_last()),
        }
    }
}

/// A price that something can be bought at: any that is a number and not infinite.
pub open spec fn asked_in(j: Json) -> Option<i64> {
    if json::reading_in(json::field(j, "price"@)) == Some(Reading::<i64>::Infinite) {
        None
    } else {
        json::bounded_in(json::field(j, "price"@))
    }
}

/// The lowest price of a side, if it has one.
pub open spec fn lowest(side: Seq<Json>) -> Option<i64>
    decreases side.len(),
{
    if side.len() == 0 {
        None
    } else {
        match (lowest(side.drop_last()), asked_in(side.last())) {
            (Some(l), Some(p)) => Some(units::smaller(l as int, p as int) as i64),
            (None, Some(p)) => Some(p),
            (l, None) => l,
        }
    }
}

fn read_ask(j: &Json) -> (r: Option<i64>)
    ensures
        r == asked_in(*j),
{
    match j.reading_at("price") {
        Some(Reading::Infinite) => None,
        _ => j.bounded_at("price"),
    }
}

fn list_of<'a>(it: &'a Json, name: &str, other: &str) -> (r: Option<&'a Vec<Json>>)
    ensures
        match side_list(*it, name@, other@) {
            Some(l) => r matches Some(v) && v@ == l,
            None => r is None,
        },
{
    match it.list_at(name) {
        Some(v) => Some(v),
        None => it.list_at(other),
    }
}

fn read_level(j: &Json) -> (r: Option<(i64, i64)>)
    ensures
        r == level_of(*j),
{
    match (j.bounded_at("price"), j.bounded_at("size")) {
        (Some(p), Some(s)) => Some((p, s)),
        _ => None,
    }
}

fn push_levels(side: &Vec<Json>, out: &mut Vec<(i64, i64)>)
    ensures
        final(out)@ == old(out)@ + levels_of(side@),
{
    let ghost start = out@;
    for i in 0..side.len()
        invariant
            out@ == start + levels_of(side@.take(i as int)),
    {
        assert(side@.take(i + 1).drop_last() =~= side@.take(i as int));
        if let Some(l) = read_level(&side[i]) {
            out.push(l);
        }
        assert(out@ =~= start + levels_of(side@.take(i + 1)));
    }
    assert(side@.take(side@.len() as int) =~= side@);
}

fn best_bid(side: &Vec<Json>) -> (r: i64)
    ensures
        r == highest(side@),
{
    let mut best: i64 = 0;
    for i in 0..side.len()
        invariant
            best == highest(side@.take(i as int)),
    {
        assert(side@.take(i + 1).drop_last() =~= side@.take(i as int));
        if let Some(p) = side[i].bounded_at("price") {
            best = units::max64(best, p);
        }
    }
    assert(side@.take(side@.len() as int) =~= side@);
    best
}

fn best_ask(side: &Vec<Json>) -> (r: Option<i64>)
    ensures
        r == lowest(side@),
{
    let mut best: Option<i64> = None;
    for i in 0..side.len()
        invariant
            best == lowest(side@.take(i as int)),
    {
        assert(side@.take(i + 1).drop_last() =~= side@.take(i as int));
        if let Some(p) = read_ask(&side[i]) {
            best = match best {
                Some(b) => Some(units::min64(b, p)),
                None => Some(p),
            };
        }
    }
    assert(side@.take(side@.len() as int) =~= side@);
    best
}

fn look(
    feed: &mut Feed,
    sent: &mut Vec<Candidate>,
    token: &str,
    side: u8,
    price: i64,
    size: i64,
    now_us: u64,
)
    ensures
        final(feed).showing(candidates(final(sent)@)) == old(feed).showing(
            candidates(old(sent)@),
        ).watched(token@, side, price, size, now_us),
        final(feed).levels == old(feed).levels,
        final(feed).cache == old(feed).cache,
        final(feed).prints == old(feed).prints,
{
    let ghost before = feed.showing(candidates(sent@));
    let mut w: Option<Watch> = None;
    std::mem::swap(&mut w, &mut feed.watch);
    if let Some(mut watch) = w {
        let found = watch.fps.on_book(token, price, size, now_us);
        if let Some(c) = found {
            if c.side == side {
                watch.score.saw(c.copy(), now_us);
                let ghost v = c@;
                let ghost had = candidates(sent@);
                sent.push(c);
                assert(candidates(sent@) =~= had.push(v));
            }
        }
        feed.watch = Some(watch);
    }
    assert(feed.showing(candidates(sent@)) =~= before.watched(token@, side, price, size, now_us));
}

fn look_all(
    feed: &mut Feed,
    sent: &mut Vec<Candidate>,
    token: &str,
    side: u8,
    levels: &Vec<Json>,
    now_us: u64,
)
    ensures
        final(feed).showing(candidates(final(sent)@)) == old(feed).showing(
            candidates(old(sent)@),
        ).watched_all(token@, side, levels@, now_us),
{
    let ghost start = feed.showing(candidates(sent@));
    for i in 0..levels.len()
        invariant
            feed.showing(candidates(sent@)) == start.watched_all(
                token@,
                side,
                levels@.take(i as int),
                now_us,
            ),
    {
        assert(levels@.take(i + 1).drop_last() =~= levels@.take(i as int));
        if let Some((p, s)) = read_level(&levels[i]) {
            look(feed, sent, token, side, p, s, now_us);
        }
    }
    assert(levels@.take(levels@.len() as int) =~= levels@);
}

fn apply_change(feed: &mut Feed, sent: &mut Vec<Candidate>, c: &Json, m: Moment)
    ensures
        old(feed).showing(candidates(old(sent)@)).change_leads_to(
            final(feed).showing(candidates(final(sent)@)),
            *c,
            m,
        ),
{
    let ghost before = feed.showing(candidates(sent@));
    let token = c.text_or_empty("asset_id");
    let chars = text::chars_of(token.as_str());
    if chars.len() == 0 {
        return ;
    }
    match (c.bounded_at("best_bid"), c.bounded_at("best_ask")) {
        (Some(b), Some(a)) => feed.cache.put(token.as_str(), b, a, m.now_us),
        _ => {},
    }
    let price = c.bounded_at("price");
    let size = c.bounded_at("size");
    let mut lv: Option<Levels> = None;
    std::mem::swap(&mut lv, &mut feed.levels);
    if let Some(mut l) = lv {
        match (price, size) {
            (Some(p), Some(s)) => l.put(token.as_str(), p, s, m.now_us),
            _ => {},
        }
        feed.levels = Some(l);
    }
    let ghost put = feed.showing(candidates(sent@));
    let side = side_named(c.text_or_empty("side").as_str());
    match (side, price, size) {
        (Some(sd), Some(p), Some(s)) => {
            look(feed, sent, token.as_str(), sd, p, s, m.now_us);
        },
        _ => {},
    }
    let ghost after = feed.showing(candidates(sent@));
    proof {
        let cache = match (
            json::bounded_in(json::field(*c, "best_bid"@)),
            json::bounded_in(json::field(*c, "best_ask"@)),
        ) {
            (Some(b), Some(a)) => book::with_top(before.cache, token@, b, a, m.now_us),
            _ => before.cache,
        };
        assert(put =~= FeedView { cache, levels: after.levels, ..before });
    }
}

/// Takes one frame of the public book in; the candidates that it shows.
pub fn apply_frame(it: &Json, feed: &mut Feed, m: Moment) -> (sent: Vec<Candidate>)
    ensures
        old(feed).showing(Seq::empty()).frame_leads_to(
            final(feed).showing(candidates(sent@)),
            *it,
            m,
        ),
{
    let mut sent: Vec<Candidate> = Vec::new();
    let ghost start = feed.showing(Seq::empty());
    assert(candidates(sent@) =~= Seq::<CandidateView>::empty());
    let kind = it.text_or_empty("event_type");
    if text::same(kind.as_str(), "price_change") {
        if let Some(changes) = it.list_at("price_changes") {
            for i in 0..changes.len()
                invariant
                    start.changes_lead_to(
                        feed.showing(candidates(sent@)),
                        changes@.take(i as int),
                        m,
                    ),
            {
                let ghost mid = feed.showing(candidates(sent@));
                apply_change(feed, &mut sent, &changes[i], m);
                proof {
                    let more = changes@.take(i + 1);
                    assert(more.drop_last() =~= changes@.take(i as int));
                    let now = feed.showing(candidates(sent@));
                    assert(mid.change_leads_to(now, more.last(), m));
                    assert(start.changes_lead_to(mid, more.drop_last(), m));
                }
            }
            assert(changes@.take(changes@.len() as int) =~= changes@);
        }
        return sent;
    }
    let token = it.text_or_empty("asset_id");
    let chars = text::chars_of(token.as_str());
    if text::same(kind.as_str(), "last_trade_price") {
        if chars.len() > 0 {
            let mut pr: Option<TradePrints> = None;
            std::mem::swap(&mut pr, &mut feed.prints);
            if let Some(mut p) = pr {
                match (it.bounded_at("price"), it.bounded_at("size")) {
                    (Some(px), Some(sz)) => {
                        let side = it.text_or_empty("side");
                        p.record_at(token.as_str(), px, sz, side.as_str(), m.wall_ms);
                    },
                    _ => {},
                }
                feed.prints = Some(p);
            }
        }
        assert(feed.showing(candidates(sent@)) =~= start.traded(*it, m));
        return sent;
    }
    if chars.len() > 0 {
        match (list_of(it, "bids", "buys"), list_of(it, "asks", "sells")) {
            (Some(b), Some(a)) => {
                if let Some(ask) = best_ask(a) {
                    feed.cache.put(token.as_str(), best_bid(b), ask, m.now_us);
                }
                let mut lv: Option<Levels> = None;
                std::mem::swap(&mut lv, &mut feed.levels);
                if let Some(mut l) = lv {
                    let mut all: Vec<(i64, i64)> = Vec::new();
                    push_levels(b, &mut all);
                    push_levels(a, &mut all);
                    assert(all@ =~= levels_of(b@) + levels_of(a@));
                    l.put_snapshot(token.as_str(), all.as_slice(), m.now_us);
                    feed.levels = Some(l);
                }
                let ghost top = feed.showing(candidates(sent@));
                look_all(feed, &mut sent, token.as_str(), 0, b, m.now_us);
                look_all(feed, &mut sent, token.as_str(), 1, a, m.now_us);
                proof {
                    assert(top =~= FeedView {
                        cache: match lowest(a@) {
                            Some(ask) => book::with_top(
                                start.cache,
                                token@,
                                highest(b@),
                                ask,
                                m.now_us,
                            ),
                            None => start.cache,
                        },
                        levels: match start.levels {
                            Some(l) => Some(
                                l.pictured(token@, levels_of(b@) + levels_of(a@), m.now_us),
                            ),
                            None => None,
                        },
                        ..start
                    });
                }
            },
            _ => {},
        }
    }
    sent
}

/// What one message of the feed holds: a list of frames, or one.
pub open spec fn frames_in(v: Json) -> Seq<Json> {
    match v {
        Json::List(l) => l@,
        _ => seq![v],
    }
}

impl FeedView {
    /// The state before any candidate was shown.
    pub open spec fn silent(self) -> FeedView {
        FeedView { sent: Seq::empty(), ..self }
    }

    /// Whether a frame leads from this state to the other, with what it shows behind
    /// what was shown before.
    pub open spec fn steps_to(self, after: FeedView, it: Json, m: Moment) -> bool {
        exists|next: FeedView| #[trigger]
            self.silent().frame_leads_to(next, it, m) && after == (FeedView {
                sent: self.sent + next.sent,
                ..next
            })
    }

    /// Whether a run of frames leads from this state to the other.
    pub open spec fn frames_lead_to(self, after: FeedView, frames: Seq<Json>, m: Moment) -> bool
        decreases frames.len(),
    {
        if frames.len() == 0 {
            after == self
        } else {
            exists|mid: FeedView|
                self.frames_lead_to(mid, frames.drop_last(), m) && #[trigger] mid.steps_to(
                    after,
                    frames.last(),
                    m,
                )
        }
    }
}

fn take_frame(it: &Json, feed: &mut Feed, sent: &mut Vec<Candidate>, m: Moment)
    ensures
        old(feed).showing(candidates(old(sent)@)).steps_to(
            final(feed).showing(candidates(final(sent)@)),
            *it,
            m,
        ),
{
    let ghost had = candidates(sent@);
    let ghost before = feed.showing(had);
    assert(before.silent() =~= feed.showing(Seq::empty()));
    let mut found = apply_frame(it, feed, m);
    let ghost next = feed.showing(candidates(found@));
    assert(before.silent().frame_leads_to(next, *it, m));
    let ghost f = found@;
    sent.append(&mut found);
    assert(candidates(sent@) =~= had + candidates(f));
    assert(feed.showing(candidates(sent@)) =~= FeedView { sent: had + next.sent, ..next });
}

/// Takes one message of the feed in; the candidates that it shows. A message that is
/// no JSON changes nothing.
pub fn apply_message(raw: &str, feed: &mut Feed, m: Moment) -> (sent: Vec<Candidate>)
    ensures
        match json::document(raw@) {
            Some(v) => old(feed).showing(Seq::empty()).frames_lead_to(
                final(feed).showing(candidates(sent@)),
                frames_in(v),
                m,
            ),
            None => sent@.len() == 0 && final(feed).showing(Seq::empty()) == old(feed).showing(
                Seq::empty(),
            ),
        },
{
    let mut sent: Vec<Candidate> = Vec::new();
    let ghost start = feed.showing(Seq::empty());
    assert(candidates(sent@) =~= Seq::<CandidateView>::empty());
    let v = match json::read_json(raw) {
        Some(v) => v,
        None => {
            return sent;
        },
    };
    match &v {
        Json::List(l) => {
            for i in 0..l.len()
                invariant
                    start.frames_lead_to(
                        feed.showing(candidates(sent@)),
                        l@.take(i as int),
                        m,
                    ),
            {
                let ghost mid = feed.showing(candidates(sent@));
                take_frame(&l[i], feed, &mut sent, m);
                assert(l@.take(i + 1).drop_last() =~= l@.take(i as int));
                assert(mid.steps_to(feed.showing(candidates(sent@)), l@.take(i + 1).last(), m));
            }
            assert(l@.take(l@.len() as int) =~= l@);
        },
        _ => {
            let ghost frames = frames_in(v);
            assert(frames.drop_last() =~= Seq::<Json>::empty());
            assert(start.frames_lead_to(start, frames.drop_last(), m));
            take_frame(&v, feed, &mut sent, m);
            assert(start.steps_to(feed.showing(candidates(sent@)), frames.last(), m));
        },
    }
    sent
}

/// What the socket of the feed has to say.
#[derive(Debug)]
pub enum Wire {
    Silent,
    Ended,
    Failed(String),
    Text(String),
    Closed,
    Other,
}

/// What is done about it.
#[derive(Debug)]
pub enum PumpStep {
    Done,
    Broken(String),
    Frame(String),
    Skip,
}

/// What is done about what the socket says: silence and failure break the feed, its
/// end is the end, a text is taken in, and the rest is passed over.
pub fn pump_step(w: Wire) -> (r: PumpStep)
    ensures
        match w {
            Wire::Silent => r matches PumpStep::Broken(s) && s@ == "silent past 60s"@,
            Wire::Ended => r is Done,
            Wire::Failed(e) => r matches PumpStep::Broken(s) && s@ == "recv: "@ + e@,
            Wire::Text(t) => r matches PumpStep::Frame(s) && s@ == t@,
            Wire::Closed => r is Done,
            Wire::Other => r is Skip,
        },
{
    match w {
        Wire::Silent => PumpStep::Broken(owned("silent past 60s")),
        Wire::Ended => PumpStep::Done,
        Wire::Failed(e) => {
            let mut s = owned("recv: ");
            s.append(e.as_str());
            PumpStep::Broken(s)
        },
        Wire::Text(t) => PumpStep::Frame(t),
        Wire::Closed => PumpStep::Done,
        Wire::Other => PumpStep::Skip,
    }
}

/// What is sent to subscribe to these tokens.
pub fn subscription(tokens: &[String]) -> (r: String)
    ensures
        r@ == json::written(
            JsonView::Fields(
                seq![
                    ("assets_ids"@, JsonView::List(json::text_list(text::texts(tokens@)))),
                    ("type"@, JsonView::Text("market"@)),
                ],
            ),
        ),
{
    let mut f = json::no_fields();
    json::put(&mut f, "assets_ids", json::texts_json(tokens));
    json::put(&mut f, "type", json::text_json("market"));
    assert(json::shown_fields(f@) =~= seq![
        ("assets_ids"@, JsonView::List(json::text_list(text::texts(tokens@)))),
        ("type"@, JsonView::Text("market"@)),
    ]);
    json::line_of(&Json::Fields(f))
}

/// Whether what is subscribed to is no longer the canonical list of the tokens to be
/// watched: each of them once, in order, and no other.
pub fn watch_changed(subscribed: &[String], watch: &[String]) -> (r: bool)
    ensures
        r == !(sorting::in_order(text::texts(subscribed@)) && sorting::same_members(
            text::texts(subscribed@),
            text::texts(watch@),
        )),
{
    let now = book::canonical(watch);
    let ghost is_now = sorting::in_order(text::texts(subscribed@)) && sorting::same_members(
        text::texts(subscribed@),
        text::texts(watch@),
    );
    proof {
        if is_now {
            book::canonical_is_canonical(
                text::texts(subscribed@),
                text::texts(watch@),
                text::texts(subscribed@),
                text::texts(now@),
            );
        }
    }
    assert(is_now <==> text::texts(subscribed@) == text::texts(now@));
    if now.len() != subscribed.len() {
        assert(text::texts(now@).len() != text::texts(subscribed@).len());
        return true;
    }
    for i in 0..now.len()
        invariant
            now@.len() == subscribed@.len(),
            forall|j: int| 0 <= j < i ==> text::texts(now@)[j] == text::texts(subscribed@)[j],
            is_now <==> text::texts(subscribed@) == text::texts(now@),
            is_now == (sorting::in_order(text::texts(subscribed@)) && sorting::same_members(
                text::texts(subscribed@),
                text::texts(watch@),
            )),
    {
        if !text::same(now[i].as_str(), subscribed[i].as_str()) {
            assert(text::texts(now@)[i as int] != text::texts(subscribed@)[i as int]);
            return true;
        }
    }
    assert(text::texts(now@) =~= text::texts(subscribed@));
    false
}

} // verus!
