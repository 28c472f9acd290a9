//! Recognising the leader's resting order on the public book: a level that shrinks
//! where the order is believed to rest is a fill of it, until proven otherwise.
//!
//! Moments are microseconds of a clock that does not go back.

use vstd::prelude::*;
use crate::json::Json;
use crate::sorting;
use crate::table::Table;
use crate::text;
use crate::text::{dec_u128, owned};
use crate::units;
use crate::units::{abs_of, less, max_of, plus};

verus! {

/// An order of the leader that is believed to rest.
#[derive(Debug)]
pub struct KnownOrder {
    pub token: String,
    pub side: u8,
    pub price: i64,
    pub remaining: i64,
    pub learned: u64,
    pub book_size_at_learn: i64,
}

/// What is believed of the leader's order.
#[verifier::ext_equal]
pub struct KnownView {
    pub token: Seq<char>,
    pub side: u8,
    pub price: i64,
    pub remaining: i64,
    pub learned: u64,
    pub book_size_at_learn: i64,
}

impl View for KnownOrder {
    type V = KnownView;

    open spec fn view(&self) -> KnownView {
        KnownView {
            token: self.token@,
            side: self.side,
            price: self.price,
            remaining: self.remaining,
            learned: self.learned,
            book_size_at_learn: self.book_size_at_learn,
        }
    }
}

/// What is believed of one token.
#[derive(Debug, Clone, Copy, PartialEq, Eq, Structural)]
pub struct Belief {
    pub price: i64,
    pub remaining: i64,
    pub level_size: Option<i64>,
    pub contested: bool,
}

/// A fill of the leader that the book seems to show.
#[derive(Debug)]
pub struct Candidate {
    pub token: String,
    pub side: u8,
    pub price: i64,
    pub size: i128,
    pub confidence: Conf,
}

/// What a candidate says.
#[verifier::ext_equal]
pub struct CandidateView {
    pub token: Seq<char>,
    pub side: u8,
    pub price: i64,
    pub size: int,
    pub confidence: Conf,
}

impl View for Candidate {
    type V = CandidateView;

    open spec fn view(&self) -> CandidateView {
        CandidateView {
            token: self.token@,
            side: self.side,
            price: self.price,
            size: self.size as int,
            confidence: self.confidence,
        }
    }
}

impl Candidate {
    /// A copy of a candidate.
    pub fn copy(&self) -> (r: Candidate)
        ensures
            r@ == self@,
    {
        Candidate {
            token: self.token.clone(),
            side: self.side,
            price: self.price,
            size: self.size,
            confidence: self.confidence,
        }
    }
}

/// Whether the leader's order has the level to itself.
#[derive(Debug, Clone, Copy, PartialEq, Eq, Structural)]
pub enum Conf {
    Uncontested,
    Contested,
}

/// How long a belief is held: a cancel cannot be seen.
pub const MAX_BELIEF_AGE: u64 = 300_000_000;

/// The part of the order by which a level may exceed it, in millionths.
pub const CONTEST_TOLERANCE: i64 = 100_000;

/// Whether a level of this size holds more than the order and the tolerance.
pub open spec fn is_contested(level: int, remaining: int) -> bool {
    (level - remaining) * units::ONE > remaining * CONTEST_TOLERANCE
}

fn contested(level: i64, remaining: i64) -> (r: bool)
    ensures
        r == is_contested(level as int, remaining as int),
{
    (level as i128 - remaining as i128) * 1_000_000 > remaining as i128 * 100_000
}

/// The beliefs, and what came of them.
pub struct Fingerprints {
    known: Table<String, KnownOrder>,
    last_size: Table<String, i64>,
    pub emitted: u64,
    pub abstained_contested: u64,
    pub abstained_stale: u64,
}

/// What is believed, and what came of it.
#[verifier::ext_equal]
pub struct FingerprintsView {
    pub known: Map<Seq<char>, KnownView>,
    pub last_size: Map<Seq<char>, i64>,
    pub emitted: u64,
    pub abstained_contested: u64,
    pub abstained_stale: u64,
}

impl View for Fingerprints {
    type V = FingerprintsView;

    closed spec fn view(&self) -> FingerprintsView {
        FingerprintsView {
            known: self.known@.map_values(|k: KnownOrder| k@),
            last_size: self.last_size@,
            emitted: self.emitted,
            abstained_contested: self.abstained_contested,
            abstained_stale: self.abstained_stale,
        }
    }
}

impl FingerprintsView {
    /// What is believed once an order is known of; nothing where none of it is left.
    pub open spec fn learnt(
        self,
        token: Seq<char>,
        side: u8,
        price: i64,
        remaining: i64,
        book_size: i64,
        now_us: u64,
    ) -> FingerprintsView {
        if remaining <= 0 {
            self.forgotten(token)
        } else {
            FingerprintsView {
                known: self.known.insert(
                    token,
                    KnownView {
                        token,
                        side,
                        price,
                        remaining,
                        learned: now_us,
                        book_size_at_learn: book_size,
                    },
                ),
                ..self
            }
        }
    }

    /// What is believed of a token, where anything is.
    pub open spec fn believed(self, token: Seq<char>) -> Option<Belief> {
        if self.known.contains_key(token) {
            let k = self.known[token];
            let last = if self.last_size.contains_key(token) {
                Some(self.last_size[token])
            } else {
                None
            };
            Some(
                Belief {
                    price: k.price,
                    remaining: k.remaining,
                    level_size: last,
                    contested: last matches Some(sz) && is_contested(
                        sz as int,
                        k.remaining as int,
                    ),
                },
            )
        } else {
            None
        }
    }

    /// Without any belief in a token.
    pub open spec fn forgotten(self, token: Seq<char>) -> FingerprintsView {
        FingerprintsView {
            known: self.known.remove(token),
            last_size: self.last_size.remove(token),
            ..self
        }
    }

    /// The size of the level when it was last seen.
    pub open spec fn level_before(self, token: Seq<char>) -> i64 {
        if self.last_size.contains_key(token) {
            self.last_size[token]
        } else {
            self.known[token].book_size_at_learn
        }
    }

    /// Whether an update of a level speaks of a belief at all.
    pub open spec fn concerns(self, token: Seq<char>, price: i64) -> bool {
        self.known.contains_key(token) && self.known[token].price == price
    }

    /// Whether a belief has grown too old.
    pub open spec fn stale(self, token: Seq<char>, now_us: u64) -> bool {
        units::minus_floored(now_us, self.known[token].learned) > MAX_BELIEF_AGE
    }

    /// By how much a level has shrunk.
    pub open spec fn drop_to(self, token: Seq<char>, size: i64) -> int {
        self.level_before(token) - size
    }

    /// Whether an update is a fill of the order: the level has shrunk, and by no more
    /// than the order and a thousandth.
    pub open spec fn is_fill(self, token: Seq<char>, size: i64) -> bool {
        let d = self.drop_to(token, size);
        d > 0 && d * 1000 <= self.known[token].remaining * 1001
    }

    /// The fill that an update shows.
    pub open spec fn candidate(self, token: Seq<char>, price: i64, size: i64) -> CandidateView {
        CandidateView {
            token,
            side: self.known[token].side,
            price,
            size: self.drop_to(token, size),
            confidence: if is_contested(
                self.level_before(token) as int,
                self.known[token].remaining as int,
            ) {
                Conf::Contested
            } else {
                Conf::Uncontested
            },
        }
    }

    /// What is believed after an update of a level.
    pub open spec fn after_book(
        self,
        token: Seq<char>,
        price: i64,
        size: i64,
        now_us: u64,
    ) -> FingerprintsView {
        if !self.concerns(token, price) {
            self
        } else if self.stale(token, now_us) {
            FingerprintsView {
                known: self.known.remove(token),
                abstained_stale: units::plus_capped(self.abstained_stale, 1),
                ..self
            }
        } else {
            let seen = FingerprintsView { last_size: self.last_size.insert(token, size), ..self };
            if !self.is_fill(token, size) {
                seen
            } else {
                let k = self.known[token];
                let left = units::larger(k.remaining - self.drop_to(token, size), 0) as i64;
                FingerprintsView {
                    known: if left <= 0 {
                        self.known.remove(token)
                    } else {
                        self.known.insert(token, KnownView { remaining: left, ..k })
                    },
                    emitted: units::plus_capped(self.emitted, 1),
                    abstained_contested: if self.candidate(token, price, size).confidence
                        == Conf::Contested {
                        units::plus_capped(self.abstained_contested, 1)
                    } else {
                        self.abstained_contested
                    },
                    ..seen
                }
            }
        }
    }

    /// The fill that an update of a level shows, if it shows one.
    pub open spec fn shown(
        self,
        token: Seq<char>,
        price: i64,
        size: i64,
        now_us: u64,
    ) -> Option<CandidateView> {
        if self.concerns(token, price) && !self.stale(token, now_us) && self.is_fill(token, size) {
            Some(self.candidate(token, price, size))
        } else {
            None
        }
    }
}

/// No belief yet.
pub open spec fn no_beliefs() -> FingerprintsView {
    FingerprintsView {
        known: Map::empty(),
        last_size: Map::empty(),
        emitted: 0,
        abstained_contested: 0,
        abstained_stale: 0,
    }
}

impl Fingerprints {
    /// No belief yet.
    pub fn new() -> (r: Self)
        ensures
            r@ == no_beliefs(),
    {
        let r = Fingerprints {
            known: Table::new(),
            last_size: Table::new(),
            emitted: 0,
            abstained_contested: 0,
            abstained_stale: 0,
        };
        assert(r@ =~= no_beliefs());
        r
    }

    /// Believes in an order of the leader; an order with nothing left is forgotten.
    pub fn learn(
        &mut self,
        token: &str,
        side: u8,
        price: i64,
        remaining: i64,
        book_size_now: i64,
        now_us: u64,
    )
        ensures
            final(self)@ == (if remaining <= 0 {
                old(self)@.forgotten(token@)
            } else {
                FingerprintsView {
                    known: old(self)@.known.insert(
                        token@,
                        KnownView {
                            token: token@,
                            side,
                            price,
                            remaining,
                            learned: now_us,
                            book_size_at_learn: book_size_now,
                        },
                    ),
                    ..old(self)@
                }
            }),
            final(self)@ == old(self)@.learnt(
                token@,
                side,
                price,
                remaining,
                book_size_now,
                now_us,
            ),
    {
        if remaining <= 0 {
            self.forget(token);
            return ;
        }
        let ghost before = self@;
        let order = KnownOrder {
            token: owned(token),
            side,
            price,
            remaining,
            learned: now_us,
            book_size_at_learn: book_size_now,
        };
        let ghost v = order@;
        self.known.insert(owned(token), order);
        assert(self@.known =~= before.known.insert(token@, v));
    }

    /// Forgets what is believed of a token.
    pub fn forget(&mut self, token: &str)
        ensures
            final(self)@ == old(self)@.forgotten(token@),
    {
        let key = owned(token);
        let ghost before = self@;
        self.known.remove(&key);
        self.last_size.remove(&key);
        assert(self@.known =~= before.known.remove(token@));
        assert(self@ =~= before.forgotten(token@));
    }

    /// How many orders are believed in.
    pub fn known_len(&self) -> (r: usize)
        ensures
            r == self@.known.dom().len(),
    {
        assert(self@.known.dom() =~= self.known@.dom());
        self.known.len()
    }

    /// The tokens of which something is believed.
    pub fn known_tokens(&self) -> (r: Vec<String>)
        ensures
            text::texts(r@).no_duplicates(),
            forall|t: Seq<char>| #[trigger]
                text::texts(r@).contains(t) == self@.known.contains_key(t),
    {
        let n = self.known.len();
        let ghost keys = self.known.keys();
        let mut out: Vec<String> = Vec::new();
        for i in 0..n
            invariant
                n == keys.len(),
                keys == self.known.keys(),
                text::texts(out@) == keys.take(i as int),
        {
            let ghost so_far = text::texts(out@);
            out.push(self.known.key_at(i).clone());
            assert(text::texts(out@) =~= so_far.push(keys[i as int]));
            assert(keys.take(i + 1) =~= keys.take(i as int).push(keys[i as int]));
        }
        assert(keys.take(keys.len() as int) =~= keys);
        assert forall|t: Seq<char>| #[trigger]
            text::texts(out@).contains(t) == self@.known.contains_key(t) by {
            if keys.contains(t) {
                let j = keys.index_of(t);
                assert(self.known@.contains_key(keys[j]));
            }
        }
        out
    }

    /// What is believed of a token.
    pub fn belief(&self, token: &str) -> (r: Option<Belief>)
        ensures
            r == (if self@.known.contains_key(token@) {
                let k = self@.known[token@];
                let last = if self@.last_size.contains_key(token@) {
                    Some(self@.last_size[token@])
                } else {
                    None
                };
                Some(
                    Belief {
                        price: k.price,
                        remaining: k.remaining,
                        level_size: last,
                        contested: last matches Some(sz) && is_contested(
                            sz as int,
                            k.remaining as int,
                        ),
                    },
                )
            } else {
                None
            }),
            r == self@.believed(token@),
    {
        let key = owned(token);
        match self.known.get(&key) {
            None => None,
            Some(k) => {
                let last: Option<i64> = match self.last_size.get(&key) {
                    Some(s) => Some(*s),
                    None => None,
                };
                let c = match last {
                    Some(sz) => contested(sz, k.remaining),
                    None => false,
                };
                Some(
                    Belief {
                        price: k.price,
                        remaining: k.remaining,
                        level_size: last,
                        contested: c,
                    },
                )
            },
        }
    }

    /// Takes an update of a level of the book in; the fill that it shows, if any.
    pub fn on_book(&mut self, token: &str, price: i64, size_at_level: i64, now_us: u64) -> (r:
        Option<Candidate>)
        ensures
            final(self)@ == old(self)@.after_book(token@, price, size_at_level, now_us),
            match old(self)@.shown(token@, price, size_at_level, now_us) {
                Some(c) => r matches Some(d) && d@ == c,
                None => r is None,
            },
    {
        let key = owned(token);
        let ghost before = self@;
        let i = match self.known.find(&key) {
            Some(i) => i,
            None => {
                return None;
            },
        };
        let k = self.known.val_at(i);
        let (side, kprice, remaining, learned, at_learn) = (
            k.side,
            k.price,
            k.remaining,
            k.learned,
            k.book_size_at_learn,
        );
        assert(before.known[token@] == k@);
        if kprice != price {
            return None;
        }
        if less(now_us, learned) > MAX_BELIEF_AGE {
            self.known.remove(&key);
            self.abstained_stale = plus(self.abstained_stale, 1);
            assert(self@.known =~= before.known.remove(token@));
            assert(self@ =~= before.after_book(token@, price, size_at_level, now_us));
            return None;
        }
        let prev: i64 = match self.last_size.get(&key) {
            Some(s) => *s,
            None => at_learn,
        };
        self.last_size.insert(key.clone(), size_at_level);
        let delta: i128 = prev as i128 - size_at_level as i128;
        if delta <= 0 || delta * 1000 > remaining as i128 * 1001 {
            assert(self@ =~= before.after_book(token@, price, size_at_level, now_us));
            return None;
        }
        let conf = if contested(prev, remaining) {
            self.abstained_contested = plus(self.abstained_contested, 1);
            Conf::Contested
        } else {
            Conf::Uncontested
        };
        let left = max_of(remaining as i128 - delta, 0);
        if left <= 0 {
            self.known.remove(&key);
            assert(self@.known =~= before.known.remove(token@));
        } else {
            let o = self.known.at_mut(i);
            o.remaining = left as i64;
            assert(self@.known =~= before.known.insert(
                token@,
                KnownView { remaining: left as i64, ..before.known[token@] },
            ));
        }
        self.emitted = plus(self.emitted, 1);
        assert(self@ =~= before.after_book(token@, price, size_at_level, now_us));
        Some(Candidate { token: owned(token), side, price, size: delta, confidence: conf })
    }
}

/// Candidates that wait for the chain to confirm them, and how they came out.
pub struct FingerprintScore {
    pending: Vec<(u64, Candidate)>,
    pub agree: u64,
    pub disagree: u64,
    pub unconfirmed: u64,
    pub leads_us: Vec<u64>,
}

/// The score so far.
#[verifier::ext_equal]
pub struct ScoreView {
    pub pending: Seq<(u64, CandidateView)>,
    pub agree: u64,
    pub disagree: u64,
    pub unconfirmed: u64,
    pub leads_us: Seq<u64>,
}

/// What these candidates say.
pub open spec fn waiting(p: Seq<(u64, Candidate)>) -> Seq<(u64, CandidateView)> {
    p.map_values(|e: (u64, Candidate)| (e.0, e.1@))
}

impl View for FingerprintScore {
    type V = ScoreView;

    closed spec fn view(&self) -> ScoreView {
        ScoreView {
            pending: waiting(self.pending@),
            agree: self.agree,
            disagree: self.disagree,
            unconfirmed: self.unconfirmed,
            leads_us: self.leads_us@,
        }
    }
}

/// Nothing scored yet.
pub open spec fn no_score() -> ScoreView {
    ScoreView { pending: Seq::empty(), agree: 0, disagree: 0, unconfirmed: 0, leads_us: Seq::empty() }
}

/// Whether a candidate is the fill that was confirmed: the price within two
/// thousandths, the size within a twentieth of it or of one share.
pub open spec fn matches_fill(
    c: CandidateView,
    token: Seq<char>,
    side: u8,
    price: i64,
    size: i64,
) -> bool {
    &&& c.token == token
    &&& c.side == side
    &&& units::size_of(c.price - price) < 2_000
    &&& units::size_of(c.size - size) * 20 < units::larger(size as int, units::ONE as int)
}

/// The first candidate that is the fill.
pub open spec fn first_match(
    p: Seq<(u64, CandidateView)>,
    token: Seq<char>,
    side: u8,
    price: i64,
    size: i64,
    from: int,
) -> Option<int>
    decreases p.len() - from,
{
    if from < 0 || from >= p.len() {
        None
    } else if matches_fill(p[from].1, token, side, price, size) {
        Some(from)
    } else {
        first_match(p, token, side, price, size, from + 1)
    }
}

/// Whether some candidate is for the same side of the token.
pub open spec fn same_side(p: Seq<(u64, CandidateView)>, token: Seq<char>, side: u8) -> bool {
    exists|i: int| 0 <= i < p.len() && (#[trigger] p[i]).1.token == token && p[i].1.side == side
}

impl ScoreView {
    /// After the chain confirmed a fill: the candidate that is this fill agreed, and
    /// its lead counts; with candidates of that side but none that is this fill, they
    /// disagreed.
    pub open spec fn confirmed(
        self,
        token: Seq<char>,
        side: u8,
        price: i64,
        size: i64,
        now_us: u64,
    ) -> ScoreView {
        match first_match(self.pending, token, side, price, size, 0) {
            Some(i) => ScoreView {
                pending: self.pending.remove(i),
                agree: units::plus_capped(self.agree, 1),
                leads_us: self.leads_us.push(
                    units::minus_floored(now_us, self.pending[i].0),
                ),
                ..self
            },
            None => if same_side(self.pending, token, side) {
                ScoreView { disagree: units::plus_capped(self.disagree, 1), ..self }
            } else {
                self
            },
        }
    }
}

/// The candidates that are younger than this.
pub open spec fn younger(
    p: Seq<(u64, CandidateView)>,
    older_than_us: u64,
    now_us: u64,
) -> Seq<(u64, CandidateView)> {
    p.filter(|e: (u64, CandidateView)| units::minus_floored(now_us, e.0) < older_than_us)
}

/// The verdict's reason to hold back, the first that applies.
pub open spec fn blocker(a: int, d: int, u: int, med_us: int, min_samples: int) -> Seq<char> {
    if d > 0 {
        "DISAGREED — do not promote"@
    } else if a < min_samples {
        "needs more confirmed fills"@
    } else if u * 50 >= a + u && a + u > 0 {
        "too many unconfirmed ghosts"@
    } else if med_us <= 50_000 {
        "lead too small to be worth the risk"@
    } else {
        "none"@
    }
}

/// Whether the fingerprints may be acted on.
pub open spec fn is_ready(a: int, d: int, u: int, med_us: int, min_samples: int) -> bool {
    d == 0 && a >= min_samples && (a + u == 0 || u * 50 < a + u) && med_us > 50_000
}

/// The middle of the leads, the later of two.
pub open spec fn is_median(leads: Seq<u64>, m: u64) -> bool {
    if leads.len() == 0 {
        m == 0
    } else {
        exists|s: Seq<u64>| #[trigger]
            sorting::sorts(s, leads) && s.len() == leads.len() && m == s[leads.len() as int / 2]
    }
}

/// `u` out of `a + u` in thousandths, rounded half up.
pub open spec fn ghost_permille(a: int, u: int) -> nat {
    if a + u == 0 {
        0
    } else {
        ((u * 2000 + (a + u)) / (2 * (a + u))) as nat
    }
}

/// A number of thousandths as text.
pub open spec fn thousandths(q: nat) -> Seq<char> {
    text::dec(q / 1000) + seq!['.'] + text::pad(q % 1000, 3)
}

/// Microseconds as milliseconds with one decimal place.
pub open spec fn millis(us: nat) -> Seq<char> {
    let q = (us + 50) / 100;
    text::dec(q / 10) + seq!['.'] + text::pad(q % 10, 1)
}

fn with_point(whole: u128, part: u128, places: usize) -> (r: String)
    ensures
        r@ == text::dec(whole as nat) + seq!['.'] + text::pad(part as nat, places as nat),
{
    let mut s = dec_u128(whole);
    s.push('.');
    s.append(text::pad_u128(part, places).as_str());
    assert(s@ =~= text::dec(whole as nat) + seq!['.'] + text::pad(part as nat, places as nat));
    s
}

impl FingerprintScore {
    /// Nothing scored yet.
    pub fn new() -> (r: Self)
        ensures
            r@ == no_score(),
    {
        let r = FingerprintScore {
            pending: Vec::new(),
            agree: 0,
            disagree: 0,
            unconfirmed: 0,
            leads_us: Vec::new(),
        };
        assert(r@ =~= no_score());
        r
    }

    /// Lets a candidate wait.
    pub fn saw(&mut self, c: Candidate, now_us: u64)
        ensures
            final(self)@ == (ScoreView {
                pending: old(self)@.pending.push((now_us, c@)),
                ..old(self)@
            }),
    {
        let ghost before = self@;
        let ghost v = c@;
        self.pending.push((now_us, c));
        assert(self@.pending =~= before.pending.push((now_us, v)));
    }

    /// Takes a fill in that the chain confirmed.
    pub fn confirm(&mut self, token: &str, side: u8, price: i64, size: i64, now_us: u64)
        ensures
            final(self)@ == old(self)@.confirmed(token@, side, price, size, now_us),
    {
        let ghost before = self@;
        let mut i: usize = 0;
        let mut found = false;
        let mut sided = false;
        while i < self.pending.len() && !found
            invariant
                before == self@,
                i <= self.pending@.len(),
                !found ==> first_match(before.pending, token@, side, price, size, 0)
                    == first_match(before.pending, token@, side, price, size, i as int),
                found ==> i < self.pending@.len() && first_match(
                    before.pending,
                    token@,
                    side,
                    price,
                    size,
                    0,
                ) == Some(i as int),
                !found ==> sided == exists|j: int|
                    0 <= j < i && (#[trigger] before.pending[j]).1.token == token@
                        && before.pending[j].1.side == side,
            decreases self.pending@.len() - i + (if found { 0int } else { 1 }),
        {
            let c = &self.pending[i].1;
            assert(before.pending[i as int].1 == c@);
            let ours = text::same(c.token.as_str(), token) && c.side == side;
            if ours && abs_of(c.price as i128 - price as i128) < 2_000 && near(c.size, size) {
                found = true;
            } else {
                sided = sided || ours;
                i = i + 1;
            }
        }
        if found {
            let e = self.pending.remove(i);
            self.agree = plus(self.agree, 1);
            self.leads_us.push(less(now_us, e.0));
            assert(self@.pending =~= before.pending.remove(i as int));
        } else if sided {
            self.disagree = plus(self.disagree, 1);
        }
        assert(self@ =~= before.confirmed(token@, side, price, size, now_us));
    }

    /// Gives candidates up that have waited too long; how many.
    pub fn expire(&mut self, older_than_us: u64, now_us: u64) -> (r: usize)
        ensures
            final(self)@ == (ScoreView {
                pending: younger(old(self)@.pending, older_than_us, now_us),
                unconfirmed: units::plus_capped(old(self)@.unconfirmed, r as u64),
                ..old(self)@
            }),
            r == old(self)@.pending.len() - younger(
                old(self)@.pending,
                older_than_us,
                now_us,
            ).len(),
    {
        broadcast use vstd::seq_lib::group_filter_ensures;

        let ghost before = self@;
        let ghost keep = |e: (u64, CandidateView)|
            units::minus_floored(now_us, e.0) < older_than_us;
        let total = self.pending.len();
        let mut old_rows: Vec<(u64, Candidate)> = Vec::new();
        std::mem::swap(&mut old_rows, &mut self.pending);
        let ghost all = waiting(old_rows@);
        assert(all == before.pending);
        let mut out: Vec<(u64, Candidate)> = Vec::new();
        let mut i: usize = 0;
        while i < old_rows.len()
            invariant
                i <= old_rows@.len(),
                all == waiting(old_rows@),
                keep == (|e: (u64, CandidateView)|
                    units::minus_floored(now_us, e.0) < older_than_us),
                waiting(out@) == all.take(i as int).filter(keep),
                out@.len() <= i,
            decreases old_rows@.len() - i,
        {
            let ghost more = all.take(i + 1);
            assert(more.drop_last() =~= all.take(i as int));
            assert(more.last() == all[i as int]);
            proof {
                reveal_with_fuel(Seq::filter, 2);
            }
            let ghost so_far = waiting(out@);
            if less(now_us, old_rows[i].0) < older_than_us {
                let c = old_rows[i].1.copy();
                let t = old_rows[i].0;
                out.push((t, c));
                assert(waiting(out@) =~= so_far.push(all[i as int]));
            }
            i = i + 1;
        }
        assert(all.take(all.len() as int) =~= all);
        let n = total - out.len();
        self.pending = out;
        self.unconfirmed = plus(self.unconfirmed, n as u64);
        assert(self@ =~= (ScoreView {
            pending: younger(before.pending, older_than_us, now_us),
            unconfirmed: units::plus_capped(before.unconfirmed, n as u64),
            ..before
        }));
        n
    }

    fn median(&self) -> (m: u64)
        ensures
            is_median(self@.leads_us, m),
    {
        if self.leads_us.len() == 0 {
            return 0;
        }
        let s = sorting::sort(&self.leads_us);
        let m = s[s.len() / 2];
        assert(sorting::sorts(s@, self.leads_us@));
        m
    }

    /// Whether the fingerprints may be acted on, with the numbers behind it.
    pub fn verdict(&self, min_samples: u64) -> (r: Json)
        ensures
            exists|med: u64| #[trigger]
                is_median(self@.leads_us, med) && says_verdict(r, self@, med, min_samples),
    {
        let a = self.agree as i128;
        let d = self.disagree as i128;
        let u = self.unconfirmed as i128;
        let med = self.median();
        let q: u128 = if a + u == 0 {
            0
        } else {
            ((u * 2000 + (a + u)) / (2 * (a + u))) as u128
        };
        assert(q == ghost_permille(a as int, u as int)) by {
            if a + u != 0 {
                assert((u * 2000 + (a + u)) / (2 * (a + u)) >= 0) by (nonlinear_arith)
                    requires
                        a >= 0,
                        u >= 0,
                        a + u > 0,
                ;
                assert((u * 2000 + (a + u)) / (2 * (a + u)) <= 1001) by (nonlinear_arith)
                    requires
                        a >= 0,
                        u >= 0,
                        a + u > 0,
                ;
            }
        }
        let ghosts = a + u > 0 && u * 50 >= a + u;
        let ready = d == 0 && a >= min_samples as i128 && !ghosts && med > 50_000;
        let why = if d > 0 {
            owned("DISAGREED — do not promote")
        } else if a < min_samples as i128 {
            owned("needs more confirmed fills")
        } else if ghosts {
            owned("too many unconfirmed ghosts")
        } else if med <= 50_000 {
            owned("lead too small to be worth the risk")
        } else {
            owned("none")
        };
        let m: u128 = (med as u128 + 50) / 100;
        let mut f: Vec<(String, Json)> = Vec::new();
        f.push((owned("agree"), Json::Number(dec_u128(self.agree as u128))));
        f.push((owned("disagree"), Json::Number(dec_u128(self.disagree as u128))));
        f.push((owned("unconfirmed"), Json::Number(dec_u128(self.unconfirmed as u128))));
        f.push((owned("ghost_rate"), Json::Number(with_point(q / 1000, q % 1000, 3))));
        f.push((owned("median_lead_ms"), Json::Number(with_point(m / 10, m % 10, 1))));
        f.push((owned("READY_TO_PROMOTE"), Json::Bool(ready)));
        f.push((owned("blocker"), Json::Text(why)));
        let r = Json::Fields(f);
        assert(says_verdict(r, self@, med, min_samples));
        r
    }
}

fn near(size: i128, want: i64) -> (r: bool)
    ensures
        r == (units::size_of(size - want) * 20 < units::larger(want as int, units::ONE as int)),
{
    let bar = max_of(want as i128, 1_000_000);
    match size.checked_sub(want as i128) {
        None => false,
        Some(d) => {
            if d == i128::MIN {
                false
            } else {
                abs_of(d) <= (bar - 1) / 20
            }
        },
    }
}

/// Whether a JSON object states the verdict of a score.
pub open spec fn says_verdict(r: Json, s: ScoreView, med: u64, min_samples: u64) -> bool {
    &&& r matches Json::Fields(f)
    &&& f@.len() == 7
    &&& f@[0].0@ == "agree"@ && (f@[0].1 matches Json::Number(t) && t@ == text::dec(s.agree as nat))
    &&& f@[1].0@ == "disagree"@ && (f@[1].1 matches Json::Number(t) && t@ == text::dec(
        s.disagree as nat,
    ))
    &&& f@[2].0@ == "unconfirmed"@ && (f@[2].1 matches Json::Number(t) && t@ == text::dec(
        s.unconfirmed as nat,
    ))
    &&& f@[3].0@ == "ghost_rate"@ && (f@[3].1 matches Json::Number(t) && t@ == thousandths(
        ghost_permille(s.agree as int, s.unconfirmed as int),
    ))
    &&& f@[4].0@ == "median_lead_ms"@ && (f@[4].1 matches Json::Number(t) && t@ == millis(
        med as nat,
    ))
    &&& f@[5].0@ == "READY_TO_PROMOTE"@ && f@[5].1 == Json::Bool(
        is_ready(
            s.agree as int,
            s.disagree as int,
            s.unconfirmed as int,
            med as int,
            min_samples as int,
        ),
    )
    &&& f@[6].0@ == "blocker"@ && (f@[6].1 matches Json::Text(t) && t@ == blocker(
        s.agree as int,
        s.disagree as int,
        s.unconfirmed as int,
        med as int,
        min_samples as int,
    ))
}

/// A candidate is never larger than the order and a thousandth, and what is believed
/// to be left never grows by an update.
pub proof fn belief_only_shrinks(
    f: FingerprintsView,
    token: Seq<char>,
    price: i64,
    size: i64,
    now_us: u64,
)
    requires
        f.known.contains_key(token),
        f.known[token].remaining > 0,
    ensures
        f.after_book(token, price, size, now_us).known.contains_key(token)
            ==> f.after_book(token, price, size, now_us).known[token].remaining
            <= f.known[token].remaining,
        f.shown(token, price, size, now_us) matches Some(c) ==> 0 < c.size && c.size * 1000
            <= f.known[token].remaining * 1001,
{
}

/// Liquidity that is added to a level is never taken for a fill.
pub proof fn added_liquidity_is_no_fill(
    f: FingerprintsView,
    token: Seq<char>,
    price: i64,
    size: i64,
    now_us: u64,
)
    requires
        f.known.contains_key(token),
        size >= f.level_before(token),
    ensures
        f.shown(token, price, size, now_us) is None,
{
}

/// One disagreement is enough to hold back, for good: whatever is confirmed later,
/// the count of disagreements does not go down.
pub proof fn disagreement_blocks(
    s: ScoreView,
    token: Seq<char>,
    side: u8,
    price: i64,
    size: i64,
    now_us: u64,
    med_us: int,
    min_samples: int,
)
    requires
        s.disagree > 0,
    ensures
        s.confirmed(token, side, price, size, now_us).disagree >= s.disagree,
        ({
            let n = s.confirmed(token, side, price, size, now_us);
            !is_ready(
                n.agree as int,
                n.disagree as int,
                n.unconfirmed as int,
                med_us,
                min_samples,
            )
        }),
{
}

} // verus!
