//! Which merges of a leader undo splits of the same leader, and which are exits.

use vstd::prelude::*;
use crate::json;
use crate::json::Json;
use crate::sorting;
use crate::table::Table;
use crate::text;
use crate::text::owned;
use crate::units;
use crate::units::{min_of, sum_of, Qty};

verus! {

/// What a merge says of the leader's intent.
#[derive(Debug, Clone, Copy, PartialEq, Eq, Structural)]
pub enum MergeSignal {
    Exit { shares: i64 },
    NonSignal,
    Unknown,
}

/// The pairs that a leader split in a market and has not merged again; nothing is known
/// once it is poisoned.
#[derive(Debug, Clone, Copy, PartialEq, Eq, Structural)]
pub struct Balance {
    pub sized: i128,
    pub poisoned: bool,
}

/// No pairs.
pub open spec fn no_pairs() -> Balance {
    Balance { sized: 0, poisoned: false }
}

/// What a ledger of pairs says: the balance by leader and market, and the leaders whose
/// history was read.
#[verifier::ext_equal]
pub struct PairView {
    pub balances: Map<(Seq<char>, Seq<char>), Balance>,
    pub seeded: Map<Seq<char>, ()>,
}

/// The splits and merges of all leaders.
pub struct PairLedger {
    balances: Table<(String, String), Balance>,
    seeded: Table<String, ()>,
}

/// One split or merge of a leader's history: whether it is a split, the market, how many
/// pairs, and whether that number is known.
pub type SeedRow = (bool, String, i64, bool);

impl View for PairLedger {
    type V = PairView;

    closed spec fn view(&self) -> PairView {
        PairView { balances: self.balances@, seeded: self.seeded@ }
    }
}

/// The balance under a key.
pub open spec fn at_key(m: Map<(Seq<char>, Seq<char>), Balance>, k: (Seq<char>, Seq<char>)) -> Balance {
    if m.contains_key(k) {
        m[k]
    } else {
        no_pairs()
    }
}

/// Whether a number of pairs is worth anything.
pub open spec fn is_count(shares: Qty, sized: bool) -> bool {
    sized && (shares matches Qty::Finite(n) && n >= 0)
}

impl Balance {
    /// After a split: more pairs, or poison where their number is not known.
    pub open spec fn split(self, shares: Qty, sized: bool) -> Balance {
        if is_count(shares, sized) {
            Balance { sized: units::clip(self.sized + shares->Finite_0) as i128, ..self }
        } else {
            Balance { poisoned: true, ..self }
        }
    }

    /// How many of merged pairs were split before.
    pub open spec fn covered(self, n: int) -> int {
        units::smaller(n, self.sized as int)
    }

    /// After a merge: the pairs that were split before are gone.
    pub open spec fn merged(self, shares: Qty, sized: bool) -> Balance {
        if self.poisoned || !is_count(shares, sized) {
            Balance { poisoned: true, ..self }
        } else {
            Balance {
                sized: (self.sized - self.covered(shares->Finite_0 as int)) as i128,
                ..self
            }
        }
    }

    /// What a merge says: an exit by what exceeds the splits, no signal where nothing
    /// does, and nothing that is known once poisoned.
    pub open spec fn signal(self, shares: Qty, sized: bool) -> MergeSignal {
        if self.poisoned || !is_count(shares, sized) {
            MergeSignal::Unknown
        } else {
            let n = shares->Finite_0 as int;
            let excess = n - self.covered(n);
            if excess <= 1 {
                MergeSignal::NonSignal
            } else {
                MergeSignal::Exit { shares: excess as i64 }
            }
        }
    }

    /// Whether the balance is one that splits and merges can leave.
    pub open spec fn wf(self) -> bool {
        0 <= self.sized <= units::AMOUNT_CAP
    }
}

impl PairView {
    /// What a row of history does.
    pub open spec fn after_row(self, leader: Seq<char>, row: SeedRow) -> PairView {
        let k = (leader, row.1@);
        let b = at_key(self.balances, k);
        PairView {
            balances: self.balances.insert(
                k,
                if row.0 {
                    b.split(Qty::Finite(row.2), row.3)
                } else {
                    b.merged(Qty::Finite(row.2), row.3)
                },
            ),
            ..self
        }
    }

    /// What a history does, row by row.
    pub open spec fn after_rows(self, leader: Seq<char>, rows: Seq<SeedRow>) -> PairView
        decreases rows.len(),
    {
        if rows.len() == 0 {
            self
        } else {
            self.after_rows(leader, rows.drop_last()).after_row(leader, rows.last())
        }
    }

    /// What reading a leader's history does: nothing the second time.
    pub open spec fn after_seed(self, leader: Seq<char>, rows: Seq<SeedRow>) -> PairView {
        if self.seeded.contains_key(leader) {
            self
        } else {
            PairView { seeded: self.seeded.insert(leader, ()), ..self }.after_rows(leader, rows)
        }
    }

    /// Whether every balance is one that splits and merges can leave.
    pub open spec fn wf(self) -> bool {
        forall|k: (Seq<char>, Seq<char>)| #[trigger]
            self.balances.contains_key(k) ==> self.balances[k].wf()
    }
}

impl PairLedger {
    #[verifier::type_invariant]
    spec fn inv(self) -> bool {
        self@.wf()
    }

    /// An empty ledger.
    pub fn new() -> (r: Self)
        ensures
            r@ == (PairView { balances: Map::empty(), seeded: Map::empty() }),
            r@.wf(),
    {
        PairLedger { balances: Table::new(), seeded: Table::new() }
    }

    fn entry(&self, leader: &str, condition: &str) -> (r: Balance)
        ensures
            r == at_key(self@.balances, (leader@, condition@)),
    {
        let k = (owned(leader), owned(condition));
        assert(k@ == (leader@, condition@));
        match self.balances.get(&k) {
            Some(b) => *b,
            None => Balance { sized: 0, poisoned: false },
        }
    }

    fn put(&mut self, leader: &str, condition: &str, b: Balance)
        requires
            b.wf(),
        ensures
            final(self)@.wf(),
            final(self)@ == (PairView {
                balances: old(self)@.balances.insert((leader@, condition@), b),
                ..old(self)@
            }),
    {
        proof {
            use_type_invariant(&*self);
        }
        let k = (owned(leader), owned(condition));
        assert(k@ == (leader@, condition@));
        let mut balances: Table<(String, String), Balance> = Table::new();
        let ghost start = self@.balances;
        std::mem::swap(&mut balances, &mut self.balances);
        assert(balances@ == start);
        balances.insert(k, b);
        assert forall|q: (Seq<char>, Seq<char>)| #[trigger]
            balances@.contains_key(q) implies balances@[q].wf() by {
            assert(q == k@ || start.contains_key(q));
        }
        self.balances = balances;
    }

    /// A leader split pairs in a market; see [`Balance::split`].
    pub fn credit_split(&mut self, leader: &str, condition: &str, shares: Qty, sized: bool)
        ensures
            final(self)@.wf(),
            final(self)@ == (PairView {
                balances: old(self)@.balances.insert(
                    (leader@, condition@),
                    at_key(old(self)@.balances, (leader@, condition@)).split(shares, sized),
                ),
                ..old(self)@
            }),
    {
        proof {
            use_type_invariant(&*self);
        }
        let b = self.entry(leader, condition);
        let next = match shares {
            Qty::Finite(n) => if sized && n >= 0 {
                Balance { sized: sum_of(b.sized, n as i128), poisoned: b.poisoned }
            } else {
                Balance { sized: b.sized, poisoned: true }
            },
            Qty::NotFinite => Balance { sized: b.sized, poisoned: true },
        };
        self.put(leader, condition, next);
    }

    /// A leader merged pairs in a market; see [`Balance::merged`] and
    /// [`Balance::signal`].
    pub fn merge_signal(
        &mut self,
        leader: &str,
        condition: &str,
        shares: Qty,
        sized: bool,
    ) -> (r: MergeSignal)
        ensures
            final(self)@.wf(),
            final(self)@ == (PairView {
                balances: old(self)@.balances.insert(
                    (leader@, condition@),
                    at_key(old(self)@.balances, (leader@, condition@)).merged(shares, sized),
                ),
                ..old(self)@
            }),
            r == at_key(old(self)@.balances, (leader@, condition@)).signal(shares, sized),
    {
        proof {
            use_type_invariant(&*self);
        }
        let b = self.entry(leader, condition);
        let n: i64 = match shares {
            Qty::Finite(n) => n,
            Qty::NotFinite => -1,
        };
        if b.poisoned || !sized || n < 0 {
            self.put(leader, condition, Balance { sized: b.sized, poisoned: true });
            return MergeSignal::Unknown;
        }
        let covered = min_of(n as i128, b.sized);
        self.put(
            leader,
            condition,
            Balance { sized: b.sized - covered, poisoned: b.poisoned },
        );
        let excess: i128 = n as i128 - covered;
        if excess <= 1 {
            MergeSignal::NonSignal
        } else {
            MergeSignal::Exit { shares: excess as i64 }
        }
    }

    /// Reads a leader's history, once; see [`PairView::after_seed`].
    pub fn seed(&mut self, leader: &str, rows: &[SeedRow])
        ensures
            final(self)@.wf(),
            final(self)@ == old(self)@.after_seed(leader@, rows@),
    {
        proof {
            use_type_invariant(&*self);
        }
        if self.seeded.has(&owned(leader)) {
            return ;
        }
        let ghost before = self@.balances;
        let mut seeded: Table<String, ()> = Table::new();
        std::mem::swap(&mut seeded, &mut self.seeded);
        seeded.insert(owned(leader), ());
        self.seeded = seeded;
        assert(self@.balances == before);
        let ghost start = self@;
        for i in 0..rows.len()
            invariant
                self@.wf(),
                self@ == start.after_rows(leader@, rows@.take(i as int)),
        {
            assert(rows@.take(i + 1).drop_last() =~= rows@.take(i as int));
            let row = &rows[i];
            if row.0 {
                self.credit_split(leader, row.1.as_str(), Qty::Finite(row.2), row.3);
            } else {
                let _ = self.merge_signal(leader, row.1.as_str(), Qty::Finite(row.2), row.3);
            }
        }
        assert(rows@.take(rows@.len() as int) =~= rows@);
    }

    /// Whether a leader's history was read.
    pub fn is_seeded(&self, leader: &str) -> (r: bool)
        ensures
            r == self@.seeded.contains_key(leader@),
    {
        self.seeded.has(&owned(leader))
    }

    /// The pairs that a leader has not merged again, where that is known.
    pub fn balance(&self, leader: &str, condition: &str) -> (r: Option<i128>)
        ensures
            r == (if at_key(self@.balances, (leader@, condition@)).poisoned {
                None
            } else {
                Some(at_key(self@.balances, (leader@, condition@)).sized)
            }),
    {
        let b = self.entry(leader, condition);
        if b.poisoned {
            None
        } else {
            Some(b.sized)
        }
    }
}

impl Default for PairLedger {
    fn default() -> (r: Self)
        ensures
            r@ == (PairView { balances: Map::empty(), seeded: Map::empty() }),
            r@.wf(),
    {
        PairLedger::new()
    }
}

/// The number of pairs in a row of activity, as a number or as text.
pub open spec fn pairs_in(row: Json) -> Option<i64> {
    match json::micros_in(json::field(row, "size"@)) {
        Some(v) => Some(v),
        None => json::quoted_in(json::field(row, "size"@)),
    }
}

/// What a row of activity says of splits and merges. A number that is missing or
/// negative is not known.
pub open spec fn seed_in(row: Json) -> Option<(bool, Seq<char>, i64, bool)> {
    match (
        json::text_in(json::field(row, "type"@)),
        json::text_in(json::field(row, "conditionId"@)),
    ) {
        (Some(kind), Some(cond)) => if (kind != "SPLIT"@ && kind != "MERGE"@) || cond.len() == 0 {
            None
        } else {
            let c = text::lower_of(text::bare(cond));
            let split = kind == "SPLIT"@;
            match pairs_in(row) {
                Some(v) => if v >= 0 {
                    Some((split, c, v, true))
                } else {
                    Some((split, c, 0, false))
                },
                None => Some((split, c, 0, false)),
            }
        },
        _ => None,
    }
}

/// What a seed row says.
pub open spec fn seed_view(r: SeedRow) -> (bool, Seq<char>, i64, bool) {
    (r.0, r.1@, r.2, r.3)
}

/// What a row of activity says of splits and merges; see [`seed_in`].
pub fn seed_row_from_activity(row: &Json) -> (r: Option<SeedRow>)
    ensures
        match seed_in(*row) {
            Some(v) => r matches Some(x) && seed_view(x) == v,
            None => r is None,
        },
{
    let kind = match row.text_at("type") {
        Some(k) => k,
        None => {
            return None;
        },
    };
    let split = text::same(kind.as_str(), "SPLIT");
    if !split && !text::same(kind.as_str(), "MERGE") {
        return None;
    }
    let cond = match row.text_at("conditionId") {
        Some(c) => c,
        None => {
            return None;
        },
    };
    let v = text::chars_of(cond.as_str());
    if v.len() == 0 {
        return None;
    }
    let plain = text::text_of(&text::strip_0x(&v));
    let c = text::text_of(&text::lower_chars(plain.as_str()));
    let n: Option<i64> = match row.micros_at("size") {
        Some(x) => Some(x),
        None => row.quoted_at("size"),
    };
    match n {
        Some(x) => if x >= 0 {
            Some((split, c, x, true))
        } else {
            Some((split, c, 0, false))
        },
        None => Some((split, c, 0, false)),
    }
}

/// When a row of activity happened; before everything where that is not known.
pub open spec fn time_in(row: Json) -> i64 {
    match json::signed_in(json::field(row, "timestamp"@)) {
        Some(t) => t,
        None => i64::MIN,
    }
}

/// The rows of activity that tell of splits and merges, in order.
pub open spec fn seeds_in(rows: Seq<Json>) -> Seq<(bool, Seq<char>, i64, bool)>
    decreases rows.len(),
{
    if rows.len() == 0 {
        Seq::empty()
    } else {
        match seed_in(rows.last()) {
            Some(s) => seeds_in(rows.drop_last()).push(s),
            None => seeds_in(rows.drop_last()),
        }
    }
}

/// How early each of them happened.
pub open spec fn ages_in(rows: Seq<Json>) -> Seq<i128>
    decreases rows.len(),
{
    if rows.len() == 0 {
        Seq::empty()
    } else {
        match seed_in(rows.last()) {
            Some(_) => ages_in(rows.drop_last()).push((-time_in(rows.last())) as i128),
            None => ages_in(rows.drop_last()),
        }
    }
}

/// What these seed rows say.
pub open spec fn seed_views(v: Seq<SeedRow>) -> Seq<(bool, Seq<char>, i64, bool)> {
    v.map_values(|r: SeedRow| seed_view(r))
}

/// The splits and merges in a leader's activity, the oldest first; those of one time
/// stay in order.
pub fn seed_rows_from_activity(rows: &[Json]) -> (r: Vec<SeedRow>)
    ensures
        exists|order: Seq<usize>| #[trigger]
            sorting::ranks(order, ages_in(rows@)) && seed_views(r@) == Seq::new(
                seeds_in(rows@).len(),
                |i: int| seeds_in(rows@)[order[i] as int],
            ),
{
    let mut found: Vec<SeedRow> = Vec::new();
    let mut ages: Vec<i128> = Vec::new();
    assert(seed_views(found@) =~= Seq::<(bool, Seq<char>, i64, bool)>::empty());
    for i in 0..rows.len()
        invariant
            seed_views(found@) == seeds_in(rows@.take(i as int)),
            ages@ == ages_in(rows@.take(i as int)),
            found@.len() == ages@.len(),
    {
        assert(rows@.take(i + 1).drop_last() =~= rows@.take(i as int));
        let ghost before = seed_views(found@);
        if let Some(s) = seed_row_from_activity(&rows[i]) {
            let t: i64 = match rows[i].signed_at("timestamp") {
                Some(t) => t,
                None => i64::MIN,
            };
            let ghost v = seed_view(s);
            found.push(s);
            ages.push(-(t as i128));
            assert(seed_views(found@) =~= before.push(v));
        }
    }
    assert(rows@.take(rows@.len() as int) =~= rows@);
    let order = sorting::rank(&ages);
    let ghost all = seed_views(found@);
    let mut out: Vec<SeedRow> = Vec::new();
    for i in 0..order.len()
        invariant
            all == seed_views(found@),
            sorting::ranks(order@, ages@),
            found@.len() == ages@.len(),
            seed_views(out@) == Seq::new(i as nat, |k: int| all[order@[k] as int]),
    {
        assert(order@[i as int] < ages@.len());
        let x = &found[order[i]];
        let ghost before = seed_views(out@);
        out.push((x.0, x.1.clone(), x.2, x.3));
        assert(seed_views(out@) =~= before.push(all[order@[i as int] as int]));
        assert(seed_views(out@) =~= Seq::new((i + 1) as nat, |k: int| all[order@[k] as int]));
    }
    assert(sorting::ranks(order@, ages_in(rows@)));
    out
}

/// A merge of no more than was split before says nothing, and the splits that it undoes
/// are gone: splitting and merging the same leaves the balance as it was.
pub proof fn round_trip_is_no_exit(b: Balance, n: i64)
    requires
        b.wf(),
        !b.poisoned,
        n >= 0,
        b.sized + n <= units::AMOUNT_CAP,
    ensures
        b.split(Qty::Finite(n), true).signal(Qty::Finite(n), true) == MergeSignal::NonSignal,
        b.split(Qty::Finite(n), true).merged(Qty::Finite(n), true) == b,
{
}

/// Once a number is not known, no merge in that market is ever taken for an exit.
pub proof fn poison_stays(b: Balance, shares: Qty, sized: bool)
    requires
        b.poisoned,
    ensures
        b.signal(shares, sized) == MergeSignal::Unknown,
        b.merged(shares, sized).poisoned,
        b.split(shares, sized).poisoned,
{
}

} // verus!
