//! The venue's list of positions, read page by page, and what may be concluded from it.

use vstd::prelude::*;
use crate::json;
use crate::json::Json;
use crate::table::Table;
use crate::text;
use crate::text::{dec_u128, owned};
use crate::units;
use crate::units::{read_number, read_trace, sum_of, Qty, Trace};

verus! {

/// Whether a list was read to its end.
#[derive(Debug, PartialEq, Eq)]
pub enum Completeness {
    Complete,
    Truncated { pages: usize, cap: usize },
    Failed { after_pages: usize, why: String },
}

/// What is said of how far a list was read.
pub open spec fn account_of(c: Completeness) -> Seq<char> {
    match c {
        Completeness::Complete => "complete"@,
        Completeness::Truncated { pages, cap } => "truncated after "@ + text::dec(pages as nat)
            + " page(s) at the "@ + text::dec(cap as nat) + "-page budget"@,
        Completeness::Failed { after_pages, why } => "page "@ + text::dec((after_pages + 1) as nat)
            + " failed: "@ + why@,
    }
}

impl Completeness {
    /// Whether the list was read to its end.
    pub fn is_complete(&self) -> (r: bool)
        ensures
            r == (*self is Complete),
    {
        match self {
            Completeness::Complete => true,
            _ => false,
        }
    }

    /// What is said of how far the list was read.
    pub fn reason(&self) -> (r: String)
        ensures
            r@ == account_of(*self),
    {
        match self {
            Completeness::Complete => owned("complete"),
            Completeness::Truncated { pages, cap } => {
                let mut s = owned("truncated after ");
                s.append(dec_u128(*pages as u128).as_str());
                s.append(" page(s) at the ");
                s.append(dec_u128(*cap as u128).as_str());
                s.append("-page budget");
                s
            },
            Completeness::Failed { after_pages, why } => {
                let mut s = owned("page ");
                s.append(dec_u128(*after_pages as u128 + 1).as_str());
                s.append(" failed: ");
                s.append(why.as_str());
                s
            },
        }
    }
}

/// The venue's list of positions at a time.
#[derive(Debug)]
pub struct Positions {
    pub rows: Vec<Json>,
    pub completeness: Completeness,
    pub as_of: i64,
}

/// How many positions a page holds.
pub const PAGE: usize = 500;

/// How many pages are read at most.
pub const MAX_PAGES: usize = 50;

/// Where the size of a position lies, as a number or as text.
pub open spec fn size_in(row: Json) -> Option<Trace> {
    match json::field(row, "size"@) {
        Some(Json::Number(n)) => units::trace(n@),
        Some(Json::Text(s)) => units::trace(s@),
        _ => None,
    }
}

/// Whether a row leaves open that nothing of the token is held: it names its token, has a
/// size that is not negative, and is of another token or of no more than a billionth.
pub open spec fn allows_zero(row: Json, token: Seq<char>) -> bool {
    match (json::text_in(json::field(row, "asset"@)), size_in(row)) {
        (Some(asset), Some(size)) => asset.len() > 0 && !(size is Negative) && !(asset == token
            && size is Something),
        _ => false,
    }
}

/// What a row adds to the balance of its token: a size that is no number counts as zero,
/// one that is not finite is left out.
pub open spec fn balance_in(row: Json) -> Option<(Seq<char>, int)> {
    match json::text_in(json::field(row, "asset"@)) {
        None => None,
        Some(a) => match json::field(row, "size"@) {
            Some(Json::Text(s)) => match units::number(s@) {
                Some(Qty::Finite(v)) => Some((a, v as int)),
                Some(Qty::NotFinite) => None,
                None => Some((a, 0)),
            },
            j => match json::micros_in(j) {
                Some(v) => Some((a, v as int)),
                None => Some((a, 0)),
            },
        },
    }
}

/// The balance of each token, summed over its rows.
pub open spec fn balances_in(rows: Seq<Json>) -> Map<Seq<char>, i128>
    decreases rows.len(),
{
    if rows.len() == 0 {
        Map::empty()
    } else {
        let m = balances_in(rows.drop_last());
        match balance_in(rows.last()) {
            Some((a, v)) => m.insert(
                a,
                units::clip(
                    (if m.contains_key(a) {
                        m[a] as int
                    } else {
                        0
                    }) + v,
                ) as i128,
            ),
            None => m,
        }
    }
}

fn size_of_row(row: &Json) -> (r: Option<Trace>)
    ensures
        r == size_in(*row),
{
    match row.get("size") {
        Some(Json::Number(n)) => read_trace(n.as_str()),
        Some(Json::Text(s)) => read_trace(s.as_str()),
        _ => None,
    }
}

fn balance_of_row(row: &Json) -> (r: Option<(String, i64)>)
    ensures
        match balance_in(*row) {
            Some((a, v)) => r matches Some(x) && x.0@ == a && x.1 == v,
            None => r is None,
        },
{
    let a = match row.text_at("asset") {
        Some(a) => a,
        None => {
            return None;
        },
    };
    match row.get("size") {
        Some(Json::Text(s)) => match read_number(s.as_str()) {
            Some(Qty::Finite(v)) => Some((a, v)),
            Some(Qty::NotFinite) => None,
            None => Some((a, 0)),
        },
        _ => match row.micros_at("size") {
            Some(v) => Some((a, v)),
            None => Some((a, 0)),
        },
    }
}

/// Whether a list shows that none of a token is held.
pub open spec fn shows_none(p: Positions, token: Seq<char>, not_before: i64) -> bool {
    p.completeness is Complete && p.as_of >= not_before && forall|i: int|
        0 <= i < p.rows@.len() ==> allows_zero(#[trigger] p.rows@[i], token)
}

impl Positions {
    /// Whether the list proves that nothing of a token is held: it is complete and recent
    /// enough, and no row leaves a doubt.
    pub fn confirms_zero(&self, token: &str, not_before: i64) -> (r: bool)
        ensures
            r == (self.completeness is Complete && self.as_of >= not_before && forall|i: int|
                0 <= i < self.rows@.len() ==> allows_zero(#[trigger] self.rows@[i], token@)),
            r == shows_none(*self, token@, not_before),
    {
        if !self.may_act_destructively() || self.as_of < not_before {
            return false;
        }
        for i in 0..self.rows.len()
            invariant
                forall|k: int| 0 <= k < i ==> allows_zero(#[trigger] self.rows@[k], token@),
        {
            let row = &self.rows[i];
            let ok = match (row.text_at("asset"), size_of_row(row)) {
                (Some(asset), Some(size)) => text::chars_of(asset.as_str()).len() > 0
                    && size != Trace::Negative && !(text::same(asset.as_str(), token) && size
                    == Trace::Something),
                _ => false,
            };
            assert(ok == allows_zero(self.rows@[i as int], token@));
            if !ok {
                return false;
            }
        }
        true
    }

    /// An empty list.
    pub fn empty(as_of: i64) -> (r: Self)
        ensures
            r.rows@ == Seq::<Json>::empty(),
            r.completeness is Complete,
            r.as_of == as_of,
    {
        Positions { rows: Vec::new(), completeness: Completeness::Complete, as_of }
    }

    /// Whether something may be undone on the strength of this list: only where it is
    /// complete.
    pub fn may_act_destructively(&self) -> (r: bool)
        ensures
            r == (self.completeness is Complete),
    {
        self.completeness.is_complete()
    }

    /// The balance of each token; see [`balances_in`].
    pub fn by_asset(&self) -> (r: Table<String, i128>)
        ensures
            r@ == balances_in(self.rows@),
    {
        let mut out: Table<String, i128> = Table::new();
        for i in 0..self.rows.len()
            invariant
                out@ == balances_in(self.rows@.take(i as int)),
        {
            assert(self.rows@.take(i + 1).drop_last() =~= self.rows@.take(i as int));
            if let Some((a, v)) = balance_of_row(&self.rows[i]) {
                let old: i128 = match out.get(&a) {
                    Some(x) => *x,
                    None => 0,
                };
                out.insert(a, sum_of(old, v as i128));
            }
        }
        assert(self.rows@.take(self.rows@.len() as int) =~= self.rows@);
        out
    }

    /// How many rows there are.
    pub fn len(&self) -> (r: usize)
        ensures
            r == self.rows@.len(),
    {
        self.rows.len()
    }

    /// Whether there is no row.
    pub fn is_empty(&self) -> (r: bool)
        ensures
            r == (self.rows@.len() == 0),
    {
        self.rows.len() == 0
    }
}

/// Where a page of positions is found.
pub fn page_url(
    base: &str,
    user: &str,
    size_threshold: &str,
    offset: usize,
    extra: &str,
) -> (r: String)
    ensures
        r@ == base@ + "/positions?user="@ + user@ + "&sizeThreshold="@ + size_threshold@
            + "&limit="@ + text::dec(PAGE as nat) + "&offset="@ + text::dec(offset as nat)
            + extra@,
{
    let mut s = owned(base);
    s.append("/positions?user=");
    s.append(user);
    s.append("&sizeThreshold=");
    s.append(size_threshold);
    s.append("&limit=");
    s.append(dec_u128(PAGE as u128).as_str());
    s.append("&offset=");
    s.append(dec_u128(offset as u128).as_str());
    s.append(extra);
    s
}

/// Whether `c` says how far a list was read: not to its end where a page failed, to its
/// end where the last page was not full.
pub open spec fn judged(
    page_lens: Seq<usize>,
    failed_at: Option<(usize, String)>,
    cap: usize,
    c: Completeness,
) -> bool {
    match failed_at {
        Some((idx, why)) => c matches Completeness::Failed { after_pages, why: w } && after_pages
            == idx && w@ == why@,
        None => if page_lens.len() == 0 || page_lens.last() < PAGE {
            c is Complete
        } else {
            c matches Completeness::Truncated { pages, cap: n } && pages == page_lens.len() && n
                == cap
        },
    }
}

/// How far a list was read; see [`judged`].
pub fn judge(page_lens: &[usize], failed_at: Option<(usize, String)>, cap: usize) -> (r:
    Completeness)
    ensures
        judged(page_lens@, failed_at, cap, r),
{
    match failed_at {
        Some((idx, why)) => Completeness::Failed { after_pages: idx, why },
        None => {
            let n = page_lens.len();
            if n == 0 || page_lens[n - 1] < PAGE {
                Completeness::Complete
            } else {
                Completeness::Truncated { pages: n, cap }
            }
        },
    }
}

/// A list that is being read, page by page.
pub struct PageWalk {
    pub rows: Vec<Json>,
    pub lens: Vec<usize>,
    pub failed: Option<(usize, String)>,
}

impl PageWalk {
    /// Whether a walk is another with one more page, or with the failure to read it.
    pub open spec fn goes_to(self, next: PageWalk, got: Result<Vec<Json>, String>) -> bool {
        match got {
            Ok(batch) => next.rows@ == self.rows@ + batch@ && next.lens@ == self.lens@.push(
                batch@.len() as usize,
            ) && next.failed == self.failed,
            Err(why) => next.rows@ == self.rows@ && next.lens@ == self.lens@ && next.failed
                == Some((self.lens@.len() as usize, why)),
        }
    }

    /// Where the page to read next begins, where one is to be read.
    pub open spec fn offset(self) -> Option<usize> {
        if self.goes_on() {
            Some((self.lens@.len() * PAGE) as usize)
        } else {
            None
        }
    }

    /// Whether another page is to be read: none failed, the last was full, and there are
    /// pages left to read.
    pub open spec fn goes_on(self) -> bool {
        &&& self.failed is None
        &&& self.lens@.len() < MAX_PAGES
        &&& self.lens@.len() == 0 || self.lens@.last() >= PAGE
    }

    /// Nothing is read yet.
    pub fn start() -> (r: Self)
        ensures
            r.rows@ == Seq::<Json>::empty(),
            r.lens@ == Seq::<usize>::empty(),
            r.failed is None,
    {
        PageWalk { rows: Vec::new(), lens: Vec::new(), failed: None }
    }

    /// The offset of the page to read next; see [`PageWalk::goes_on`].
    pub fn next_offset(&self) -> (r: Option<usize>)
        ensures
            r == (if self.goes_on() {
                Some((self.lens@.len() * PAGE) as usize)
            } else {
                None
            }),
            r == self.offset(),
    {
        let n = self.lens.len();
        if self.failed.is_some() || n >= MAX_PAGES || (n > 0 && self.lens[n - 1] < PAGE) {
            return None;
        }
        Some(n * PAGE)
    }

    /// Takes what reading the next page gave.
    pub fn take(&mut self, got: Result<Vec<Json>, String>)
        ensures
            match got {
                Ok(batch) => final(self).rows@ == old(self).rows@ + batch@ && final(self).lens@
                    == old(self).lens@.push(batch@.len() as usize) && final(self).failed
                    == old(self).failed,
                Err(why) => final(self).rows@ == old(self).rows@ && final(self).lens@ == old(
                    self,
                ).lens@ && final(self).failed == Some((old(self).lens@.len() as usize, why)),
            },
            old(self).goes_to(*final(self), got),
    {
        match got {
            Ok(batch) => {
                let mut more = batch;
                self.lens.push(more.len());
                self.rows.append(&mut more);
            },
            Err(why) => {
                self.failed = Some((self.lens.len(), why));
            },
        }
    }

    /// The list as far as it was read.
    pub fn finish(self, now: i64) -> (r: Positions)
        ensures
            r.rows@ == self.rows@,
            r.as_of == now,
            judged(self.lens@, self.failed, MAX_PAGES, r.completeness),
    {
        let PageWalk { rows, lens, failed } = self;
        let completeness = judge(lens.as_slice(), failed, MAX_PAGES);
        Positions { rows, completeness, as_of: now }
    }
}

/// A list that is complete was read until a page that was not full, and no page of it
/// failed.
pub proof fn complete_means_exhausted(
    page_lens: Seq<usize>,
    failed_at: Option<(usize, String)>,
    cap: usize,
)
    requires
        judged(page_lens, failed_at, cap, Completeness::Complete),
    ensures
        failed_at is None,
        page_lens.len() > 0 ==> page_lens.last() < PAGE,
{
}

} // verus!
