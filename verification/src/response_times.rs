//! The last response times, kept over a restart.

use vstd::prelude::*;
use crate::journal;
use crate::json;
use crate::json::{fixed_json, int_json, put, text_json, Json, JsonView};
use crate::numerals;
use crate::text;

verus! {

/// How many samples are kept.
pub const CAP: usize = 64;

/// One response: when, of which lane and token, and how many microseconds it took, in
/// millionths of one.
#[derive(Debug, PartialEq, Eq)]
pub struct Sample {
    pub t: i64,
    pub lane: String,
    pub token: String,
    pub side: u8,
    pub us: i64,
}

/// What a sample says.
#[verifier::ext_equal]
pub struct SampleView {
    pub t: i64,
    pub lane: Seq<char>,
    pub token: Seq<char>,
    pub side: u8,
    pub us: i64,
}

impl View for Sample {
    type V = SampleView;

    open spec fn view(&self) -> SampleView {
        SampleView {
            t: self.t,
            lane: self.lane@,
            token: self.token@,
            side: self.side,
            us: self.us,
        }
    }
}

/// What these samples say.
pub open spec fn sample_views(v: Seq<Sample>) -> Seq<SampleView> {
    v.map_values(|s: Sample| s@)
}

/// A sample as a line of the file.
pub open spec fn row_of(s: SampleView) -> JsonView {
    JsonView::Fields(
        seq![
            ("t"@, JsonView::Number(text::dec_int(s.t as int))),
            ("lane"@, JsonView::Text(s.lane)),
            ("token"@, JsonView::Text(s.token)),
            ("side"@, JsonView::Number(text::dec_int(s.side as int))),
            ("us"@, JsonView::Number(text::fixed(s.us as int, 6, 6))),
        ],
    )
}

/// The sample that a document holds, as an object or as a list of its parts in order; all
/// of it has to be there.
pub open spec fn sample_in(j: Json) -> Option<SampleView> {
    if json::fits(j, 5) {
        match (
            json::signed_in(json::part(j, 0, "t"@)),
            json::text_in(json::part(j, 1, "lane"@)),
            json::text_in(json::part(j, 2, "token"@)),
            json::unsigned_in(json::part(j, 3, "side"@)),
            json::micros_in(json::part(j, 4, "us"@)),
        ) {
            (Some(t), Some(lane), Some(token), Some(side), Some(us)) => if side <= 255 {
                Some(SampleView { t, lane, token, side: side as u8, us })
            } else {
                None
            },
            _ => None,
        }
    } else {
        None
    }
}

fn read_sample(j: &Json) -> (r: Option<Sample>)
    ensures
        match sample_in(*j) {
            Some(v) => r matches Some(s) && s@ == v,
            None => r is None,
        },
{
    if !j.fits_in(5) {
        return None;
    }
    match (
        j.signed_part(0, "t"),
        j.text_part(1, "lane"),
        j.text_part(2, "token"),
        j.unsigned_part(3, "side"),
        j.micros_part(4, "us"),
    ) {
        (Some(t), Some(lane), Some(token), Some(side), Some(us)) => if side <= 255 {
            Some(Sample { t, lane, token, side: side as u8, us })
        } else {
            None
        },
        _ => None,
    }
}

proof fn row_reads_back(j: Json, s: SampleView)
    requires
        j@ == row_of(s),
        s.us > i64::MIN,
    ensures
        sample_in(j) == Some(s),
{
    reveal_strlit("t");
    reveal_strlit("lane");
    reveal_strlit("token");
    reveal_strlit("side");
    reveal_strlit("us");
    assert("t"@.len() == 1 && "lane"@.len() == 4 && "lane"@[0] == 'l' && "token"@.len() == 5
        && "side"@.len() == 4 && "side"@[0] == 's' && "us"@.len() == 2);
    numerals::integer_reads_back(s.t as int);
    numerals::integer_reads_back(s.side as int);
    numerals::micros_read_back(s.us as int);
    if let Json::Fields(v) = j {
        let f = v@;
        let w = json::shown_fields(f);
        assert(w == row_of(s)->Fields_0);
        assert(w.len() == f.len());
        assert forall|k: int| 0 <= k < f.len() implies (#[trigger] f[k]).0@ == w[k].0 && f[k].1@
            == w[k].1 by {}
        assert(f[0].0@ == "t"@ && f[1].0@ == "lane"@ && f[2].0@ == "token"@ && f[3].0@ == "side"@
            && f[4].0@ == "us"@);
        json::lookup_at(f, "t"@, 0);
        json::lookup_at(f, "lane"@, 1);
        json::lookup_at(f, "token"@, 2);
        json::lookup_at(f, "side"@, 3);
        json::lookup_at(f, "us"@, 4);
    }
}

impl Sample {
    /// The sample as a line of the file.
    pub fn row(&self) -> (r: Json)
        ensures
            r@ == row_of(self@),
            self.us > i64::MIN ==> sample_in(r) == Some(self@),
    {
        let mut f = json::no_fields();
        put(&mut f, "t", int_json(self.t as i128));
        put(&mut f, "lane", text_json(self.lane.as_str()));
        put(&mut f, "token", text_json(self.token.as_str()));
        put(&mut f, "side", int_json(self.side as i128));
        put(&mut f, "us", fixed_json(self.us as i128, 6, 6));
        assert(json::shown_fields(f@) =~= row_of(self@)->Fields_0);
        let r = Json::Fields(f);
        proof {
            if self.us > i64::MIN {
                row_reads_back(r, self@);
            }
        }
        r
    }

    /// A copy of a sample.
    pub fn copy(&self) -> (r: Sample)
        ensures
            r@ == self@,
    {
        Sample {
            t: self.t,
            lane: self.lane.clone(),
            token: self.token.clone(),
            side: self.side,
            us: self.us,
        }
    }
}

/// The last samples, the oldest first.
pub struct Ring {
    pub samples: Vec<Sample>,
}

impl View for Ring {
    type V = Seq<SampleView>;

    open spec fn view(&self) -> Seq<SampleView> {
        sample_views(self.samples@)
    }
}

/// The last `n` of a sequence, or all of it.
pub open spec fn newest<A>(s: Seq<A>, n: int) -> Seq<A> {
    if s.len() <= n {
        s
    } else {
        s.skip(s.len() - n)
    }
}

/// The names of the parts of a sample.
pub open spec fn part_names() -> Seq<Seq<char>> {
    seq!["t"@, "lane"@, "token"@, "side"@, "us"@]
}

fn parts() -> (r: Vec<&'static str>)
    ensures
        journal::names_of(r@) == part_names(),
{
    let r: Vec<&'static str> = vec!["t", "lane", "token", "side", "us"];
    assert(journal::names_of(r@) =~= part_names());
    r
}

/// The samples that these lines hold; a line that holds none is passed over.
pub open spec fn samples_in(lines: Seq<Seq<char>>) -> Seq<SampleView>
    decreases lines.len(),
{
    if lines.len() == 0 {
        Seq::empty()
    } else {
        let before = samples_in(lines.drop_last());
        match journal::record(text::trimmed(lines.last()), part_names()) {
            Some(j) => match sample_in(j) {
                Some(s) => before.push(s),
                None => before,
            },
            None => before,
        }
    }
}

/// The newest `n`, the newest first.
pub open spec fn latest_first<A>(s: Seq<A>, n: int) -> Seq<A> {
    Seq::new(
        if s.len() <= n {
            s.len()
        } else {
            n as nat
        },
        |i: int| s[s.len() - 1 - i],
    )
}

impl Ring {
    /// No samples.
    pub fn new() -> (r: Self)
        ensures
            r@ == Seq::<SampleView>::empty(),
    {
        let r = Ring { samples: Vec::new() };
        assert(r@ =~= Seq::<SampleView>::empty());
        r
    }

    /// The samples in the last lines of a file.
    pub fn from_text(raw: &str) -> (r: Self)
        ensures
            r@ == samples_in(newest(text::lines_of(raw@), CAP as int)),
            r@.len() <= CAP,
    {
        let lines = text::lines(raw);
        let ghost all = text::texts(lines@);
        let from: usize = if lines.len() <= CAP {
            0
        } else {
            lines.len() - CAP
        };
        let ghost kept = newest(all, CAP as int);
        assert(kept =~= all.skip(from as int));
        let fields = parts();
        let mut r = Ring::new();
        assert(r@ =~= samples_in(kept.take(0)));
        for i in from..lines.len()
            invariant
                journal::names_of(fields@) == part_names(),
                from <= lines@.len(),
                lines@.len() - from <= CAP,
                all == text::texts(lines@),
                kept == all.skip(from as int),
                r@ == samples_in(kept.take(i - from)),
                r@.len() <= i - from,
        {
            assert(kept.take(i + 1 - from).drop_last() =~= kept.take(i - from));
            assert(kept.take(i + 1 - from).last() == lines@[i as int]@);
            let ghost before = r@;
            let t = text::trim_text(lines[i].as_str());
            if let Some(j) = journal::read_record(t.as_str(), fields.as_slice()) {
                if let Some(s) = read_sample(&j) {
                    let ghost v = s@;
                    r.samples.push(s);
                    assert(r@ =~= before.push(v));
                }
            }
        }
        assert(kept.take(kept.len() as int) =~= kept);
        r
    }

    /// Takes a sample; the oldest go when there are too many.
    pub fn push(&mut self, s: Sample)
        ensures
            final(self)@ == newest(old(self)@.push(s@), CAP as int),
    {
        let ghost before = self@;
        let ghost v = s@;
        self.samples.push(s);
        assert(self@ =~= before.push(v));
        let n = self.samples.len();
        if n > CAP {
            let ghost full = self.samples@;
            self.samples = self.samples.split_off(n - CAP);
            assert(self@ =~= before.push(v).skip(n - CAP));
        }
    }

    /// The newest `n` samples, the newest first.
    pub fn tail(&self, n: usize) -> (r: Vec<Sample>)
        ensures
            sample_views(r@) == Seq::new(
                if self@.len() <= n {
                    self@.len()
                } else {
                    n as nat
                },
                |i: int| self@[self@.len() - 1 - i],
            ),
            sample_views(r@) == latest_first(self@, n as int),
    {
        let len = self.samples.len();
        let k: usize = if len <= n {
            len
        } else {
            n
        };
        let mut out: Vec<Sample> = Vec::new();
        for i in 0..k
            invariant
                k <= len,
                len == self.samples@.len(),
                sample_views(out@) == Seq::new(i as nat, |j: int| self@[self@.len() - 1 - j]),
        {
            let ghost before = sample_views(out@);
            out.push(self.samples[len - 1 - i].copy());
            assert(sample_views(out@) =~= before.push(self@[len - 1 - i]));
            assert(sample_views(out@) =~= Seq::new(
                (i + 1) as nat,
                |j: int| self@[self@.len() - 1 - j],
            ));
        }
        out
    }
}

impl Default for Ring {
    fn default() -> (r: Self)
        ensures
            r@ == Seq::<SampleView>::empty(),
    {
        Ring::new()
    }
}

/// The ring never grows past its room, and what was taken last is always in it.
pub proof fn ring_is_bounded(v: Seq<SampleView>, s: SampleView)
    ensures
        newest(v.push(s), CAP as int).len() <= CAP,
        newest(v.push(s), CAP as int).last() == s,
{
}

} // verus!
