//! Safety stops that outlive the process: a lane that was stopped stays stopped until
//! an operator lets it go.

use vstd::prelude::*;
use crate::journal;
use crate::json;
use crate::json::{int_json, put, text_json, Json, JsonView};
use crate::ledger::{Append, LedgerFile};
use crate::table::Table;
use crate::text;
use crate::text::owned;

verus! {

/// One line of the journal.
#[derive(Debug, PartialEq, Eq)]
pub struct Incident {
    pub t: i64,
    pub lane: String,
    pub kind: String,
    pub why: String,
    pub ev: String,
    pub by: String,
}

/// What a line of the journal says.
#[verifier::ext_equal]
pub struct IncidentView {
    pub t: i64,
    pub lane: Seq<char>,
    pub kind: Seq<char>,
    pub why: Seq<char>,
    pub ev: Seq<char>,
    pub by: Seq<char>,
}

impl View for Incident {
    type V = IncidentView;

    open spec fn view(&self) -> IncidentView {
        IncidentView {
            t: self.t,
            lane: self.lane@,
            kind: self.kind@,
            why: self.why@,
            ev: self.ev@,
            by: self.by@,
        }
    }
}

/// How much of a reason is kept.
pub const WHY_LEN: usize = 400;

impl Incident {
    /// A copy of a line.
    pub fn copy(&self) -> (r: Incident)
        ensures
            r@ == self@,
    {
        Incident {
            t: self.t,
            lane: self.lane.clone(),
            kind: self.kind.clone(),
            why: self.why.clone(),
            ev: self.ev.clone(),
            by: self.by.clone(),
        }
    }

    /// The line as JSON; who wrote it is left out where that is empty.
    pub fn row(&self) -> (r: Json)
        ensures
            r@ == row_of(self@),
            incident_in(r) == Some(self@),
    {
        let mut f = json::no_fields();
        put(&mut f, "t", int_json(self.t as i128));
        put(&mut f, "lane", text_json(self.lane.as_str()));
        put(&mut f, "kind", text_json(self.kind.as_str()));
        put(&mut f, "why", text_json(self.why.as_str()));
        put(&mut f, "ev", text_json(self.ev.as_str()));
        if text::chars_of(self.by.as_str()).len() > 0 {
            put(&mut f, "by", text_json(self.by.as_str()));
        }
        let r = Json::Fields(f);
        assert(json::shown_fields(f@) =~= row_of(self@)->Fields_0);
        proof {
            row_reads_back(r, self@);
        }
        r
    }
}

/// A line as JSON.
pub open spec fn row_of(i: IncidentView) -> JsonView {
    let f = seq![
        ("t"@, JsonView::Number(text::dec_int(i.t as int))),
        ("lane"@, JsonView::Text(i.lane)),
        ("kind"@, JsonView::Text(i.kind)),
        ("why"@, JsonView::Text(i.why)),
        ("ev"@, JsonView::Text(i.ev)),
    ];
    JsonView::Fields(
        if i.by.len() == 0 {
            f
        } else {
            f.push(("by"@, JsonView::Text(i.by)))
        },
    )
}

/// The line that a document holds, as an object or as a list of its parts in order: all of it
/// has to be there but for who wrote it.
pub open spec fn incident_in(j: Json) -> Option<IncidentView> {
    if json::fits(j, 6) {
        match (
            json::signed_in(json::part(j, 0, "t"@)),
            json::text_in(json::part(j, 1, "lane"@)),
            json::text_in(json::part(j, 2, "kind"@)),
            json::text_in(json::part(j, 3, "why"@)),
            json::text_in(json::part(j, 4, "ev"@)),
        ) {
            (Some(t), Some(lane), Some(kind), Some(why), Some(ev)) => match json::part(j, 5, "by"@) {
                None => Some(IncidentView { t, lane, kind, why, ev, by: Seq::empty() }),
                Some(Json::Text(by)) => Some(IncidentView { t, lane, kind, why, ev, by: by@ }),
                _ => None,
            },
            _ => None,
        }
    } else {
        None
    }
}

proof fn names_apart()
    ensures
        "t"@.len() == 1,
        "lane"@.len() == 4 && "lane"@[0] == 'l',
        "kind"@.len() == 4 && "kind"@[0] == 'k',
        "why"@.len() == 3,
        "ev"@.len() == 2 && "ev"@[0] == 'e',
        "by"@.len() == 2 && "by"@[0] == 'b',
{
    reveal_strlit("t");
    reveal_strlit("lane");
    reveal_strlit("kind");
    reveal_strlit("why");
    reveal_strlit("ev");
    reveal_strlit("by");
}

proof fn row_reads_back(j: Json, i: IncidentView)
    requires
        j@ == row_of(i),
    ensures
        incident_in(j) == Some(i),
{
    names_apart();
    crate::numerals::integer_reads_back(i.t as int);
    if let Json::Fields(v) = j {
        let f = v@;
        let s = json::shown_fields(f);
        assert(s == row_of(i)->Fields_0);
        assert(s.len() == f.len());
        assert forall|k: int| 0 <= k < f.len() implies (#[trigger] f[k]).0@ == s[k].0 && f[k].1@
            == s[k].1 by {}
        assert(f[0].0@ == "t"@ && f[1].0@ == "lane"@ && f[2].0@ == "kind"@ && f[3].0@ == "why"@
            && f[4].0@ == "ev"@);
        json::lookup_at(f, "t"@, 0);
        json::lookup_at(f, "lane"@, 1);
        json::lookup_at(f, "kind"@, 2);
        json::lookup_at(f, "why"@, 3);
        json::lookup_at(f, "ev"@, 4);
        if i.by.len() == 0 {
            json::lookup_none(f, "by"@);
            assert(i.by =~= Seq::<char>::empty());
        } else {
            assert(f[5].0@ == "by"@);
            json::lookup_at(f, "by"@, 5);
        }
    }
}

fn read_incident(j: &Json) -> (r: Option<Incident>)
    ensures
        match incident_in(*j) {
            Some(v) => r matches Some(i) && i@ == v,
            None => r is None,
        },
{
    if !j.fits_in(6) {
        return None;
    }
    match (
        j.signed_part(0, "t"),
        j.text_part(1, "lane"),
        j.text_part(2, "kind"),
        j.text_part(3, "why"),
        j.text_part(4, "ev"),
    ) {
        (Some(t), Some(lane), Some(kind), Some(why), Some(ev)) => match j.part_at(5, "by") {
            None => {
                let by = String::new();
                assert(by@ =~= Seq::<char>::empty());
                Some(Incident { t, lane, kind, why, ev, by })
            },
            Some(Json::Text(by)) => Some(Incident { t, lane, kind, why, ev, by: by.clone() }),
            _ => None,
        },
        _ => None,
    }
}

/// The journal: the incident that holds each lane, and why the journal cannot be read
/// where it cannot.
pub struct Incidents {
    open: Table<String, Incident>,
    unreadable: Option<String>,
}

/// What a journal says.
#[verifier::ext_equal]
pub struct JournalView {
    pub open: Map<Seq<char>, IncidentView>,
    pub unreadable: Option<Seq<char>>,
}

/// What a reason says, where there is one.
pub open spec fn reason(s: Option<String>) -> Option<Seq<char>> {
    match s {
        Some(t) => Some(t@),
        None => None,
    }
}

impl View for Incidents {
    type V = JournalView;

    closed spec fn view(&self) -> JournalView {
        JournalView {
            open: self.open@.map_values(|i: Incident| i@),
            unreadable: reason(self.unreadable),
        }
    }
}

/// What a line does to the open incidents: the first to hold a lane stays, until a line
/// lets the lane go.
pub open spec fn after_line(m: Map<Seq<char>, IncidentView>, i: IncidentView) -> Map<
    Seq<char>,
    IncidentView,
> {
    if i.ev == "raise"@ {
        if m.contains_key(i.lane) {
            m
        } else {
            m.insert(i.lane, i)
        }
    } else if i.ev == "clear"@ {
        m.remove(i.lane)
    } else {
        m
    }
}

/// The names of the parts of a line.
pub open spec fn part_names() -> Seq<Seq<char>> {
    seq!["t"@, "lane"@, "kind"@, "why"@, "ev"@, "by"@]
}

fn parts() -> (r: Vec<&'static str>)
    ensures
        journal::names_of(r@) == part_names(),
{
    let r: Vec<&'static str> = vec!["t", "lane", "kind", "why", "ev", "by"];
    assert(journal::names_of(r@) =~= part_names());
    r
}

/// What the documents of a journal leave open.
pub open spec fn after_lines(rows: Seq<Json>) -> Map<Seq<char>, IncidentView>
    decreases rows.len(),
{
    if rows.len() == 0 {
        Map::empty()
    } else {
        match incident_in(rows.last()) {
            Some(i) => after_line(after_lines(rows.drop_last()), i),
            None => after_lines(rows.drop_last()),
        }
    }
}

/// Whether an incident holds a lane.
pub open spec fn is_open(m: Map<Seq<char>, IncidentView>, i: IncidentView) -> bool {
    exists|k: Seq<char>| #[trigger] m.contains_key(k) && m[k] == i
}

/// The incident of a lane.
pub open spec fn raised(lane: Seq<char>, kind: Seq<char>, why: Seq<char>, now: i64) -> IncidentView {
    IncidentView {
        t: now,
        lane,
        kind,
        why: text::first_chars(why, WHY_LEN as int),
        ev: "raise"@,
        by: Seq::empty(),
    }
}

/// The line that lets a lane go.
pub open spec fn cleared(lane: Seq<char>, by: Seq<char>, now: i64) -> IncidentView {
    IncidentView { t: now, lane, kind: "clear"@, why: Seq::empty(), ev: "clear"@, by }
}

impl JournalView {
    /// The line that has to be written before a lane is stopped: none where it is held
    /// by an incident of the same kind.
    pub open spec fn to_raise(
        self,
        lane: Seq<char>,
        kind: Seq<char>,
        why: Seq<char>,
        now: i64,
    ) -> Option<IncidentView> {
        if self.open.contains_key(lane) && self.open[lane].kind == kind {
            None
        } else {
            Some(raised(lane, kind, why, now))
        }
    }

    /// Whether a lane is stopped: all of them are while the journal cannot be read.
    pub open spec fn holds(self, lane: Seq<char>) -> bool {
        self.unreadable is Some || self.open.contains_key(lane)
    }
}

impl Incidents {
    /// The journal that a file holds. A file that is missing is a clean start.
    pub fn open(file: LedgerFile) -> (r: Incidents)
        ensures
            r@ == (match file {
                LedgerFile::Missing => JournalView { open: Map::empty(), unreadable: None },
                LedgerFile::Unreadable(why) => JournalView {
                    open: Map::empty(),
                    unreadable: Some(why@),
                },
                LedgerFile::Text(raw) => JournalView {
                    open: after_lines(journal::records(text::lines_of(raw@), part_names())),
                    unreadable: None,
                },
            }),
    {
        match file {
            LedgerFile::Missing => {
                let r = Incidents { open: Table::new(), unreadable: None };
                assert(r@.open =~= Map::empty());
                r
            },
            LedgerFile::Unreadable(why) => {
                let r = Incidents { open: Table::new(), unreadable: Some(why) };
                assert(r@.open =~= Map::empty());
                r
            },
            LedgerFile::Text(raw) => {
                let rows = journal::read_records(raw.as_str(), parts().as_slice());
                let mut r = Incidents { open: Table::new(), unreadable: None };
                assert(r@.open =~= after_lines(rows@.take(0)));
                for i in 0..rows.len()
                    invariant
                        r@ == (JournalView {
                            open: after_lines(rows@.take(i as int)),
                            unreadable: None,
                        }),
                {
                    assert(rows@.take(i + 1).drop_last() =~= rows@.take(i as int));
                    if let Some(x) = read_incident(&rows[i]) {
                        r.take(x);
                    }
                }
                assert(rows@.take(rows@.len() as int) =~= rows@);
                r
            },
        }
    }

    fn take(&mut self, i: Incident)
        ensures
            final(self)@ == (JournalView {
                open: after_line(old(self)@.open, i@),
                ..old(self)@
            }),
    {
        let ghost start = self@;
        let ghost v = i@;
        if text::same(i.ev.as_str(), "raise") {
            if !self.open.has(&i.lane) {
                let k = i.lane.clone();
                self.open.insert(k, i);
            }
        } else if text::same(i.ev.as_str(), "clear") {
            let _ = self.open.remove(&i.lane);
        }
        assert(self@.open =~= after_line(start.open, v));
    }

    /// Whether a lane is stopped; see [`JournalView::holds`].
    pub fn latched(&self, lane: &str) -> (r: bool)
        ensures
            r == self@.holds(lane@),
    {
        self.unreadable.is_some() || self.open.has(&owned(lane))
    }

    /// Why the journal cannot be read.
    pub fn unreadable(&self) -> (r: Option<&str>)
        ensures
            match self@.unreadable {
                Some(s) => r matches Some(t) && t@ == s,
                None => r is None,
            },
    {
        match &self.unreadable {
            Some(s) => Some(s.as_str()),
            None => None,
        }
    }

    /// The incidents that hold lanes, one for each such lane.
    pub fn open_incidents(&self) -> (r: Vec<Incident>)
        ensures
            r@.len() == self@.open.dom().len(),
            forall|i: int| 0 <= i < r@.len() ==> is_open(self@.open, (#[trigger] r@[i])@),
            forall|k: Seq<char>| #[trigger]
                self@.open.contains_key(k) ==> exists|i: int|
                    0 <= i < r@.len() && (#[trigger] r@[i])@ == self@.open[k],
    {
        let mut out: Vec<Incident> = Vec::new();
        let n = self.open.len();
        let ghost t = self.open;
        for i in 0..n
            invariant
                t == self.open,
                t.aligned(),
                n == t.keys().len(),
                out@.len() == i,
                forall|j: int| 0 <= j < i ==> (#[trigger] out@[j])@ == t.vals()[j]@,
        {
            out.push(self.open.val_at(i).copy());
        }
        proof {
            let m = self@.open;
            assert(m.dom() =~= t@.dom());
            assert forall|i: int| 0 <= i < out@.len() implies is_open(
                m,
                (#[trigger] out@[i])@,
            ) by {
                let k = t.keys()[i];
                assert(t@.contains_key(k));
                assert(m.contains_key(k) && m[k] == out@[i]@);
            }
            assert forall|k: Seq<char>| #[trigger] m.contains_key(k) implies exists|i: int|
                0 <= i < out@.len() && (#[trigger] out@[i])@ == m[k] by {
                assert(t@.contains_key(k));
                let i = t.keys().index_of(k);
                assert(out@[i]@ == m[k]);
            }
        }
        out
    }

    /// Whether no lane is stopped.
    pub fn is_empty(&self) -> (r: bool)
        ensures
            r == (self@.open.dom().len() == 0 && self@.unreadable is None),
    {
        assert(self@.open.dom() =~= self.open@.dom());
        self.open.len() == 0 && self.unreadable.is_none()
    }

    /// The line that has to be written before a lane is stopped; see
    /// [`JournalView::to_raise`].
    pub fn raise_row(&self, lane: &str, kind: &str, why: &str, now: i64) -> (r: Option<Incident>)
        ensures
            match self@.to_raise(lane@, kind@, why@, now) {
                Some(v) => r matches Some(i) && i@ == v,
                None => r is None,
            },
    {
        if let Some(i) = self.open.get(&owned(lane)) {
            if text::same(i.kind.as_str(), kind) {
                return None;
            }
        }
        let by = String::new();
        assert(by@ =~= Seq::<char>::empty());
        Some(
            Incident {
                t: now,
                lane: owned(lane),
                kind: owned(kind),
                why: text::head(why, WHY_LEN),
                ev: owned("raise"),
                by,
            },
        )
    }

    /// Stops a lane once its line is written, and says whether it was not stopped
    /// before. A line that could not be written stops nothing.
    pub fn raise(&mut self, lane: &str, kind: &str, why: &str, now: i64, write: Append) -> (r:
        Result<bool, String>)
        ensures
            match (old(self)@.to_raise(lane@, kind@, why@, now), write) {
                (Some(i), Append::Failed(e)) => r matches Err(f) && f@ == e@ && final(self)@
                    == old(self)@,
                (Some(i), Append::Done) => r == Ok::<bool, String>(
                    !old(self)@.open.contains_key(lane@),
                ) && final(self)@ == (JournalView {
                    open: after_line(old(self)@.open, i),
                    ..old(self)@
                }),
                (None, _) => r == Ok::<bool, String>(false) && final(self)@ == old(self)@,
            },
    {
        let known = self.open.has(&owned(lane));
        assert(known == self@.open.contains_key(lane@));
        match self.raise_row(lane, kind, why, now) {
            None => Ok(false),
            Some(i) => match write {
                Append::Failed(e) => Err(e),
                Append::Done => {
                    self.take(i);
                    Ok(!known)
                },
            },
        }
    }

    /// The line that has to be written before a lane is let go: none where nothing holds
    /// it.
    pub fn clear_row(&self, lane: &str, by: &str, now: i64) -> (r: Option<Incident>)
        ensures
            if self@.unreadable is None && self@.open.contains_key(lane@) {
                r matches Some(i) && i@ == cleared(lane@, by@, now)
            } else {
                r is None
            },
    {
        if self.unreadable.is_some() || !self.open.has(&owned(lane)) {
            return None;
        }
        let why = String::new();
        assert(why@ =~= Seq::<char>::empty());
        Some(
            Incident {
                t: now,
                lane: owned(lane),
                kind: owned("clear"),
                why,
                ev: owned("clear"),
                by: owned(by),
            },
        )
    }

    /// Lets a lane go once the line is written, and says whether anything held it. A
    /// journal that cannot be read lets nothing go.
    pub fn clear(&mut self, lane: &str, by: &str, now: i64, write: Append) -> (r: Result<
        bool,
        String,
    >)
        ensures
            match old(self)@.unreadable {
                Some(e) => r matches Err(f) && f@ == "incident journal is unreadable ("@ + e
                    + "); fix it before clearing anything"@ && final(self)@ == old(self)@,
                None => if !old(self)@.open.contains_key(lane@) {
                    r == Ok::<bool, String>(false) && final(self)@ == old(self)@
                } else {
                    match write {
                        Append::Failed(e) => r matches Err(f) && f@ == e@ && final(self)@
                            == old(self)@,
                        Append::Done => r == Ok::<bool, String>(true) && final(self)@ == (
                        JournalView {
                            open: after_line(old(self)@.open, cleared(lane@, by@, now)),
                            ..old(self)@
                        }),
                    }
                },
            },
    {
        if let Some(e) = &self.unreadable {
            let mut s = owned("incident journal is unreadable (");
            s.append(e.as_str());
            s.append("); fix it before clearing anything");
            return Err(s);
        }
        match self.clear_row(lane, by, now) {
            None => Ok(false),
            Some(i) => match write {
                Append::Failed(e) => Err(e),
                Append::Done => {
                    proof {
                        reveal_strlit("raise");
                        reveal_strlit("clear");
                        assert("raise"@[0] == 'r' && "clear"@[0] == 'c');
                    }
                    self.take(i);
                    Ok(true)
                },
            },
        }
    }
}

/// A stop survives the restart: a journal that ends with a lane's incident leaves the
/// lane stopped, whatever stands before.
pub proof fn stop_survives_restart(
    rows: Seq<Json>,
    row: Json,
    lane: Seq<char>,
    kind: Seq<char>,
    why: Seq<char>,
    now: i64,
)
    requires
        incident_in(row) == Some(raised(lane, kind, why, now)),
    ensures
        after_lines(rows.push(row)).contains_key(lane),
{
    assert(rows.push(row).drop_last() =~= rows);
}

/// Only a line that lets a lane go lets it go, and of no other lane.
pub proof fn only_a_clear_releases(
    m: Map<Seq<char>, IncidentView>,
    i: IncidentView,
    lane: Seq<char>,
)
    requires
        m.contains_key(lane),
        i.ev != "clear"@ || i.lane != lane,
    ensures
        after_line(m, i).contains_key(lane),
        after_line(m, i)[lane] == m[lane],
{
}

/// What a running journal holds is what reading its file again would hold: a line that
/// is written changes both alike.
pub proof fn replay_agrees(rows: Seq<Json>, row: Json, i: IncidentView)
    requires
        incident_in(row) == Some(i),
    ensures
        after_lines(rows.push(row)) == after_line(after_lines(rows), i),
{
    assert(rows.push(row).drop_last() =~= rows);
}

} // verus!
