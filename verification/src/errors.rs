//! The feed of what went wrong, for an operator to read.

use vstd::prelude::*;
use crate::journal;
use crate::json;
use crate::json::{int_json, put, text_json, Json, JsonView};
use crate::numerals;
use crate::sorting;
use crate::text;

verus! {

/// How many rows the feed keeps when it is cut.
pub const MAX_ROWS: usize = 400;

/// For how many seconds an error counts as current.
pub const ACTIVE_WINDOW_SECS: i64 = 21_600;

/// One row of the feed.
#[derive(Debug, PartialEq, Eq)]
pub struct ErrorRow {
    pub t: i64,
    pub lane: String,
    pub kind: String,
    pub detail: String,
    pub human: String,
    pub severity: String,
}

/// What a row says.
#[verifier::ext_equal]
pub struct ErrorView {
    pub t: i64,
    pub lane: Seq<char>,
    pub kind: Seq<char>,
    pub detail: Seq<char>,
    pub human: Seq<char>,
    pub severity: Seq<char>,
}

impl View for ErrorRow {
    type V = ErrorView;

    open spec fn view(&self) -> ErrorView {
        ErrorView {
            t: self.t,
            lane: self.lane@,
            kind: self.kind@,
            detail: self.detail@,
            human: self.human@,
            severity: self.severity@,
        }
    }
}

/// What these rows say.
pub open spec fn row_views(v: Seq<ErrorRow>) -> Seq<ErrorView> {
    v.map_values(|r: ErrorRow| r@)
}

/// How urgent a severity is, the most urgent first; one that is not known comes last.
pub open spec fn urgency(severity: Seq<char>) -> u8 {
    if severity == "stop"@ {
        0
    } else if severity == "warn"@ {
        1
    } else if severity == "notice"@ {
        2
    } else {
        3
    }
}

/// How urgent a severity is; see [`urgency`].
pub fn rank(severity: &str) -> (r: u8)
    ensures
        r == urgency(severity@),
{
    if text::same(severity, "stop") {
        0
    } else if text::same(severity, "warn") {
        1
    } else if text::same(severity, "notice") {
        2
    } else {
        3
    }
}

/// A row as JSON.
pub open spec fn row_of(e: ErrorView) -> JsonView {
    JsonView::Fields(
        seq![
            ("t"@, JsonView::Number(text::dec_int(e.t as int))),
            ("lane"@, JsonView::Text(e.lane)),
            ("kind"@, JsonView::Text(e.kind)),
            ("detail"@, JsonView::Text(e.detail)),
            ("human"@, JsonView::Text(e.human)),
            ("severity"@, JsonView::Text(e.severity)),
        ],
    )
}

/// The row that a document holds, as an object or as a list of its parts in order; all of it
/// has to be there.
pub open spec fn error_in(j: Json) -> Option<ErrorView> {
    if json::fits(j, 6) {
        match (
            json::signed_in(json::part(j, 0, "t"@)),
            json::text_in(json::part(j, 1, "lane"@)),
            json::text_in(json::part(j, 2, "kind"@)),
            json::text_in(json::part(j, 3, "detail"@)),
            json::text_in(json::part(j, 4, "human"@)),
            json::text_in(json::part(j, 5, "severity"@)),
        ) {
            (Some(t), Some(lane), Some(kind), Some(detail), Some(human), Some(severity)) => Some(
                ErrorView { t, lane, kind, detail, human, severity },
            ),
            _ => None,
        }
    } else {
        None
    }
}

fn read_error(j: &Json) -> (r: Option<ErrorRow>)
    ensures
        match error_in(*j) {
            Some(v) => r matches Some(e) && e@ == v,
            None => r is None,
        },
{
    if !j.fits_in(6) {
        return None;
    }
    match (
        j.signed_part(0, "t"),
        j.text_part(1, "lane"),
        j.text_part(2, "kind"),
        j.text_part(3, "detail"),
        j.text_part(4, "human"),
        j.text_part(5, "severity"),
    ) {
        (Some(t), Some(lane), Some(kind), Some(detail), Some(human), Some(severity)) => Some(
            ErrorRow { t, lane, kind, detail, human, severity },
        ),
        _ => None,
    }
}

proof fn row_reads_back(j: Json, e: ErrorView)
    requires
        j@ == row_of(e),
    ensures
        error_in(j) == Some(e),
{
    reveal_strlit("t");
    reveal_strlit("lane");
    reveal_strlit("kind");
    reveal_strlit("detail");
    reveal_strlit("human");
    reveal_strlit("severity");
    assert("t"@.len() == 1 && "lane"@.len() == 4 && "lane"@[0] == 'l' && "kind"@.len() == 4
        && "kind"@[0] == 'k' && "detail"@.len() == 6 && "human"@.len() == 5 && "severity"@.len()
        == 8);
    numerals::integer_reads_back(e.t as int);
    if let Json::Fields(v) = j {
        let f = v@;
        let s = json::shown_fields(f);
        assert(s == row_of(e)->Fields_0);
        assert(s.len() == f.len());
        assert forall|k: int| 0 <= k < f.len() implies (#[trigger] f[k]).0@ == s[k].0 && f[k].1@
            == s[k].1 by {}
        assert(f[0].0@ == "t"@ && f[1].0@ == "lane"@ && f[2].0@ == "kind"@ && f[3].0@ == "detail"@
            && f[4].0@ == "human"@ && f[5].0@ == "severity"@);
        json::lookup_at(f, "t"@, 0);
        json::lookup_at(f, "lane"@, 1);
        json::lookup_at(f, "kind"@, 2);
        json::lookup_at(f, "detail"@, 3);
        json::lookup_at(f, "human"@, 4);
        json::lookup_at(f, "severity"@, 5);
    }
}

impl ErrorRow {
    /// The row as JSON.
    pub fn row(&self) -> (r: Json)
        ensures
            r@ == row_of(self@),
            error_in(r) == Some(self@),
    {
        let mut f = json::no_fields();
        put(&mut f, "t", int_json(self.t as i128));
        put(&mut f, "lane", text_json(self.lane.as_str()));
        put(&mut f, "kind", text_json(self.kind.as_str()));
        put(&mut f, "detail", text_json(self.detail.as_str()));
        put(&mut f, "human", text_json(self.human.as_str()));
        put(&mut f, "severity", text_json(self.severity.as_str()));
        assert(json::shown_fields(f@) =~= row_of(self@)->Fields_0);
        let r = Json::Fields(f);
        proof {
            row_reads_back(r, self@);
        }
        r
    }
}

/// These lines, each with a line break behind it.
pub open spec fn written(lines: Seq<Seq<char>>) -> Seq<char>
    decreases lines.len(),
{
    if lines.len() == 0 {
        Seq::empty()
    } else {
        written(lines.drop_last()) + lines.last() + "\n"@
    }
}

/// What is left of a feed that has grown too long, where it has.
pub open spec fn kept_of(raw: Seq<char>) -> Option<Seq<char>> {
    let all = text::lines_of(raw);
    if all.len() <= MAX_ROWS * 2 {
        None
    } else {
        Some(written(all.skip(all.len() - MAX_ROWS)))
    }
}

/// What the feed is cut to once it has more than twice the lines it keeps: its newest.
pub fn trimmed(raw: &str) -> (r: Option<String>)
    ensures
        ({
            let all = text::lines_of(raw@);
            if all.len() <= MAX_ROWS * 2 {
                r is None
            } else {
                r matches Some(s) && s@ == written(all.skip(all.len() - MAX_ROWS))
            }
        }),
        match kept_of(raw@) {
            Some(t) => r matches Some(s) && s@ == t,
            None => r is None,
        },
{
    let lines = text::lines(raw);
    let ghost all = text::texts(lines@);
    if lines.len() <= MAX_ROWS * 2 {
        return None;
    }
    let from = lines.len() - MAX_ROWS;
    let ghost kept = all.skip(from as int);
    let mut s = String::new();
    assert(s@ =~= written(kept.take(0)));
    for i in from..lines.len()
        invariant
            from <= lines@.len(),
            all == text::texts(lines@),
            kept == all.skip(from as int),
            s@ == written(kept.take(i - from)),
    {
        assert(kept.take(i + 1 - from).drop_last() =~= kept.take(i - from));
        assert(kept.take(i + 1 - from).last() == lines@[i as int]@);
        s.append(lines[i].as_str());
        s.append("\n");
    }
    assert(kept.take(kept.len() as int) =~= kept);
    Some(s)
}

/// The names of the parts of a row.
pub open spec fn part_names() -> Seq<Seq<char>> {
    seq!["t"@, "lane"@, "kind"@, "detail"@, "human"@, "severity"@]
}

fn parts() -> (r: Vec<&'static str>)
    ensures
        journal::names_of(r@) == part_names(),
{
    let r: Vec<&'static str> = vec!["t", "lane", "kind", "detail", "human", "severity"];
    assert(journal::names_of(r@) =~= part_names());
    r
}

/// The rows that the documents of a feed hold.
pub open spec fn errors_in(docs: Seq<Json>) -> Seq<ErrorView>
    decreases docs.len(),
{
    if docs.len() == 0 {
        Seq::empty()
    } else {
        match error_in(docs.last()) {
            Some(e) => errors_in(docs.drop_last()).push(e),
            None => errors_in(docs.drop_last()),
        }
    }
}

/// The newest `n` rows, the newest first.
pub open spec fn newest_of(all: Seq<ErrorView>, n: int) -> Seq<ErrorView> {
    Seq::new(
        if all.len() <= n {
            all.len()
        } else {
            n as nat
        },
        |i: int| all[all.len() - 1 - i],
    )
}

/// The newest `n` rows of a feed, the newest first; a line that is torn is passed over.
pub fn tail(raw: &str, n: usize) -> (r: Vec<ErrorRow>)
    ensures
        ({
            let all = errors_in(journal::records(text::lines_of(raw@), part_names()));
            row_views(r@) == Seq::new(
                if all.len() <= n {
                    all.len()
                } else {
                    n as nat
                },
                |i: int| all[all.len() - 1 - i],
            )
        }),
        row_views(r@) == newest_of(
            errors_in(journal::records(text::lines_of(raw@), part_names())),
            n as int,
        ),
{
    let docs = journal::read_records(raw, parts().as_slice());
    let ghost all = errors_in(docs@);
    let mut out: Vec<ErrorRow> = Vec::new();
    assert(row_views(out@) =~= Seq::<ErrorView>::empty());
    let mut k: usize = docs.len();
    assert(docs@.take(k as int) =~= docs@);
    while k > 0 && out.len() < n
        invariant
            k <= docs@.len(),
            out@.len() <= n,
            all.len() == errors_in(docs@.take(k as int)).len() + out@.len(),
            all.take(errors_in(docs@.take(k as int)).len() as int) == errors_in(
                docs@.take(k as int),
            ),
            row_views(out@) == Seq::new(out@.len(), |i: int| all[all.len() - 1 - i]),
        decreases k,
    {
        let ghost cur = docs@.take(k as int);
        let ghost have = out@.len();
        assert(cur.drop_last() =~= docs@.take(k - 1));
        let ghost before = row_views(out@);
        let ghost shorter = errors_in(docs@.take(k - 1));
        if let Some(e) = read_error(&docs[k - 1]) {
            let ghost v = e@;
            assert(errors_in(cur) == shorter.push(v));
            assert(all[shorter.len() as int] == errors_in(cur)[shorter.len() as int]);
            out.push(e);
            assert(row_views(out@) =~= before.push(v));
            assert(row_views(out@) =~= Seq::new(out@.len(), |i: int| all[all.len() - 1 - i]));
            assert(all.take(shorter.len() as int) =~= shorter) by {
                assert(errors_in(cur).take(shorter.len() as int) =~= shorter);
                assert(all.take(errors_in(cur).len() as int).take(shorter.len() as int)
                    =~= all.take(shorter.len() as int));
            }
        }
        k = k - 1;
    }
    assert(k == 0 ==> docs@.take(0) =~= Seq::<Json>::empty());
    out
}

/// The lanes of the rows from `cutoff` on.
pub open spec fn lanes_in(rows: Seq<ErrorView>, cutoff: int) -> Seq<Seq<char>>
    decreases rows.len(),
{
    if rows.len() == 0 {
        Seq::empty()
    } else if rows.last().t >= cutoff {
        lanes_in(rows.drop_last(), cutoff).push(rows.last().lane)
    } else {
        lanes_in(rows.drop_last(), cutoff)
    }
}

/// How many rows of a lane from `cutoff` on are stops, warnings, and anything else.
pub open spec fn counts(rows: Seq<ErrorView>, cutoff: int, lane: Seq<char>) -> (nat, nat, nat)
    decreases rows.len(),
{
    if rows.len() == 0 {
        (0, 0, 0)
    } else {
        let c = counts(rows.drop_last(), cutoff, lane);
        let e = rows.last();
        if e.t < cutoff || e.lane != lane {
            c
        } else if e.severity == "stop"@ {
            (c.0 + 1, c.1, c.2)
        } else if e.severity == "warn"@ {
            (c.0, c.1 + 1, c.2)
        } else {
            (c.0, c.1, c.2 + 1)
        }
    }
}

/// The lanes of a count.
pub open spec fn counted_lanes(v: Seq<(String, usize, usize, usize)>) -> Seq<Seq<char>> {
    v.map_values(|c: (String, usize, usize, usize)| c.0@)
}

/// Whether `v` counts the rows from `cutoff` on: every lane that has one, each once and
/// in order, with its numbers.
pub open spec fn counts_rows(
    rows: Seq<ErrorView>,
    cutoff: int,
    v: Seq<(String, usize, usize, usize)>,
) -> bool {
    &&& sorting::in_order(counted_lanes(v))
    &&& sorting::same_members(counted_lanes(v), lanes_in(rows, cutoff))
    &&& forall|i: int|
        0 <= i < v.len() ==> counts(rows, cutoff, (#[trigger] v[i]).0@) == (
            v[i].1 as nat,
            v[i].2 as nat,
            v[i].3 as nat,
        )
}

/// How many rows each lane has, by severity.
pub fn counts_by_lane(rows: &[ErrorRow]) -> (r: Vec<(String, usize, usize, usize)>)
    ensures
        counts_rows(row_views(rows@), i64::MIN as int, r@),
{
    counts_by_lane_since(rows, i64::MIN)
}

fn count_one(rows: &[ErrorRow], cutoff: i64, lane: &str) -> (r: (usize, usize, usize))
    ensures
        counts(row_views(rows@), cutoff as int, lane@) == (r.0 as nat, r.1 as nat, r.2 as nat),
{
    let ghost all = row_views(rows@);
    let mut a: usize = 0;
    let mut b: usize = 0;
    let mut c: usize = 0;
    for i in 0..rows.len()
        invariant
            all == row_views(rows@),
            a + b + c <= i,
            counts(all.take(i as int), cutoff as int, lane@) == (a as nat, b as nat, c as nat),
    {
        assert(all.take(i + 1).drop_last() =~= all.take(i as int));
        let e = &rows[i];
        if e.t >= cutoff && text::same(e.lane.as_str(), lane) {
            if text::same(e.severity.as_str(), "stop") {
                a = a + 1;
            } else if text::same(e.severity.as_str(), "warn") {
                b = b + 1;
            } else {
                c = c + 1;
            }
        }
    }
    assert(all.take(all.len() as int) =~= all);
    (a, b, c)
}

/// How many rows from `cutoff` on each lane has, by severity; see [`counts_rows`].
pub fn counts_by_lane_since(rows: &[ErrorRow], cutoff: i64) -> (r: Vec<
    (String, usize, usize, usize),
>)
    ensures
        counts_rows(row_views(rows@), cutoff as int, r@),
{
    let ghost all = row_views(rows@);
    let mut lanes: Vec<String> = Vec::new();
    assert(text::texts(lanes@) =~= Seq::<Seq<char>>::empty());
    for i in 0..rows.len()
        invariant
            all == row_views(rows@),
            text::texts(lanes@) == lanes_in(all.take(i as int), cutoff as int),
    {
        assert(all.take(i + 1).drop_last() =~= all.take(i as int));
        let ghost before = text::texts(lanes@);
        if rows[i].t >= cutoff {
            lanes.push(rows[i].lane.clone());
            assert(text::texts(lanes@) =~= before.push(rows@[i as int].lane@));
        }
    }
    assert(all.take(all.len() as int) =~= all);
    let names = sorting::distinct_in_order(lanes.as_slice());
    let ghost order = text::texts(names@);
    let mut out: Vec<(String, usize, usize, usize)> = Vec::new();
    for i in 0..names.len()
        invariant
            all == row_views(rows@),
            order == text::texts(names@),
            out@.len() == i,
            forall|k: int| 0 <= k < i ==> counted_lanes(out@)[k] == order[k],
            forall|k: int|
                0 <= k < i ==> counts(all, cutoff as int, (#[trigger] out@[k]).0@) == (
                    out@[k].1 as nat,
                    out@[k].2 as nat,
                    out@[k].3 as nat,
                ),
    {
        let ghost before = out@;
        let c = count_one(rows, cutoff, names[i].as_str());
        out.push((names[i].clone(), c.0, c.1, c.2));
        assert forall|k: int| 0 <= k < i + 1 implies counted_lanes(out@)[k] == order[k] by {
            if k < i {
                assert(counted_lanes(before)[k] == order[k]);
            }
        }
    }
    assert(counted_lanes(out@) =~= order);
    out
}

/// The feed stays bounded: it is never cut to more lines than it keeps, and what is cut
/// is never the newest.
pub proof fn newest_line_survives(all: Seq<Seq<char>>)
    requires
        all.len() > MAX_ROWS * 2,
    ensures
        all.skip(all.len() - MAX_ROWS).len() == MAX_ROWS,
        all.skip(all.len() - MAX_ROWS).last() == all.last(),
{
}

proof fn break_found(p: Seq<char>, s: Seq<char>, from: int)
    requires
        0 <= from < p.len() <= s.len(),
        p.last() == '\n',
        s.take(p.len() as int) == p,
    ensures
        text::next_break(s, from) == text::next_break(p, from),
        from <= text::next_break(p, from) < p.len(),
    decreases p.len() - from,
{
    assert(s[from] == s.take(p.len() as int)[from]);
    if p[from] != '\n' {
        break_found(p, s, from + 1);
    }
}

proof fn break_at_end(s: Seq<char>, from: int, end: int)
    requires
        0 <= from <= end < s.len(),
        s[end] == '\n',
        forall|k: int| from <= k < end ==> s[k] != '\n',
    ensures
        text::next_break(s, from) == end,
    decreases end - from,
{
    if from < end {
        break_at_end(s, from + 1, end);
    }
}

proof fn one_line_more(p: Seq<char>, line: Seq<char>, from: int)
    requires
        0 <= from <= p.len(),
        from < p.len() ==> p.last() == '\n',
        !line.contains('\n'),
    ensures
        text::lines_from(p + line + seq!['\n'], from).len() == text::lines_from(p, from).len() + 1,
    decreases p.len() - from,
{
    let s = p + line + seq!['\n'];
    if from == p.len() {
        let end = s.len() - 1;
        assert forall|k: int| from <= k < end implies s[k] != '\n' by {
            assert(s[k] == line[k - p.len()]);
        }
        break_at_end(s, from, end);
        assert(text::lines_from(s, s.len() as int).len() == 0);
    } else {
        assert(s.take(p.len() as int) =~= p);
        break_found(p, s, from);
        one_line_more(p, line, text::next_break(p, from) + 1);
    }
}

proof fn lines_are_unbroken(s: Seq<char>, from: int, k: int)
    requires
        0 <= from <= s.len(),
        0 <= k < text::lines_from(s, from).len(),
    ensures
        !text::lines_from(s, from)[k].contains('\n'),
    decreases s.len() - from,
{
    let n = text::next_break(s, from);
    no_break_before(s, from);
    if n < s.len() {
        if k == 0 {
            let line = text::chomped(s.subrange(from, n));
            assert forall|i: int| 0 <= i < line.len() implies line[i] != '\n' by {
                assert(line[i] == s[from + i]);
            }
        } else {
            lines_are_unbroken(s, n + 1, k - 1);
        }
    } else {
        let line = s.subrange(from, s.len() as int);
        assert forall|i: int| 0 <= i < line.len() implies line[i] != '\n' by {
            assert(line[i] == s[from + i]);
        }
    }
}

proof fn no_break_before(s: Seq<char>, from: int)
    requires
        0 <= from <= s.len(),
    ensures
        from <= text::next_break(s, from) <= s.len(),
        forall|k: int| from <= k < text::next_break(s, from) ==> s[k] != '\n',
    decreases s.len() - from,
{
    if from < s.len() && s[from] != '\n' {
        no_break_before(s, from + 1);
    }
}

proof fn written_counts(lines: Seq<Seq<char>>)
    requires
        forall|k: int| 0 <= k < lines.len() ==> !(#[trigger] lines[k]).contains('\n'),
    ensures
        text::lines_of(written(lines)).len() == lines.len(),
        written(lines).len() > 0 ==> written(lines).last() == '\n',
    decreases lines.len(),
{
    reveal_strlit("\n");
    if lines.len() > 0 {
        let p = written(lines.drop_last());
        assert forall|k: int| 0 <= k < lines.drop_last().len() implies !(
        #[trigger] lines.drop_last()[k]).contains('\n') by {
            assert(lines.drop_last()[k] == lines[k]);
        }
        written_counts(lines.drop_last());
        assert(!lines[lines.len() - 1].contains('\n'));
        one_line_more(p, lines.last(), 0);
        assert("\n"@ =~= seq!['\n']);
    }
}

/// A feed that is cut has as many lines as it keeps, so that it never grows for good.
pub proof fn feed_is_bounded(raw: Seq<char>)
    requires
        text::lines_of(raw).len() > MAX_ROWS * 2,
    ensures
        text::lines_of(
            written(text::lines_of(raw).skip(text::lines_of(raw).len() - MAX_ROWS)),
        ).len() == MAX_ROWS,
{
    let all = text::lines_of(raw);
    let from = all.len() - MAX_ROWS;
    let kept = all.skip(from);
    assert forall|k: int| 0 <= k < kept.len() implies !(#[trigger] kept[k]).contains('\n') by {
        lines_are_unbroken(raw, 0, from + k);
    }
    written_counts(kept);
}

} // verus!
