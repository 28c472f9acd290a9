//! One order is sent over several paths at once; this decides what came of it.
//!
//! A time is milliseconds in millionths.

use vstd::prelude::*;
use crate::json;
use crate::json::{read_json, Json};
use crate::text;
use crate::text::{dec_u128, owned};

verus! {

/// What came of an order.
#[derive(Debug, PartialEq, Eq)]
pub enum Outcome {
    Matched { body: String, winner: String, ms: i64 },
    Resting { order_id: String, body: String, winner: String, ms: i64 },
    DuplicateOnly { winner: String },
    Rejected { body: String },
    Ambiguous { detail: String },
    NoResponse,
}

/// What came of an order, as contracts speak of it.
#[verifier::ext_equal]
pub enum OutcomeView {
    Matched { body: Seq<char>, winner: Seq<char>, ms: i64 },
    Resting { order_id: Seq<char>, body: Seq<char>, winner: Seq<char>, ms: i64 },
    DuplicateOnly { winner: Seq<char> },
    Rejected { body: Seq<char> },
    Ambiguous { detail: Seq<char> },
    NoResponse,
}

impl View for Outcome {
    type V = OutcomeView;

    open spec fn view(&self) -> OutcomeView {
        match *self {
            Outcome::Matched { body, winner, ms } => OutcomeView::Matched {
                body: body@,
                winner: winner@,
                ms,
            },
            Outcome::Resting { order_id, body, winner, ms } => OutcomeView::Resting {
                order_id: order_id@,
                body: body@,
                winner: winner@,
                ms,
            },
            Outcome::DuplicateOnly { winner } => OutcomeView::DuplicateOnly { winner: winner@ },
            Outcome::Rejected { body } => OutcomeView::Rejected { body: body@ },
            Outcome::Ambiguous { detail } => OutcomeView::Ambiguous { detail: detail@ },
            Outcome::NoResponse => OutcomeView::NoResponse,
        }
    }
}

/// What one path answered. No answer at all has the status zero.
#[derive(Debug)]
pub struct PathResult {
    pub path: String,
    pub http: u16,
    pub body: String,
    pub ms: i64,
}

/// Whether a text, in lower case, says any of the things that the venue says of an
/// order that it has already.
pub open spec fn is_duplicate(body: Seq<char>) -> bool {
    let b = text::lower_of(body);
    ||| text::occurs(b, "duplicate"@)
    ||| text::occurs(b, "already exists"@)
    ||| text::occurs(b, "already known"@)
    ||| text::occurs(b, "order exists"@)
    ||| text::occurs(b, "already placed"@)
    ||| text::occurs(b, "same order"@)
    ||| text::occurs(b, "orderalreadyexists"@)
}

/// Whether a text says that the request failed.
pub open spec fn is_failure(body: Seq<char>) -> bool {
    let b = text::lower_of(body);
    ||| text::occurs(b, "\"success\": false"@)
    ||| text::occurs(b, "\"success\":false"@)
}

/// Whether a text says that the order was matched.
pub open spec fn is_matched(body: Seq<char>) -> bool {
    let b = text::lower_of(body);
    &&& {
        ||| text::occurs(b, "\"status\":\"matched\""@)
        ||| text::occurs(b, "\"status\": \"matched\""@)
        ||| text::occurs(b, "\"status\":\"filled\""@)
        ||| text::occurs(b, "\"status\": \"filled\""@)
    }
    &&& !is_failure(body)
}

/// Whether a text says that the order rests on the book.
pub open spec fn is_resting(body: Seq<char>) -> bool {
    let b = text::lower_of(body);
    &&& {
        ||| text::occurs(b, "\"status\":\"live\""@)
        ||| text::occurs(b, "\"status\": \"live\""@)
        ||| text::occurs(b, "\"status\":\"unmatched\""@)
        ||| text::occurs(b, "\"status\": \"unmatched\""@)
        ||| text::occurs(b, "\"status\":\"delayed\""@)
        ||| text::occurs(b, "\"status\": \"delayed\""@)
    }
    &&& !is_failure(body)
}

/// Whether the venue says that it has the order already.
pub fn looks_duplicate(body: &str) -> (r: bool)
    ensures
        r == is_duplicate(body@),
{
    let b = text::lower_chars(body);
    text::contains(&b, "duplicate") || text::contains(&b, "already exists") || text::contains(
        &b,
        "already known",
    ) || text::contains(&b, "order exists") || text::contains(&b, "already placed")
        || text::contains(&b, "same order") || text::contains(&b, "orderalreadyexists")
}

fn failed(b: &Vec<char>) -> (r: bool)
    ensures
        r == (text::occurs(b@, "\"success\": false"@) || text::occurs(b@, "\"success\":false"@)),
{
    text::contains(b, "\"success\": false") || text::contains(b, "\"success\":false")
}

/// Whether the venue says that the order was matched.
pub fn looks_matched(body: &str) -> (r: bool)
    ensures
        r == is_matched(body@),
{
    let b = text::lower_chars(body);
    (text::contains(&b, "\"status\":\"matched\"") || text::contains(&b, "\"status\": \"matched\"")
        || text::contains(&b, "\"status\":\"filled\"") || text::contains(
        &b,
        "\"status\": \"filled\"",
    )) && !failed(&b)
}

fn rests(body: &str) -> (r: bool)
    ensures
        r == is_resting(body@),
{
    let b = text::lower_chars(body);
    (text::contains(&b, "\"status\":\"live\"") || text::contains(&b, "\"status\": \"live\"")
        || text::contains(&b, "\"status\":\"unmatched\"") || text::contains(
        &b,
        "\"status\": \"unmatched\"",
    ) || text::contains(&b, "\"status\":\"delayed\"") || text::contains(
        &b,
        "\"status\": \"delayed\"",
    )) && !failed(&b)
}

/// A text under a name that is not empty.
pub open spec fn id_under(v: Json, name: Seq<char>) -> Option<Seq<char>> {
    match json::text_in(json::field(v, name)) {
        Some(s) => if s.len() > 0 {
            Some(s)
        } else {
            None
        },
        None => None,
    }
}

/// The number of an order, under the first of the venue's names for it that has one.
pub open spec fn id_in(v: Json) -> Option<Seq<char>> {
    match id_under(v, "orderID"@) {
        Some(s) => Some(s),
        None => match id_under(v, "orderId"@) {
            Some(s) => Some(s),
            None => match id_under(v, "order_id"@) {
                Some(s) => Some(s),
                None => id_under(v, "id"@),
            },
        },
    }
}

/// The number of an order in an answer; nothing where the answer is no JSON.
pub open spec fn id_of(body: Seq<char>) -> Option<Seq<char>> {
    match json::document(body) {
        Some(v) => id_in(v),
        None => None,
    }
}

/// Whether an optional text is what is wanted.
pub open spec fn is_text(r: Option<String>, want: Option<Seq<char>>) -> bool {
    match want {
        Some(s) => r matches Some(t) && t@ == s,
        None => r is None,
    }
}

fn read_id(v: &Json, name: &str) -> (r: Option<String>)
    ensures
        is_text(r, id_under(*v, name@)),
{
    match v.text_at(name) {
        Some(s) => {
            let c = text::chars_of(s.as_str());
            if c.len() > 0 {
                Some(s)
            } else {
                None
            }
        },
        None => None,
    }
}

/// The number of an order in an answer that was read; see [`id_in`].
pub fn order_id_in(v: &Json) -> (r: Option<String>)
    ensures
        is_text(r, id_in(*v)),
{
    match read_id(v, "orderID") {
        Some(s) => Some(s),
        None => match read_id(v, "orderId") {
            Some(s) => Some(s),
            None => match read_id(v, "order_id") {
                Some(s) => Some(s),
                None => read_id(v, "id"),
            },
        },
    }
}

/// The number of an order in an answer.
pub fn order_id_of(body: &str) -> (r: Option<String>)
    ensures
        is_text(r, id_of(body@)),
{
    match read_json(body) {
        Some(v) => order_id_in(&v),
        None => None,
    }
}

/// The number of an order that rests on the book: what makes it one that can be
/// cancelled. An answer without it is not trusted.
pub fn looks_resting(body: &str) -> (r: Option<String>)
    ensures
        is_text(
            r,
            if is_resting(body@) {
                id_of(body@)
            } else {
                None
            },
        ),
{
    if rests(body) {
        order_id_of(body)
    } else {
        None
    }
}

/// The first of the quickest among the answers that count.
pub open spec fn quickest(results: Seq<PathResult>, counts: Seq<bool>, n: int) -> Option<int>
    decreases n,
{
    if n <= 0 {
        None
    } else {
        match quickest(results, counts, n - 1) {
            Some(b) => if counts[n - 1] && results[n - 1].ms < results[b].ms {
                Some(n - 1)
            } else {
                Some(b)
            },
            None => if counts[n - 1] {
                Some(n - 1)
            } else {
                None
            },
        }
    }
}

/// Which answers say that the order was matched.
pub open spec fn matched_flags(results: Seq<PathResult>) -> Seq<bool> {
    results.map_values(|r: PathResult| is_matched(r.body@))
}

/// Which answers say that the order rests, and have its number.
pub open spec fn resting_flags(results: Seq<PathResult>, ids: Seq<Option<Seq<char>>>) -> Seq<bool> {
    Seq::new(results.len(), |i: int| is_resting(results[i].body@) && ids[i] is Some)
}

/// The first answer from `i` on that says that the venue has the order already.
pub open spec fn first_duplicate(results: Seq<PathResult>, i: int) -> Option<int>
    decreases results.len() - i,
{
    if i < 0 || i >= results.len() {
        None
    } else if is_duplicate(results[i].body@) {
        Some(i)
    } else {
        first_duplicate(results, i + 1)
    }
}

/// Whether no path brought a verdict of the venue.
pub open spec fn all_silent(results: Seq<PathResult>) -> bool {
    forall|i: int| 0 <= i < results.len() ==> ((#[trigger] results[i]).http == 0 || results[i].http >= 500)
}

/// Every path with its status, separated by commas.
pub open spec fn roll(results: Seq<PathResult>, n: int) -> Seq<char>
    decreases n,
{
    if n <= 0 {
        Seq::empty()
    } else {
        let one = results[n - 1].path@ + ":"@ + text::dec(results[n - 1].http as nat);
        if n == 1 {
            one
        } else {
            roll(results, n - 1) + ","@ + one
        }
    }
}

/// What came of an order, given the numbers that the answers have for it. A match on
/// any path wins, then an order that rests; an order that the venue has already is
/// never a refusal; where no path brought a verdict nothing is known; the rest is
/// refused.
pub open spec fn resolution(
    results: Seq<PathResult>,
    ids: Seq<Option<Seq<char>>>,
) -> OutcomeView {
    let n = results.len() as int;
    if n == 0 {
        OutcomeView::NoResponse
    } else {
        match quickest(results, matched_flags(results), n) {
            Some(i) => OutcomeView::Matched {
                body: results[i].body@,
                winner: results[i].path@,
                ms: results[i].ms,
            },
            None => match quickest(results, resting_flags(results, ids), n) {
                Some(i) => OutcomeView::Resting {
                    order_id: ids[i]->0,
                    body: results[i].body@,
                    winner: results[i].path@,
                    ms: results[i].ms,
                },
                None => match first_duplicate(results, 0) {
                    Some(i) => OutcomeView::DuplicateOnly { winner: results[i].path@ },
                    None => if all_silent(results) {
                        OutcomeView::Ambiguous { detail: roll(results, n) }
                    } else {
                        OutcomeView::Rejected { body: results[0].body@ }
                    },
                },
            },
        }
    }
}

/// The numbers that the answers have for the order.
pub open spec fn ids_of(results: Seq<PathResult>) -> Seq<Option<Seq<char>>> {
    results.map_values(|r: PathResult| id_of(r.body@))
}

/// The contents of optional texts.
pub open spec fn opt_texts(v: Seq<Option<String>>) -> Seq<Option<Seq<char>>> {
    v.map_values(
        |o: Option<String>|
            match o {
                Some(s) => Some(s@),
                None => None,
            },
    )
}

proof fn quickest_is_in(results: Seq<PathResult>, counts: Seq<bool>, n: int)
    requires
        0 <= n <= results.len(),
    ensures
        quickest(results, counts, n) matches Some(i) ==> 0 <= i < n && counts[i],
        (exists|i: int| 0 <= i < n && counts[i]) ==> quickest(results, counts, n) is Some,
    decreases n,
{
    if n > 0 {
        quickest_is_in(results, counts, n - 1);
    }
}

fn find_quickest(results: &[PathResult], counts: &Vec<bool>) -> (r: Option<usize>)
    requires
        counts@.len() == results@.len(),
    ensures
        match quickest(results@, counts@, results@.len() as int) {
            Some(i) => r matches Some(k) && k == i && k < results@.len(),
            None => r is None,
        },
{
    let mut best: Option<usize> = None;
    for i in 0..results.len()
        invariant
            counts@.len() == results@.len(),
            match quickest(results@, counts@, i as int) {
                Some(b) => best matches Some(k) && k == b && k < i,
                None => best is None,
            },
    {
        if counts[i] {
            best = match best {
                Some(b) => if results[i].ms < results[b].ms {
                    Some(i)
                } else {
                    Some(b)
                },
                None => Some(i),
            };
        }
    }
    best
}

fn roll_of(results: &[PathResult]) -> (r: String)
    ensures
        r@ == roll(results@, results@.len() as int),
{
    let mut s = String::new();
    assert(s@ =~= Seq::<char>::empty());
    for i in 0..results.len()
        invariant
            s@ == roll(results@, i as int),
    {
        let ghost before = s@;
        if i > 0 {
            s.append(",");
        }
        let mut one = results[i].path.clone();
        one.append(":");
        one.append(dec_u128(results[i].http as u128).as_str());
        let ghost o = one@;
        s.append(one.as_str());
        if i == 0 {
            assert(s@ =~= o);
        }
    }
    s
}

/// What came of an order, given the numbers that the answers have for it; see
/// [`resolution`].
pub fn resolve_with(results: &[PathResult], ids: &Vec<Option<String>>) -> (r: Outcome)
    requires
        ids@.len() == results@.len(),
    ensures
        r@ == resolution(results@, opt_texts(ids@)),
{
    if results.len() == 0 {
        return Outcome::NoResponse;
    }
    let ghost idv = opt_texts(ids@);
    let mut matched: Vec<bool> = Vec::new();
    let mut resting: Vec<bool> = Vec::new();
    let mut silent = true;
    let mut dup: Option<usize> = None;
    for i in 0..results.len()
        invariant
            ids@.len() == results@.len(),
            idv == opt_texts(ids@),
            matched@ == matched_flags(results@).take(i as int),
            resting@ == resting_flags(results@, idv).take(i as int),
            silent == forall|k: int|
                0 <= k < i ==> ((#[trigger] results@[k]).http == 0 || results@[k].http >= 500),
            match dup {
                Some(d) => d < results@.len() && first_duplicate(results@, 0) == Some(d as int),
                None => first_duplicate(results@, 0) == first_duplicate(results@, i as int),
            },
    {
        let body = results[i].body.as_str();
        matched.push(looks_matched(body));
        assert(matched@ =~= matched_flags(results@).take(i + 1));
        resting.push(rests(body) && ids[i].is_some());
        assert(resting@ =~= resting_flags(results@, idv).take(i + 1));
        silent = silent && (results[i].http == 0 || results[i].http >= 500);
        if dup.is_none() && looks_duplicate(body) {
            dup = Some(i);
        }
    }
    assert(matched@ =~= matched_flags(results@));
    assert(resting@ =~= resting_flags(results@, idv));
    if let Some(i) = find_quickest(results, &matched) {
        return Outcome::Matched {
            body: results[i].body.clone(),
            winner: results[i].path.clone(),
            ms: results[i].ms,
        };
    }
    if let Some(i) = find_quickest(results, &resting) {
        proof {
            quickest_is_in(results@, resting@, results@.len() as int);
        }
        if let Some(id) = &ids[i] {
            return Outcome::Resting {
                order_id: id.clone(),
                body: results[i].body.clone(),
                winner: results[i].path.clone(),
                ms: results[i].ms,
            };
        }
    }
    if let Some(d) = dup {
        return Outcome::DuplicateOnly { winner: results[d].path.clone() };
    }
    if silent {
        return Outcome::Ambiguous { detail: roll_of(results) };
    }
    Outcome::Rejected { body: results[0].body.clone() }
}

/// What came of an order that was sent over these paths.
pub fn resolve(results: &[PathResult]) -> (r: Outcome)
    ensures
        r@ == resolution(results@, ids_of(results@)),
{
    let mut ids: Vec<Option<String>> = Vec::new();
    for i in 0..results.len()
        invariant
            opt_texts(ids@) == ids_of(results@).take(i as int),
    {
        let ghost before = opt_texts(ids@);
        ids.push(order_id_of(results[i].body.as_str()));
        assert(opt_texts(ids@) =~= before.push(ids_of(results@)[i as int]));
        assert(ids_of(results@).take(i + 1) =~= ids_of(results@).take(i as int).push(
            ids_of(results@)[i as int],
        ));
    }
    assert(ids_of(results@).take(results@.len() as int) =~= ids_of(results@));
    assert(opt_texts(ids@).len() == ids@.len());
    resolve_with(results, &ids)
}

/// What sending over one path brought.
#[derive(Debug)]
pub enum Sent {
    Answer(u16, String),
    Error(String),
    Timeout,
}

/// The answer of a path; what is no answer of the venue has the status zero.
pub fn reply(path: &str, sent: Sent, ms: i64) -> (r: PathResult)
    ensures
        r.path@ == path@,
        r.ms == ms,
        match sent {
            Sent::Answer(http, body) => r.http == http && r.body@ == body@,
            Sent::Error(e) => r.http == 0 && r.body@ == "{\"transport_error\":\""@ + e@ + "\"}"@,
            Sent::Timeout => r.http == 0 && r.body@ == "{\"transport_error\":\"timeout\"}"@,
        },
{
    match sent {
        Sent::Answer(http, body) => PathResult { path: owned(path), http, body, ms },
        Sent::Error(e) => {
            let mut body = owned("{\"transport_error\":\"");
            body.append(e.as_str());
            body.append("\"}");
            PathResult { path: owned(path), http: 0, body, ms }
        },
        Sent::Timeout => PathResult {
            path: owned(path),
            http: 0,
            body: owned("{\"transport_error\":\"timeout\"}"),
            ms,
        },
    }
}

/// What is known once the answer of one path is taken in while `pending` others are
/// outstanding: the answers, and what came of the order where that is decided. A match is
/// decided at once; anything else waits for the others, since a later match outranks it.
pub open spec fn stepped(results: Seq<PathResult>, next: PathResult, pending: int) -> (
    Seq<PathResult>,
    Option<OutcomeView>,
) {
    let all = results.push(next);
    (
        all,
        if pending == 0 || is_matched(next.body@) {
            Some(resolution(all, ids_of(all)))
        } else {
            None
        },
    )
}

/// Takes the answer of one path in; nothing means: wait. See [`stepped`].
pub fn race_step(results: &mut Vec<PathResult>, next: PathResult, pending: usize) -> (r: Option<
    Outcome,
>)
    ensures
        final(results)@ == stepped(old(results)@, next, pending as int).0,
        match stepped(old(results)@, next, pending as int).1 {
            Some(v) => r matches Some(o) && o@ == v,
            None => r is None,
        },
{
    let decisive = looks_matched(next.body.as_str());
    results.push(next);
    if pending == 0 || decisive {
        Some(resolve(results.as_slice()))
    } else {
        None
    }
}

/// How a race goes on from these answers when `replies` come in, in this order, one for each
/// path that is outstanding: what came of the order, and the answers that it rests on.
pub open spec fn raced(results: Seq<PathResult>, replies: Seq<PathResult>) -> (
    OutcomeView,
    Seq<PathResult>,
)
    decreases replies.len(),
{
    if replies.len() == 0 {
        (resolution(results, ids_of(results)), results)
    } else {
        let (all, decided) = stepped(results, replies[0], replies.len() - 1);
        match decided {
            Some(o) => (o, all),
            None => raced(all, replies.skip(1)),
        }
    }
}

proof fn race_runs(results: Seq<PathResult>, replies: Seq<PathResult>)
    ensures
        ({
            let (o, heard) = raced(results, replies);
            &&& o == resolution(heard, ids_of(heard))
            &&& results.len() <= heard.len() <= results.len() + replies.len()
            &&& heard == results + replies.take(heard.len() - results.len())
            &&& heard.len() < results.len() + replies.len() ==> heard.len() > results.len()
                && is_matched(heard.last().body@)
            &&& forall|i: int|
                results.len() <= i < heard.len() - 1 ==> !is_matched((#[trigger] heard[i]).body@)
        }),
    decreases replies.len(),
{
    let (o, heard) = raced(results, replies);
    if replies.len() == 0 {
        assert(heard =~= results + replies.take(0));
    } else {
        let (all, decided) = stepped(results, replies[0], replies.len() - 1);
        if decided is Some {
            assert(heard =~= results + replies.take(1));
        } else {
            let rest = replies.skip(1);
            race_runs(all, rest);
            let n = heard.len() - results.len();
            assert(all + rest.take(n - 1) =~= results + replies.take(n));
            assert forall|i: int| results.len() <= i < heard.len() - 1 implies !is_matched(
                (#[trigger] heard[i]).body@,
            ) by {
                if i == results.len() {
                    assert(heard[i] == replies[0]);
                }
            }
        }
    }
}

/// Only a match may end a race early: it is decided by the answers that came in, which are
/// those of all paths unless the last of them is a match, and the only one; no refusal, no
/// resting order and no duplicate cuts it short. A race over no path has no response.
pub proof fn only_a_match_ends_the_race(replies: Seq<PathResult>)
    ensures
        ({
            let (o, heard) = raced(Seq::empty(), replies);
            &&& o == resolution(heard, ids_of(heard))
            &&& heard.len() <= replies.len()
            &&& heard == replies.take(heard.len() as int)
            &&& heard.len() < replies.len() ==> heard.len() > 0 && is_matched(heard.last().body@)
            &&& forall|i: int|
                0 <= i < heard.len() - 1 ==> !is_matched((#[trigger] heard[i]).body@)
            &&& replies.len() == 0 ==> o is NoResponse
        }),
{
    race_runs(Seq::empty(), replies);
    let heard = raced(Seq::empty(), replies).1;
    assert(heard =~= replies.take(heard.len() as int));
}

/// The first answer from `i` on that is a verdict of the venue and no duplicate.
pub open spec fn first_verdict(results: Seq<PathResult>, i: int) -> Option<int>
    decreases results.len() - i,
{
    if i < 0 || i >= results.len() {
        None
    } else if !is_duplicate(results[i].body@) && 0 < results[i].http < 500 {
        Some(i)
    } else {
        first_verdict(results, i + 1)
    }
}

/// What another path said where the outcome is that the venue has the order already; an
/// operator is told of it, for the duplicate is believed over it.
pub fn beside_a_duplicate(o: &Outcome, results: &[PathResult]) -> (r: Option<String>)
    ensures
        match (o@, first_verdict(results@, 0)) {
            (OutcomeView::DuplicateOnly { .. }, Some(i)) => r matches Some(s) && s@
                == text::first_chars(results@[i].body@, 160),
            _ => r is None,
        },
{
    match o {
        Outcome::DuplicateOnly { .. } => {},
        _ => {
            return None;
        },
    }
    for i in 0..results.len()
        invariant
            o@ is DuplicateOnly,
            first_verdict(results@, 0) == first_verdict(results@, i as int),
    {
        let x = &results[i];
        if !looks_duplicate(x.body.as_str()) && 0 < x.http && x.http < 500 {
            return Some(text::head(x.body.as_str(), 160));
        }
    }
    None
}

/// An order that some path says was matched is matched, however the others answered.
pub proof fn match_on_any_path_wins(
    results: Seq<PathResult>,
    ids: Seq<Option<Seq<char>>>,
    i: int,
)
    requires
        0 <= i < results.len(),
        is_matched(results[i].body@),
    ensures
        resolution(results, ids) is Matched,
        resolution(results, ids) matches OutcomeView::Matched { ms, .. } ==> ms <= results[i].ms,
{
    let f = matched_flags(results);
    assert(f[i]);
    quickest_is_in(results, f, results.len() as int);
    quickest_is_least(results, f, results.len() as int, i);
}

proof fn quickest_is_least(results: Seq<PathResult>, counts: Seq<bool>, n: int, i: int)
    requires
        0 <= i < n <= results.len(),
        counts[i],
    ensures
        quickest(results, counts, n) matches Some(b) && results[b].ms <= results[i].ms,
    decreases n,
{
    quickest_is_in(results, counts, n - 1);
    if i < n - 1 {
        quickest_is_least(results, counts, n - 1, i);
    }
}

/// An order that the venue has already is never reported as refused.
pub proof fn duplicate_is_never_a_refusal(
    results: Seq<PathResult>,
    ids: Seq<Option<Seq<char>>>,
    i: int,
)
    requires
        0 <= i < results.len(),
        is_duplicate(results[i].body@),
    ensures
        !(resolution(results, ids) is Rejected),
        !(resolution(results, ids) is Ambiguous),
{
    duplicate_is_found(results, 0, i);
}

proof fn duplicate_is_found(results: Seq<PathResult>, from: int, i: int)
    requires
        0 <= from <= i < results.len(),
        is_duplicate(results[i].body@),
    ensures
        first_duplicate(results, from) is Some,
    decreases i - from,
{
    if from < i && !is_duplicate(results[from].body@) {
        duplicate_is_found(results, from + 1, i);
    }
}

/// Where no path brought a verdict of the venue, and none says that the order was
/// matched, rests or exists, the outcome is unknown and not a refusal.
pub proof fn silence_is_not_a_refusal(results: Seq<PathResult>, ids: Seq<Option<Seq<char>>>)
    requires
        all_silent(results),
    ensures
        !(resolution(results, ids) is Rejected),
{
}

/// Where no path says that an order was matched, one that names it as resting is believed
/// over every duplicate and every refusal.
pub proof fn resting_beats_the_rest(
    results: Seq<PathResult>,
    ids: Seq<Option<Seq<char>>>,
    i: int,
)
    requires
        0 <= i < results.len(),
        is_resting(results[i].body@),
        ids[i] is Some,
        forall|k: int| 0 <= k < results.len() ==> !is_matched((#[trigger] results[k]).body@),
    ensures
        resolution(results, ids) is Resting,
{
    let n = results.len() as int;
    let m = matched_flags(results);
    let f = resting_flags(results, ids);
    quickest_is_in(results, m, n);
    if let Some(k) = quickest(results, m, n) {
        assert(m[k] == is_matched(results[k].body@));
    }
    assert(f[i]);
    quickest_is_in(results, f, n);
}

} // verus!
