//! A log in numbered files: which file is whose, when a new one is begun, and which go
//! when there is too much.

use vstd::prelude::*;
use crate::json;
use crate::json::{count_json, plain_json, put, Json, JsonView};
use crate::numerals;
use crate::sorting;
use crate::text;
use crate::text::owned;
use crate::units;
use crate::units::{less, plus};
use crate::words;

verus! {

/// How many bytes a log may hold unless it is told otherwise.
pub const DEFAULT_CAP_BYTES: u64 = 1_073_741_824;

/// From how many bytes on a file is full.
pub const SEGMENT_BYTES: u64 = 67_108_864;

/// The name of a log's file of a number, six digits at least.
pub open spec fn name_of(name: Seq<char>, n: nat) -> Seq<char> {
    name + "-"@ + (if n < 1_000_000 {
        text::pad(n, 6)
    } else {
        text::dec(n)
    }) + ".jsonl"@
}

/// The name of a log's file of a number; see [`name_of`].
pub fn segment_name(name: &str, n: u64) -> (r: String)
    ensures
        r@ == name_of(name@, n as nat),
{
    let mut s = owned(name);
    s.append("-");
    if n < 1_000_000 {
        s.append(text::pad_u128(n as u128, 6).as_str());
    } else {
        s.append(text::dec_u128(n as u128).as_str());
    }
    s.append(".jsonl");
    s
}

/// A number of digits alone, with or without a plus sign, that fits 64 bits.
pub open spec fn number_in(s: Seq<char>) -> Option<int> {
    let d = if s.len() > 0 && s[0] == '+' {
        s.skip(1)
    } else {
        s
    };
    if d.len() > 0 && d[0] == '-' {
        None
    } else {
        units::integer(d)
    }
}

/// The number of a log's file, by its name; nothing where the file is none of the log's.
pub open spec fn number_of(file: Seq<char>, name: Seq<char>) -> Option<int> {
    let head = name + "-"@;
    let tail = ".jsonl"@;
    if head.len() + tail.len() > file.len() || file.take(head.len() as int) != head || file.skip(
        file.len() - tail.len(),
    ) != tail {
        None
    } else {
        number_in(file.subrange(head.len() as int, file.len() - tail.len()))
    }
}

/// The number of a log's file; see [`number_of`].
pub fn segment_number(file: &str, name: &str) -> (r: Option<u64>)
    ensures
        match number_of(file@, name@) {
            Some(n) => r matches Some(m) && m == n,
            None => r is None,
        },
{
    let mut h = owned(name);
    h.append("-");
    let head = text::chars_of(h.as_str());
    let tail = text::chars_of(".jsonl");
    let f = text::chars_of(file);
    let (n, a, b) = (f.len(), head.len(), tail.len());
    if a > n || b > n - a {
        return None;
    }
    let front = text::slice_of(&f, 0, a);
    let back = text::slice_of(&f, n - b, n);
    assert(front@ =~= f@.take(a as int));
    assert(back@ =~= f@.skip(n - b));
    if !text::same(text::text_of(&front).as_str(), h.as_str()) || !text::same(
        text::text_of(&back).as_str(),
        ".jsonl",
    ) {
        return None;
    }
    let mid = text::slice_of(&f, a, n - b);
    let from: usize = if mid.len() > 0 && mid[0] == '+' {
        1
    } else {
        0
    };
    let d = text::slice_of(&mid, from, mid.len());
    assert(d@ =~= (if mid@.len() > 0 && mid@[0] == '+' {
        mid@.skip(1)
    } else {
        mid@
    }));
    if d.len() > 0 && d[0] == '-' {
        return None;
    }
    match units::read_integer(text::text_of(&d).as_str()) {
        Some(v) => {
            assert(0 <= v <= u64::MAX);
            Some(v as u64)
        },
        None => None,
    }
}

/// A segment after one more line, and whether the next line goes to another.
pub open spec fn grown(seg_bytes: u64, line_bytes: u64) -> (u64, bool) {
    let n = units::plus_capped(units::plus_capped(seg_bytes, line_bytes), 1);
    (n, n >= SEGMENT_BYTES)
}

/// How far a file is filled after a line was written to it, and whether it is full.
pub fn after_write(seg_bytes: u64, line_bytes: u64) -> (r: (u64, bool))
    ensures
        r.0 == units::plus_capped(units::plus_capped(seg_bytes, line_bytes), 1),
        r.1 == (r.0 >= SEGMENT_BYTES),
        r == grown(seg_bytes, line_bytes),
{
    let n = plus(plus(seg_bytes, line_bytes), 1);
    (n, n >= SEGMENT_BYTES)
}

/// The largest of these numbers, zero where there is none.
pub open spec fn largest(v: Seq<u64>) -> u64
    decreases v.len(),
{
    if v.len() == 0 {
        0
    } else if v.last() > largest(v.drop_last()) {
        v.last()
    } else {
        largest(v.drop_last())
    }
}

/// The file that a log goes on with: the one of the largest number.
pub fn resume_at(numbers: &[u64]) -> (r: u64)
    ensures
        r == largest(numbers@),
{
    let mut m: u64 = 0;
    for i in 0..numbers.len()
        invariant
            m == largest(numbers@.take(i as int)),
    {
        assert(numbers@.take(i + 1).drop_last() =~= numbers@.take(i as int));
        if numbers[i] > m {
            m = numbers[i];
        }
    }
    assert(numbers@.take(numbers@.len() as int) =~= numbers@);
    m
}

/// How many bytes these files hold together.
pub open spec fn bytes_in(v: Seq<(u64, u64)>) -> u64
    decreases v.len(),
{
    if v.len() == 0 {
        0
    } else {
        units::plus_capped(bytes_in(v.drop_last()), v.last().1)
    }
}

/// How many bytes these files, each with its number and its size, hold together.
pub fn total_bytes(segments: &[(u64, u64)]) -> (r: u64)
    ensures
        r == bytes_in(segments@),
{
    let mut t: u64 = 0;
    for i in 0..segments.len()
        invariant
            t == bytes_in(segments@.take(i as int)),
    {
        assert(segments@.take(i + 1).drop_last() =~= segments@.take(i as int));
        t = plus(t, segments[i].1);
    }
    assert(segments@.take(segments@.len() as int) =~= segments@);
    t
}

/// How early each file was begun.
pub open spec fn ages(v: Seq<(u64, u64)>) -> Seq<i128> {
    v.map_values(|s: (u64, u64)| (-(s.0 as int)) as i128)
}

/// These files from the smallest number up.
pub open spec fn arranged(v: Seq<(u64, u64)>, order: Seq<usize>) -> Seq<(u64, u64)> {
    Seq::new(v.len(), |i: int| v[order[i] as int])
}

/// The files that go, of files from the smallest number up: the oldest, but never the
/// one that is written to, until no more than `cap` bytes are left.
pub open spec fn doomed(v: Seq<(u64, u64)>, active: u64, total: u64, cap: u64) -> Seq<u64>
    decreases v.len(),
{
    if v.len() == 0 {
        Seq::empty()
    } else if v[0].0 == active {
        doomed(v.skip(1), active, total, cap)
    } else if total <= cap {
        Seq::empty()
    } else {
        seq![v[0].0] + doomed(v.skip(1), active, units::minus_floored(total, v[0].1), cap)
    }
}

/// These files in order of their numbers.
pub fn sorted_segments(segments: &[(u64, u64)]) -> (r: Vec<(u64, u64)>)
    ensures
        exists|order: Seq<usize>| #[trigger]
            sorting::ranks(order, ages(segments@)) && r@ == arranged(segments@, order),
{
    let mut keys: Vec<i128> = Vec::new();
    for i in 0..segments.len()
        invariant
            keys@ == ages(segments@).take(i as int),
    {
        keys.push(-(segments[i].0 as i128));
        assert(keys@ =~= ages(segments@).take(i + 1));
    }
    assert(keys@ =~= ages(segments@));
    let order = sorting::rank(&keys);
    let mut out: Vec<(u64, u64)> = Vec::new();
    for i in 0..order.len()
        invariant
            sorting::ranks(order@, ages(segments@)),
            out@ == arranged(segments@, order@).take(i as int),
    {
        assert(order@[i as int] < ages(segments@).len());
        out.push(segments[order[i]]);
        assert(out@ =~= arranged(segments@, order@).take(i + 1));
    }
    assert(out@ =~= arranged(segments@, order@));
    out
}

/// The numbers of the files that go; see [`doomed`].
pub fn plan_eviction(segments: &[(u64, u64)], active: u64, cap: u64) -> (r: Vec<u64>)
    ensures
        exists|order: Seq<usize>| #[trigger]
            sorting::ranks(order, ages(segments@)) && r@ == doomed(
                arranged(segments@, order),
                active,
                bytes_in(segments@),
                cap,
            ),
{
    let v = sorted_segments(segments);
    let mut total = total_bytes(segments);
    let ghost order = choose|order: Seq<usize>| #[trigger]
        sorting::ranks(order, ages(segments@)) && v@ == arranged(segments@, order);
    let ghost all = doomed(v@, active, total, cap);
    let mut out: Vec<u64> = Vec::new();
    let mut i: usize = 0;
    assert(v@.skip(0) =~= v@);
    assert(out@ + all =~= all);
    while i < v.len()
        invariant
            i <= v@.len(),
            sorting::ranks(order, ages(segments@)),
            all == doomed(arranged(segments@, order), active, bytes_in(segments@), cap),
            all == out@ + doomed(v@.skip(i as int), active, total, cap),
        decreases v@.len() - i,
    {
        let ghost rest = v@.skip(i as int);
        assert(rest.skip(1) =~= v@.skip(i + 1));
        if v[i].0 != active {
            if total <= cap {
                assert(out@ + Seq::<u64>::empty() =~= out@);
                assert(sorting::ranks(order, ages(segments@)) && out@ == all);
                return out;
            }
            let ghost before = out@;
            let ghost more = doomed(rest.skip(1), active, units::minus_floored(total, rest[0].1), cap);
            out.push(v[i].0);
            assert(before + (seq![rest[0].0] + more) =~= out@ + more);
            total = less(total, v[i].1);
        }
        i = i + 1;
    }
    assert(out@ + Seq::<u64>::empty() =~= out@);
    assert(sorting::ranks(order, ages(segments@)));
    out
}

/// How much of its room a log takes, in tenths of a hundredth rounded half up; not known
/// where it has no room.
pub open spec fn filled(total: u64, cap: u64) -> JsonView {
    if cap == 0 {
        JsonView::Null
    } else {
        JsonView::Number(text::plain(words::nearest(total * 1_000, cap as int), 1))
    }
}

/// A log's state for a status page.
pub fn status(total: u64, cap: u64, segment: u64, evicted: u64, write_errors: u64) -> (r: Json)
    ensures
        r@ == JsonView::Fields(
            seq![
                ("bytes"@, JsonView::Number(text::dec(total as nat))),
                ("cap"@, JsonView::Number(text::dec(cap as nat))),
                ("pct"@, filled(total, cap)),
                ("segment"@, JsonView::Number(text::dec(segment as nat))),
                ("evicted_segments"@, JsonView::Number(text::dec(evicted as nat))),
                ("write_errors"@, JsonView::Number(text::dec(write_errors as nat))),
            ],
        ),
{
    let pct = if cap == 0 {
        Json::Null
    } else {
        let x = words::scaled(total as u128, 1_000, cap as u128);
        assert(words::nearest(total * 1_000, cap as int) <= 2 * total * 1_000 + 1) by (nonlinear_arith)
            requires
                cap > 0,
                words::nearest(total * 1_000, cap as int) == (2 * (total * 1_000) + cap) / (2
                    * cap as int),
        ;
        plain_json(x as i128, 1)
    };
    let mut f = json::no_fields();
    put(&mut f, "bytes", count_json(total as u128));
    put(&mut f, "cap", count_json(cap as u128));
    put(&mut f, "pct", pct);
    put(&mut f, "segment", count_json(segment as u128));
    put(&mut f, "evicted_segments", count_json(evicted as u128));
    put(&mut f, "write_errors", count_json(write_errors as u128));
    assert(json::shown_fields(f@) =~= seq![
        ("bytes"@, JsonView::Number(text::dec(total as nat))),
        ("cap"@, JsonView::Number(text::dec(cap as nat))),
        ("pct"@, filled(total, cap)),
        ("segment"@, JsonView::Number(text::dec(segment as nat))),
        ("evicted_segments"@, JsonView::Number(text::dec(evicted as nat))),
        ("write_errors"@, JsonView::Number(text::dec(write_errors as nat))),
    ]);
    Json::Fields(f)
}

/// The file that is written to never goes.
pub proof fn active_segment_survives(
    v: Seq<(u64, u64)>,
    active: u64,
    total: u64,
    cap: u64,
)
    ensures
        !doomed(v, active, total, cap).contains(active),
    decreases v.len(),
{
    if v.len() > 0 {
        if v[0].0 == active {
            active_segment_survives(v.skip(1), active, total, cap);
        } else if total > cap {
            let t = units::minus_floored(total, v[0].1);
            active_segment_survives(v.skip(1), active, t, cap);
            let rest = doomed(v.skip(1), active, t, cap);
            let d = doomed(v, active, total, cap);
            assert(d =~= seq![v[0].0] + rest);
            if d.contains(active) {
                let i = d.index_of(active);
                assert(rest[i - 1] == active);
            }
        }
    }
}

/// A file's name gives back its number: a log that is opened again goes on where it was.
pub proof fn number_reads_back(name: Seq<char>, n: u64)
    ensures
        number_of(name_of(name, n as nat), name) == Some(n as int),
{
    let head = name + "-"@;
    let tail = ".jsonl"@;
    let m = if n < 1_000_000 {
        text::pad(n as nat, 6)
    } else {
        text::dec(n as nat)
    };
    let file = name_of(name, n as nat);
    if n < 1_000_000 {
        reveal_with_fuel(text::pow10, 7);
        numerals::padded_reads_back(n as nat, 6);
    } else {
        numerals::begins_with_digit(n as nat);
        numerals::integer_reads_back(n as int);
    }
    assert(file =~= head + m + tail);
    assert(file.take(head.len() as int) =~= head);
    assert(file.skip(file.len() - tail.len()) =~= tail);
    assert(file.subrange(head.len() as int, file.len() - tail.len()) =~= m);
}

} // verus!
