//! Files of one record a line, where a field that is given twice spoils its record.

use vstd::prelude::*;
use crate::json;
use crate::json::{read_json, Json};
use crate::text;

verus! {

/// Where the text in quotes ends whose characters begin at `i`: past its closing quote.
pub open spec fn quote_end(s: Seq<char>, i: int) -> int
    decreases s.len() - i,
{
    if i >= s.len() {
        s.len() as int
    } else if s[i] == '\\' && i + 1 < s.len() {
        quote_end(s, i + 2)
    } else if s[i] == '"' {
        i + 1
    } else {
        quote_end(s, i + 1)
    }
}

/// The names of the fields of an object from `i` on, in their quotes. So many brackets are
/// open there, and `due` says whether a name comes next.
pub open spec fn names_from(s: Seq<char>, i: int, depth: int, due: bool) -> Seq<Seq<char>>
    decreases s.len() - i,
    via names_from_ends
{
    if i < 0 || i >= s.len() {
        Seq::empty()
    } else if s[i] == '"' {
        let end = quote_end(s, i + 1);
        let rest = names_from(s, end, depth, false);
        if depth == 1 && due {
            seq![s.subrange(i, end)] + rest
        } else {
            rest
        }
    } else if s[i] == '{' || s[i] == '[' {
        names_from(s, i + 1, depth + 1, depth == 0)
    } else if s[i] == '}' || s[i] == ']' {
        names_from(s, i + 1, depth - 1, false)
    } else if s[i] == ',' {
        names_from(s, i + 1, depth, depth == 1)
    } else {
        names_from(s, i + 1, depth, due)
    }
}

#[via_fn]
proof fn names_from_ends(s: Seq<char>, i: int, depth: int, due: bool) {
    if 0 <= i < s.len() {
        quote_end_is_further(s, i + 1);
    }
}

proof fn quote_end_is_further(s: Seq<char>, i: int)
    requires
        0 <= i <= s.len(),
    ensures
        i <= quote_end(s, i) <= s.len(),
        i < s.len() ==> i < quote_end(s, i),
    decreases s.len() - i,
{
    if i < s.len() {
        if s[i] == '\\' && i + 1 < s.len() {
            quote_end_is_further(s, i + 2);
        } else if s[i] != '"' {
            quote_end_is_further(s, i + 1);
        }
    }
}

/// Whether two of these names, which stand in their quotes, are this one.
pub open spec fn twice(names: Seq<Seq<char>>, name: Seq<char>) -> bool {
    exists|i: int, j: int|
        0 <= i < j < names.len() && json::text_in(json::document(#[trigger] names[i])) == Some(name)
            && json::text_in(json::document(#[trigger] names[j])) == Some(name)
}

/// Whether a line is an object that gives one of these fields twice.
pub open spec fn repeats(line: Seq<char>, fields: Seq<Seq<char>>) -> bool {
    exists|k: int|
        0 <= k < fields.len() && twice(names_from(line, 0, 0, false), #[trigger] fields[k])
}

/// The record of a line: what it says as JSON, and nothing where it is an object that gives
/// one of these fields twice.
pub open spec fn record(line: Seq<char>, fields: Seq<Seq<char>>) -> Option<Json> {
    match json::document(line) {
        Some(j) => if j is Fields && repeats(line, fields) {
            None
        } else {
            Some(j)
        },
        None => None,
    }
}

/// The records of these lines, one after the other.
pub open spec fn records(lines: Seq<Seq<char>>, fields: Seq<Seq<char>>) -> Seq<Json>
    decreases lines.len(),
{
    if lines.len() == 0 {
        Seq::empty()
    } else {
        let before = records(lines.drop_last(), fields);
        match record(lines.last(), fields) {
            Some(j) => before.push(j),
            None => before,
        }
    }
}

/// The contents of these texts.
pub open spec fn names_of(v: Seq<&'static str>) -> Seq<Seq<char>> {
    v.map_values(|s: &'static str| s@)
}

fn find_end(v: &Vec<char>, from: usize) -> (r: usize)
    requires
        from <= v@.len(),
    ensures
        r == quote_end(v@, from as int),
        from <= r <= v@.len(),
{
    let mut i: usize = from;
    while i < v.len()
        invariant
            from <= i <= v@.len(),
            quote_end(v@, from as int) == quote_end(v@, i as int),
        decreases v@.len() - i,
    {
        if v[i] == '\\' && v.len() - i > 1 {
            i = i + 2;
        } else if v[i] == '"' {
            return i + 1;
        } else {
            i = i + 1;
        }
    }
    i
}

fn read_names(line: &str) -> (r: Vec<String>)
    ensures
        text::texts(r@) == names_from(line@, 0, 0, false),
{
    let v = text::chars_of(line);
    let mut out: Vec<String> = Vec::new();
    let mut i: usize = 0;
    let mut depth: i128 = 0;
    let mut due = false;
    assert(text::texts(out@) + names_from(v@, 0, 0, false) =~= names_from(v@, 0, 0, false));
    while i < v.len()
        invariant
            v@ == line@,
            i <= v@.len(),
            -(i as int) <= depth <= i,
            names_from(v@, 0, 0, false) == text::texts(out@) + names_from(
                v@,
                i as int,
                depth as int,
                due,
            ),
        decreases v@.len() - i,
    {
        let c = v[i];
        if c == '"' {
            let end = find_end(&v, i + 1);
            if depth == 1 && due {
                let ghost before = text::texts(out@);
                let ghost rest = names_from(v@, end as int, depth as int, false);
                let name = text::text_of(&text::slice_of(&v, i, end));
                let ghost one = name@;
                out.push(name);
                assert(text::texts(out@) =~= before.push(one));
                assert(before + (seq![one] + rest) =~= before.push(one) + rest);
            }
            due = false;
            i = end;
        } else if c == '{' || c == '[' {
            due = depth == 0;
            depth = depth + 1;
            i = i + 1;
        } else if c == '}' || c == ']' {
            due = false;
            depth = depth - 1;
            i = i + 1;
        } else if c == ',' {
            due = depth == 1;
            i = i + 1;
        } else {
            i = i + 1;
        }
    }
    assert(text::texts(out@) + Seq::<Seq<char>>::empty() =~= text::texts(out@));
    out
}

fn is_twice(names: &Vec<String>, name: &str) -> (r: bool)
    ensures
        r == twice(text::texts(names@), name@),
{
    let ghost all = text::texts(names@);
    let mut first: Option<usize> = None;
    for i in 0..names.len()
        invariant
            all == text::texts(names@),
            match first {
                Some(k) => k < i && json::text_in(json::document(all[k as int])) == Some(name@)
                    && forall|j: int|
                    0 <= j < i && j != k ==> json::text_in(json::document(#[trigger] all[j]))
                        != Some(name@),
                None => forall|j: int|
                    0 <= j < i ==> json::text_in(json::document(#[trigger] all[j])) != Some(name@),
            },
    {
        let is_it = match read_json(names[i].as_str()) {
            Some(Json::Text(t)) => text::same(t.as_str(), name),
            _ => false,
        };
        assert(all[i as int] == names@[i as int]@);
        if is_it {
            if let Some(k) = first {
                assert(all[k as int] == all[k as int] && all[i as int] == all[i as int]);
                return true;
            }
            first = Some(i);
        }
    }
    false
}

/// Whether a line is an object that gives one of these fields twice; see [`repeats`].
fn does_repeat(line: &str, fields: &[&'static str]) -> (r: bool)
    ensures
        r == repeats(line@, names_of(fields@)),
{
    let names = read_names(line);
    for k in 0..fields.len()
        invariant
            text::texts(names@) == names_from(line@, 0, 0, false),
            forall|j: int|
                0 <= j < k ==> !twice(
                    names_from(line@, 0, 0, false),
                    #[trigger] names_of(fields@)[j],
                ),
    {
        assert(names_of(fields@)[k as int] == fields@[k as int]@);
        if is_twice(&names, fields[k]) {
            return true;
        }
    }
    false
}

/// Reads the record of a line; see [`record`].
pub fn read_record(line: &str, fields: &[&'static str]) -> (r: Option<Json>)
    ensures
        r == record(line@, names_of(fields@)),
{
    match read_json(line) {
        Some(Json::Fields(f)) => if does_repeat(line, fields) {
            None
        } else {
            Some(Json::Fields(f))
        },
        Some(j) => Some(j),
        None => None,
    }
}

/// Reads the records of a file; see [`records`].
pub fn read_records(raw: &str, fields: &[&'static str]) -> (r: Vec<Json>)
    ensures
        r@ == records(text::lines_of(raw@), names_of(fields@)),
{
    let lines = text::lines(raw);
    let ghost all = text::texts(lines@);
    let mut out: Vec<Json> = Vec::new();
    for i in 0..lines.len()
        invariant
            all == text::texts(lines@),
            out@ == records(all.take(i as int), names_of(fields@)),
    {
        assert(all.take(i + 1).drop_last() =~= all.take(i as int));
        assert(all.take(i + 1).last() == lines@[i as int]@);
        match read_record(lines[i].as_str(), fields) {
            Some(j) => out.push(j),
            None => {},
        }
    }
    assert(all.take(all.len() as int) =~= all);
    out
}

} // verus!
