//! The number of a lane, derived from the address of its leader.

use vstd::prelude::*;
use crate::text;
use crate::text::owned;

verus! {

/// What the number of a lane begins with.
pub const PREFIX: &'static str = "L-";

/// How many hexadecimal digits follow.
pub const HEX_LEN: usize = 12;

/// The hexadecimal digits of a text, in order.
pub open spec fn hex_only(s: Seq<char>) -> Seq<char>
    decreases s.len(),
{
    if s.len() == 0 {
        Seq::empty()
    } else if text::is_hex(s.last()) {
        hex_only(s.drop_last()).push(s.last())
    } else {
        hex_only(s.drop_last())
    }
}

/// The hexadecimal digits of a text, in order; see [`hex_only`].
pub fn hex_digits(v: &Vec<char>) -> (r: Vec<char>)
    ensures
        r@ == hex_only(v@),
        forall|i: int| 0 <= i < r@.len() ==> text::is_hex(#[trigger] r@[i]),
{
    let mut out: Vec<char> = Vec::new();
    for i in 0..v.len()
        invariant
            out@ == hex_only(v@.take(i as int)),
            forall|k: int| 0 <= k < out@.len() ==> text::is_hex(#[trigger] out@[k]),
    {
        assert(v@.take(i + 1).drop_last() =~= v@.take(i as int));
        let c = v[i];
        if ('0' <= c && c <= '9') || ('a' <= c && c <= 'f') || ('A' <= c && c <= 'F') {
            out.push(c);
        }
    }
    assert(v@.take(v@.len() as int) =~= v@);
    out
}

/// An address without case, mark or anything that is no digit.
pub open spec fn normal(leader: Seq<char>) -> Seq<char> {
    hex_only(text::bare(text::lower_of(text::trimmed(leader))))
}

/// The hash of these characters by the method of Fowler, Noll and Vo.
pub open spec fn fnv(s: Seq<char>) -> u64
    decreases s.len(),
{
    if s.len() == 0 {
        0xcbf2_9ce4_8422_2325
    } else {
        vstd::wrapping::u64_specs::wrapping_mul(
            fnv(s.drop_last()) ^ (s.last() as u64),
            0x100_0000_01b3,
        )
    }
}

/// The last twelve hexadecimal digits of a number.
pub open spec fn hex12(h: u64) -> Seq<char> {
    Seq::new(12, |i: int| text::hex_digit(nibble(h as int, 11 - i)))
}

/// The hexadecimal digit of a number at a place.
pub open spec fn nibble(h: int, place: int) -> int
    decreases place,
{
    if place <= 0 {
        h % 16
    } else {
        nibble(h / 16, place - 1)
    }
}

/// The number of the lane that copies a leader.
pub open spec fn lane_id(leader: Seq<char>) -> Seq<char> {
    "L-"@ + hex12(fnv(normal(leader)))
}

fn nibble_of(h: u64, place: u8) -> (r: u8)
    ensures
        r == nibble(h as int, place as int),
        r < 16,
{
    let mut rest: u64 = h;
    let mut k: u8 = place;
    while k > 0
        invariant
            k <= place,
            nibble(h as int, place as int) == nibble(rest as int, k as int),
        decreases k,
    {
        rest = rest / 16;
        k = k - 1;
    }
    (rest % 16) as u8
}

/// The number of the lane that copies a leader; see [`lane_id`].
pub fn mint(leader: &str) -> (r: String)
    ensures
        r@ == lane_id(leader@),
{
    let v = text::trim(&text::chars_of(leader));
    let lower = text::lower_chars(text::text_of(&v).as_str());
    let norm = hex_digits(&text::strip_0x(&lower));
    let mut h: u64 = 0xcbf2_9ce4_8422_2325;
    for i in 0..norm.len()
        invariant
            h == fnv(norm@.take(i as int)),
            forall|k: int| 0 <= k < norm@.len() ==> text::is_hex(#[trigger] norm@[k]),
    {
        assert(norm@.take(i + 1).drop_last() =~= norm@.take(i as int));
        assert(text::is_hex(norm@[i as int]));
        h = (h ^ (norm[i] as u64)).wrapping_mul(0x100_0000_01b3);
    }
    assert(norm@.take(norm@.len() as int) =~= norm@);
    let mut d: Vec<char> = Vec::new();
    for i in 0..12usize
        invariant
            d@ == hex12(h).take(i as int),
    {
        d.push(text::hex_char(nibble_of(h, (11 - i) as u8)));
        assert(d@ =~= hex12(h).take(i + 1));
    }
    assert(d@ =~= hex12(h));
    let mut s = owned(PREFIX);
    s.append(text::text_of(&d).as_str());
    s
}

/// Whether a text has the form of a lane's number.
pub open spec fn is_id(id: Seq<char>) -> bool {
    &&& id.len() == 14
    &&& id[0] == 'L'
    &&& id[1] == '-'
    &&& forall|i: int| 2 <= i < 14 ==> text::is_hex_lower(#[trigger] id[i])
}

/// Whether a text has the form of a lane's number; see [`is_id`].
pub fn is_valid(id: &str) -> (r: bool)
    ensures
        r == is_id(id@),
{
    let v = text::chars_of(id);
    if v.len() != 14 || v[0] != 'L' || v[1] != '-' {
        return false;
    }
    for i in 2..14usize
        invariant
            v@ == id@,
            v@.len() == 14,
            forall|k: int| 2 <= k < i ==> text::is_hex_lower(#[trigger] v@[k]),
    {
        let c = v[i];
        if !(('0' <= c && c <= '9') || ('a' <= c && c <= 'f')) {
            assert(!text::is_hex_lower(id@[i as int]));
            return false;
        }
    }
    true
}

/// What a stored number is worth.
#[derive(Debug, PartialEq, Eq)]
pub enum Check {
    Mint(String),
    Agrees,
    Conflict { stored: String, expected: String },
    Malformed(String),
}

/// What a stored number is worth, given the one that the leader's address gives: where
/// there is none, it is minted.
pub fn check(stored: Option<&str>, leader: &str) -> (r: Check)
    ensures
        match stored {
            None => r matches Check::Mint(e) && e@ == lane_id(leader@),
            Some(s) => if s@.len() == 0 {
                r matches Check::Mint(e) && e@ == lane_id(leader@)
            } else if !is_id(s@) {
                r matches Check::Malformed(m) && m@ == s@
            } else if s@ == lane_id(leader@) {
                r is Agrees
            } else {
                r matches Check::Conflict { stored: a, expected: b } && a@ == s@ && b@ == lane_id(
                    leader@,
                )
            },
        },
{
    let expected = mint(leader);
    match stored {
        None => Check::Mint(expected),
        Some(s) => {
            if text::chars_of(s).len() == 0 {
                Check::Mint(expected)
            } else if !is_valid(s) {
                Check::Malformed(owned(s))
            } else if text::same(s, expected.as_str()) {
                Check::Agrees
            } else {
                Check::Conflict { stored: owned(s), expected }
            }
        },
    }
}

proof fn nibble_fits(h: int, place: int)
    requires
        h >= 0,
    ensures
        0 <= nibble(h, place) < 16,
    decreases place,
{
    if place > 0 {
        nibble_fits(h / 16, place - 1);
    }
}

/// Every minted number has the form of a lane's number.
pub proof fn minted_is_valid(leader: Seq<char>)
    ensures
        is_id(lane_id(leader)),
{
    reveal_strlit("L-");
    let h = fnv(normal(leader));
    let id = lane_id(leader);
    assert forall|i: int| 2 <= i < 14 implies text::is_hex_lower(#[trigger] id[i]) by {
        nibble_fits(h as int, 11 - (i - 2));
        assert(id[i] == hex12(h)[i - 2]);
    }
}

proof fn lower_trims_front(s: Seq<char>)
    ensures
        text::trim_front(text::lower_of(s)) == text::lower_of(text::trim_front(s)),
    decreases s.len(),
{
    if s.len() > 0 && text::is_space(s[0]) {
        lower_trims_front(s.skip(1));
        assert(text::lower_of(s).skip(1) =~= text::lower_of(s.skip(1)));
    }
}

proof fn lower_trims_back(s: Seq<char>)
    ensures
        text::trim_back(text::lower_of(s)) == text::lower_of(text::trim_back(s)),
    decreases s.len(),
{
    if s.len() > 0 && text::is_space(s.last()) {
        lower_trims_back(s.drop_last());
        assert(text::lower_of(s).drop_last() =~= text::lower_of(s.drop_last()));
    }
}

/// The letter case of an address makes no other lane.
pub proof fn case_does_not_matter(leader: Seq<char>)
    ensures
        lane_id(text::lower_of(leader)) == lane_id(leader),
{
    lower_trims_front(leader);
    lower_trims_back(text::trim_front(leader));
    let t = text::trimmed(leader);
    assert(text::lower_of(text::lower_of(t)) =~= text::lower_of(t));
}

} // verus!
