//! Text: what is kept of it and how numbers are written.

use vstd::prelude::*;
use crate::numerals;
use crate::text;
use crate::units;

verus! {

/// Rounding goes to the nearest, up from the middle.
pub proof fn rounding_is_to_the_nearest(m: nat, unit: nat)
    requires
        unit > 0,
        unit % 2 == 0 || unit == 1,
    ensures
        -(unit as int) < 2 * (m - text::rounded(m, unit) * unit) < unit || 2 * (m - text::rounded(
            m,
            unit,
        ) * unit) == -(unit as int),
{
    let a = (m + unit / 2) as int;
    let u = unit as int;
    vstd::arithmetic::div_mod::lemma_fundamental_div_mod(a, u);
    vstd::arithmetic::div_mod::lemma_mod_bound(a, u);
    let q = a / u;
    assert(q * u == u * q) by (nonlinear_arith);
    assert(text::rounded(m, unit) * unit == q * u);
}

/// A number that is written with fewer places reads back as the nearest number of so many
/// places.
pub proof fn what_is_written_is_nearest(m: nat, scale: nat, places: nat, cap: int)
    requires
        places <= scale,
        text::rounded(m, text::pow10((scale - places) as nat)) <= cap,
        text::pow10((scale - places) as nat) > 0,
    ensures
        units::decimal(text::fixed(m as int, scale, places), places as int, cap) == Some(
            Some(text::rounded(m, text::pow10((scale - places) as nat)) as int),
        ),
{
    let q = text::rounded(m, text::pow10((scale - places) as nat));
    assert(text::pow10(0) == 1);
    assert(text::rounded(q, 1) == q);
    assert((places - places) as nat == 0);
    assert(text::fixed(q as int, places, places) =~= text::fixed(m as int, scale, places));
    numerals::decimal_reads_back(q as int, places, cap);
}

/// Ten to a power is ten times the power before.
pub proof fn powers_of_ten(k: nat)
    ensures
        text::pow10(0) == 1,
        text::pow10(k + 1) == 10 * text::pow10(k),
{
}

/// What is trimmed has no space at its ends, and only spaces were taken from there.
pub proof fn trimming_takes_only_spaces(s: Seq<char>)
    ensures
        ({
            let t = text::trimmed(s);
            &&& t.len() > 0 ==> !text::is_space(t[0]) && !text::is_space(t.last())
            &&& exists|i: int|
                0 <= i && i + t.len() <= s.len() && #[trigger] s.subrange(i, i + t.len() as int) == t
                    && (forall|k: int| 0 <= k < i ==> text::is_space(#[trigger] s[k])) && (forall|k: int|
                    i + t.len() <= k < s.len() ==> text::is_space(#[trigger] s[k]))
        }),
{
    front(s);
    let f = text::trim_front(s);
    let i = choose|i: int|
        0 <= i <= s.len() && #[trigger] s.skip(i) == f && forall|k: int|
            0 <= k < i ==> text::is_space(#[trigger] s[k]);
    back(f);
    let t = text::trimmed(s);
    assert(t == f.take(t.len() as int));
    assert(s.subrange(i, i + t.len() as int) =~= t) by {
        assert(f.take(t.len() as int) =~= s.subrange(i, i + t.len() as int));
    }
    assert forall|k: int| i + t.len() <= k < s.len() implies text::is_space(#[trigger] s[k]) by {
        assert(f[k - i] == s[k]);
    }
}

proof fn front(s: Seq<char>)
    ensures
        exists|i: int|
            0 <= i <= s.len() && #[trigger] s.skip(i) == text::trim_front(s) && forall|k: int|
                0 <= k < i ==> text::is_space(#[trigger] s[k]),
        text::trim_front(s).len() > 0 ==> !text::is_space(text::trim_front(s)[0]),
    decreases s.len(),
{
    if s.len() > 0 && text::is_space(s[0]) {
        let r = s.skip(1);
        front(r);
        let j = choose|j: int|
            0 <= j <= r.len() && #[trigger] r.skip(j) == text::trim_front(r) && forall|k: int|
                0 <= k < j ==> text::is_space(#[trigger] r[k]);
        assert(s.skip(j + 1) =~= r.skip(j));
        assert forall|k: int| 0 <= k < j + 1 implies text::is_space(#[trigger] s[k]) by {
            if k > 0 {
                assert(r[k - 1] == s[k]);
            }
        }
    } else {
        assert(s.skip(0) =~= s);
    }
}

proof fn back(s: Seq<char>)
    ensures
        text::trim_back(s).len() <= s.len(),
        text::trim_back(s) == s.take(text::trim_back(s).len() as int),
        forall|k: int| text::trim_back(s).len() <= k < s.len() ==> text::is_space(#[trigger] s[k]),
        text::trim_back(s).len() > 0 ==> !text::is_space(text::trim_back(s).last()),
    decreases s.len(),
{
    if s.len() > 0 && text::is_space(s.last()) {
        let r = s.drop_last();
        back(r);
        let n = text::trim_back(s).len() as int;
        assert(r.take(n) =~= s.take(n));
        assert forall|k: int| n <= k < s.len() implies text::is_space(#[trigger] s[k]) by {
            if k < r.len() {
                assert(r[k] == s[k]);
            }
        }
    } else {
        assert(s.take(s.len() as int) =~= s);
    }
}

/// Lower case is lower case already, and changes only letters that have one.
pub proof fn lower_case_is_lower(s: Seq<char>)
    ensures
        text::lower_of(text::lower_of(s)) == text::lower_of(s),
        text::lower_of(s).len() == s.len(),
        forall|i: int|
            0 <= i < s.len() && !('A' <= s[i] <= 'Z') ==> (#[trigger] text::lower_of(s)[i]) == s[i],
        forall|i: int|
            0 <= i < s.len() && 'A' <= s[i] <= 'Z' ==> (#[trigger] text::lower_of(s)[i]) as int
                - 'a' as int == s[i] as int - 'A' as int,
{
    assert(text::lower_of(text::lower_of(s)) =~= text::lower_of(s));
}

/// The value of a digit of sixteen.
pub open spec fn hex_value(c: char) -> int {
    if '0' <= c <= '9' {
        c as int - '0' as int
    } else if 'a' <= c <= 'f' {
        c as int - 'a' as int + 10
    } else {
        -1
    }
}

/// Bytes are written as two digits each, the high one first, so the bytes can be read back.
pub proof fn hex_writes_two_digits_a_byte(b: Seq<u8>)
    ensures
        text::hex_of(b).len() == 2 * b.len(),
        forall|i: int|
            0 <= i < b.len() ==> hex_value(text::hex_of(b)[2 * i]) * 16 + hex_value(
                text::hex_of(b)[2 * i + 1],
            ) == #[trigger] b[i],
        forall|k: int|
            0 <= k < text::hex_of(b).len() ==> 0 <= hex_value(#[trigger] text::hex_of(b)[k]) < 16,
    decreases b.len(),
{
    if b.len() > 0 {
        let r = b.drop_last();
        hex_writes_two_digits_a_byte(r);
        let h = text::hex_of(b);
        let g = text::hex_of(r);
        let n = b.last() as int;
        assert(hex_value(text::hex_digit(n / 16)) == n / 16);
        assert(hex_value(text::hex_digit(n % 16)) == n % 16);
        assert forall|i: int| 0 <= i < b.len() implies hex_value(h[2 * i]) * 16 + hex_value(
            h[2 * i + 1],
        ) == #[trigger] b[i] by {
            if i < r.len() {
                assert(r[i] == b[i]);
                assert(h[2 * i] == g[2 * i]);
                assert(h[2 * i + 1] == g[2 * i + 1]);
            }
        }
        assert forall|k: int| 0 <= k < h.len() implies 0 <= hex_value(#[trigger] h[k]) < 16 by {
            if k < g.len() {
                assert(h[k] == g[k]);
            }
        }
    }
}

/// Lines put together again, a break behind each.
pub open spec fn joined(ls: Seq<Seq<char>>) -> Seq<char>
    decreases ls.len(),
{
    if ls.len() == 0 {
        Seq::empty()
    } else {
        ls[0] + seq!['\n'] + joined(ls.skip(1))
    }
}

/// Lines are all that a text holds: put together again they are the text, where it ends in a
/// break and holds no carriage return.
pub proof fn lines_are_the_text(s: Seq<char>, from: int)
    requires
        0 <= from <= s.len(),
        from < s.len() ==> s.last() == '\n',
        forall|k: int| 0 <= k < s.len() ==> #[trigger] s[k] != '\r',
    ensures
        joined(text::lines_from(s, from)) == s.skip(from),
    decreases s.len() - from,
{
    if from < s.len() {
        a_break_is_found(s, from);
        let n = text::next_break(s, from);
        let line = s.subrange(from, n);
        if line.len() > 0 {
            assert(line.last() == s[n - 1]);
        }
        lines_are_the_text(s, n + 1);
        let ls = text::lines_from(s, from);
        assert(ls.skip(1) =~= text::lines_from(s, n + 1));
        assert(s.skip(from) =~= line + seq!['\n'] + s.skip(n + 1));
    } else {
        assert(s.skip(from) =~= Seq::empty());
    }
}

proof fn a_break_is_found(s: Seq<char>, from: int)
    requires
        0 <= from < s.len(),
        s.last() == '\n',
    ensures
        from <= text::next_break(s, from) < s.len(),
        s[text::next_break(s, from)] == '\n',
    decreases s.len() - from,
{
    if s[from] != '\n' {
        a_break_is_found(s, from + 1);
    }
}

/// Text that is cut is a start of the text: up to the character where there is one, all of it
/// where there is none.
pub proof fn cut_is_a_start(s: Seq<char>, c: char)
    ensures
        text::up_to(s, c).len() <= s.len(),
        text::up_to(s, c) == s.take(text::up_to(s, c).len() as int),
        forall|k: int| 0 <= k < text::up_to(s, c).len() ==> #[trigger] s[k] != c,
        text::up_to(s, c).len() < s.len() ==> s[text::up_to(s, c).len() as int] == c,
    decreases s.len(),
{
    if s.len() > 0 && s[0] != c {
        let r = s.skip(1);
        cut_is_a_start(r, c);
        let n = text::up_to(r, c).len() as int;
        assert(text::up_to(s, c) =~= s.take(n + 1)) by {
            assert(s.take(n + 1) =~= seq![s[0]] + r.take(n));
        }
        assert forall|k: int| 0 <= k < n + 1 implies #[trigger] s[k] != c by {
            if k > 0 {
                assert(r[k - 1] == s[k]);
            }
        }
        if n + 1 < s.len() {
            assert(r[n] == s[n + 1]);
        }
    } else {
        assert(s.take(0) =~= Seq::empty());
    }
}

/// What stands behind the last of a character is an end of the text that holds it no more.
pub proof fn what_is_past_is_an_end(s: Seq<char>, c: char)
    ensures
        text::past_last(s, c).len() <= s.len(),
        text::past_last(s, c) == s.skip(s.len() - text::past_last(s, c).len()),
        forall|k: int|
            s.len() - text::past_last(s, c).len() <= k < s.len() ==> #[trigger] s[k] != c,
        text::past_last(s, c).len() < s.len() ==> s[s.len() - text::past_last(s, c).len() - 1] == c,
    decreases s.len(),
{
    if s.len() > 0 && s.last() != c {
        let r = s.drop_last();
        what_is_past_is_an_end(r, c);
        let n = text::past_last(r, c).len() as int;
        assert(text::past_last(s, c) =~= s.skip(s.len() - n - 1)) by {
            assert(s.skip(s.len() - n - 1) =~= r.skip(r.len() - n).push(s.last()));
        }
        assert forall|k: int| s.len() - n - 1 <= k < s.len() implies #[trigger] s[k] != c by {
            if k < r.len() {
                assert(r[k] == s[k]);
            }
        }
        if n + 1 < s.len() {
            assert(r[r.len() - n - 1] == s[s.len() - n - 2]);
        }
    } else {
        assert(s.skip(s.len() as int) =~= Seq::empty());
    }
}

} // verus!
