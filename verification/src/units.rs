//! Amounts are integers of millionths: a share, a dollar and a price of one are
//! each 1_000_000. The venue settles in the same unit.

use vstd::prelude::*;
use crate::text;
use crate::text::{chars_of, lower_chars, magnitude, same, slice_of, text_of};

verus! {

/// Millionths in one whole.
pub const ONE: i64 = 1_000_000;

/// A quantity that was read from somewhere: a number of millionths, or a reading
/// that is not a finite number at all.
#[derive(Clone, Copy, Debug, PartialEq, Eq, Structural)]
pub enum Qty {
    Finite(i64),
    NotFinite,
}

/// The larger of two integers.
pub open spec fn larger(a: int, b: int) -> int {
    if a >= b {
        a
    } else {
        b
    }
}

/// The smaller of two integers.
pub open spec fn smaller(a: int, b: int) -> int {
    if a <= b {
        a
    } else {
        b
    }
}

/// The distance of an integer from zero.
pub open spec fn size_of(a: int) -> int {
    if a < 0 {
        -a
    } else {
        a
    }
}

/// The larger of two amounts.
pub fn max_of(a: i128, b: i128) -> (r: i128)
    ensures
        r == larger(a as int, b as int),
{
    if a >= b {
        a
    } else {
        b
    }
}

/// The smaller of two amounts.
pub fn min_of(a: i128, b: i128) -> (r: i128)
    ensures
        r == smaller(a as int, b as int),
{
    if a <= b {
        a
    } else {
        b
    }
}

/// The larger of two amounts.
pub fn max64(a: i64, b: i64) -> (r: i64)
    ensures
        r == larger(a as int, b as int),
{
    if a >= b {
        a
    } else {
        b
    }
}

/// The smaller of two amounts.
pub fn min64(a: i64, b: i64) -> (r: i64)
    ensures
        r == smaller(a as int, b as int),
{
    if a <= b {
        a
    } else {
        b
    }
}

/// The magnitude of an amount.
pub fn abs_of(a: i128) -> (r: i128)
    requires
        a > i128::MIN,
    ensures
        r == size_of(a as int),
{
    if a < 0 {
        -a
    } else {
        a
    }
}

/// `a + b`, held at the ends of the range of `u64`.
pub open spec fn plus_capped(a: u64, b: u64) -> u64 {
    if a + b > u64::MAX {
        u64::MAX
    } else {
        (a + b) as u64
    }
}

/// `a - b`, or zero where `b` is the larger.
pub open spec fn minus_floored(a: u64, b: u64) -> u64 {
    if a >= b {
        (a - b) as u64
    } else {
        0
    }
}

/// `a - b`, or zero where `b` is the larger.
pub fn less(a: u64, b: u64) -> (r: u64)
    ensures
        r == minus_floored(a, b),
{
    if a >= b {
        a - b
    } else {
        0
    }
}

/// `a + b`, held at the largest `u64`.
pub fn plus(a: u64, b: u64) -> (r: u64)
    ensures
        r == plus_capped(a, b),
{
    if a > u64::MAX - b {
        u64::MAX
    } else {
        a + b
    }
}

/// Whether `c` is a decimal digit.
pub open spec fn is_digit(c: char) -> bool {
    '0' <= c <= '9'
}

/// How many digits stand in `s` from position `from` on, without a gap.
pub open spec fn digit_run(s: Seq<char>, from: int) -> nat
    decreases s.len() - from,
{
    if 0 <= from < s.len() && is_digit(s[from]) {
        1 + digit_run(s, from + 1)
    } else {
        0
    }
}

/// The digit at position `k`, zero beyond either end.
pub open spec fn digit_at(d: Seq<char>, k: int) -> nat {
    if 0 <= k < d.len() {
        (d[k] as int - 48) as nat
    } else {
        0
    }
}

/// The number that the first `p` digits write, with zeros past the end.
pub open spec fn leading(d: Seq<char>, p: int) -> nat
    decreases p,
{
    if p <= 0 {
        0
    } else {
        leading(d, p - 1) * 10 + digit_at(d, p - 1)
    }
}

/// An exponent beyond this is read as this: what it scales is zero or out of range.
pub const EXPONENT_CAP: i128 = 1_000_000_000_000;

/// The digits `d` with the decimal point after the first `point` of them, rounded
/// half away from zero to a whole number and held at `cap`.
pub open spec fn whole(d: Seq<char>, point: int, cap: int) -> int {
    smaller(leading(d, point) + (if digit_at(d, point) >= 5 { 1int } else { 0 }), cap)
}

/// The value of the exponent part `e`, which starts at its `e` or `E`; nothing
/// where it is malformed.
pub open spec fn exponent(e: Seq<char>) -> Option<int> {
    if e.len() == 0 {
        Some(0int)
    } else if e[0] != 'e' && e[0] != 'E' {
        None
    } else {
        let signed = e.len() > 1 && (e[1] == '-' || e[1] == '+');
        let from: int = if signed { 2 } else { 1 };
        let n = digit_run(e, from);
        if n == 0 || from + n != e.len() {
            None
        } else {
            let v = smaller(leading(e.skip(from), n as int) as int, EXPONENT_CAP as int);
            Some(if signed && e[1] == '-' { -v } else { v })
        }
    }
}

/// Whether `s` spells infinity or not-a-number, in any case.
pub open spec fn is_special(s: Seq<char>) -> bool {
    ||| text::lower_of(s) == "inf"@
    ||| text::lower_of(s) == "infinity"@
    ||| text::lower_of(s) == "nan"@
}

/// The digits of a number without its sign, and how many of them stand before its
/// decimal point once the exponent has moved it; nothing where the text is no number.
pub open spec fn digits_in(b: Seq<char>) -> Option<(Seq<char>, int)> {
    let i = digit_run(b, 0) as int;
    let dotted = i < b.len() && b[i] == '.';
    let j = if dotted { i + 1 } else { i };
    let k = j + digit_run(b, j);
    if i + (k - j) == 0 {
        None
    } else {
        match exponent(b.skip(k)) {
            Some(e) => Some((b.take(i) + b.subrange(j, k), i + e)),
            None => None,
        }
    }
}

/// The text of a number without its sign, in units of `places` decimal places.
pub open spec fn unsigned_scaled(b: Seq<char>, places: int, cap: int) -> Option<int> {
    match digits_in(b) {
        Some((d, point)) => Some(whole(d, point + places, cap)),
        None => None,
    }
}

/// Whether any of the digits from position `from` on is not zero.
pub open spec fn nonzero_from(d: Seq<char>, from: int) -> bool {
    exists|k: int| from <= k && 0 <= k < d.len() && #[trigger] d[k] != '0'
}

/// Where a number lies: under zero, between zero and a billionth, or over that. Every
/// digit of its text counts.
#[derive(Debug, Clone, Copy, PartialEq, Eq, Structural)]
pub enum Trace {
    Negative,
    Nothing,
    Something,
}

/// Whether digits with the decimal point after the first `point` write more than a
/// billionth.
pub open spec fn over_billionth(d: Seq<char>, point: int) -> bool {
    ||| leading(d, point + 9) > 1
    ||| leading(d, point + 9) == 1 && nonzero_from(d, point + 9)
}

/// Where the number that a text writes lies; nothing for a text that writes none, or
/// that spells infinity or not-a-number.
pub open spec fn trace(s: Seq<char>) -> Option<Trace> {
    let signed = s.len() > 0 && (s[0] == '-' || s[0] == '+');
    let body = if signed { s.skip(1) } else { s };
    if is_special(body) {
        None
    } else {
        match digits_in(body) {
            None => None,
            Some((d, point)) => Some(
                if signed && s[0] == '-' {
                    if nonzero_from(d, 0) {
                        Trace::Negative
                    } else {
                        Trace::Nothing
                    }
                } else if over_billionth(d, point) {
                    Trace::Something
                } else {
                    Trace::Nothing
                },
            ),
        }
    }
}

/// What a decimal number written as text stands for, in units of `places` decimal
/// places: an optional sign, digits with an optional point among them, an optional
/// exponent; or one of the words for infinity and not-a-number, which have no value.
/// Nothing else is a number.
pub open spec fn decimal(s: Seq<char>, places: int, cap: int) -> Option<Option<int>> {
    let signed = s.len() > 0 && (s[0] == '-' || s[0] == '+');
    let body = if signed { s.skip(1) } else { s };
    if is_special(body) {
        Some(None)
    } else {
        match unsigned_scaled(body, places, cap) {
            Some(v) => Some(Some(if signed && s[0] == '-' { -v } else { v })),
            None => None,
        }
    }
}

/// A decimal number in millionths, held at the ends of the range of `i64`.
pub open spec fn number(s: Seq<char>) -> Option<Qty> {
    match decimal(s, 6, i64::MAX as int) {
        None => None,
        Some(None) => Some(Qty::NotFinite),
        Some(Some(v)) => Some(Qty::Finite(v as i64)),
    }
}

/// A number as it arrives from outside: finite, or one of the values that are not.
#[derive(Debug, PartialEq, Eq)]
pub enum Reading<T> {
    Finite(T),
    Infinite,
    MinusInfinite,
    NotANumber,
}

impl<T: Copy> Copy for Reading<T> {}

impl<T: Copy> Clone for Reading<T> {
    fn clone(&self) -> (r: Self)
        ensures
            r == *self,
    {
        *self
    }
}

impl<T> Reading<T> {
    /// How a number that is not finite is written.
    pub open spec fn word(self) -> Seq<char> {
        match self {
            Reading::Infinite => "inf"@,
            Reading::MinusInfinite => "-inf"@,
            _ => "NaN"@,
        }
    }

    /// How a number that is not finite is written; see [`Reading::word`].
    pub fn name(&self) -> (r: &'static str)
        ensures
            r@ == self.word(),
    {
        match self {
            Reading::Infinite => "inf",
            Reading::MinusInfinite => "-inf",
            _ => "NaN",
        }
    }
}

/// A decimal number in millionths, or the word for one that is not finite.
pub open spec fn reading(s: Seq<char>) -> Option<Reading<i64>> {
    let signed = s.len() > 0 && (s[0] == '-' || s[0] == '+');
    let body = if signed { s.skip(1) } else { s };
    match number(s) {
        None => None,
        Some(Qty::Finite(v)) => Some(Reading::Finite(v)),
        Some(Qty::NotFinite) => Some(
            if text::lower_of(body) == "nan"@ {
                Reading::NotANumber
            } else if signed && s[0] == '-' {
                Reading::MinusInfinite
            } else {
                Reading::Infinite
            },
        ),
    }
}

/// The largest amount that there is in units of twelve places: the largest `i128`.
pub const AMOUNT_CAP: i128 = 0x7fff_ffff_ffff_ffff_ffff_ffff_ffff_ffff;

/// A decimal number in units of twelve places.
pub open spec fn pico(s: Seq<char>) -> Option<Option<int>> {
    decimal(s, 12, AMOUNT_CAP as int)
}

proof fn leading_grows(d: Seq<char>, k: int, p: int)
    requires
        0 <= k <= p,
    ensures
        leading(d, k) <= leading(d, p),
    decreases p - k,
{
    if k < p {
        leading_grows(d, k, p - 1);
        assert(leading(d, p) == leading(d, p - 1) * 10 + digit_at(d, p - 1));
    }
}

proof fn leading_stays_zero(d: Seq<char>, k: int, p: int)
    requires
        d.len() <= k <= p,
        leading(d, k) == 0,
    ensures
        leading(d, p) == 0,
    decreases p - k,
{
    if k < p {
        leading_stays_zero(d, k, p - 1);
        assert(leading(d, p) == leading(d, p - 1) * 10 + digit_at(d, p - 1));
    }
}

proof fn digit_run_fits(s: Seq<char>, from: int)
    requires
        0 <= from <= s.len(),
    ensures
        from + digit_run(s, from) <= s.len(),
        forall|k: int| from <= k < from + digit_run(s, from) ==> is_digit(#[trigger] s[k]),
    decreases s.len() - from,
{
    if from < s.len() && is_digit(s[from]) {
        digit_run_fits(s, from + 1);
    }
}

fn run_of_digits(s: &Vec<char>, from: usize) -> (r: usize)
    requires
        from <= s@.len(),
    ensures
        r == from + digit_run(s@, from as int),
        r <= s@.len(),
        forall|k: int| from <= k < r ==> is_digit(#[trigger] s@[k]),
        r < s@.len() ==> !is_digit(s@[r as int]),
{
    let mut i: usize = from;
    while i < s.len() && '0' <= s[i] && s[i] <= '9'
        invariant
            from <= i <= s@.len(),
            i + digit_run(s@, i as int) == from + digit_run(s@, from as int),
        decreases s@.len() - i,
    {
        i = i + 1;
    }
    proof {
        digit_run_fits(s@, from as int);
    }
    i
}

fn floor_of(d: &Vec<char>, point: i128, cap: i128) -> (r: i128)
    requires
        9 <= cap <= AMOUNT_CAP,
        forall|k: int| 0 <= k < d@.len() ==> is_digit(#[trigger] d@[k]),
    ensures
        r == smaller(leading(d@, point as int) as int, cap as int),
        0 <= r <= cap,
{
    let mut k: i128 = 0;
    let mut acc: i128 = 0;
    if point < 0 {
        return 0;
    }
    while k < point
        invariant
            0 <= k <= point,
            acc == leading(d@, k as int),
            acc <= cap <= AMOUNT_CAP,
            9 <= cap,
            forall|k: int| 0 <= k < d@.len() ==> is_digit(#[trigger] d@[k]),
        decreases point - k,
    {
        if k >= d.len() as i128 && acc == 0 {
            proof {
                leading_stays_zero(d@, k as int, point as int);
            }
            return 0;
        }
        let v: u8 = if k < d.len() as i128 {
            assert(is_digit(d@[k as int]));
            d[k as usize] as u8 - 48
        } else {
            0
        };
        assert(leading(d@, k + 1) == leading(d@, k as int) * 10 + digit_at(d@, k as int));
        assert(acc > (cap - v) / 10 <==> acc * 10 + v > cap);
        if acc > (cap - v as i128) / 10 {
            proof {
                leading_grows(d@, k + 1, point as int);
            }
            return cap;
        }
        acc = acc * 10 + v as i128;
        k = k + 1;
    }
    acc
}

fn whole_of(d: &Vec<char>, point: i128, cap: i128) -> (r: i128)
    requires
        9 <= cap <= AMOUNT_CAP,
        forall|k: int| 0 <= k < d@.len() ==> is_digit(#[trigger] d@[k]),
    ensures
        r == whole(d@, point as int, cap as int),
        0 <= r <= cap,
{
    let acc = floor_of(d, point, cap);
    let up = 0 <= point && point < d.len() as i128 && d[point as usize] >= '5';
    if up && acc < cap {
        acc + 1
    } else {
        acc
    }
}

fn any_nonzero(d: &Vec<char>, from: i128) -> (r: bool)
    ensures
        r == nonzero_from(d@, from as int),
{
    for k in 0..d.len()
        invariant
            forall|j: int| 0 <= j < k && from <= j ==> #[trigger] d@[j] == '0',
    {
        if from <= k as i128 && d[k] != '0' {
            return true;
        }
    }
    false
}

fn capped_value(e: &Vec<char>, from: usize) -> (r: i128)
    requires
        from <= e@.len(),
        forall|k: int| from <= k < e@.len() ==> is_digit(#[trigger] e@[k]),
    ensures
        r == smaller(leading(e@.skip(from as int), e@.len() - from) as int, EXPONENT_CAP as int),
{
    let ghost d = e@.skip(from as int);
    let mut i: usize = from;
    let mut acc: i128 = 0;
    while i < e.len()
        invariant
            from <= i <= e@.len(),
            d == e@.skip(from as int),
            forall|k: int| from <= k < e@.len() ==> is_digit(#[trigger] e@[k]),
            acc == smaller(leading(d, i - from) as int, EXPONENT_CAP as int),
        decreases e@.len() - i,
    {
        assert(is_digit(e@[i as int]));
        let v: u8 = e[i] as u8 - 48;
        assert(digit_at(d, i - from) == v);
        assert(leading(d, i - from + 1) == leading(d, i - from) * 10 + digit_at(d, i - from));
        acc = min_of(acc * 10 + v as i128, EXPONENT_CAP);
        i = i + 1;
    }
    acc
}

fn exponent_of(e: &Vec<char>) -> (r: Option<i128>)
    ensures
        r is Some == exponent(e@) is Some,
        r matches Some(v) ==> v == exponent(e@)->0 && -EXPONENT_CAP <= v <= EXPONENT_CAP,
{
    if e.len() == 0 {
        return Some(0);
    }
    if e[0] != 'e' && e[0] != 'E' {
        return None;
    }
    let signed = e.len() > 1 && (e[1] == '-' || e[1] == '+');
    let from: usize = if signed {
        2
    } else {
        1
    };
    let end = run_of_digits(e, from);
    if end == from || end != e.len() {
        return None;
    }
    let v = capped_value(e, from);
    if signed && e[1] == '-' {
        Some(-v)
    } else {
        Some(v)
    }
}

fn digits_of(b: &Vec<char>) -> (r: Option<(Vec<char>, i128)>)
    ensures
        match digits_in(b@) {
            Some((d, point)) => r matches Some(x) && x.0@ == d && x.1 == point,
            None => r is None,
        },
        r matches Some(x) ==> -EXPONENT_CAP <= x.1 <= usize::MAX + EXPONENT_CAP && forall|k: int|
            0 <= k < x.0@.len() ==> is_digit(#[trigger] x.0@[k]),
{
    let i = run_of_digits(b, 0);
    let dotted = i < b.len() && b[i] == '.';
    let j: usize = if dotted {
        i + 1
    } else {
        i
    };
    let k = run_of_digits(b, j);
    if i + (k - j) == 0 {
        return None;
    }
    let mut d = slice_of(b, 0, i);
    let mut n: usize = j;
    while n < k
        invariant
            i <= j <= n <= k <= b@.len(),
            d@ == b@.take(i as int) + b@.subrange(j as int, n as int),
        decreases k - n,
    {
        d.push(b[n]);
        n = n + 1;
    }
    let rest = slice_of(b, k, b.len());
    assert(rest@ =~= b@.skip(k as int));
    match exponent_of(&rest) {
        None => None,
        Some(e) => Some((d, i as i128 + e)),
    }
}

fn unsigned_of(b: &Vec<char>, places: i128, cap: i128) -> (r: Option<i128>)
    requires
        0 <= places <= 12,
        9 <= cap <= AMOUNT_CAP,
    ensures
        r is Some == unsigned_scaled(b@, places as int, cap as int) is Some,
        r matches Some(v) ==> v == unsigned_scaled(b@, places as int, cap as int)->0 && 0 <= v
            <= cap,
{
    match digits_of(b) {
        None => None,
        Some((d, point)) => Some(whole_of(&d, point + places, cap)),
    }
}

/// Reads where a number lies; see [`trace`].
pub fn read_trace(s: &str) -> (r: Option<Trace>)
    ensures
        r == trace(s@),
{
    let v = chars_of(s);
    let signed = v.len() > 0 && (v[0] == '-' || v[0] == '+');
    let from: usize = if signed {
        1
    } else {
        0
    };
    let body = slice_of(&v, from, v.len());
    assert(body@ =~= if signed {
        s@.skip(1)
    } else {
        s@
    });
    if spells_special(&body) {
        return None;
    }
    match digits_of(&body) {
        None => None,
        Some((d, point)) => {
            if signed && v[0] == '-' {
                if any_nonzero(&d, 0) {
                    Some(Trace::Negative)
                } else {
                    Some(Trace::Nothing)
                }
            } else {
                let f = floor_of(&d, point + 9, 9);
                if f > 1 || (f == 1 && any_nonzero(&d, point + 9)) {
                    Some(Trace::Something)
                } else {
                    Some(Trace::Nothing)
                }
            }
        },
    }
}

fn spells_special(s: &Vec<char>) -> (r: bool)
    ensures
        r == is_special(s@),
{
    let t = text_of(s);
    let l = lower_chars(t.as_str());
    let w = text_of(&l);
    same(w.as_str(), "inf") || same(w.as_str(), "infinity") || same(w.as_str(), "nan")
}

/// Reads a decimal number; see [`decimal`].
fn read_decimal(s: &str, places: i128, cap: i128) -> (r: Option<Option<i128>>)
    requires
        0 <= places <= 12,
        9 <= cap <= AMOUNT_CAP,
    ensures
        match decimal(s@, places as int, cap as int) {
            None => r is None,
            Some(None) => r == Some(None::<i128>),
            Some(Some(v)) => r matches Some(Some(w)) && w == v && -cap <= w <= cap,
        },
{
    let v = chars_of(s);
    let signed = v.len() > 0 && (v[0] == '-' || v[0] == '+');
    let from: usize = if signed {
        1
    } else {
        0
    };
    let body = slice_of(&v, from, v.len());
    assert(body@ =~= if signed {
        s@.skip(1)
    } else {
        s@
    });
    if spells_special(&body) {
        return Some(None);
    }
    match unsigned_of(&body, places, cap) {
        None => None,
        Some(u) => Some(
            Some(
                if signed && v[0] == '-' {
                    -u
                } else {
                    u
                },
            ),
        ),
    }
}

/// Reads a decimal number in millionths; see [`number`].
pub fn read_number(s: &str) -> (r: Option<Qty>)
    ensures
        r == number(s@),
{
    match read_decimal(s, 6, i64::MAX as i128) {
        None => None,
        Some(None) => Some(Qty::NotFinite),
        Some(Some(v)) => Some(Qty::Finite(v as i64)),
    }
}

/// Reads a decimal number, finite or not; see [`reading`].
pub fn read_reading(s: &str) -> (r: Option<Reading<i64>>)
    ensures
        r == reading(s@),
{
    match read_number(s) {
        None => None,
        Some(Qty::Finite(v)) => Some(Reading::Finite(v)),
        Some(Qty::NotFinite) => {
            let v = chars_of(s);
            let signed = v.len() > 0 && (v[0] == '-' || v[0] == '+');
            let from: usize = if signed {
                1
            } else {
                0
            };
            let body = slice_of(&v, from, v.len());
            assert(body@ =~= if signed {
                s@.skip(1)
            } else {
                s@
            });
            let l = lower_chars(text_of(&body).as_str());
            if same(text_of(&l).as_str(), "nan") {
                Some(Reading::NotANumber)
            } else if signed && v[0] == '-' {
                Some(Reading::MinusInfinite)
            } else {
                Some(Reading::Infinite)
            }
        },
    }
}

/// Reads a decimal number in units of twelve places; see [`pico`].
pub fn read_pico(s: &str) -> (r: Option<Option<i128>>)
    ensures
        match pico(s@) {
            None => r is None,
            Some(None) => r == Some(None::<i128>),
            Some(Some(v)) => r matches Some(Some(w)) && w == v,
        },
{
    read_decimal(s, 12, AMOUNT_CAP)
}

/// An integer written in decimal with an optional minus sign, in the range of
/// the 64-bit integers; nothing else has a value.
pub open spec fn integer(s: Seq<char>) -> Option<int> {
    let neg = s.len() > 0 && s[0] == '-';
    let from: int = if neg { 1 } else { 0 };
    let n = digit_run(s, from);
    if n == 0 || from + n != s.len() {
        None
    } else {
        let v = leading(s.skip(from), n as int) as int;
        if v > u64::MAX {
            None
        } else {
            Some(if neg { -v } else { v })
        }
    }
}

/// Reads an integer; see [`integer`].
pub fn read_integer(s: &str) -> (r: Option<i128>)
    ensures
        match integer(s@) {
            Some(v) => r matches Some(w) && w == v,
            None => r is None,
        },
{
    let v = chars_of(s);
    let neg = v.len() > 0 && v[0] == '-';
    let from: usize = if neg {
        1
    } else {
        0
    };
    let end = run_of_digits(&v, from);
    if end == from || end != v.len() {
        return None;
    }
    let ghost d = v@.skip(from as int);
    let mut i: usize = from;
    let mut acc: i128 = 0;
    while i < v.len()
        invariant
            from <= i <= v@.len(),
            d == v@.skip(from as int),
            forall|k: int| from <= k < v@.len() ==> is_digit(#[trigger] v@[k]),
            acc == leading(d, i - from),
            0 <= acc <= u64::MAX,
            integer(s@) == (if leading(d, v@.len() - from) > u64::MAX {
                None::<int>
            } else {
                Some(if neg { -leading(d, v@.len() - from) } else { leading(d, v@.len() - from) as int })
            }),
        decreases v@.len() - i,
    {
        assert(is_digit(v@[i as int]));
        let x: u8 = v[i] as u8 - 48;
        assert(digit_at(d, i - from) == x);
        assert(leading(d, i - from + 1) == leading(d, i - from) * 10 + digit_at(d, i - from));
        acc = acc * 10 + x as i128;
        i = i + 1;
        if acc > u64::MAX as i128 {
            proof {
                leading_grows(d, i - from, v@.len() - from);
            }
            return None;
        }
    }
    if neg {
        Some(-acc)
    } else {
        Some(acc)
    }
}

/// The number that the digits at the front of `s` write, held at the largest of the
/// 64-bit integers; nothing where no digit stands there.
pub open spec fn count_of(s: Seq<char>) -> Option<int> {
    let n = digit_run(s, 0);
    if n == 0 {
        None
    } else {
        Some(smaller(leading(s, n as int) as int, i64::MAX as int))
    }
}

/// Reads the digits at the front of `v`; see [`count_of`].
pub fn read_count(v: &Vec<char>) -> (r: Option<i64>)
    ensures
        match count_of(v@) {
            Some(n) => r matches Some(m) && m == n,
            None => r is None,
        },
{
    let end = run_of_digits(v, 0);
    if end == 0 {
        return None;
    }
    let mut acc: i64 = 0;
    for i in 0..end
        invariant
            end <= v@.len(),
            forall|k: int| 0 <= k < end ==> is_digit(#[trigger] v@[k]),
            acc == smaller(leading(v@, i as int) as int, i64::MAX as int),
    {
        assert(is_digit(v@[i as int]));
        let x: u8 = v[i] as u8 - 48;
        let next: i128 = acc as i128 * 10 + x as i128;
        acc = min_of(next, i64::MAX as i128) as i64;
    }
    Some(acc)
}

/// `x` held within the range of amounts.
pub open spec fn clip(x: int) -> int {
    if x > AMOUNT_CAP {
        AMOUNT_CAP as int
    } else if x < -AMOUNT_CAP {
        -AMOUNT_CAP
    } else {
        x
    }
}

/// Whether `x` lies within the range of amounts.
pub open spec fn in_range(x: int) -> bool {
    -AMOUNT_CAP <= x <= AMOUNT_CAP
}

/// `x` held within the range of `i64`.
pub open spec fn clip64(x: int) -> int {
    if x > i64::MAX {
        i64::MAX as int
    } else if x < i64::MIN {
        i64::MIN as int
    } else {
        x
    }
}

/// `x` held within the range of amounts.
pub fn clip_of(x: i128) -> (r: i128)
    ensures
        r == clip(x as int),
        in_range(r as int),
{
    if x > AMOUNT_CAP {
        AMOUNT_CAP
    } else if x < -AMOUNT_CAP {
        -AMOUNT_CAP
    } else {
        x
    }
}

/// The sum of two amounts, held within the range.
pub fn sum_of(a: i128, b: i128) -> (r: i128)
    ensures
        r == clip(a + b),
        in_range(r as int),
{
    match a.checked_add(b) {
        Some(v) => clip_of(v),
        None => if b > 0 {
            AMOUNT_CAP
        } else {
            -AMOUNT_CAP
        },
    }
}

/// The difference of two amounts, held within the range.
pub fn diff_of(a: i128, b: i128) -> (r: i128)
    ensures
        r == clip(a - b),
        in_range(r as int),
{
    match a.checked_sub(b) {
        Some(v) => clip_of(v),
        None => if b < 0 {
            AMOUNT_CAP
        } else {
            -AMOUNT_CAP
        },
    }
}

/// The sum of two amounts of 64 bits, held within the range.
pub fn sum64(a: i64, b: i64) -> (r: i64)
    ensures
        r == clip64(a + b),
{
    let v: i128 = a as i128 + b as i128;
    if v > i64::MAX as i128 {
        i64::MAX
    } else if v < i64::MIN as i128 {
        i64::MIN
    } else {
        v as i64
    }
}

/// The difference of two amounts of 64 bits, held within the range.
pub fn diff64(a: i64, b: i64) -> (r: i64)
    ensures
        r == clip64(a - b),
{
    let v: i128 = a as i128 - b as i128;
    if v > i64::MAX as i128 {
        i64::MAX
    } else if v < i64::MIN as i128 {
        i64::MIN
    } else {
        v as i64
    }
}

/// The product of two amounts of millionths, in units of twelve places.
pub fn product(a: i64, b: i64) -> (r: i128)
    ensures
        r == a * b,
        r > i128::MIN,
        -0x4000_0000_0000_0000_0000_0000_0000_0000 <= r
            <= 0x4000_0000_0000_0000_0000_0000_0000_0000,
{
    proof {
        product_fits(a as int, b as int);
    }
    a as i128 * b as i128
}

proof fn product_fits(a: int, b: int)
    requires
        i64::MIN <= a <= i64::MAX,
        i64::MIN <= b <= i64::MAX,
    ensures
        -0x4000_0000_0000_0000_0000_0000_0000_0000 <= a * b
            <= 0x4000_0000_0000_0000_0000_0000_0000_0000,
{
    assert(-0x8000_0000_0000_0000 * 0x8000_0000_0000_0000 <= a * b && a * b <= 0x8000_0000_0000_0000
        * 0x8000_0000_0000_0000) by (nonlinear_arith)
        requires
            -0x8000_0000_0000_0000 <= a <= 0x8000_0000_0000_0000,
            -0x8000_0000_0000_0000 <= b <= 0x8000_0000_0000_0000,
    ;
}

/// `a / b` rounded toward zero, for a positive `b`.
pub open spec fn toward_zero(a: int, b: int) -> int {
    if a < 0 {
        -((-a) / b)
    } else {
        a / b
    }
}

/// The part of `cost` that falls on `part` out of `total`, rounded toward zero.
pub open spec fn portion(cost: int, part: int, total: int) -> int {
    clip(toward_zero(cost * part, total))
}

proof fn split_product(c: int, p: int, t: int)
    requires
        c >= 0,
        p >= 0,
        t > 0,
    ensures
        c * p / t == (c / t) * p + (c % t) * p / t,
{
    let q = c / t;
    let r = c % t;
    assert(c == q * t + r) by (nonlinear_arith)
        requires
            q == c / t,
            r == c % t,
            t > 0,
    ;
    assert(c * p == (q * p) * t + r * p) by (nonlinear_arith)
        requires
            c == q * t + r,
    ;
    assert(((q * p) * t + r * p) / t == q * p + (r * p) / t) by {
        vstd::arithmetic::div_mod::lemma_hoist_over_denominator(r * p, q * p, t as nat);
    }
}

/// The part of `cost` that falls on `part` out of `total`; see [`portion`].
pub fn portion_of(cost: i128, part: i64, total: i64) -> (r: i128)
    requires
        total > 0,
    ensures
        r == portion(cost as int, part as int, total as int),
        in_range(r as int),
{
    let c: u128 = magnitude(cost);
    let p: u128 = magnitude(part as i128);
    let t: u128 = total as u128;
    let neg = (cost < 0) != (part < 0);
    let q: u128 = c / t;
    let m: u128 = c % t;
    let ghost full = c * p / (t as int);
    proof {
        split_product(c as int, p as int, t as int);
        assert(m * p <= 0x8000_0000_0000_0000 * 0x8000_0000_0000_0000) by (nonlinear_arith)
            requires
                0 <= m <= 0x8000_0000_0000_0000,
                0 <= p <= 0x8000_0000_0000_0000,
        ;
        assert(0 <= m * p) by (nonlinear_arith)
            requires
                0 <= m,
                0 <= p,
        ;
        assert(0 <= (m * p) / (t as int) <= m * p) by (nonlinear_arith)
            requires
                0 <= m * p,
                t > 0,
        ;
        assert(size_of(cost * part) == c * p && ((cost * part < 0) ==> neg) && (neg ==> cost * part
            <= 0)) by (nonlinear_arith)
            requires
                c == size_of(cost as int),
                p == size_of(part as int),
                neg == ((cost < 0) != (part < 0)),
        ;
        assert(full >= 0);
    }
    let rest: u128 = (m * p) / t;
    let lead: Option<u128> = q.checked_mul(p);
    let mag: i128 = match lead {
        None => AMOUNT_CAP,
        Some(l) => match l.checked_add(rest) {
            None => AMOUNT_CAP,
            Some(v) => if v > AMOUNT_CAP as u128 {
                AMOUNT_CAP
            } else {
                v as i128
            },
        },
    };
    assert(mag == smaller(full, AMOUNT_CAP as int));
    if neg {
        -mag
    } else {
        mag
    }
}

} // verus!
