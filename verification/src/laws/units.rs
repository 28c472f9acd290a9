//! Amounts and the numbers that are read.

use vstd::prelude::*;
use crate::text;
use crate::units;
use crate::units::{Qty, Reading, Trace};

verus! {

/// The larger of two is no less than either and is one of them; the smaller likewise.
pub proof fn larger_and_smaller(a: int, b: int)
    ensures
        units::larger(a, b) >= a && units::larger(a, b) >= b,
        units::larger(a, b) == a || units::larger(a, b) == b,
        units::larger(a, b) + units::smaller(a, b) == a + b,
        units::size_of(a) >= 0,
        units::size_of(a) == a || units::size_of(a) == -a,
{
}

/// Clipping changes nothing within the range and goes to its nearer end outside.
pub proof fn clipping_keeps_what_fits(x: int)
    ensures
        -170_141_183_460_469_231_731_687_303_715_884_105_727 <= units::clip(x)
            <= 170_141_183_460_469_231_731_687_303_715_884_105_727,
        -170_141_183_460_469_231_731_687_303_715_884_105_727 <= x
            <= 170_141_183_460_469_231_731_687_303_715_884_105_727 ==> units::clip(x) == x,
        units::clip(-x) == -units::clip(x),
        i64::MIN <= x <= i64::MAX ==> units::clip64(x) == x,
        x > i64::MAX ==> units::clip64(x) == i64::MAX,
        x < i64::MIN ==> units::clip64(x) == i64::MIN,
{
}

/// Times add up to the largest there is and no further, and no time is before the first.
pub proof fn times_stay_in_range(a: u64, b: u64)
    ensures
        units::minus_floored(units::plus_capped(a, b), b) <= a,
        a + b <= u64::MAX ==> units::plus_capped(a, b) == a + b,
        a + b > u64::MAX ==> units::plus_capped(a, b) == u64::MAX,
        a >= b ==> units::minus_floored(a, b) + b == a,
        a <= b ==> units::minus_floored(a, b) == 0,
{
}

/// A part of a cost is what the part is of the whole, rounded toward nothing: the whole part
/// is the whole cost, no part costs nothing, and the parts of two halves make no more than the
/// whole.
pub proof fn a_portion_is_in_proportion(cost: int, part: int, total: int)
    requires
        total > 0,
        part >= 0,
        cost >= 0,
        cost * part <= 1_000_000_000_000_000_000_000_000_000_000_000_000,
    ensures
        units::portion(cost, part, total) * total <= cost * part < (units::portion(
            cost,
            part,
            total,
        ) + 1) * total,
        units::portion(-cost, part, total) == -units::portion(cost, part, total),
{
    let p = cost * part;
    assert(p >= 0) by (nonlinear_arith)
        requires
            p == cost * part,
            cost >= 0,
            part >= 0,
    ;
    assert((-cost) * part == -p) by (nonlinear_arith)
        requires
            p == cost * part,
    ;
    vstd::arithmetic::div_mod::lemma_fundamental_div_mod(p, total);
    vstd::arithmetic::div_mod::lemma_mod_bound(p, total);
    let q = p / total;
    assert(0 <= q <= p) by (nonlinear_arith)
        requires
            p >= 0,
            total > 0,
            p == total * q + p % total,
            0 <= p % total < total,
    ;
    assert(q * total <= p < (q + 1) * total) by (nonlinear_arith)
        requires
            p == total * q + p % total,
            0 <= p % total < total,
    ;
}

/// The number that the first digits write grows tenfold, and by the next digit, with each
/// digit.
pub proof fn digits_count_in_tens(d: Seq<char>, p: int)
    requires
        p >= 0,
    ensures
        units::leading(d, 0) == 0,
        units::leading(d, p + 1) == 10 * units::leading(d, p) + units::digit_at(d, p),
{
}

/// A number is read to the nearest of its last place, up from the middle: between ten times it
/// and what one more place would show lie no more than five.
pub proof fn reading_rounds_to_the_nearest(d: Seq<char>, point: int, cap: int)
    requires
        point >= 0,
        units::leading(d, point) < cap,
        forall|k: int| 0 <= k < d.len() ==> units::is_digit(#[trigger] d[k]),
    ensures
        -5 < 10 * units::whole(d, point, cap) - units::leading(d, point + 1) <= 5,
{
}

/// No number is read beyond the largest that is kept.
pub proof fn reading_is_capped(d: Seq<char>, point: int, cap: int)
    ensures
        units::whole(d, point, cap) <= cap,
        units::leading(d, point) >= cap ==> units::whole(d, point, cap) == cap,
{
}

/// A sign in front turns a number round or leaves it.
pub proof fn a_sign_turns_the_number(b: Seq<char>, places: int, cap: int)
    requires
        b.len() == 0 || (b[0] != '-' && b[0] != '+'),
    ensures
        units::decimal(seq!['+'] + b, places, cap) == units::decimal(b, places, cap),
        units::decimal(b, places, cap) matches Some(Some(v)) ==> units::decimal(
            seq!['-'] + b,
            places,
            cap,
        ) == Some(Some(-v)),
        units::decimal(b, places, cap) is None <==> units::decimal(
            seq!['-'] + b,
            places,
            cap,
        ) is None,
{
    assert((seq!['+'] + b).skip(1) =~= b);
    assert((seq!['-'] + b).skip(1) =~= b);
}

/// An exponent is read as a whole number, and its sign turns it round.
pub proof fn an_exponent_is_a_number(ds: Seq<char>)
    requires
        ds.len() > 0,
        forall|k: int| 0 <= k < ds.len() ==> units::is_digit(#[trigger] ds[k]),
    ensures
        ({
            let v = units::leading(ds, ds.len() as int);
            let n = if v > 1_000_000_000_000 {
                1_000_000_000_000int
            } else {
                v as int
            };
            &&& units::exponent(seq!['e'] + ds) == Some(n)
            &&& units::exponent(seq!['E'] + ds) == Some(n)
            &&& units::exponent(seq!['e', '+'] + ds) == Some(n)
            &&& units::exponent(seq!['e', '-'] + ds) == Some(-n)
        }),
        units::exponent(Seq::<char>::empty()) == Some(0int),
{
    all_digits(seq!['e'] + ds, 1);
    all_digits(seq!['E'] + ds, 1);
    all_digits(seq!['e', '+'] + ds, 2);
    all_digits(seq!['e', '-'] + ds, 2);
    assert((seq!['e'] + ds).skip(1) =~= ds);
    assert((seq!['E'] + ds).skip(1) =~= ds);
    assert((seq!['e', '+'] + ds).skip(2) =~= ds);
    assert((seq!['e', '-'] + ds).skip(2) =~= ds);
    assert((seq!['e'] + ds)[1] == ds[0]);
    assert((seq!['E'] + ds)[1] == ds[0]);
}

proof fn all_digits(s: Seq<char>, from: int)
    requires
        0 <= from <= s.len(),
        forall|k: int| from <= k < s.len() ==> units::is_digit(#[trigger] s[k]),
    ensures
        units::digit_run(s, from) == s.len() - from,
    decreases s.len() - from,
{
    if from < s.len() {
        all_digits(s, from + 1);
    }
}

proof fn digits_then(s: Seq<char>, from: int, to: int)
    requires
        0 <= from <= to < s.len(),
        forall|k: int| from <= k < to ==> units::is_digit(#[trigger] s[k]),
        !units::is_digit(s[to]),
    ensures
        units::digit_run(s, from) == to - from,
    decreases to - from,
{
    if from < to {
        digits_then(s, from + 1, to);
    }
}

/// Digits without a point are a whole number, a million millionths each; digits behind a point
/// are its parts, and where there are more of them than are kept they round.
pub proof fn a_whole_number_is_read_whole(ds: Seq<char>)
    requires
        0 < ds.len(),
        forall|k: int| 0 <= k < ds.len() ==> units::is_digit(#[trigger] ds[k]),
        units::leading(ds, ds.len() as int) <= 1_000_000_000_000,
    ensures
        units::number(ds) == Some(
            Qty::Finite((units::leading(ds, ds.len() as int) * 1_000_000) as i64),
        ),
{
    all_digits(ds, 0);
    no_word(ds);
    let n = ds.len() as int;
    assert(ds.skip(n) =~= Seq::empty());
    assert(ds.take(n) + ds.subrange(n, n) =~= ds);
    assert(units::digit_run(ds, n) == 0);
    assert(units::digits_in(ds) == Some((ds, n)));
    let l = units::leading(ds, n);
    reveal_with_fuel(units::leading, 8);
    assert(units::leading(ds, n + 6) == l * 1_000_000);
}

proof fn no_word(b: Seq<char>)
    requires
        b.len() > 0,
        units::is_digit(b[0]) || b[0] == '.',
    ensures
        !units::is_special(b),
{
    reveal_strlit("inf");
    reveal_strlit("infinity");
    reveal_strlit("nan");
    assert(text::lower_of(b)[0] == b[0]);
}

/// What is read is a number, or it is not one; which of the three words stands there decides
/// among the rest.
pub proof fn a_reading_is_of_its_kind(s: Seq<char>)
    ensures
        units::number(s) matches Some(Qty::Finite(v)) ==> units::reading(s) == Some(
            Reading::Finite(v),
        ),
        units::number(s) is None <==> units::reading(s) is None,
        units::number(s) == Some(Qty::NotFinite) ==> units::reading(s) is Some && !(units::reading(
            s,
        )->0 is Finite),
        units::reading("inf"@) == Some(Reading::<i64>::Infinite),
        units::reading("-inf"@) == Some(Reading::<i64>::MinusInfinite),
        units::reading("nan"@) == Some(Reading::<i64>::NotANumber),
{
    reveal_strlit("inf");
    reveal_strlit("-inf");
    reveal_strlit("nan");
    reveal_strlit("infinity");
    assert("-inf"@.skip(1) =~= "inf"@);
    assert(text::lower_of("inf"@) =~= "inf"@);
    assert(text::lower_of("nan"@) =~= "nan"@);
    assert("inf"@[0] != "nan"@[0]);
}

/// Something is traced exactly where more than a billionth is written.
pub proof fn a_trace_is_more_than_a_billionth(b: Seq<char>, d: Seq<char>, point: int)
    requires
        b.len() > 0,
        b[0] != '-',
        b[0] != '+',
        !units::is_special(b),
        units::digits_in(b) == Some((d, point)),
        point + 9 >= 0,
        forall|k: int| 0 <= k < d.len() ==> units::is_digit(#[trigger] d[k]),
    ensures
        units::trace(b) == Some(Trace::Something) <==> units::leading(d, point + 9) > 1 || (
        units::leading(d, point + 9) == 1 && exists|k: int|
            point + 9 <= k < d.len() && #[trigger] d[k] != '0'),
        units::trace(b) == Some(Trace::Something) || units::trace(b) == Some(Trace::Nothing),
{
}

} // verus!
