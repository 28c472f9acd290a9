//! A number that is written out reads back as the same number.

use vstd::prelude::*;
use crate::text;
use crate::units;
use crate::units::Qty;

verus! {

proof fn dec_is_digits(n: nat)
    ensures
        text::dec(n).len() > 0,
        forall|k: int| 0 <= k < text::dec(n).len() ==> units::is_digit(#[trigger] text::dec(n)[k]),
        units::leading(text::dec(n), text::dec(n).len() as int) == n,
    decreases n,
{
    if n < 10 {
        let d = text::dec(n);
        assert(d[0] == text::digit(n as int));
        reveal_with_fuel(units::leading, 2);
    } else {
        dec_is_digits(n / 10);
        let x = text::dec(n / 10);
        let d = text::dec(n);
        same_lead(x, d, x.len() as int);
        assert(d[x.len() as int] == text::digit((n % 10) as int));
        assert(units::leading(d, d.len() as int) == units::leading(d, x.len() as int) * 10
            + units::digit_at(d, x.len() as int));
    }
}

proof fn same_lead(x: Seq<char>, y: Seq<char>, n: int)
    requires
        0 <= n <= x.len(),
        n <= y.len(),
        forall|k: int| 0 <= k < n ==> x[k] == y[k],
    ensures
        units::leading(x, n) == units::leading(y, n),
    decreases n,
{
    if n > 0 {
        same_lead(x, y, n - 1);
    }
}

proof fn pad_is_digits(b: nat, p: nat)
    ensures
        text::pad(b, p).len() == p,
        forall|k: int| 0 <= k < p ==> units::is_digit(#[trigger] text::pad(b, p)[k]),
    decreases p,
{
    if p > 0 {
        pad_is_digits(b / 10, (p - 1) as nat);
    }
}

proof fn lead_through_pad(x: Seq<char>, b: nat, p: nat)
    requires
        b < text::pow10(p),
    ensures
        units::leading(x + text::pad(b, p), (x.len() + p) as int) == units::leading(x, x.len() as int)
            * text::pow10(p) + b,
    decreases p,
{
    let d = x + text::pad(b, p);
    pad_is_digits(b, p);
    if p == 0 {
        assert(d =~= x);
    } else {
        let q = (p - 1) as nat;
        let e = x + text::pad(b / 10, q);
        pad_is_digits(b / 10, q);
        lead_through_pad(x, b / 10, q);
        same_lead(d, e, (x.len() + q) as int);
        assert(d[(x.len() + q) as int] == text::digit((b % 10) as int));
        assert(units::leading(d, (x.len() + p) as int) == units::leading(d, (x.len() + q) as int) * 10
            + units::digit_at(d, (x.len() + q) as int));
        let l = units::leading(x, x.len() as int);
        let w = text::pow10(q);
        assert((l * w + b / 10) * 10 + b % 10 == l * (10 * w) + b) by (nonlinear_arith);
    }
}

proof fn run_of(s: Seq<char>, from: int, to: int)
    requires
        0 <= from <= to <= s.len(),
        forall|k: int| from <= k < to ==> units::is_digit(#[trigger] s[k]),
        to < s.len() ==> !units::is_digit(s[to]),
    ensures
        units::digit_run(s, from) == to - from,
    decreases to - from,
{
    if from < to {
        run_of(s, from + 1, to);
    }
}

proof fn not_special(b: Seq<char>)
    requires
        b.len() > 0,
        units::is_digit(b[0]),
    ensures
        !units::is_special(b),
{
    reveal_strlit("inf");
    reveal_strlit("infinity");
    reveal_strlit("nan");
    assert(text::lower_of(b)[0] == b[0]);
}

proof fn pow10_positive(k: nat)
    ensures
        text::pow10(k) > 0,
    decreases k,
{
    if k > 0 {
        pow10_positive((k - 1) as nat);
    }
}

/// An amount written with all its places reads back as itself.
pub proof fn decimal_reads_back(m: int, places: nat, cap: int)
    requires
        -cap <= m <= cap,
    ensures
        units::decimal(text::fixed(m, places, places), places as int, cap) == Some(Some(m)),
{
    let mag: nat = if m < 0 {
        (-m) as nat
    } else {
        m as nat
    };
    assert(text::pow10(0) == 1);
    assert(text::rounded(mag, 1) == mag);
    let base = text::pow10(places);
    pow10_positive(places);
    let a = mag / base;
    let b = mag % base;
    let x = text::dec(a);
    let y = text::pad(b, places);
    dec_is_digits(a);
    pad_is_digits(b, places);
    let body = x + seq!['.'] + y;
    let s = text::fixed(m, places, places);
    if m < 0 {
        assert(s =~= seq!['-'] + body);
        assert(s.skip(1) =~= body);
    } else {
        assert(s =~= body);
    }
    assert(body[0] == x[0]);
    not_special(body);
    let i = x.len() as int;
    assert forall|k: int| 0 <= k < i implies units::is_digit(#[trigger] body[k]) by {
        assert(body[k] == x[k]);
    }
    assert(body[i] == '.');
    run_of(body, 0, i);
    assert forall|k: int| i + 1 <= k < body.len() implies units::is_digit(#[trigger] body[k]) by {
        assert(body[k] == y[k - i - 1]);
    }
    run_of(body, i + 1, body.len() as int);
    let d = body.take(i) + body.subrange(i + 1, body.len() as int);
    assert(d =~= x + y);
    assert(body.skip(body.len() as int).len() == 0);
    lead_through_pad(x, b, places);
    assert(a * base + b == mag) by (nonlinear_arith)
        requires
            a == mag / base,
            b == mag % base,
            base > 0,
    ;
}

/// A number of millionths written with six places reads back as itself.
pub proof fn micros_read_back(m: int)
    requires
        -i64::MAX <= m <= i64::MAX,
    ensures
        units::number(text::fixed(m, 6, 6)) == Some(Qty::Finite(m as i64)),
{
    decimal_reads_back(m, 6, i64::MAX as int);
}

/// An amount in units of twelve places, written with all of them, reads back as itself.
pub proof fn picos_read_back(m: int)
    requires
        units::in_range(m),
    ensures
        units::pico(text::fixed(m, 12, 12)) == Some(Some(m)),
{
    decimal_reads_back(m, 12, units::AMOUNT_CAP as int);
}

/// An integer written in decimal reads back as itself.
pub proof fn integer_reads_back(i: int)
    requires
        -u64::MAX <= i <= u64::MAX,
    ensures
        units::integer(text::dec_int(i)) == Some(i),
{
    let mag: nat = if i < 0 {
        (-i) as nat
    } else {
        i as nat
    };
    let x = text::dec(mag);
    dec_is_digits(mag);
    let s = text::dec_int(i);
    if i < 0 {
        assert(s.skip(1) =~= x);
        assert forall|k: int| 1 <= k < s.len() implies units::is_digit(#[trigger] s[k]) by {
            assert(s[k] == x[k - 1]);
        }
        run_of(s, 1, s.len() as int);
    } else {
        assert(s.skip(0) =~= x);
        assert(units::is_digit(x[0]));
        run_of(s, 0, s.len() as int);
    }
}

/// A number written with leading zeros reads back as itself.
pub proof fn padded_reads_back(n: nat, width: nat)
    requires
        n < text::pow10(width),
        n <= u64::MAX,
        width > 0,
    ensures
        units::integer(text::pad(n, width)) == Some(n as int),
        units::is_digit(text::pad(n, width)[0]),
{
    let s = text::pad(n, width);
    pad_is_digits(n, width);
    assert(units::is_digit(s[0]));
    run_of(s, 0, s.len() as int);
    lead_through_pad(Seq::empty(), n, width);
    assert(units::leading(Seq::<char>::empty(), 0) == 0);
    assert(0 * text::pow10(width) == 0) by (nonlinear_arith);
    assert(units::leading(s, s.len() as int) == n);
    assert(Seq::<char>::empty() + s =~= s);
    assert(s.skip(0) =~= s);
}

/// The first character of a number is a digit.
pub proof fn begins_with_digit(n: nat)
    ensures
        text::dec(n).len() > 0,
        units::is_digit(text::dec(n)[0]),
{
    dec_is_digits(n);
    assert(units::is_digit(text::dec(n)[0]));
}

} // verus!
