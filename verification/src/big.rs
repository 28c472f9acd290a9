//! Natural numbers without a bound.

use vstd::prelude::*;

verus! {

/// How many values a limb has.
pub const BASE: u64 = 0x1_0000_0000;

/// A natural number as limbs of 32 bits, the least significant first.
#[derive(Debug)]
pub struct Big {
    limbs: Vec<u32>,
}

/// What a limb at place `k` counts.
spec fn power(k: int) -> int
    decreases k,
{
    if k <= 0 {
        1
    } else {
        BASE * power(k - 1)
    }
}

/// The limb at place `i`, zero beyond the last.
spec fn limb(s: Seq<u32>, i: int) -> int {
    if 0 <= i < s.len() {
        s[i] as int
    } else {
        0
    }
}

/// The number that the first `n` limbs make.
spec fn low(s: Seq<u32>, n: int) -> int
    decreases n,
{
    if n <= 0 {
        0
    } else {
        low(s, n - 1) + limb(s, n - 1) * power(n - 1)
    }
}

impl View for Big {
    type V = int;

    closed spec fn view(&self) -> int {
        low(self.limbs@, self.limbs@.len() as int)
    }
}

proof fn power_is_positive(k: int)
    ensures
        power(k) >= 1,
    decreases k,
{
    if k > 0 {
        power_is_positive(k - 1);
    }
}

proof fn low_is_low(s: Seq<u32>, n: int)
    requires
        n >= 0,
    ensures
        0 <= low(s, n) < power(n),
    decreases n,
{
    if n > 0 {
        low_is_low(s, n - 1);
        let x = limb(s, n - 1);
        let p = power(n - 1);
        assert(0 <= x * p && x * p <= (BASE - 1) * p) by (nonlinear_arith)
            requires
                0 <= x <= BASE - 1,
                p >= 1,
        ;
        assert((BASE - 1) * p + p == BASE * p) by (nonlinear_arith);
    }
}

proof fn low_past_the_end(s: Seq<u32>, n: int)
    requires
        n >= s.len(),
    ensures
        low(s, n) == low(s, s.len() as int),
    decreases n,
{
    if n > s.len() {
        low_past_the_end(s, n - 1);
        assert(limb(s, n - 1) * power(n - 1) == 0) by (nonlinear_arith)
            requires
                limb(s, n - 1) == 0,
        ;
    }
}

proof fn low_of_push(s: Seq<u32>, x: u32)
    ensures
        low(s.push(x), s.len() as int) == low(s, s.len() as int),
        low(s.push(x), s.len() as int + 1) == low(s, s.len() as int) + x * power(s.len() as int),
{
    low_of_part(s, x, s.len() as int);
}

proof fn low_of_part(s: Seq<u32>, x: u32, n: int)
    requires
        0 <= n <= s.len(),
    ensures
        low(s.push(x), n) == low(s, n),
    decreases n,
{
    if n > 0 {
        low_of_part(s, x, n - 1);
        assert(s.push(x)[n - 1] == s[n - 1]);
    }
}

proof fn low_of_shift(s: Seq<u32>, n: int)
    requires
        0 <= n <= s.len(),
    ensures
        low(seq![0u32] + s, n + 1) == BASE * low(s, n),
    decreases n,
{
    let t = seq![0u32] + s;
    if n > 0 {
        low_of_shift(s, n - 1);
        assert(t[n] == s[n - 1]);
        let x = limb(s, n - 1);
        let p = power(n - 1);
        assert(x * (BASE * p) == BASE * (x * p)) by (nonlinear_arith);
        assert(BASE * (low(s, n - 1) + x * p) == BASE * low(s, n - 1) + BASE * (x * p))
            by (nonlinear_arith);
    } else {
        assert(t[0] == 0);
        assert(low(t, 1) == low(t, 0) + limb(t, 0) * power(0));
    }
}

/// What is carried out of a place counts at the next.
proof fn carry_step(out: int, t: int, p: int)
    requires
        t >= 0,
    ensures
        out + (t % BASE as int) * p + (t / BASE as int) * (BASE * p) == out + t * p,
{
    let q = t / BASE as int;
    let r = t % BASE as int;
    assert(t == q * BASE + r) by {
        vstd::arithmetic::div_mod::lemma_fundamental_div_mod(t, BASE as int);
        assert(q * BASE == BASE * q) by (nonlinear_arith);
    }
    assert(r * p + q * (BASE * p) == (q * BASE + r) * p) by (nonlinear_arith);
}

fn limb_at(v: &Vec<u32>, i: usize) -> (r: u64)
    ensures
        r == limb(v@, i as int),
        r < BASE,
{
    if i < v.len() {
        v[i] as u64
    } else {
        0
    }
}

fn longer(a: &Vec<u32>, b: &Vec<u32>) -> (r: usize)
    ensures
        r >= a@.len(),
        r >= b@.len(),
        r == a@.len() || r == b@.len(),
{
    if a.len() < b.len() {
        b.len()
    } else {
        a.len()
    }
}

impl Big {
    /// A number of 128 bits.
    pub fn of(x: u128) -> (r: Big)
        ensures
            r@ == x,
    {
        let mut limbs: Vec<u32> = Vec::new();
        let mut rest: u128 = x;
        while rest > 0
            invariant
                low(limbs@, limbs@.len() as int) + rest * power(limbs@.len() as int) == x,
            decreases rest,
        {
            let ghost before = limbs@;
            let ghost p = power(before.len() as int);
            let d: u32 = (rest % 0x1_0000_0000) as u32;
            limbs.push(d);
            proof {
                low_of_push(before, d);
                carry_step(low(before, before.len() as int), rest as int, p);
            }
            rest = rest / 0x1_0000_0000;
        }
        assert(0 * power(limbs@.len() as int) == 0) by (nonlinear_arith);
        Big { limbs }
    }

    /// The sum of two numbers.
    pub fn plus(&self, other: &Big) -> (r: Big)
        ensures
            r@ == self@ + other@,
    {
        let n = longer(&self.limbs, &other.limbs);
        let ghost a = self.limbs@;
        let ghost b = other.limbs@;
        let mut limbs: Vec<u32> = Vec::new();
        let mut carry: u64 = 0;
        assert(0 * power(0) == 0) by (nonlinear_arith);
        for i in 0..n
            invariant
                a == self.limbs@,
                b == other.limbs@,
                limbs@.len() == i,
                carry <= 1,
                low(limbs@, i as int) + carry * power(i as int) == low(a, i as int) + low(
                    b,
                    i as int,
                ),
        {
            let ghost before = limbs@;
            let ghost p = power(i as int);
            let x = limb_at(&self.limbs, i);
            let y = limb_at(&other.limbs, i);
            let t: u64 = x + y + carry;
            let d: u32 = (t % 0x1_0000_0000) as u32;
            limbs.push(d);
            proof {
                low_of_push(before, d);
                let rest = x + y;
                assert(carry * p + rest * p == (carry + rest) * p) by (nonlinear_arith);
                assert(rest * p == x * p + y * p) by (nonlinear_arith)
                    requires
                        rest == x + y,
                ;
                carry_step(low(before, i as int), t as int, p);
            }
            carry = t / 0x1_0000_0000;
        }
        proof {
            low_past_the_end(a, n as int);
            low_past_the_end(b, n as int);
            low_of_push(limbs@, carry as u32);
            assert(0 * power(n as int) == 0) by (nonlinear_arith);
        }
        if carry > 0 {
            limbs.push(carry as u32);
        }
        Big { limbs }
    }

    /// The difference of two numbers.
    pub fn minus(&self, other: &Big) -> (r: Big)
        requires
            other@ <= self@,
        ensures
            r@ == self@ - other@,
    {
        let n = longer(&self.limbs, &other.limbs);
        let ghost a = self.limbs@;
        let ghost b = other.limbs@;
        let mut limbs: Vec<u32> = Vec::new();
        let mut borrow: u64 = 0;
        assert(0 * power(0) == 0) by (nonlinear_arith);
        for i in 0..n
            invariant
                a == self.limbs@,
                b == other.limbs@,
                limbs@.len() == i,
                borrow <= 1,
                low(limbs@, i as int) - borrow * power(i as int) == low(a, i as int) - low(
                    b,
                    i as int,
                ),
        {
            let ghost before = limbs@;
            let ghost p = power(i as int);
            let ghost owed = borrow;
            let x = limb_at(&self.limbs, i);
            let y = limb_at(&other.limbs, i) + borrow;
            let d: u32 = if x < y {
                borrow = 1;
                (x + 0x1_0000_0000 - y) as u32
            } else {
                borrow = 0;
                (x - y) as u32
            };
            limbs.push(d);
            proof {
                low_of_push(before, d);
                let z = y - owed;
                assert(d == x - z - owed + borrow * BASE) by (nonlinear_arith)
                    requires
                        y == z + owed,
                        (borrow == 1 && d == x + 0x1_0000_0000 - y) || (borrow == 0 && d == x - y),
                        BASE == 0x1_0000_0000,
                ;
                assert(d * p - borrow * (BASE * p) == x * p - z * p - owed * p) by (nonlinear_arith)
                    requires
                        d == x - z - owed + borrow * BASE,
                ;
            }
        }
        proof {
            low_past_the_end(a, n as int);
            low_past_the_end(b, n as int);
            low_is_low(limbs@, n as int);
            assert(0 * power(n as int) == 0 && 1 * power(n as int) == power(n as int))
                by (nonlinear_arith);
        }
        Big { limbs }
    }

    fn times_limb(&self, m: u32) -> (r: Big)
        ensures
            r@ == self@ * m,
    {
        let ghost a = self.limbs@;
        let n = self.limbs.len();
        let mut limbs: Vec<u32> = Vec::new();
        let mut carry: u64 = 0;
        assert(0 * power(0) == 0 && 0 * m == 0) by (nonlinear_arith);
        for i in 0..n
            invariant
                a == self.limbs@,
                n == a.len(),
                limbs@.len() == i,
                carry < BASE,
                low(limbs@, i as int) + carry * power(i as int) == low(a, i as int) * m,
        {
            let ghost before = limbs@;
            let ghost p = power(i as int);
            let x = self.limbs[i] as u64;
            assert(0 <= x * m <= 0xffff_ffff * 0xffff_ffff) by (nonlinear_arith)
                requires
                    0 <= x <= 0xffff_ffff,
                    0 <= m <= 0xffff_ffff,
            ;
            let t: u64 = x * m as u64 + carry;
            let d: u32 = (t % 0x1_0000_0000) as u32;
            limbs.push(d);
            proof {
                low_of_push(before, d);
                let rest = x * m;
                assert(carry * p + rest * p == (carry + rest) * p) by (nonlinear_arith);
                assert((low(a, i as int) + x * p) * m == low(a, i as int) * m + rest * p)
                    by (nonlinear_arith)
                    requires
                        rest == x * m,
                ;
                carry_step(low(before, i as int), t as int, p);
            }
            carry = t / 0x1_0000_0000;
        }
        proof {
            low_of_push(limbs@, carry as u32);
            assert(0 * power(n as int) == 0) by (nonlinear_arith);
        }
        if carry > 0 {
            limbs.push(carry as u32);
        }
        Big { limbs }
    }

    fn shifted(&self) -> (r: Big)
        ensures
            r@ == BASE * self@,
    {
        let ghost a = self.limbs@;
        let mut limbs: Vec<u32> = Vec::new();
        limbs.push(0);
        assert(limbs@ =~= seq![0u32] + a.take(0));
        for i in 0..self.limbs.len()
            invariant
                a == self.limbs@,
                limbs@ == seq![0u32] + a.take(i as int),
        {
            limbs.push(self.limbs[i]);
            assert(limbs@ =~= seq![0u32] + a.take(i + 1));
        }
        assert(a.take(a.len() as int) =~= a);
        proof {
            low_of_shift(a, a.len() as int);
        }
        Big { limbs }
    }

    /// The product of two numbers.
    pub fn times(&self, other: &Big) -> (r: Big)
        ensures
            r@ == self@ * other@,
    {
        let ghost b = other.limbs@;
        let mut acc = Big::of(0);
        let mut i: usize = other.limbs.len();
        assert(0 * power(i as int) + self@ * low(b, i as int) == self@ * other@) by (nonlinear_arith)
            requires
                low(b, i as int) == other@,
        ;
        while i > 0
            invariant
                b == other.limbs@,
                i <= b.len(),
                acc@ * power(i as int) + self@ * low(b, i as int) == self@ * other@,
            decreases i,
        {
            let ghost before = acc@;
            let ghost p = power(i - 1);
            let m = other.limbs[i - 1];
            acc = acc.shifted().plus(&self.times_limb(m));
            proof {
                let me = self@;
                assert((BASE * before + me * m) * p == before * (BASE * p) + me * (m * p))
                    by (nonlinear_arith);
                assert(me * (low(b, i - 1) + m * p) == me * low(b, i - 1) + me * (m * p))
                    by (nonlinear_arith);
            }
            i = i - 1;
        }
        proof {
            assert(acc@ * 1 + self@ * 0 == acc@) by (nonlinear_arith);
        }
        acc
    }

    /// Whether a number does not exceed another.
    pub fn at_most(&self, other: &Big) -> (r: bool)
        ensures
            r == (self@ <= other@),
    {
        let n = longer(&self.limbs, &other.limbs);
        let ghost a = self.limbs@;
        let ghost b = other.limbs@;
        let mut i: usize = n;
        proof {
            low_past_the_end(a, n as int);
            low_past_the_end(b, n as int);
        }
        while i > 0
            invariant
                a == self.limbs@,
                b == other.limbs@,
                self@ - low(a, i as int) == other@ - low(b, i as int),
            decreases i,
        {
            let x = limb_at(&self.limbs, i - 1);
            let y = limb_at(&other.limbs, i - 1);
            proof {
                low_is_low(a, i - 1);
                low_is_low(b, i - 1);
                let p = power(i - 1);
                assert(x < y ==> x * p + p <= y * p) by (nonlinear_arith)
                    requires
                        p >= 1,
                ;
                assert(y < x ==> y * p + p <= x * p) by (nonlinear_arith)
                    requires
                        p >= 1,
                ;
            }
            if x < y {
                return true;
            }
            if y < x {
                return false;
            }
            i = i - 1;
        }
        true
    }

    /// Whether a number is zero.
    pub fn is_zero(&self) -> (r: bool)
        ensures
            r == (self@ == 0),
            self@ >= 0,
    {
        proof {
            low_is_low(self.limbs@, self.limbs@.len() as int);
        }
        self.at_most(&Big::of(0))
    }
}

} // verus!
