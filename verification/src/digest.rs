//! A digest of times: how many, how long on average, how they spread, and which stood
//! out. It keeps its size however many times it takes.
//!
//! Times go in as microseconds and come out as millionths of a millisecond.

use vstd::prelude::*;
use crate::big::Big;
use crate::json;
use crate::json::{count_json, fixed_json, put, text_json, Json, JsonView};
use crate::sorting;
use crate::text;
use crate::units;
use crate::units::{plus, Qty};
use crate::words;

verus! {

/// How many classes times are counted in, four to each doubling.
pub const BUCKETS: usize = 80;

/// By how many standard deviations a time has to exceed the mean to stand out.
pub const OUTLIER_SIGMA: u64 = 3;

/// By what factor a time has to exceed the mean to stand out where nothing spreads.
pub const FLAT_SPIKE_RATIO: u64 = 2;

/// How many times that stood out are kept.
pub const OUTLIER_KEEP: usize = 64;

/// How many times are taken before any stands out.
pub const MIN_N_FOR_OUTLIER: u64 = 30;

/// The longest time whose fourth power has 128 bits, in microseconds; it lies in the last
/// class.
const IN_LAST: u64 = 4_294_967_295;

/// A time that stood out: how long, when, by how many standard deviations in millionths,
/// and by which measure.
#[derive(Debug, Clone, Copy, PartialEq, Eq)]
pub struct Outlier {
    pub ms: i128,
    pub at: u128,
    pub sigma: i128,
    pub by: &'static str,
}

/// What is said of a time that stood out.
pub struct OutlierView {
    pub ms: i128,
    pub at: u128,
    pub sigma: i128,
    pub by: Seq<char>,
}

impl View for Outlier {
    type V = OutlierView;

    open spec fn view(&self) -> OutlierView {
        OutlierView { ms: self.ms, at: self.at, sigma: self.sigma, by: self.by@ }
    }
}

/// What is said of these times.
pub open spec fn outlier_views(v: Seq<Outlier>) -> Seq<OutlierView> {
    v.map_values(|o: Outlier| o@)
}

/// Whether `r` is the root of `v`, rounded down.
pub open spec fn is_root(r: int, v: int) -> bool {
    0 <= r && r * r <= v < (r + 1) * (r + 1)
}

/// The root of `v`, rounded down.
pub open spec fn root(v: int) -> int {
    choose|r: int| #[trigger] is_root(r, v)
}

proof fn root_is_unique(r: int, v: int)
    requires
        is_root(r, v),
    ensures
        root(v) == r,
{
    let k = root(v);
    assert(is_root(k, v));
    if k < r {
        assert((k + 1) * (k + 1) <= r * r) by (nonlinear_arith)
            requires
                0 <= k < r,
        ;
    } else if r < k {
        assert((r + 1) * (r + 1) <= k * k) by (nonlinear_arith)
            requires
                0 <= r < k,
        ;
    }
}

fn root_of(v: u128) -> (r: u64)
    ensures
        r == root(v as int),
        is_root(r as int, v as int),
{
    let mut r: u128 = 0;
    let mut b: u128 = 0x8000_0000_0000_0000;
    assert(v < (r + 2 * b) * (r + 2 * b)) by (nonlinear_arith)
        requires
            r == 0,
            b == 0x8000_0000_0000_0000,
            v <= u128::MAX,
    ;
    let mut k: u32 = 64;
    proof {
        reveal_with_fuel(halvings, 65);
    }
    while k > 0
        invariant
            k <= 64,
            k > 0 ==> b > 0,
            r + 2 * b <= 0x1_0000_0000_0000_0000 || (k == 0 && r < 0x1_0000_0000_0000_0000),
            k > 0 ==> r * r <= v < (r + 2 * b) * (r + 2 * b),
            k > 0 ==> b == halvings(k as int),
            k == 0 ==> r * r <= v < (r + 1) * (r + 1),
        decreases k,
    {
        proof {
            halvings_step(k as int);
        }
        let c: u128 = r + b;
        assert(c * c <= 0xffff_ffff_ffff_ffff * 0xffff_ffff_ffff_ffff) by (nonlinear_arith)
            requires
                0 <= c <= 0xffff_ffff_ffff_ffff,
        ;
        let ghost before = r;
        if c * c <= v {
            r = c;
        }
        assert(r == before || r + b == before + 2 * b);
        b = b / 2;
        k = k - 1;
    }
    proof {
        root_is_unique(r as int, v as int);
    }
    r as u64
}

/// Half of two to the power of `k`.
spec fn halvings(k: int) -> int
    decreases k,
{
    if k <= 1 {
        1
    } else {
        2 * halvings(k - 1)
    }
}

proof fn halvings_step(k: int)
    requires
        1 <= k,
    ensures
        halvings(k) >= 1,
        halvings(1) == 1,
        k > 1 ==> halvings(k) / 2 == halvings(k - 1),
    decreases k,
{
    if k > 1 {
        halvings_step(k - 1);
    }
}

/// Two to the power of `k`.
pub open spec fn two_to(k: int) -> int
    decreases k,
{
    if k <= 0 {
        1
    } else {
        2 * two_to(k - 1)
    }
}

/// Whether a time reaches the lower edge of a class: its fourth power in milliseconds is
/// two to the power of the class less sixteen.
pub open spec fn reaches(us: int, class: int) -> bool {
    (us * us) * (us * us) * 65_536 >= two_to(class) * 1_000_000_000_000
}

/// The last class from `i` on of those in a row whose edge is reached.
pub open spec fn class_from(us: int, i: int) -> int
    decreases BUCKETS - i,
{
    if i < BUCKETS - 1 && reaches(us, i + 1) {
        class_from(us, i + 1)
    } else {
        i
    }
}

/// The class of a time.
pub open spec fn class_of(us: int) -> int {
    class_from(us, 0)
}

/// The lower edge of a class in microseconds, rounded down: a fourth root.
pub open spec fn edge_of(class: int) -> int {
    root(root(two_to(class) * 1_000_000_000_000 / 65_536))
}

proof fn two_to_bound(k: int)
    requires
        0 <= k <= 80,
    ensures
        1 <= two_to(k) <= 0x1_0000_0000_0000_0000_0000,
        two_to(79) * 2 == 0x1_0000_0000_0000_0000_0000,
{
    reveal_with_fuel(two_to, 81);
    two_to_grows(k, 80);
}

proof fn two_to_grows(a: int, b: int)
    requires
        0 <= a <= b,
    ensures
        1 <= two_to(a) <= two_to(b),
    decreases b - a, a,
{
    if a < b {
        two_to_grows(a, b - 1);
    } else if a > 0 {
        two_to_grows(a - 1, a - 1);
    }
}

proof fn last_class(us: int, i: int)
    requires
        us > IN_LAST,
        0 <= i < BUCKETS,
    ensures
        class_from(us, i) == BUCKETS - 1,
    decreases BUCKETS - i,
{
    if i < BUCKETS - 1 {
        two_to_bound(i + 1);
        let x2 = us * us;
        assert(x2 >= 0x1_0000_0000_0000_0000) by (nonlinear_arith)
            requires
                us >= 0x1_0000_0000,
                x2 == us * us,
        ;
        assert(x2 * x2 >= 0x1_0000_0000_0000_0000 * 0x1_0000_0000_0000_0000) by (nonlinear_arith)
            requires
                x2 >= 0x1_0000_0000_0000_0000,
        ;
        last_class(us, i + 1);
    }
}

/// The class that a time of microseconds is counted in; see [`class_of`].
pub fn bucket(us: u64) -> (r: usize)
    ensures
        r == class_of(us as int),
        r < BUCKETS,
{
    if us > IN_LAST {
        proof {
            last_class(us as int, 0);
        }
        return BUCKETS - 1;
    }
    let x: u128 = us as u128;
    assert(x * x <= 4_294_967_295 * 4_294_967_295) by (nonlinear_arith)
        requires
            0 <= x <= 4_294_967_295,
    ;
    let x2: u128 = x * x;
    assert(x2 * x2 <= 0xffff_ffff_ffff_ffff * 0xffff_ffff_ffff_ffff) by (nonlinear_arith)
        requires
            0 <= x2 <= 0xffff_ffff_ffff_ffff,
    ;
    let x4: u128 = x2 * x2;
    let cut: u128 = 0x8000_0000_0000_0000_0000_0000_0000;
    let y: u128 = (if x4 < cut {
        x4
    } else {
        cut
    }) * 65_536;
    let mut edge: u128 = 2_000_000_000_000;
    proof {
        reveal_with_fuel(two_to, 3);
    }
    let mut i: usize = 0;
    while i < BUCKETS - 1 && y >= edge
        invariant
            i < BUCKETS,
            edge == two_to(i + 1) * 1_000_000_000_000,
            x4 == (us as int * us as int) * (us as int * us as int),
            y == (if x4 < cut {
                x4
            } else {
                cut
            }) * 65_536,
            cut == 0x8000_0000_0000_0000_0000_0000_0000,
            class_of(us as int) == class_from(us as int, i as int),
        decreases BUCKETS - i,
    {
        proof {
            two_to_bound(i + 1);
        }
        i = i + 1;
        edge = edge * 2;
    }
    proof {
        if i < BUCKETS - 1 {
            two_to_bound(i + 1);
        }
    }
    i
}

/// The shortest time of a class, in microseconds; see [`edge_of`].
pub fn bucket_us(class: usize) -> (r: u64)
    requires
        class < BUCKETS,
    ensures
        r == edge_of(class as int),
        r <= 0xffff_ffff,
{
    let mut t: u128 = 1_000_000_000_000;
    for i in 0..class
        invariant
            class < BUCKETS,
            t == two_to(i as int) * 1_000_000_000_000,
    {
        proof {
            two_to_bound(i as int);
        }
        t = t * 2;
    }
    let a = root_of(t / 65_536);
    let b = root_of(a as u128);
    assert(b <= 0xffff_ffff) by (nonlinear_arith)
        requires
            b * b <= a,
            a <= 0xffff_ffff_ffff_ffff,
            b >= 0,
    ;
    b
}

/// The numbers of a digest.
pub struct Digest {
    pub n: u64,
    pub sum: u128,
    pub squares: Big,
    pub min: u64,
    pub max: u64,
    pub hist: Vec<u32>,
    pub out: Vec<Outlier>,
    pub out_next: usize,
    pub outlier_total: u64,
}

/// What a digest says: how many times it took, their sum and the sum of their squares,
/// the shortest and the longest, how many fell in each class, and those that stood out.
#[verifier::ext_equal]
pub struct DigestView {
    pub n: int,
    pub sum: int,
    pub squares: int,
    pub min: u64,
    pub max: u64,
    pub hist: Seq<u32>,
    pub out: Seq<OutlierView>,
    pub next: int,
    pub total: u64,
}

impl View for Digest {
    type V = DigestView;

    open spec fn view(&self) -> DigestView {
        DigestView {
            n: self.n as int,
            sum: self.sum as int,
            squares: self.squares@,
            min: self.min,
            max: self.max,
            hist: self.hist@,
            out: outlier_views(self.out@),
            next: self.out_next as int,
            total: self.outlier_total,
        }
    }
}

/// `x` held at the largest amount.
pub open spec fn held(x: int) -> int {
    units::smaller(x, units::AMOUNT_CAP as int)
}

impl DigestView {
    /// How much the times spread: their variance times `n * (n - 1)`.
    pub open spec fn spread(self) -> int {
        self.n * self.squares - self.sum * self.sum
    }

    /// By how much a time exceeds the mean, times `n`.
    pub open spec fn excess(self, us: int) -> int {
        self.n * us - self.sum
    }

    /// By how many standard deviations a time exceeds the mean, in millionths rounded
    /// down.
    pub open spec fn sigma(self, us: int) -> i128 {
        let d = self.excess(us);
        held(
            root(
                words::nearest(
                    d * d * (self.n - 1) * 1_000_000_000_000,
                    self.n * self.spread(),
                ),
            ),
        ) as i128
    }

    /// Whether and how a time stands out: by more than three standard deviations above
    /// the mean, or by more than twice the mean where nothing spreads; never before
    /// enough times were taken.
    pub open spec fn stands_out(self, us: int, at: u128) -> Option<OutlierView> {
        let d = self.excess(us);
        if self.n < MIN_N_FOR_OUTLIER {
            None
        } else if self.spread() > 0 {
            if d > 0 && d * d * (self.n - 1) > 9 * self.n * self.spread() {
                Some(
                    OutlierView {
                        ms: (us * 1_000) as i128,
                        at,
                        sigma: self.sigma(us),
                        by: "sigma"@,
                    },
                )
            } else {
                None
            }
        } else if self.sum > 0 && self.n * us > 2 * self.sum {
            Some(OutlierView { ms: (us * 1_000) as i128, at, sigma: 0, by: "ratio"@ })
        } else {
            None
        }
    }

    /// With one more time that stood out; the oldest goes where there is no room.
    pub open spec fn with_outlier(self, o: Option<OutlierView>) -> DigestView {
        match o {
            None => self,
            Some(x) => if self.out.len() < OUTLIER_KEEP {
                DigestView {
                    out: self.out.push(x),
                    total: units::plus_capped(self.total, 1),
                    ..self
                }
            } else {
                DigestView {
                    out: self.out.update(self.next, x),
                    next: (self.next + 1) % OUTLIER_KEEP as int,
                    total: units::plus_capped(self.total, 1),
                    ..self
                }
            },
        }
    }

    /// With one more time, which is judged by the times before it. A class that is full stays
    /// so.
    pub open spec fn with(self, us: int, at: u128) -> DigestView {
        let d = self.with_outlier(self.stands_out(us, at));
        let c = class_of(us);
        DigestView {
            n: d.n + 1,
            sum: d.sum + us,
            squares: d.squares + us * us,
            min: units::smaller(d.min as int, us) as u64,
            max: units::larger(d.max as int, us) as u64,
            hist: d.hist.update(c, units::smaller(d.hist[c] + 1, u32::MAX as int) as u32),
            ..d
        }
    }

    /// After a time was offered: one that is negative or no number changes nothing, nor
    /// does any that cannot be counted.
    pub open spec fn pushed(self, us: Qty, at: u128) -> DigestView {
        match us {
            Qty::Finite(x) => if x < 0 || self.n >= u64::MAX {
                self
            } else {
                self.with(x as int, at)
            },
            Qty::NotFinite => self,
        }
    }

    /// Whether the numbers are those of some times.
    pub open spec fn wf(self) -> bool {
        &&& 0 <= self.n <= u64::MAX
        &&& 0 <= self.sum <= self.n * i64::MAX
        &&& 0 <= self.squares
        &&& self.spread() >= 0
        &&& self.hist.len() == BUCKETS
        &&& self.out.len() <= OUTLIER_KEEP
        &&& 0 <= self.next < OUTLIER_KEEP
    }

    /// The mean in millionths of a millisecond, rounded half up.
    pub open spec fn average(self) -> int {
        if self.n == 0 {
            0
        } else {
            words::nearest(self.sum * 1_000, self.n)
        }
    }

    /// The standard deviation of the sample in millionths of a millisecond, rounded down.
    pub open spec fn deviation(self) -> int {
        if self.n < 2 {
            0
        } else {
            held(
                root(words::nearest(self.spread() * 1_000_000, self.n * (self.n - 1))),
            )
        }
    }
}

/// How many times fell in the first `k` classes.
pub open spec fn up_to_class(hist: Seq<u32>, k: int) -> int
    decreases k,
{
    if k <= 0 {
        0
    } else {
        up_to_class(hist, k - 1) + hist[k - 1]
    }
}

/// The first class from `i` on up to which there are `want` times.
pub open spec fn class_with(hist: Seq<u32>, want: int, i: int) -> Option<int>
    decreases hist.len() - i,
{
    if i < 0 || i >= hist.len() {
        None
    } else if up_to_class(hist, i + 1) >= want {
        Some(i)
    } else {
        class_with(hist, want, i + 1)
    }
}

/// How many times make up a part of `n`, given in millionths: rounded up, one at least.
pub open spec fn rank_of(part: int, n: int) -> int {
    units::larger((part * n + 999_999) / 1_000_000, 1)
}

impl DigestView {
    /// The time that a part of all times does not exceed, by the edge of its class, in
    /// millionths of a millisecond.
    pub open spec fn percentile(self, part: int) -> int {
        if self.n == 0 {
            0
        } else {
            match class_with(self.hist, rank_of(part, self.n), 0) {
                Some(i) => edge_of(i) * 1_000,
                None => self.max * 1_000,
            }
        }
    }
}

proof fn spread_stays(n: int, s: int, q: int, x: int)
    requires
        n >= 0,
        s >= 0,
        q >= 0,
        x >= 0,
        n == 0 ==> s == 0,
        n * q - s * s >= 0,
    ensures
        (n + 1) * (q + x * x) - (s + x) * (s + x) >= 0,
{
    let t = q + n * (x * x) - 2 * (s * x);
    if n == 0 {
        assert((0 + 1) * (q + x * x) - (0 + x) * (0 + x) == q) by (nonlinear_arith);
    } else {
        let y = n * x;
        assert(n * t == n * q + y * y - 2 * (s * y)) by (nonlinear_arith)
            requires
                y == n * x,
                t == q + n * (x * x) - 2 * (s * x),
        ;
        assert((s - y) * (s - y) == s * s + y * y - 2 * (s * y)) by (nonlinear_arith);
        assert((s - y) * (s - y) >= 0) by (nonlinear_arith);
        assert(t >= 0) by (nonlinear_arith)
            requires
                n > 0,
                n * t >= 0,
        ;
        assert((n + 1) * (q + x * x) - (s + x) * (s + x) == (n * q - s * s) + t)
            by (nonlinear_arith)
            requires
                t == q + n * (x * x) - 2 * (s * x),
        ;
    }
}

proof fn numbers_fit(d: DigestView, us: int)
    requires
        d.wf(),
        0 <= us <= i64::MAX,
    ensures
        0 <= d.sum < 0x8000_0000_0000_0000_0000_0000_0000_0000,
        0 <= d.n * us < 0x8000_0000_0000_0000_0000_0000_0000_0000,
        0 <= d.sum * d.sum <= d.n * d.squares,
        d.n == 0 ==> d.sum == 0,
{
    assert(d.n * i64::MAX <= 0xffff_ffff_ffff_ffff * 0x7fff_ffff_ffff_ffff) by (nonlinear_arith)
        requires
            0 <= d.n <= 0xffff_ffff_ffff_ffff,
            i64::MAX == 0x7fff_ffff_ffff_ffff,
    ;
    assert(0 <= d.n * us <= 0xffff_ffff_ffff_ffff * 0x7fff_ffff_ffff_ffff) by (nonlinear_arith)
        requires
            0 <= d.n <= 0xffff_ffff_ffff_ffff,
            0 <= us <= 0x7fff_ffff_ffff_ffff,
    ;
    assert(d.sum * d.sum >= 0) by (nonlinear_arith);
    assert(d.n == 0 ==> d.n * i64::MAX == 0) by (nonlinear_arith);
}

fn root_of_ratio(num: &Big, den: &Big) -> (r: i128)
    requires
        num@ >= 0,
        den@ > 0,
    ensures
        r == held(root(words::nearest(num@, den@))),
{
    let x = num.plus(num).plus(den);
    let y = den.plus(den);
    let ghost a = x@;
    let ghost z = y@;
    let mut r: u128 = 0;
    let mut b: u128 = 0x4000_0000_0000_0000_0000_0000_0000_0000;
    let ghost top = 0x8000_0000_0000_0000_0000_0000_0000_0000int;
    let mut k: u32 = 127;
    assert(halvings(43) == 0x400_0000_0000) by {
        reveal_with_fuel(halvings, 44);
    }
    assert(halvings(85) == 0x10_0000_0000_0000_0000_0000) by {
        reveal_with_fuel(halvings, 44);
    }
    assert(halvings(127) == 0x4000_0000_0000_0000_0000_0000_0000_0000) by {
        reveal_with_fuel(halvings, 44);
    }
    assert((0 * 0) * z <= a) by (nonlinear_arith)
        requires
            a >= 0,
    ;
    while k > 0
        invariant
            k <= 127,
            x@ == a,
            y@ == z,
            z > 0,
            top == 0x8000_0000_0000_0000_0000_0000_0000_0000int,
            (r * r) * z <= a,
            k > 0 ==> b == halvings(k as int),
            k > 0 ==> r + 2 * b <= top,
            k > 0 ==> (r + 2 * b == top || a < ((r + 2 * b) * (r + 2 * b)) * z),
            k == 0 ==> r + 1 <= top,
            k == 0 ==> (r + 1 == top || a < ((r + 1) * (r + 1)) * z),
        decreases k,
    {
        proof {
            halvings_step(k as int);
        }
        let c: u128 = r + b;
        let big = Big::of(c);
        let ghost before = r;
        if big.times(&big).times(&y).at_most(&x) {
            r = c;
        }
        assert(r == before || r + b == before + 2 * b);
        b = b / 2;
        k = k - 1;
    }
    proof {
        let q = a / z;
        vstd::arithmetic::div_mod::lemma_fundamental_div_mod(a, z);
        let rr = r * r;
        assert(rr <= q) by (nonlinear_arith)
            requires
                rr * z <= a,
                a == z * q + a % z,
                0 <= a % z < z,
                z > 0,
        ;
        if r + 1 < top {
            let up = (r + 1) * (r + 1);
            assert(q < up) by (nonlinear_arith)
                requires
                    a < up * z,
                    a == z * q + a % z,
                    0 <= a % z,
                    z > 0,
            ;
            assert(is_root(r as int, q));
            root_is_unique(r as int, q);
        } else {
            root_exists(q);
            let s = root(q);
            assert(s >= r) by (nonlinear_arith)
                requires
                    0 <= s,
                    0 <= r,
                    q < (s + 1) * (s + 1),
                    r * r <= q,
            ;
        }
        assert(words::nearest(num@, den@) == q);
    }
    r as i128
}

impl Digest {
    /// No times yet.
    pub fn new() -> (r: Self)
        ensures
            r@ == nothing(),
            r@.wf(),
    {
        let mut hist: Vec<u32> = Vec::new();
        for i in 0..BUCKETS
            invariant
                hist@ == Seq::new(i as nat, |k: int| 0u32),
        {
            hist.push(0);
            assert(hist@ =~= Seq::new((i + 1) as nat, |k: int| 0u32));
        }
        let r = Digest {
            n: 0,
            sum: 0,
            squares: Big::of(0),
            min: u64::MAX,
            max: 0,
            hist,
            out: Vec::new(),
            out_next: 0,
            outlier_total: 0,
        };
        assert(r@.out =~= Seq::<OutlierView>::empty());
        assert(0 * i64::MAX == 0) by (nonlinear_arith);
        assert(r@.spread() == 0) by (nonlinear_arith)
            requires
                r@.spread() == 0 * r@.squares - 0 * 0int,
        ;
        r
    }

    fn spread(&self) -> (r: Big)
        requires
            self@.wf(),
        ensures
            r@ == self@.spread(),
    {
        proof {
            numbers_fit(self@, 0);
        }
        let s = Big::of(self.sum);
        Big::of(self.n as u128).times(&self.squares).minus(&s.times(&s))
    }

    fn judged(&self, us: u64, at: u128) -> (r: Option<Outlier>)
        requires
            self@.wf(),
            us <= i64::MAX,
        ensures
            match self@.stands_out(us as int, at) {
                Some(o) => r matches Some(x) && x@ == o,
                None => r is None,
            },
    {
        proof {
            numbers_fit(self@, us as int);
        }
        if self.n < MIN_N_FOR_OUTLIER {
            return None;
        }
        let n: u128 = self.n as u128;
        let v = self.spread();
        let nx: u128 = n * us as u128;
        if !v.is_zero() {
            if nx <= self.sum {
                return None;
            }
            let d = Big::of(nx - self.sum);
            let far = d.times(&d).times(&Big::of(n - 1));
            if far.at_most(&Big::of(9 * n).times(&v)) {
                return None;
            }
            let num = far.times(&Big::of(1_000_000_000_000));
            let den = Big::of(n).times(&v);
            proof {
                let g = d@ * d@;
                assert(g * (n - 1) >= 0) by (nonlinear_arith)
                    requires
                        g == d@ * d@,
                        n >= 1,
                ;
                assert(den@ > 0) by (nonlinear_arith)
                    requires
                        den@ == n * v@,
                        n > 0,
                        v@ > 0,
                ;
            }
            let sigma = root_of_ratio(&num, &den);
            return Some(Outlier { ms: us as i128 * 1_000, at, sigma, by: "sigma" });
        }
        if self.sum > 0 && nx > FLAT_SPIKE_RATIO as u128 * self.sum {
            return Some(Outlier { ms: us as i128 * 1_000, at, sigma: 0, by: "ratio" });
        }
        None
    }

    /// Takes a time; see [`DigestView::pushed`].
    pub fn push(&mut self, us: Qty, at: u128)
        requires
            old(self)@.wf(),
        ensures
            final(self)@ == old(self)@.pushed(us, at),
            final(self)@.wf(),
    {
        let ghost start = self@;
        let given: i64 = match us {
            Qty::Finite(x) => x,
            Qty::NotFinite => -1,
        };
        if given < 0 || self.n >= u64::MAX {
            return ;
        }
        let x: u64 = given as u64;
        if let Some(o) = self.judged(x, at) {
            let ghost before = outlier_views(self.out@);
            self.outlier_total = plus(self.outlier_total, 1);
            if self.out.len() < OUTLIER_KEEP {
                self.out.push(o);
                assert(outlier_views(self.out@) =~= before.push(o@));
            } else {
                self.out.set(self.out_next, o);
                assert(outlier_views(self.out@) =~= before.update(self.out_next as int, o@));
                self.out_next = (self.out_next + 1) % OUTLIER_KEEP;
            }
        }
        let ghost mid = self@;
        assert(mid =~= start.with_outlier(start.stands_out(x as int, at)));
        let c = bucket(x);
        proof {
            numbers_fit(start, x as int);
            class_is_one(x as int, 0);
            spread_stays(start.n, start.sum, start.squares, x as int);
            assert(0 <= x * x) by (nonlinear_arith);
            assert((start.n + 1) * i64::MAX == start.n * i64::MAX + i64::MAX) by (nonlinear_arith);
            assert((start.n + 1) * i64::MAX <= 0xffff_ffff_ffff_ffff * 0x7fff_ffff_ffff_ffff)
                by (nonlinear_arith)
                requires
                    0 <= start.n < 0xffff_ffff_ffff_ffff,
                    i64::MAX == 0x7fff_ffff_ffff_ffff,
            ;
        }
        self.n = self.n + 1;
        self.sum = self.sum + x as u128;
        let big = Big::of(x as u128);
        self.squares = self.squares.plus(&big.times(&big));
        if x < self.min {
            self.min = x;
        }
        if x > self.max {
            self.max = x;
        }
        let h: u32 = if self.hist[c] < u32::MAX {
            self.hist[c] + 1
        } else {
            u32::MAX
        };
        self.hist.set(c, h);
        assert(self@ =~= start.pushed(us, at));
    }

    /// How many times were taken.
    pub fn n(&self) -> (r: u64)
        ensures
            r == self@.n,
    {
        self.n
    }

    /// The mean; see [`DigestView::average`].
    pub fn mean(&self) -> (r: u128)
        requires
            self@.wf(),
        ensures
            r == self@.average(),
            r <= 1_000 * u64::MAX,
    {
        if self.n == 0 {
            return 0;
        }
        proof {
            mean_fits(self@);
        }
        words::scaled(self.sum, 1_000, self.n as u128)
    }

    /// The standard deviation; see [`DigestView::deviation`].
    pub fn stddev(&self) -> (r: i128)
        requires
            self@.wf(),
        ensures
            r == self@.deviation(),
    {
        if self.n < 2 {
            return 0;
        }
        let n: u128 = self.n as u128;
        let num = self.spread().times(&Big::of(1_000_000));
        let den = Big::of(n).times(&Big::of(n - 1));
        assert(den@ > 0) by (nonlinear_arith)
            requires
                den@ == n * (n - 1),
                n >= 2,
        ;
        root_of_ratio(&num, &den)
    }

    /// The time that a part of all times, given in millionths, does not exceed; see
    /// [`DigestView::percentile`].
    pub fn pct(&self, part: u32) -> (r: u128)
        requires
            self@.wf(),
        ensures
            r == self@.percentile(part as int),
            r <= 1_000 * u64::MAX,
    {
        if self.n == 0 {
            return 0;
        }
        assert(0 <= part * self.n <= 0xffff_ffff * 0xffff_ffff_ffff_ffff) by (nonlinear_arith)
            requires
                0 <= part <= 0xffff_ffff,
                0 <= self.n <= 0xffff_ffff_ffff_ffff,
        ;
        let raw: u128 = (part as u128 * self.n as u128 + 999_999) / 1_000_000;
        let want: u128 = if raw < 1 {
            1
        } else {
            raw
        };
        let mut acc: u128 = 0;
        for i in 0..BUCKETS
            invariant
                self@.wf(),
                self.n > 0,
                want == rank_of(part as int, self.n as int),
                acc == up_to_class(self.hist@, i as int),
                acc <= i * 0xffff_ffff,
                class_with(self.hist@, want as int, 0) == class_with(
                    self.hist@,
                    want as int,
                    i as int,
                ),
        {
            acc = acc + self.hist[i] as u128;
            if acc >= want {
                return bucket_us(i) as u128 * 1_000;
            }
        }
        self.max as u128 * 1_000
    }

    /// The times that stood out, the newest first; those of one moment stay in order.
    pub fn outliers(&self) -> (r: Vec<Outlier>)
        ensures
            newest_first(self@.out, outlier_views(r@)),
    {
        let mut keys: Vec<i128> = Vec::new();
        for i in 0..self.out.len()
            invariant
                keys@ == moments(self@.out).take(i as int),
        {
            keys.push(moment_of(self.out[i].at));
            assert(keys@ =~= moments(self@.out).take(i + 1));
        }
        assert(keys@ =~= moments(self@.out));
        let order = sorting::rank(&keys);
        let mut v: Vec<Outlier> = Vec::new();
        let ghost want = Seq::new(self@.out.len(), |i: int| self@.out[order@[i] as int]);
        for i in 0..order.len()
            invariant
                sorting::ranks(order@, moments(self@.out)),
                want == Seq::new(self@.out.len(), |i: int| self@.out[order@[i] as int]),
                outlier_views(v@) == want.take(i as int),
        {
            assert(order@[i as int] < moments(self@.out).len());
            let ghost before = outlier_views(v@);
            v.push(self.out[order[i]]);
            assert(outlier_views(v@) =~= before.push(want[i as int]));
            assert(before.push(want[i as int]) =~= want.take(i + 1));
        }
        assert(want.take(want.len() as int) =~= want);
        assert(sorting::ranks(order@, moments(self@.out)));
        v
    }

    /// The digest for a status page, times in milliseconds to two places; nothing but
    /// the count where there are none.
    pub fn json(&self) -> (r: Json)
        requires
            self@.wf(),
        ensures
            says(self@, r@),
    {
        let mut f = json::no_fields();
        put(&mut f, "n", count_json(self.n as u128));
        if self.n == 0 {
            assert(json::shown_fields(f@) =~= seq![("n"@, JsonView::Number(text::dec(0)))]);
            return Json::Fields(f);
        }
        let recent = self.outliers();
        put(&mut f, "mean", fixed_json(self.mean() as i128, 6, 2));
        put(&mut f, "sd", fixed_json(self.stddev(), 6, 2));
        put(&mut f, "min", fixed_json(self.min as i128, 3, 2));
        put(&mut f, "max", fixed_json(self.max as i128, 3, 2));
        put(&mut f, "p50", self.share(500_000));
        put(&mut f, "p90", self.share(900_000));
        put(&mut f, "p99", self.share(990_000));
        put(&mut f, "outliers", count_json(self.outlier_total as u128));
        let k: usize = if recent.len() <= HIGHLIGHTS {
            recent.len()
        } else {
            HIGHLIGHTS
        };
        let ghost order = outlier_views(recent@);
        let mut l = json::no_items();
        for i in 0..k
            invariant
                k <= recent@.len(),
                order == outlier_views(recent@),
                json::shown_list(l@) == highlights(order).take(i as int),
                k == units::smaller(order.len() as int, HIGHLIGHTS as int),
        {
            let o = recent[i];
            let mut g = json::no_fields();
            put(&mut g, "ms", fixed_json(o.ms, 6, 2));
            put(&mut g, "at", count_json(o.at));
            put(&mut g, "sigma", fixed_json(o.sigma, 6, 2));
            put(&mut g, "by", text_json(o.by));
            assert(json::shown_fields(g@) =~= highlight(o@)->Fields_0);
            json::add_item(&mut l, Json::Fields(g));
            assert(json::shown_list(l@) =~= highlights(order).take(i + 1));
        }
        assert(highlights(order).take(k as int) =~= highlights(order));
        put(&mut f, "recent_outliers", Json::List(l));
        assert(json::shown_fields(f@) =~= summary(self@, order));
        assert(newest_first(self@.out, order));
        Json::Fields(f)
    }

    fn share(&self, part: u32) -> (r: Json)
        requires
            self@.wf(),
        ensures
            r@ == JsonView::Number(text::fixed(self@.percentile(part as int), 6, 2)),
    {
        fixed_json(self.pct(part) as i128, 6, 2)
    }
}

impl Default for Digest {
    fn default() -> (r: Self)
        ensures
            r@ == nothing(),
            r@.wf(),
    {
        Digest::new()
    }
}

/// How many times that stood out a status page shows.
pub const HIGHLIGHTS: usize = 8;

/// A digest of no times.
pub open spec fn nothing() -> DigestView {
    DigestView {
        n: 0,
        sum: 0,
        squares: 0,
        min: u64::MAX,
        max: 0,
        hist: Seq::new(BUCKETS as nat, |i: int| 0u32),
        out: Seq::empty(),
        next: 0,
        total: 0,
    }
}

/// A moment as a number with a sign, earlier ones first.
pub open spec fn moment(at: u128) -> i128 {
    (at - 0x8000_0000_0000_0000_0000_0000_0000_0000int) as i128
}

fn moment_of(at: u128) -> (r: i128)
    ensures
        r == moment(at),
{
    if at >= 0x8000_0000_0000_0000_0000_0000_0000_0000 {
        (at - 0x8000_0000_0000_0000_0000_0000_0000_0000) as i128
    } else {
        -((0x7fff_ffff_ffff_ffff_ffff_ffff_ffff_ffff - at) as i128) - 1
    }
}

/// When each of these stood out.
pub open spec fn moments(v: Seq<OutlierView>) -> Seq<i128> {
    v.map_values(|o: OutlierView| moment(o.at))
}

/// Whether `s` are all of `v`, the newest first.
pub open spec fn newest_first(v: Seq<OutlierView>, s: Seq<OutlierView>) -> bool {
    exists|order: Seq<usize>| #[trigger]
        sorting::ranks(order, moments(v)) && s == Seq::new(v.len(), |i: int| v[order[i] as int])
}

/// A time that stood out, for a status page.
pub open spec fn highlight(o: OutlierView) -> JsonView {
    JsonView::Fields(
        seq![
            ("ms"@, JsonView::Number(text::fixed(o.ms as int, 6, 2))),
            ("at"@, JsonView::Number(text::dec(o.at as nat))),
            ("sigma"@, JsonView::Number(text::fixed(o.sigma as int, 6, 2))),
            ("by"@, JsonView::Text(o.by)),
        ],
    )
}

/// The first of these for a status page.
pub open spec fn highlights(s: Seq<OutlierView>) -> Seq<JsonView> {
    Seq::new(
        units::smaller(s.len() as int, HIGHLIGHTS as int) as nat,
        |i: int| highlight(s[i]),
    )
}

/// A digest for a status page.
pub open spec fn summary(d: DigestView, recent: Seq<OutlierView>) -> Seq<(Seq<char>, JsonView)> {
    seq![
        ("n"@, JsonView::Number(text::dec(d.n as nat))),
        ("mean"@, JsonView::Number(text::fixed(d.average(), 6, 2))),
        ("sd"@, JsonView::Number(text::fixed(d.deviation(), 6, 2))),
        ("min"@, JsonView::Number(text::fixed(d.min as int, 3, 2))),
        ("max"@, JsonView::Number(text::fixed(d.max as int, 3, 2))),
        ("p50"@, JsonView::Number(text::fixed(d.percentile(500_000), 6, 2))),
        ("p90"@, JsonView::Number(text::fixed(d.percentile(900_000), 6, 2))),
        ("p99"@, JsonView::Number(text::fixed(d.percentile(990_000), 6, 2))),
        ("outliers"@, JsonView::Number(text::dec(d.total as nat))),
        ("recent_outliers"@, JsonView::List(highlights(recent))),
    ]
}

/// Whether `j` tells of a digest.
pub open spec fn says(d: DigestView, j: JsonView) -> bool {
    if d.n == 0 {
        j == JsonView::Fields(seq![("n"@, JsonView::Number(text::dec(0)))])
    } else {
        exists|recent: Seq<OutlierView>| #[trigger]
            newest_first(d.out, recent) && j == JsonView::Fields(summary(d, recent))
    }
}

proof fn mean_fits(d: DigestView)
    requires
        d.wf(),
        d.n > 0,
    ensures
        0 <= words::nearest(d.sum * 1_000, d.n) <= 1_000 * u64::MAX,
{
    let a = d.sum * 1_000;
    assert(a <= d.n * (1_000 * i64::MAX)) by (nonlinear_arith)
        requires
            a == d.sum * 1_000,
            d.sum <= d.n * i64::MAX,
    ;
    assert(0 <= (2 * a + d.n) / (2 * d.n) <= 1_000 * u64::MAX) by (nonlinear_arith)
        requires
            d.n > 0,
            0 <= a <= d.n * 9_223_372_036_854_775_807_000,
            u64::MAX == 18_446_744_073_709_551_615,
    ;
}

/// What a digest takes leaves it sound, and every time that is taken is counted once.
pub proof fn every_time_counts(d: DigestView, us: i64, at: u128)
    requires
        d.wf(),
        us >= 0,
        d.n < u64::MAX,
    ensures
        d.pushed(Qty::Finite(us), at).n == d.n + 1,
        d.pushed(Qty::Finite(us), at).sum == d.sum + us,
        d.pushed(Qty::Finite(us), at).out.len() <= OUTLIER_KEEP,
        d.pushed(Qty::Finite(us), at).hist.len() == BUCKETS,
{
    class_is_one(us as int, 0);
}

proof fn class_is_one(us: int, i: int)
    requires
        0 <= i < BUCKETS,
    ensures
        0 <= class_from(us, i) < BUCKETS,
    decreases BUCKETS - i,
{
    if i < BUCKETS - 1 && reaches(us, i + 1) {
        class_is_one(us, i + 1);
    }
}

/// A time that is no number, or negative, changes nothing.
pub proof fn bad_time_is_dropped(d: DigestView, us: i64, at: u128)
    requires
        us < 0,
    ensures
        d.pushed(Qty::NotFinite, at) == d,
        d.pushed(Qty::Finite(us), at) == d,
{
}

/// Only a time above the mean stands out, and none before enough were taken.
pub proof fn only_slow_times_stand_out(d: DigestView, us: int, at: u128)
    requires
        d.wf(),
        us >= 0,
    ensures
        d.stands_out(us, at) is Some ==> d.n * us > d.sum && d.n >= MIN_N_FOR_OUTLIER,
{
}

proof fn class_is_reached(us: int, i: int)
    requires
        0 <= i < BUCKETS,
    ensures
        i <= class_from(us, i) < BUCKETS,
        class_from(us, i) > i ==> reaches(us, class_from(us, i)),
        class_from(us, i) < BUCKETS - 1 ==> !reaches(us, class_from(us, i) + 1),
    decreases BUCKETS - i,
{
    if i < BUCKETS - 1 && reaches(us, i + 1) {
        class_is_reached(us, i + 1);
    }
}

proof fn root_exists(v: int)
    requires
        0 <= v,
    ensures
        is_root(root(v), v),
    decreases v,
{
    if v == 0 {
        assert(is_root(0, 0)) by (nonlinear_arith);
    } else {
        root_exists(v - 1);
        let r = root(v - 1);
        if (r + 1) * (r + 1) <= v {
            assert(v < (r + 2) * (r + 2)) by (nonlinear_arith)
                requires
                    0 <= r,
                    v - 1 < (r + 1) * (r + 1),
            ;
            assert(is_root(r + 1, v));
        } else {
            assert(is_root(r, v));
        }
    }
}

/// A time is counted in the class whose edges it lies between.
pub proof fn class_holds_its_times(us: int)
    requires
        0 <= us,
    ensures
        class_of(us) > 0 ==> edge_of(class_of(us)) <= us,
        class_of(us) < BUCKETS - 1 ==> us <= edge_of(class_of(us) + 1),
{
    class_is_reached(us, 0);
    let c = class_of(us);
    let q = (us * us) * (us * us);
    if c > 0 {
        two_to_bound(c);
        let v = two_to(c) * 1_000_000_000_000 / 65_536;
        let a = root(v);
        let b = root(a);
        root_exists(v);
        root_exists(a);
        assert(v <= q);
        assert(b <= us) by (nonlinear_arith)
            requires
                0 <= us,
                0 <= b,
                0 <= a,
                b * b <= a,
                a * a <= v,
                v <= q,
                q == (us * us) * (us * us),
        {
            if us < b {
                assert(us * us < b * b);
                assert(us * us < a);
                assert((us * us) * (us * us) < a * a);
            }
        }
    }
    if c < BUCKETS - 1 {
        two_to_bound(c + 1);
        let v = two_to(c + 1) * 1_000_000_000_000 / 65_536;
        let a = root(v);
        let b = root(a);
        root_exists(v);
        root_exists(a);
        assert(q <= v);
        assert(us <= b) by (nonlinear_arith)
            requires
                0 <= us,
                0 <= b,
                0 <= a,
                a < (b + 1) * (b + 1),
                v < (a + 1) * (a + 1),
                q <= v,
                q == (us * us) * (us * us),
        {
            if us > b {
                assert(us * us >= (b + 1) * (b + 1));
                assert(us * us >= a + 1);
                assert((us * us) * (us * us) >= (a + 1) * (a + 1));
            }
        }
    }
}

} // verus!
