//! Words of 32 bytes, as contracts on the chain lay their arguments out.

use vstd::prelude::*;
use crate::text;

verus! {

/// The number that these bytes write, the first of them the most significant.
pub open spec fn be(s: Seq<u8>) -> nat
    decreases s.len(),
{
    if s.len() == 0 {
        0
    } else {
        be(s.drop_last()) * 256 + s.last() as nat
    }
}

/// The word at a byte offset, where all of it is there.
pub open spec fn word_at(b: Seq<u8>, off: int) -> Option<Seq<u8>> {
    if 0 <= off && off + 32 <= b.len() {
        Some(b.subrange(off, off + 32))
    } else {
        None
    }
}

/// Whether every byte is zero.
pub open spec fn is_zero(s: Seq<u8>) -> bool {
    forall|i: int| 0 <= i < s.len() ==> s[i] == 0
}

/// The number of a word at an offset, where it fits 64 bits.
pub open spec fn small_at(b: Seq<u8>, off: int) -> Option<int> {
    match word_at(b, off) {
        Some(w) => if is_zero(w.take(24)) {
            Some(be(w.skip(24)) as int)
        } else {
            None
        },
        None => None,
    }
}

/// The number of a word at an offset, where it fits 128 bits.
pub open spec fn large_at(b: Seq<u8>, off: int) -> Option<int> {
    match word_at(b, off) {
        Some(w) => if is_zero(w.take(16)) {
            Some(be(w.skip(16)) as int)
        } else {
            None
        },
        None => None,
    }
}

/// Two hundred fifty-six to the power of `k`.
pub open spec fn pow256(k: nat) -> nat
    decreases k,
{
    if k == 0 {
        1
    } else {
        256 * pow256((k - 1) as nat)
    }
}

proof fn be_bound(s: Seq<u8>)
    ensures
        be(s) < pow256(s.len()),
    decreases s.len(),
{
    if s.len() > 0 {
        be_bound(s.drop_last());
    }
}

/// A number of sixteen bytes fits 128 bits.
pub proof fn large_fits(b: Seq<u8>, off: int)
    ensures
        large_at(b, off) matches Some(v) ==> 0 <= v <= u128::MAX,
{
    if let Some(w) = word_at(b, off) {
        be_bound(w.skip(16));
        reveal_with_fuel(pow256, 17);
    }
}

proof fn pow256_grows(a: nat, b: nat)
    requires
        a <= b,
    ensures
        pow256(a) <= pow256(b),
    decreases b,
{
    if a < b {
        pow256_grows(a, (b - 1) as nat);
    }
}

/// Whether every byte from `from` up to `to` is zero.
pub fn zeros(b: &[u8], from: usize, to: usize) -> (r: bool)
    requires
        from <= to <= b@.len(),
    ensures
        r == is_zero(b@.subrange(from as int, to as int)),
{
    let ghost part = b@.subrange(from as int, to as int);
    for i in from..to
        invariant
            from <= to <= b@.len(),
            part == b@.subrange(from as int, to as int),
            forall|j: int| 0 <= j < i - from ==> part[j] == 0,
    {
        if b[i] != 0 {
            assert(part[i - from] == b@[i as int]);
            return false;
        }
        assert(part[i - from] == 0);
    }
    true
}

/// The number that up to sixteen bytes write.
pub fn value(b: &[u8], from: usize, to: usize) -> (r: u128)
    requires
        from <= to <= b@.len(),
        to - from <= 16,
    ensures
        r == be(b@.subrange(from as int, to as int)),
        to - from <= 8 ==> r <= u64::MAX,
{
    let ghost part = b@.subrange(from as int, to as int);
    let mut acc: u128 = 0;
    for i in from..to
        invariant
            from <= to <= b@.len(),
            to - from <= 16,
            part == b@.subrange(from as int, to as int),
            acc == be(part.take(i - from)),
    {
        let ghost more = part.take(i - from + 1);
        assert(more.drop_last() =~= part.take(i - from));
        proof {
            be_bound(more);
            pow256_grows(more.len(), 16);
            assert(pow256(16) == 0x1_0000_0000_0000_0000_0000_0000_0000_0000) by {
                reveal_with_fuel(pow256, 17);
            }
        }
        acc = acc * 256 + b[i] as u128;
    }
    assert(part.take(to - from) =~= part);
    proof {
        be_bound(part);
        if to - from <= 8 {
            pow256_grows(part.len(), 8);
            assert(pow256(8) == 0x1_0000_0000_0000_0000) by {
                reveal_with_fuel(pow256, 9);
            }
        }
    }
    acc
}

/// The number of the word at an offset, where it fits 64 bits.
pub fn small(b: &[u8], off: u128) -> (r: Option<u64>)
    ensures
        match small_at(b@, off as int) {
            Some(v) => r matches Some(w) && w == v,
            None => r is None,
        },
{
    if off > b.len() as u128 || b.len() as u128 - off < 32 {
        return None;
    }
    let o = off as usize;
    let ghost w = b@.subrange(o as int, o + 32);
    assert(w.take(24) =~= b@.subrange(o as int, o + 24));
    assert(w.skip(24) =~= b@.subrange(o + 24, o + 32));
    if !zeros(b, o, o + 24) {
        return None;
    }
    Some(value(b, o + 24, o + 32) as u64)
}

/// The number of the word at an offset, where it fits 128 bits.
pub fn large(b: &[u8], off: u128) -> (r: Option<u128>)
    ensures
        match large_at(b@, off as int) {
            Some(v) => r matches Some(w) && w == v,
            None => r is None,
        },
{
    if off > b.len() as u128 || b.len() as u128 - off < 32 {
        return None;
    }
    let o = off as usize;
    let ghost w = b@.subrange(o as int, o + 32);
    assert(w.take(16) =~= b@.subrange(o as int, o + 16));
    assert(w.skip(16) =~= b@.subrange(o + 16, o + 32));
    if !zeros(b, o, o + 16) {
        return None;
    }
    Some(value(b, o + 16, o + 32))
}

/// The word at an offset.
pub fn word(b: &[u8], off: u128) -> (r: Option<[u8; 32]>)
    ensures
        match word_at(b@, off as int) {
            Some(w) => r matches Some(v) && v@ == w,
            None => r is None,
        },
{
    if off > b.len() as u128 || b.len() as u128 - off < 32 {
        return None;
    }
    let o = off as usize;
    assert(b.len() <= usize::MAX);
    let mut w = [0u8; 32];
    for i in 0..32usize
        invariant
            o + 32 <= b@.len() <= usize::MAX,
            forall|j: int| 0 <= j < i ==> w@[j] == b@[o + j],
    {
        w[i] = b[o + i];
    }
    assert(w@ =~= b@.subrange(o as int, o + 32));
    Some(w)
}

/// The last twenty bytes of a word.
pub fn tail20(w: &[u8; 32]) -> (r: [u8; 20])
    ensures
        r@ == w@.skip(12),
{
    let mut a = [0u8; 20];
    for i in 0..20usize
        invariant
            forall|j: int| 0 <= j < i ==> a@[j] == w@[j + 12],
    {
        a[i] = w[i + 12];
    }
    assert(a@ =~= w@.skip(12));
    a
}

/// Whether two byte sequences begin alike: `b` at `off` holds all of `s`.
pub open spec fn holds_at(b: Seq<u8>, off: int, s: Seq<u8>) -> bool {
    0 <= off && off + s.len() <= b.len() && b.subrange(off, off + s.len()) == s
}

/// Whether `b` at `off` holds the four bytes of a selector.
pub fn selects(b: &[u8], off: usize, sel: &[u8; 4]) -> (r: bool)
    ensures
        r == holds_at(b@, off as int, sel@),
{
    if off > b.len() || b.len() - off < 4 {
        return false;
    }
    let same = b[off] == sel[0] && b[off + 1] == sel[1] && b[off + 2] == sel[2] && b[off + 3]
        == sel[3];
    proof {
        let part = b@.subrange(off as int, off + 4);
        if same {
            assert(part =~= sel@);
        } else {
            assert(part[0] == b@[off as int]);
            assert(part[1] == b@[off + 1]);
            assert(part[2] == b@[off + 2]);
            assert(part[3] == b@[off + 3]);
        }
    }
    same
}

proof fn zero_is_zero(s: Seq<u8>)
    ensures
        is_zero(s) == (be(s) == 0),
    decreases s.len(),
{
    if s.len() > 0 {
        zero_is_zero(s.drop_last());
        if be(s) == 0 {
            assert(s.last() == 0);
            assert(is_zero(s.drop_last()));
            assert forall|i: int| 0 <= i < s.len() implies s[i] == 0 by {
                if i < s.len() - 1 {
                    assert(s.drop_last()[i] == s[i]);
                }
            }
        }
        if is_zero(s) {
            assert(s.last() == 0);
        }
    }
}

/// Zeros in front change no number.
pub proof fn zeros_in_front(s: Seq<u8>, k: int)
    requires
        0 <= k <= s.len(),
        is_zero(s.take(k)),
    ensures
        be(s) == be(s.skip(k)),
    decreases s.len(),
{
    if s.len() == k {
        assert(s.take(k) =~= s);
        zero_is_zero(s);
    } else {
        assert(s.drop_last().take(k) =~= s.take(k));
        assert(s.drop_last().skip(k) =~= s.skip(k).drop_last());
        zeros_in_front(s.drop_last(), k);
    }
}

/// The number of a word that fits 64 bits is the number that its 32 bytes write.
pub proof fn small_is_its_word(b: Seq<u8>, off: int)
    ensures
        small_at(b, off) matches Some(v) ==> 0 <= off && off + 32 <= b.len() && be(
            b.subrange(off, off + 32),
        ) == v,
{
    if let Some(w) = word_at(b, off) {
        if is_zero(w.take(24)) {
            zeros_in_front(w, 24);
        }
    }
}

/// The number of a word that fits 128 bits is the number that its 32 bytes write.
pub proof fn large_is_its_word(b: Seq<u8>, off: int)
    ensures
        large_at(b, off) matches Some(v) ==> 0 <= off && off + 32 <= b.len() && be(
            b.subrange(off, off + 32),
        ) == v,
{
    if let Some(w) = word_at(b, off) {
        if is_zero(w.take(16)) {
            zeros_in_front(w, 16);
        }
    }
}

fn tenth(b: &Vec<u8>) -> (r: (Vec<u8>, u8))
    ensures
        be(b@) == 10 * be(r.0@) + r.1,
        r.1 < 10,
        r.0@.len() == b@.len(),
{
    let mut q: Vec<u8> = Vec::new();
    let mut rem: u32 = 0;
    for i in 0..b.len()
        invariant
            q@.len() == i,
            rem < 10,
            be(b@.take(i as int)) == 10 * be(q@) + rem,
    {
        let cur: u32 = rem * 256 + b[i] as u32;
        let ghost before = q@;
        q.push((cur / 10) as u8);
        rem = cur % 10;
        assert(q@.drop_last() =~= before);
        assert(b@.take(i + 1).drop_last() =~= b@.take(i as int));
    }
    assert(b@.take(b@.len() as int) =~= b@);
    (q, rem as u8)
}

/// The number that these bytes write, in decimal.
pub fn decimal(b: &Vec<u8>) -> (r: String)
    ensures
        r@ == text::dec(be(b@)),
    decreases be(b@),
{
    let (q, rem) = tenth(b);
    proof {
        zero_is_zero(q@);
        assert(q@.subrange(0, q@.len() as int) =~= q@);
    }
    if zeros(q.as_slice(), 0, q.len()) {
        text::dec_u128(rem as u128)
    } else {
        let mut s = decimal(&q);
        s.push((48 + rem) as char);
        s
    }
}

/// `a / b` rounded half up.
pub open spec fn nearest(a: int, b: int) -> int {
    (2 * a + b) / (2 * b)
}

/// The quotient and the remainder of `x * y` by `z`; the quotient is nothing where it
/// does not fit.
pub fn mul_div(x: u128, y: u128, z: u128) -> (r: (Option<u128>, u128))
    requires
        z > 0,
    ensures
        r.1 < z,
        match r.0 {
            Some(q) => x * y == q * z + r.1,
            None => x * y >= 0x1_0000_0000_0000_0000_0000_0000_0000_0000 * z,
        },
    decreases x,
{
    if x == 0 {
        assert(x * y == 0) by (nonlinear_arith)
            requires
                x == 0,
        ;
        return (Some(0), 0);
    }
    let half = x / 2;
    let (hq, hr) = mul_div(half, y, z);
    let ghost h = half * y;
    let odd: u128 = x % 2;
    assert(x * y == 2 * h + odd * y) by (nonlinear_arith)
        requires
            x == 2 * half + odd,
            h == half * y,
    ;
    let q = match hq {
        Some(q) => q,
        None => {
            assert(odd * y >= 0) by (nonlinear_arith)
                requires
                    odd >= 0,
                    y >= 0,
            ;
            return (None, 0);
        },
    };
    // Twice the half, then the odd one.
    let carry: u128 = if hr >= z - hr {
        1
    } else {
        0
    };
    let r2: u128 = if hr >= z - hr {
        hr - (z - hr)
    } else {
        hr + hr
    };
    let yq: u128 = if odd == 1 {
        y / z
    } else {
        0
    };
    let yr: u128 = if odd == 1 {
        y % z
    } else {
        0
    };
    assert(odd * y == yq * z + yr) by (nonlinear_arith)
        requires
            z > 0,
            odd == 0 || odd == 1,
            odd == 1 ==> yq == y / z && yr == y % z,
            odd == 0 ==> yq == 0 && yr == 0,
    ;
    assert(yr < z);
    let carry2: u128 = if r2 >= z - yr {
        1
    } else {
        0
    };
    let r3: u128 = if r2 >= z - yr {
        r2 - (z - yr)
    } else {
        r2 + yr
    };
    let ghost total = 2 * q + carry + yq + carry2;
    assert(x * y == total * z + r3) by (nonlinear_arith)
        requires
            x * y == 2 * h + odd * y,
            h == q * z + hr,
            2 * hr == carry * z + r2,
            odd * y == yq * z + yr,
            r2 + yr == carry2 * z + r3,
            total == 2 * q + carry + yq + carry2,
    ;
    let sum = match q.checked_mul(2) {
        None => None,
        Some(a) => match a.checked_add(carry) {
            None => None,
            Some(b) => match b.checked_add(yq) {
                None => None,
                Some(c) => c.checked_add(carry2),
            },
        },
    };
    match sum {
        Some(s) => (Some(s), r3),
        None => {
            assert(total >= 0x1_0000_0000_0000_0000_0000_0000_0000_0000);
            assert(x * y >= 0x1_0000_0000_0000_0000_0000_0000_0000_0000 * z) by (nonlinear_arith)
                requires
                    x * y == total * z + r3,
                    total >= 0x1_0000_0000_0000_0000_0000_0000_0000_0000,
                    r3 >= 0,
                    z > 0,
            ;
            (None, r3)
        },
    }
}

proof fn nearest_by_parts(a: int, z: int, q: int, r: int)
    requires
        z > 0,
        a == q * z + r,
        0 <= r < z,
    ensures
        nearest(a, z) == (if r >= z - r { q + 1 } else { q }),
{
    let up: int = if r >= z - r {
        1
    } else {
        0
    };
    let rest = 2 * r + z - up * (2 * z);
    assert(2 * a + z == (2 * z) * (q + up) + rest) by (nonlinear_arith)
        requires
            a == q * z + r,
            rest == 2 * r + z - up * (2 * z),
    ;
    vstd::arithmetic::div_mod::lemma_fundamental_div_mod_converse(
        2 * a + z,
        2 * z,
        q + up,
        rest,
    );
}

/// `x * y / z` rounded half up, held at the largest `u128`.
pub fn scaled(x: u128, y: u128, z: u128) -> (r: u128)
    requires
        z > 0,
    ensures
        r == (if nearest(x * y, z as int) > u128::MAX {
            u128::MAX as int
        } else {
            nearest(x * y, z as int)
        }),
{
    let (q, m) = mul_div(x, y, z);
    match q {
        Some(v) => {
            proof {
                nearest_by_parts(x * y, z as int, v as int, m as int);
            }
            if m >= z - m && v < u128::MAX {
                v + 1
            } else {
                v
            }
        },
        None => {
            proof {
                let a = x * y;
                let big = 0x1_0000_0000_0000_0000_0000_0000_0000_0000int;
                assert(nearest(a, z as int) >= big) by (nonlinear_arith)
                    requires
                        a >= big * z,
                        z > 0,
                        nearest(a, z as int) == (2 * a + z) / (2 * z),
                ;
            }
            u128::MAX
        },
    }
}

/// The number `v` in `n` bytes, the most significant first; what does not fit is left
/// out.
pub open spec fn be_bytes(v: int, n: nat) -> Seq<u8>
    decreases n,
{
    if n == 0 {
        Seq::empty()
    } else {
        be_bytes(v / 256, (n - 1) as nat).push((v % 256) as u8)
    }
}

/// A number as a word.
pub open spec fn word_of(v: int) -> Seq<u8> {
    be_bytes(v, 32)
}

/// An address as a word.
pub open spec fn address_word(a: Seq<u8>) -> Seq<u8> {
    Seq::new(12, |i: int| 0u8) + a
}

proof fn be_bytes_len(v: int, n: nat)
    ensures
        be_bytes(v, n).len() == n,
    decreases n,
{
    if n > 0 {
        be_bytes_len(v / 256, (n - 1) as nat);
    }
}

/// A word has thirty-two bytes.
pub proof fn word_is_long(v: int)
    ensures
        word_of(v).len() == 32,
{
    be_bytes_len(v, 32);
}

proof fn be_bytes_of_zero(n: nat)
    ensures
        be_bytes(0, n) == Seq::new(n, |i: int| 0u8),
    decreases n,
{
    if n > 0 {
        be_bytes_of_zero((n - 1) as nat);
    }
    assert(be_bytes(0, n) =~= Seq::new(n, |i: int| 0u8));
}

proof fn be_bytes_pads(v: int, k: nat, n: nat)
    requires
        0 <= v < pow256(k),
        k <= n,
    ensures
        be_bytes(v, n) == Seq::new((n - k) as nat, |i: int| 0u8) + be_bytes(v, k),
    decreases k,
{
    if k == 0 {
        be_bytes_of_zero(n);
        assert(be_bytes(v, n) =~= Seq::new((n - k) as nat, |i: int| 0u8) + be_bytes(v, k));
    } else {
        be_bytes_pads(v / 256, (k - 1) as nat, (n - 1) as nat);
        assert(be_bytes(v, n) =~= Seq::new((n - k) as nat, |i: int| 0u8) + be_bytes(v, k));
    }
}

proof fn be_bytes_value(v: int, n: nat)
    requires
        0 <= v < pow256(n),
    ensures
        be(be_bytes(v, n)) == v,
    decreases n,
{
    if n > 0 {
        be_bytes_value(v / 256, (n - 1) as nat);
        assert(be_bytes(v, n).drop_last() =~= be_bytes(v / 256, (n - 1) as nat));
    }
}

/// What is written as a word reads back as the number it is.
pub proof fn word_reads_back(v: u128)
    ensures
        word_of(v as int).len() == 32,
        large_at(word_of(v as int), 0) == Some(v as int),
        v <= u64::MAX ==> small_at(word_of(v as int), 0) == Some(v as int),
{
    let w = word_of(v as int);
    be_bytes_len(v as int, 32);
    reveal_with_fuel(pow256, 17);
    assert(w.subrange(0, 32) =~= w);
    be_bytes_pads(v as int, 16, 32);
    be_bytes_len(v as int, 16);
    be_bytes_value(v as int, 16);
    assert(w.skip(16) =~= be_bytes(v as int, 16));
    assert(is_zero(w.take(16)));
    if v <= u64::MAX {
        be_bytes_pads(v as int, 8, 32);
        be_bytes_len(v as int, 8);
        be_bytes_value(v as int, 8);
        assert(w.skip(24) =~= be_bytes(v as int, 8));
        assert(is_zero(w.take(24)));
    }
}

/// The bytes of a small number as a word.
pub proof fn small_word(v: int)
    requires
        0 <= v < 0x1_0000,
    ensures
        word_of(v).len() == 32,
        word_of(v)[31] == v % 256,
        word_of(v)[30] == v / 256,
        forall|i: int| 0 <= i < 30 ==> #[trigger] word_of(v)[i] == 0,
{
    reveal_with_fuel(be_bytes, 3);
    be_bytes_of_zero(30);
    assert(v / 256 / 256 == 0);
    let w = word_of(v);
    assert(w =~= be_bytes(0, 30).push((v / 256 % 256) as u8).push((v % 256) as u8));
}

/// A number as a word; see [`word_of`].
pub fn word_u128(v: u128) -> (r: [u8; 32])
    ensures
        r@ == word_of(v as int),
{
    let mut w = [0u8; 32];
    let mut rest: u128 = v;
    let mut i: usize = 32;
    proof {
        assert(w@.skip(32) =~= Seq::<u8>::empty());
        assert(be_bytes(v as int, 32) =~= be_bytes(rest as int, 32) + w@.skip(32));
    }
    while i > 0
        invariant
            i <= 32,
            be_bytes(v as int, 32) == be_bytes(rest as int, i as nat) + w@.skip(i as int),
        decreases i,
    {
        let ghost before = w@.skip(i as int);
        let ghost head = be_bytes(rest as int / 256, (i - 1) as nat);
        i = i - 1;
        w[i] = (rest % 256) as u8;
        assert(head.push((rest as int % 256) as u8) + before =~= head + w@.skip(i as int));
        rest = rest / 256;
    }
    assert(be_bytes(v as int, 32) =~= w@);
    w
}

/// An address as a word; see [`address_word`].
pub fn word_addr(a: &[u8; 20]) -> (r: [u8; 32])
    ensures
        r@ == address_word(a@),
{
    let mut w = [0u8; 32];
    for i in 0..20usize
        invariant
            forall|j: int| 0 <= j < 12 ==> w@[j] == 0,
            forall|j: int| 0 <= j < i ==> w@[j + 12] == a@[j],
    {
        w[i + 12] = a[i];
        assert(forall|j: int| 0 <= j < i ==> w@[j + 12] == a@[j]);
    }
    assert forall|k: int| 12 <= k < 32 implies w@[k] == a@[k - 12] by {
        assert(w@[(k - 12) + 12] == a@[k - 12]);
    }
    assert(w@ =~= address_word(a@));
    w
}

} // verus!
