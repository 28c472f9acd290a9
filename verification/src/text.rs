//! Text as sequences of characters: the string operations that the rest of the
//! crate is stated over.

use vstd::prelude::*;

verus! {

/// `String::push`: the text is followed by the one character.
pub assume_specification[ String::push ](s: &mut String, c: char)
    ensures
        final(s)@ == old(s)@.push(c),
;

/// The characters of `s`, in order.
pub fn chars_of(s: &str) -> (r: Vec<char>)
    ensures
        r@ == s@,
{
    let mut v: Vec<char> = Vec::new();
    for c in it: s.chars()
        invariant
            v@ == it.seq().take(it.index()),
            it.seq() == s@,
    {
        v.push(c);
        assert(v@ == it.seq().take(it.index() + 1));
    }
    assert(v@ == s@);
    v
}

/// The text made of these characters.
pub fn text_of(v: &Vec<char>) -> (r: String)
    ensures
        r@ == v@,
{
    let mut s = String::new();
    for i in 0..v.len()
        invariant
            s@ == v@.take(i as int),
    {
        s.push(v[i]);
        assert(v@.take(i + 1) == v@.take(i as int).push(v@[i as int]));
    }
    assert(v@.take(v.len() as int) == v@);
    s
}

/// An owned copy of `s`.
pub fn owned(s: &str) -> (r: String)
    ensures
        r@ == s@,
{
    s.to_owned()
}

/// Whether two texts have the same characters.
pub fn same(a: &str, b: &str) -> (r: bool)
    ensures
        r == (a@ == b@),
{
    let x = a.to_owned();
    let y = b.to_owned();
    x == y
}

/// Whether two byte sequences are equal.
pub fn same_bytes(a: &[u8], b: &[u8]) -> (r: bool)
    ensures
        r == (a@ == b@),
{
    if a.len() != b.len() {
        return false;
    }
    for i in 0..a.len()
        invariant
            a@.len() == b@.len(),
            forall|j: int| 0 <= j < i ==> a@[j] == b@[j],
    {
        if a[i] != b[i] {
            assert(a@[i as int] != b@[i as int]);
            return false;
        }
    }
    assert(a@ =~= b@);
    true
}

/// A copy of a byte slice.
pub fn bytes_of(a: &[u8]) -> (r: Vec<u8>)
    ensures
        r@ == a@,
{
    let mut v: Vec<u8> = Vec::new();
    push_bytes(&mut v, a);
    assert(v@ =~= a@);
    v
}

/// Appends a byte slice.
pub fn push_bytes(v: &mut Vec<u8>, a: &[u8])
    ensures
        final(v)@ == old(v)@ + a@,
{
    let ghost before = v@;
    for i in 0..a.len()
        invariant
            v@ == before + a@.take(i as int),
    {
        v.push(a[i]);
        assert(before + a@.take(i + 1) =~= (before + a@.take(i as int)).push(a@[i as int]));
    }
    assert(a@.take(a@.len() as int) =~= a@);
}

/// Appends a run of one byte.
pub fn push_fill(v: &mut Vec<u8>, b: u8, n: usize)
    ensures
        final(v)@ == old(v)@ + Seq::new(n as nat, |i: int| b),
{
    let ghost before = v@;
    for i in 0..n
        invariant
            v@ == before + Seq::new(i as nat, |k: int| b),
    {
        v.push(b);
        assert(before + Seq::new((i + 1) as nat, |k: int| b) =~= (before + Seq::new(
            i as nat,
            |k: int| b,
        )).push(b));
    }
}

/// ASCII lower case of one character.
pub open spec fn lower_char(c: char) -> char {
    if 'A' <= c <= 'Z' {
        (c as int + 32) as char
    } else {
        c
    }
}

/// ASCII lower case of a text.
pub open spec fn lower_of(s: Seq<char>) -> Seq<char> {
    s.map_values(|c: char| lower_char(c))
}

/// ASCII lower case of one character.
pub fn lower_one(c: char) -> (r: char)
    ensures
        r == lower_char(c),
{
    if 'A' <= c && c <= 'Z' {
        ((c as u8) + 32) as char
    } else {
        c
    }
}

/// The characters of `s` in ASCII lower case.
pub fn lower_chars(s: &str) -> (r: Vec<char>)
    ensures
        r@ == lower_of(s@),
{
    let v = chars_of(s);
    let mut out: Vec<char> = Vec::new();
    for i in 0..v.len()
        invariant
            out@ == lower_of(v@).take(i as int),
    {
        out.push(lower_one(v[i]));
        assert(lower_of(v@).take(i + 1) =~= lower_of(v@).take(i as int).push(
            lower_of(v@)[i as int],
        ));
    }
    assert(out@ =~= lower_of(v@));
    out
}

/// Whether `n` stands in `h` at position `i`.
pub open spec fn stands_at(h: Seq<char>, n: Seq<char>, i: int) -> bool {
    &&& 0 <= i
    &&& i + n.len() <= h.len()
    &&& h.subrange(i, i + n.len()) == n
}

/// Whether `n` occurs anywhere in `h`.
pub open spec fn occurs(h: Seq<char>, n: Seq<char>) -> bool {
    exists|i: int| #[trigger] stands_at(h, n, i)
}

fn standing(h: &Vec<char>, n: &Vec<char>, i: usize) -> (r: bool)
    requires
        i + n@.len() <= h@.len(),
    ensures
        r == stands_at(h@, n@, i as int),
{
    let ghost part = h@.subrange(i as int, i + n@.len());
    assert(h.len() <= usize::MAX);
    for j in 0..n.len()
        invariant
            i + n@.len() <= h@.len(),
            h@.len() <= usize::MAX,
            part == h@.subrange(i as int, i + n@.len()),
            forall|k: int| 0 <= k < j ==> part[k] == n@[k],
    {
        if h[i + j] != n[j] {
            assert(part[j as int] != n@[j as int]);
            return false;
        }
        assert(part[j as int] == n@[j as int]);
    }
    assert(part =~= n@);
    true
}

/// The first place where `n` stands in `h`.
pub fn find(h: &Vec<char>, n: &Vec<char>) -> (r: Option<usize>)
    ensures
        r matches Some(i) ==> stands_at(h@, n@, i as int) && forall|j: int|
            0 <= j < i ==> !stands_at(h@, n@, j),
        r is None ==> !occurs(h@, n@),
{
    if n.len() > h.len() {
        assert(forall|i: int| !stands_at(h@, n@, i));
        return None;
    }
    let mut i: usize = 0;
    while i < h.len() - n.len()
        invariant
            i + n@.len() <= h@.len(),
            forall|j: int| 0 <= j < i ==> !stands_at(h@, n@, j),
        decreases h@.len() - i,
    {
        if standing(h, n, i) {
            return Some(i);
        }
        i = i + 1;
    }
    if standing(h, n, i) {
        return Some(i);
    }
    assert(forall|j: int| !stands_at(h@, n@, j));
    None
}

/// Whether `i` is the first place where `n` stands in `h`.
pub open spec fn is_first(h: Seq<char>, n: Seq<char>, i: int) -> bool {
    stands_at(h, n, i) && forall|j: int| 0 <= j < i ==> !stands_at(h, n, j)
}

/// The first place where `n` stands in `h`, where it occurs.
pub open spec fn first_at(h: Seq<char>, n: Seq<char>) -> int {
    choose|i: int| #[trigger] is_first(h, n, i)
}

/// There is but one first place.
pub proof fn first_is_unique(h: Seq<char>, n: Seq<char>, i: int)
    requires
        is_first(h, n, i),
    ensures
        first_at(h, n) == i,
{
    let k = first_at(h, n);
    assert(is_first(h, n, k));
    if k < i {
        assert(!stands_at(h, n, k));
    } else if i < k {
        assert(!stands_at(h, n, i));
    }
}

/// Whether `n` occurs in `h`.
pub fn contains(h: &Vec<char>, n: &str) -> (r: bool)
    ensures
        r == occurs(h@, n@),
{
    let n = chars_of(n);
    match find(h, &n) {
        Some(i) => {
            assert(stands_at(h@, n@, i as int));
            true
        },
        None => false,
    }
}

/// The characters that the Unicode property White_Space names.
pub open spec fn is_space(c: char) -> bool {
    let u = c as int;
    ||| 0x9 <= u <= 0xd
    ||| u == 0x20
    ||| u == 0x85
    ||| u == 0xa0
    ||| u == 0x1680
    ||| 0x2000 <= u <= 0x200a
    ||| u == 0x2028
    ||| u == 0x2029
    ||| u == 0x202f
    ||| u == 0x205f
    ||| u == 0x3000
}

/// Whether `c` is white space.
pub fn space(c: char) -> (r: bool)
    ensures
        r == is_space(c),
{
    let u: u32 = c as u32;
    (0x9 <= u && u <= 0xd) || u == 0x20 || u == 0x85 || u == 0xa0 || u == 0x1680 || (0x2000 <= u
        && u <= 0x200a) || u == 0x2028 || u == 0x2029 || u == 0x202f || u == 0x205f || u == 0x3000
}

/// `s` without its leading white space.
pub open spec fn trim_front(s: Seq<char>) -> Seq<char>
    decreases s.len(),
{
    if s.len() > 0 && is_space(s[0]) {
        trim_front(s.skip(1))
    } else {
        s
    }
}

/// `s` without its trailing white space.
pub open spec fn trim_back(s: Seq<char>) -> Seq<char>
    decreases s.len(),
{
    if s.len() > 0 && is_space(s.last()) {
        trim_back(s.drop_last())
    } else {
        s
    }
}

/// `s` without white space at either end.
pub open spec fn trimmed(s: Seq<char>) -> Seq<char> {
    trim_back(trim_front(s))
}

fn first_dark(s: &Vec<char>) -> (i: usize)
    ensures
        i <= s@.len(),
        trim_front(s@) == s@.skip(i as int),
{
    let mut i: usize = 0;
    assert(s@.skip(0) =~= s@);
    while i < s.len() && space(s[i])
        invariant
            i <= s@.len(),
            trim_front(s@) == trim_front(s@.skip(i as int)),
        decreases s@.len() - i,
    {
        assert(s@.skip(i as int).skip(1) =~= s@.skip(i + 1));
        i = i + 1;
    }
    i
}

/// The characters of `s` without its leading white space.
pub fn trim_start(s: &Vec<char>) -> (r: Vec<char>)
    ensures
        r@ == trim_front(s@),
{
    let i = first_dark(s);
    let r = slice_of(s, i, s.len());
    assert(r@ =~= s@.skip(i as int));
    r
}

/// The characters of `s` without white space at either end.
pub fn trim(s: &Vec<char>) -> (r: Vec<char>)
    ensures
        r@ == trimmed(s@),
{
    let i = first_dark(s);
    let ghost front = s@.skip(i as int);
    let mut j: usize = s.len();
    assert(s@.subrange(i as int, j as int) =~= front);
    while j > i && space(s[j - 1])
        invariant
            i <= j <= s@.len(),
            front == s@.skip(i as int),
            trim_back(front) == trim_back(s@.subrange(i as int, j as int)),
        decreases j,
    {
        let ghost cur = s@.subrange(i as int, j as int);
        assert(cur.drop_last() =~= s@.subrange(i as int, j - 1));
        j = j - 1;
    }
    slice_of(s, i, j)
}

/// The characters from `i` up to `j`.
pub fn slice_of(s: &Vec<char>, i: usize, j: usize) -> (r: Vec<char>)
    requires
        i <= j <= s@.len(),
    ensures
        r@ == s@.subrange(i as int, j as int),
{
    let mut out: Vec<char> = Vec::new();
    for k in i..j
        invariant
            i <= j <= s@.len(),
            out@ == s@.subrange(i as int, k as int),
    {
        out.push(s[k]);
        assert(s@.subrange(i as int, k + 1) =~= s@.subrange(i as int, k as int).push(s@[k as int]));
    }
    out
}

/// `s` without any number of leading `0x`.
pub open spec fn bare(s: Seq<char>) -> Seq<char>
    decreases s.len(),
{
    if s.len() >= 2 && s[0] == '0' && s[1] == 'x' {
        bare(s.skip(2))
    } else {
        s
    }
}

/// The characters of `s` without any number of leading `0x`.
pub fn strip_0x(s: &Vec<char>) -> (r: Vec<char>)
    ensures
        r@ == bare(s@),
{
    let mut i: usize = 0;
    assert(s@.skip(0) =~= s@);
    while s.len() - i >= 2 && s[i] == '0' && s[i + 1] == 'x'
        invariant
            i <= s@.len(),
            bare(s@) == bare(s@.skip(i as int)),
        decreases s@.len() - i,
    {
        assert(s@.skip(i as int).skip(2) =~= s@.skip(i + 2));
        i = i + 2;
    }
    assert(s@.subrange(i as int, s@.len() as int) =~= s@.skip(i as int));
    slice_of(s, i, s.len())
}

/// `s` without one leading `0x`.
pub open spec fn unmarked(s: Seq<char>) -> Seq<char> {
    if s.len() >= 2 && s[0] == '0' && s[1] == 'x' {
        s.skip(2)
    } else {
        s
    }
}

/// `s` without one leading `0x`.
pub fn strip_mark(s: &str) -> (r: String)
    ensures
        r@ == unmarked(s@),
{
    let v = chars_of(s);
    let from: usize = if v.len() >= 2 && v[0] == '0' && v[1] == 'x' {
        2
    } else {
        0
    };
    let w = slice_of(&v, from, v.len());
    assert(w@ =~= unmarked(s@));
    text_of(&w)
}

/// The decimal digit for `d`.
pub open spec fn digit(d: int) -> char {
    (48 + d) as char
}

/// `n` in decimal.
pub open spec fn dec(n: nat) -> Seq<char>
    decreases n,
{
    if n < 10 {
        seq![digit(n as int)]
    } else {
        dec(n / 10).push(digit((n % 10) as int))
    }
}

/// `i` in decimal, with a minus sign where it is negative.
pub open spec fn dec_int(i: int) -> Seq<char> {
    if i < 0 {
        seq!['-'] + dec((-i) as nat)
    } else {
        dec(i as nat)
    }
}

fn digit_char(d: u8) -> (r: char)
    requires
        d < 10,
    ensures
        r == digit(d as int),
{
    (48 + d) as char
}

/// `n` in decimal.
pub fn dec_u128(n: u128) -> (r: String)
    ensures
        r@ == dec(n as nat),
    decreases n,
{
    if n < 10 {
        let mut s = String::new();
        s.push(digit_char(n as u8));
        assert(s@ =~= dec(n as nat));
        s
    } else {
        let mut s = dec_u128(n / 10);
        s.push(digit_char((n % 10) as u8));
        s
    }
}

/// `i` in decimal, with a minus sign where it is negative.
pub fn dec_i128(i: i128) -> (r: String)
    ensures
        r@ == dec_int(i as int),
{
    if i < 0 {
        let mut s = String::new();
        s.push('-');
        let m: u128 = (-(i + 1)) as u128 + 1;
        let d = dec_u128(m);
        s.append(d.as_str());
        assert(s@ =~= dec_int(i as int));
        s
    } else {
        dec_u128(i as u128)
    }
}

/// The last `width` decimal digits of `n`.
pub open spec fn pad(n: nat, width: nat) -> Seq<char>
    decreases width,
{
    if width == 0 {
        Seq::empty()
    } else {
        pad(n / 10, (width - 1) as nat).push(digit((n % 10) as int))
    }
}

/// The last `width` decimal digits of `n`.
pub fn pad_u128(n: u128, width: usize) -> (r: String)
    ensures
        r@ == pad(n as nat, width as nat),
    decreases width,
{
    if width == 0 {
        let s = String::new();
        assert(s@ =~= pad(n as nat, 0));
        s
    } else {
        let mut s = pad_u128(n / 10, width - 1);
        s.push(digit_char((n % 10) as u8));
        s
    }
}

/// Ten to the power of `k`.
pub open spec fn pow10(k: nat) -> nat
    decreases k,
{
    if k == 0 {
        1
    } else {
        10 * pow10((k - 1) as nat)
    }
}

/// `m` rounded half away from zero to a multiple of `unit`, counted in units.
pub open spec fn rounded(m: nat, unit: nat) -> nat {
    (m + unit / 2) / unit
}

/// The amount `m`, which counts units of `scale` decimal places, written with
/// `places` places.
pub open spec fn fixed(m: int, scale: nat, places: nat) -> Seq<char> {
    let q = rounded(if m < 0 { (-m) as nat } else { m as nat }, pow10((scale - places) as nat));
    (if m < 0 { seq!['-'] } else { Seq::<char>::empty() }) + dec(q / pow10(places)) + seq!['.']
        + pad(q % pow10(places), places)
}

proof fn pow10_bound(k: nat)
    requires
        k <= 12,
    ensures
        0 < pow10(k) <= 1_000_000_000_000,
{
    reveal_with_fuel(pow10, 13);
}

fn power_of_ten(k: usize) -> (r: u128)
    requires
        k <= 12,
    ensures
        r == pow10(k as nat),
        0 < r <= 1_000_000_000_000,
{
    let mut r: u128 = 1;
    for i in 0..k
        invariant
            r == pow10(i as nat),
            k <= 12,
    {
        proof {
            pow10_bound(i as nat);
        }
        r = r * 10;
    }
    proof {
        pow10_bound(k as nat);
    }
    r
}

fn fixed_parts(neg: bool, whole: u128, part: u128, places: usize) -> (r: String)
    ensures
        r@ == (if neg { seq!['-'] } else { Seq::<char>::empty() }) + dec(whole as nat) + seq!['.'] + pad(
            part as nat,
            places as nat,
        ),
{
    let mut s = String::new();
    if neg {
        s.push('-');
    }
    assert(s@ =~= (if neg { seq!['-'] } else { Seq::<char>::empty() }));
    let w = dec_u128(whole);
    s.append(w.as_str());
    s.push('.');
    let p = pad_u128(part, places);
    s.append(p.as_str());
    assert(s@ =~= (if neg { seq!['-'] } else { Seq::<char>::empty() }) + dec(whole as nat) + seq!['.']
        + pad(part as nat, places as nat));
    s
}

/// The distance of `m` from zero.
pub fn magnitude(m: i128) -> (r: u128)
    ensures
        r == (if m < 0 { -m } else { m as int }),
{
    if m < 0 {
        (-(m + 1)) as u128 + 1
    } else {
        m as u128
    }
}

/// The amount `m` as text; see [`fixed`].
pub fn show(m: i128, scale: usize, places: usize) -> (r: String)
    requires
        places <= scale <= 12,
    ensures
        r@ == fixed(m as int, scale as nat, places as nat),
{
    let unit = power_of_ten(scale - places);
    let base = power_of_ten(places);
    let q = (magnitude(m) + unit / 2) / unit;
    fixed_parts(m < 0, q / base, q % base, places)
}

/// Whether every element of the text is a lower-case hexadecimal digit.
pub open spec fn is_hex_lower(c: char) -> bool {
    ('0' <= c <= '9') || ('a' <= c <= 'f')
}

/// Whether `c` is a hexadecimal digit of either case.
pub open spec fn is_hex(c: char) -> bool {
    ('0' <= c <= '9') || ('a' <= c <= 'f') || ('A' <= c <= 'F')
}

/// The lower-case hexadecimal digit for `d`.
pub open spec fn hex_digit(d: int) -> char {
    if d < 10 {
        (48 + d) as char
    } else {
        (87 + d) as char
    }
}

/// The lower-case hexadecimal digit for `d`.
pub fn hex_char(d: u8) -> (r: char)
    requires
        d < 16,
    ensures
        r == hex_digit(d as int),
{
    if d < 10 {
        (48 + d) as char
    } else {
        (87 + d) as char
    }
}

/// `b` in lower-case hexadecimal, two digits a byte.
pub open spec fn hex_of(b: Seq<u8>) -> Seq<char>
    decreases b.len(),
{
    if b.len() == 0 {
        Seq::empty()
    } else {
        hex_of(b.drop_last()).push(hex_digit(b.last() as int / 16)).push(
            hex_digit(b.last() as int % 16),
        )
    }
}

/// `b` in lower-case hexadecimal, two digits a byte.
pub fn hex_text(b: &[u8]) -> (r: String)
    ensures
        r@ == hex_of(b@),
{
    let mut s = String::new();
    for i in 0..b.len()
        invariant
            s@ == hex_of(b@.take(i as int)),
    {
        assert(b@.take(i + 1).drop_last() =~= b@.take(i as int));
        s.push(hex_char(b[i] / 16));
        s.push(hex_char(b[i] % 16));
    }
    assert(b@.take(b@.len() as int) =~= b@);
    s
}

/// The first `n` characters of `s`, or all of it where it is shorter.
pub open spec fn first_chars(s: Seq<char>, n: int) -> Seq<char> {
    if s.len() <= n {
        s
    } else {
        s.take(n)
    }
}

/// The first `n` characters of `s`.
pub fn head(s: &str, n: usize) -> (r: String)
    ensures
        r@ == first_chars(s@, n as int),
{
    let v = chars_of(s);
    let end = if v.len() <= n {
        v.len()
    } else {
        n
    };
    let w = slice_of(&v, 0, end);
    assert(w@ =~= first_chars(s@, n as int));
    text_of(&w)
}

/// The contents of a sequence of texts.
pub open spec fn texts(v: Seq<String>) -> Seq<Seq<char>> {
    v.map_values(|s: String| s@)
}

/// The place of the first line break at or after `from`, or the end of the text.
pub open spec fn next_break(s: Seq<char>, from: int) -> int
    decreases s.len() - from,
{
    if 0 <= from < s.len() {
        if s[from] == '\n' {
            from
        } else {
            next_break(s, from + 1)
        }
    } else {
        s.len() as int
    }
}

/// A line without the carriage return before its break.
pub open spec fn chomped(line: Seq<char>) -> Seq<char> {
    if line.len() > 0 && line.last() == '\r' {
        line.drop_last()
    } else {
        line
    }
}

/// The lines of `s` from position `from` on.
pub open spec fn lines_from(s: Seq<char>, from: int) -> Seq<Seq<char>>
    decreases s.len() - from,
{
    if from < 0 || from >= s.len() {
        Seq::empty()
    } else {
        let n = next_break(s, from);
        if n < from || n >= s.len() {
            seq![s.subrange(from, s.len() as int)]
        } else {
            seq![chomped(s.subrange(from, n))] + lines_from(s, n + 1)
        }
    }
}

/// The lines of a text: each ends at a line break, which a carriage return may
/// precede; what follows the last break is a line if it is not empty.
pub open spec fn lines_of(s: Seq<char>) -> Seq<Seq<char>> {
    lines_from(s, 0)
}

fn find_break(s: &Vec<char>, from: usize) -> (r: usize)
    requires
        from <= s@.len(),
    ensures
        r == next_break(s@, from as int),
        from <= r <= s@.len(),
{
    let mut i: usize = from;
    while i < s.len() && s[i] != '\n'
        invariant
            from <= i <= s@.len(),
            next_break(s@, from as int) == next_break(s@, i as int),
        decreases s@.len() - i,
    {
        i = i + 1;
    }
    i
}

/// The lines of a text; see [`lines_of`].
pub fn lines(s: &str) -> (r: Vec<String>)
    ensures
        texts(r@) == lines_of(s@),
{
    let v = chars_of(s);
    let mut out: Vec<String> = Vec::new();
    let mut from: usize = 0;
    while from < v.len()
        invariant
            v@ == s@,
            from <= v@.len(),
            lines_of(s@) == texts(out@) + lines_from(s@, from as int),
        decreases v@.len() - from,
    {
        let n = find_break(&v, from);
        let ghost before = texts(out@);
        if n == v.len() {
            let last = slice_of(&v, from, n);
            out.push(text_of(&last));
            assert(texts(out@) =~= before.push(last@));
            assert(lines_from(s@, from as int) =~= seq![last@]);
            from = n;
            assert(lines_of(s@) =~= texts(out@) + lines_from(s@, from as int));
        } else {
            let end: usize = if n > from && v[n - 1] == '\r' {
                n - 1
            } else {
                n
            };
            let line = slice_of(&v, from, end);
            assert(line@ =~= chomped(v@.subrange(from as int, n as int)));
            out.push(text_of(&line));
            assert(texts(out@) =~= before.push(line@));
            assert(lines_from(s@, from as int) == seq![line@] + lines_from(s@, n + 1));
            from = n + 1;
            assert(lines_of(s@) =~= texts(out@) + lines_from(s@, from as int));
        }
    }
    assert(lines_of(s@) =~= texts(out@));
    out
}

/// The text without white space at either end.
pub fn trim_text(s: &str) -> (r: String)
    ensures
        r@ == trimmed(s@),
{
    let v = chars_of(s);
    let t = trim(&v);
    text_of(&t)
}

/// `s` without the zeros at its end, nor a point before them.
pub open spec fn shorn(s: Seq<char>) -> Seq<char>
    decreases s.len(),
{
    if s.len() > 0 && s.last() == '0' {
        shorn(s.drop_last())
    } else if s.len() > 0 && s.last() == '.' {
        s.drop_last()
    } else {
        s
    }
}

/// `m` units of `scale` places, written with no more places than it needs.
pub open spec fn plain(m: int, scale: nat) -> Seq<char> {
    if scale == 0 {
        dec_int(m)
    } else if m == 0 {
        "0"@
    } else {
        shorn(fixed(m, scale, scale))
    }
}

/// Writes `m` units of `scale` places; see [`plain`].
pub fn show_plain(m: i128, scale: usize) -> (r: String)
    requires
        scale <= 12,
    ensures
        r@ == plain(m as int, scale as nat),
{
    if scale == 0 {
        return dec_i128(m);
    }
    if m == 0 {
        return owned("0");
    }
    let v = chars_of(show(m, scale, scale).as_str());
    let ghost all = v@;
    let mut n: usize = v.len();
    assert(all.take(n as int) =~= all);
    while n > 0 && v[n - 1] == '0'
        invariant
            n <= v@.len(),
            all == v@,
            shorn(all) == shorn(all.take(n as int)),
        decreases n,
    {
        assert(all.take(n as int).drop_last() =~= all.take(n - 1));
        n = n - 1;
    }
    if n > 0 && v[n - 1] == '.' {
        assert(all.take(n as int).drop_last() =~= all.take(n - 1));
        n = n - 1;
    }
    let w = slice_of(&v, 0, n);
    assert(w@ =~= all.take(n as int));
    text_of(&w)
}

/// A text in quotes, as `Debug` writes it.
pub uninterp spec fn quoted(s: Seq<char>) -> Seq<char>;

/// A character in quotes, as `Debug` writes it.
pub uninterp spec fn quoted_char(c: char) -> Seq<char>;

/// `<str as Debug>::fmt` through `format!`: the text in quotes, with its escapes. Which
/// characters are escaped stays with std.
#[verifier::external_body]
pub(crate) fn quote(s: &str) -> (r: String)
    ensures
        r@ == quoted(s@),
{
    format!("{:?}", s)
}

/// `<char as Debug>::fmt` through `format!`: the character in quotes, or its escape.
#[verifier::external_body]
pub(crate) fn quote_char(c: char) -> (r: String)
    ensures
        r@ == quoted_char(c),
{
    format!("{:?}", c)
}

/// `s` up to the first `c`, or all of it.
pub open spec fn up_to(s: Seq<char>, c: char) -> Seq<char>
    decreases s.len(),
{
    if s.len() == 0 || s[0] == c {
        Seq::empty()
    } else {
        seq![s[0]] + up_to(s.skip(1), c)
    }
}

/// `s` up to the first `c`, or all of it.
pub fn cut_at(s: &str, c: char) -> (r: String)
    ensures
        r@ == up_to(s@, c),
{
    let v = chars_of(s);
    let mut out: Vec<char> = Vec::new();
    let mut i: usize = 0;
    assert(v@.skip(0) =~= v@);
    assert(out@ + up_to(v@, c) =~= up_to(v@, c));
    while i < v.len() && v[i] != c
        invariant
            i <= v@.len(),
            up_to(v@, c) == out@ + up_to(v@.skip(i as int), c),
        decreases v@.len() - i,
    {
        let ghost rest = v@.skip(i as int);
        assert(rest.skip(1) =~= v@.skip(i + 1));
        let ghost before = out@;
        out.push(v[i]);
        assert(before + (seq![rest[0]] + up_to(rest.skip(1), c)) =~= out@ + up_to(
            rest.skip(1),
            c,
        ));
        i = i + 1;
    }
    assert(up_to(v@.skip(i as int), c) =~= Seq::<char>::empty());
    assert(out@ + Seq::<char>::empty() =~= out@);
    text_of(&out)
}

/// `s` past the last `c`, or all of it.
pub open spec fn past_last(s: Seq<char>, c: char) -> Seq<char>
    decreases s.len(),
{
    if s.len() == 0 || s.last() == c {
        Seq::empty()
    } else {
        past_last(s.drop_last(), c).push(s.last())
    }
}

/// `s` past the last `c`, or all of it.
pub fn cut_past(s: &str, c: char) -> (r: String)
    ensures
        r@ == past_last(s@, c),
{
    let v = chars_of(s);
    let mut i: usize = v.len();
    assert(v@.take(v@.len() as int) =~= v@);
    assert(past_last(v@, c) =~= past_last(v@, c) + v@.skip(i as int));
    while i > 0 && v[i - 1] != c
        invariant
            i <= v@.len(),
            past_last(v@, c) == past_last(v@.take(i as int), c) + v@.skip(i as int),
        decreases i,
    {
        let ghost cur = v@.take(i as int);
        assert(cur.drop_last() =~= v@.take(i - 1));
        assert(past_last(cur.drop_last(), c).push(cur.last()) + v@.skip(i as int) =~= past_last(
            cur.drop_last(),
            c,
        ) + v@.skip(i - 1));
        i = i - 1;
    }
    let w = slice_of(&v, i, v.len());
    assert(w@ =~= past_last(v@.take(i as int), c) + v@.skip(i as int));
    text_of(&w)
}

/// How many bytes a character takes.
pub open spec fn width(c: char) -> int {
    if (c as u32) < 0x80 {
        1
    } else if (c as u32) < 0x800 {
        2
    } else if (c as u32) < 0x1_0000 {
        3
    } else {
        4
    }
}

/// The characters at the front of `s` that fit in `room` bytes.
pub open spec fn fitting(s: Seq<char>, room: int) -> Seq<char>
    decreases s.len(),
{
    if s.len() == 0 || width(s[0]) > room {
        Seq::empty()
    } else {
        seq![s[0]] + fitting(s.skip(1), room - width(s[0]))
    }
}

/// The characters at the front of `s` that fit in `room` bytes.
pub fn fit(s: &str, room: usize) -> (r: String)
    ensures
        r@ == fitting(s@, room as int),
{
    let v = chars_of(s);
    let mut out: Vec<char> = Vec::new();
    let mut left: usize = room;
    let mut i: usize = 0;
    assert(v@.skip(0) =~= v@);
    assert(out@ + fitting(v@, room as int) =~= fitting(v@, room as int));
    while i < v.len()
        invariant
            i <= v@.len(),
            v@ == s@,
            fitting(v@, room as int) == out@ + fitting(v@.skip(i as int), left as int),
        decreases v@.len() - i,
    {
        let ghost rest = v@.skip(i as int);
        let w = width_of(v[i]);
        if w > left {
            assert(out@ + Seq::<char>::empty() =~= out@);
            return text_of(&out);
        }
        assert(rest.skip(1) =~= v@.skip(i + 1));
        let ghost before = out@;
        out.push(v[i]);
        assert(before + (seq![rest[0]] + fitting(rest.skip(1), left - w)) =~= out@ + fitting(
            rest.skip(1),
            left - w,
        ));
        left = left - w;
        i = i + 1;
    }
    assert(out@ + Seq::<char>::empty() =~= out@);
    text_of(&out)
}

/// The characters at the end of `s` that fit in `room` bytes.
pub open spec fn ending(s: Seq<char>, room: int) -> Seq<char>
    decreases s.len(),
{
    if s.len() == 0 || width(s.last()) > room {
        Seq::empty()
    } else {
        ending(s.drop_last(), room - width(s.last())).push(s.last())
    }
}

fn width_of(c: char) -> (r: usize)
    ensures
        r == width(c),
{
    let x: u32 = c as u32;
    if x < 0x80 {
        1
    } else if x < 0x800 {
        2
    } else if x < 0x1_0000 {
        3
    } else {
        4
    }
}

/// The characters at the end of `s` that fit in `room` bytes.
pub fn tail(s: &str, room: usize) -> (r: String)
    ensures
        r@ == ending(s@, room as int),
{
    let v = chars_of(s);
    let mut left: usize = room;
    let mut i: usize = v.len();
    assert(v@.take(v@.len() as int) =~= v@);
    assert(ending(v@, room as int) + v@.skip(v@.len() as int) =~= ending(v@, room as int));
    while i > 0
        invariant
            i <= v@.len(),
            v@ == s@,
            ending(v@, room as int) == ending(v@.take(i as int), left as int) + v@.skip(i as int),
        ensures
            ending(v@.take(i as int), left as int) == Seq::<char>::empty(),
        decreases i,
    {
        let ghost head = v@.take(i as int);
        let w = width_of(v[i - 1]);
        if w > left {
            break ;
        }
        assert(head.drop_last() =~= v@.take(i - 1));
        assert(ending(v@.take(i - 1), left - w).push(v@[i - 1]) + v@.skip(i as int) =~= ending(
            v@.take(i - 1),
            left - w,
        ) + v@.skip(i - 1));
        left = left - w;
        i = i - 1;
    }
    let w = slice_of(&v, i, v.len());
    assert(w@ =~= ending(v@, room as int));
    text_of(&w)
}

/// `s` with `to` in place of every `from`.
pub open spec fn swapped(s: Seq<char>, from: char, to: char) -> Seq<char> {
    s.map_values(
        |c: char|
            if c == from {
                to
            } else {
                c
            },
    )
}

/// `s` with `to` in place of every `from`.
pub fn swap_char(s: &str, from: char, to: char) -> (r: String)
    ensures
        r@ == swapped(s@, from, to),
{
    let mut v = chars_of(s);
    let ghost start = v@;
    let n = v.len();
    for i in 0..n
        invariant
            n == v@.len(),
            v@.len() == start.len(),
            forall|j: int| 0 <= j < i ==> v@[j] == swapped(start, from, to)[j],
            forall|j: int| i <= j < n ==> v@[j] == start[j],
    {
        if v[i] == from {
            v.set(i, to);
        }
    }
    assert(v@ =~= swapped(start, from, to));
    text_of(&v)
}

} // verus!
