//! Showing the venue who we are: signed by the wallet's key, or tagged with a secret
//! that the venue gave out.

use vstd::prelude::*;
use crate::digests;
use crate::json;
use crate::json::{try_json, Json};
use crate::text;
use crate::text::{dec_u128, owned, push_bytes};
use crate::units;
use crate::words;
use crate::words::word_u128;

verus! {

/// The chain on which the venue settles.
pub const CHAIN_ID: u64 = 137;

/// The header of the wallet's address.
pub const POLY_ADDRESS: &'static str = "POLY_ADDRESS";

/// The header of the signature or tag.
pub const POLY_SIGNATURE: &'static str = "POLY_SIGNATURE";

/// The header of the time.
pub const POLY_TIMESTAMP: &'static str = "POLY_TIMESTAMP";

/// The header of the nonce.
pub const POLY_NONCE: &'static str = "POLY_NONCE";

/// The header of the key that the venue gave out.
pub const POLY_API_KEY: &'static str = "POLY_API_KEY";

/// The header of the passphrase that the venue gave out.
pub const POLY_PASSPHRASE: &'static str = "POLY_PASSPHRASE";

/// What the venue gave out.
#[derive(Debug, PartialEq, Eq)]
pub struct ApiCreds {
    pub key: String,
    pub secret: String,
    pub passphrase: String,
}

impl ApiCreds {
    /// What may be said of it: the last part of the key.
    pub fn redacted(&self) -> (r: String)
        ensures
            r@ == "apiKey=…"@ + text::past_last(self.key@, '-')
                + " secret=<redacted> passphrase=<redacted>"@,
    {
        let mut s = owned("apiKey=…");
        s.append(text::cut_past(self.key.as_str(), '-').as_str());
        s.append(" secret=<redacted> passphrase=<redacted>");
        s
    }
}

/// The digit of base 64 for a number below 64, in the alphabet that URLs take.
pub open spec fn sextet_char(v: int) -> char {
    if v < 26 {
        (65 + v) as char
    } else if v < 52 {
        (97 + v - 26) as char
    } else if v < 62 {
        (48 + v - 52) as char
    } else if v == 62 {
        '-'
    } else {
        '_'
    }
}

/// The number of a digit of base 64, of either alphabet.
pub open spec fn sextet(b: u8) -> Option<int> {
    if 65 <= b <= 90 {
        Some(b - 65)
    } else if 97 <= b <= 122 {
        Some(b - 97 + 26)
    } else if 48 <= b <= 57 {
        Some(b - 48 + 52)
    } else if b == 45 || b == 43 {
        Some(62int)
    } else if b == 95 || b == 47 {
        Some(63int)
    } else {
        None
    }
}

/// Whether a byte is passed over: padding and line ends.
pub open spec fn is_filler(b: u8) -> bool {
    b == 61 || b == 10 || b == 13
}

/// The byte at `i`, zero past the end.
pub open spec fn byte_at(b: Seq<u8>, i: int) -> int {
    if 0 <= i < b.len() {
        b[i] as int
    } else {
        0
    }
}

/// The four digits of the three bytes from `i` on, padded where there are fewer.
pub open spec fn quad(b: Seq<u8>, i: int) -> Seq<char> {
    let n = byte_at(b, i) * 0x1_0000 + byte_at(b, i + 1) * 0x100 + byte_at(b, i + 2);
    seq![
        sextet_char(n / 0x4_0000),
        sextet_char(n / 0x1000 % 64),
        if i + 1 < b.len() {
            sextet_char(n / 64 % 64)
        } else {
            '='
        },
        if i + 2 < b.len() {
            sextet_char(n % 64)
        } else {
            '='
        },
    ]
}

/// The bytes from `i` on in base 64, three at a time.
pub open spec fn encoded_from(b: Seq<u8>, i: int) -> Seq<char>
    decreases units::larger(b.len() - i, 0),
{
    if i >= b.len() {
        Seq::empty()
    } else {
        quad(b, i) + encoded_from(b, i + 3)
    }
}

/// The bytes in base 64, in the alphabet that URLs take.
pub open spec fn encoded(b: Seq<u8>) -> Seq<char> {
    encoded_from(b, 0)
}

fn sextet_of(v: u32) -> (r: char)
    requires
        v < 64,
    ensures
        r == sextet_char(v as int),
{
    if v < 26 {
        (65 + v as u8) as char
    } else if v < 52 {
        (97 + (v as u8 - 26)) as char
    } else if v < 62 {
        (48 + (v as u8 - 52)) as char
    } else if v == 62 {
        '-'
    } else {
        '_'
    }
}

fn push_quad(out: &mut Vec<char>, data: &[u8], i: usize)
    requires
        i < data@.len(),
    ensures
        final(out)@ == old(out)@ + quad(data@, i as int),
{
    let ghost before = out@;
    let len = data.len();
    let a: u32 = data[i] as u32;
    let b: u32 = if len - i > 1 {
        data[i + 1] as u32
    } else {
        0
    };
    let c: u32 = if len - i > 2 {
        data[i + 2] as u32
    } else {
        0
    };
    let n: u32 = a * 0x1_0000 + b * 0x100 + c;
    out.push(sextet_of(n / 0x4_0000));
    out.push(sextet_of(n / 0x1000 % 64));
    out.push(
        if len - i > 1 {
            sextet_of(n / 64 % 64)
        } else {
            '='
        },
    );
    out.push(
        if len - i > 2 {
            sextet_of(n % 64)
        } else {
            '='
        },
    );
    assert(out@ =~= before + quad(data@, i as int));
}

/// The bytes in base 64; see [`encoded`].
pub fn b64url_encode(data: &[u8]) -> (r: String)
    ensures
        r@ == encoded(data@),
{
    let mut out: Vec<char> = Vec::new();
    let len = data.len();
    let mut i: usize = 0;
    assert(out@ + encoded_from(data@, 0) =~= encoded(data@));
    while i < len
        invariant
            len == data@.len(),
            i <= len,
            encoded(data@) == out@ + encoded_from(data@, i as int),
        decreases len - i,
    {
        let ghost before = out@;
        let ghost rest = encoded_from(data@, i + 3);
        push_quad(&mut out, data, i);
        assert(before + (quad(data@, i as int) + rest) =~= out@ + rest);
        if len - i <= 3 {
            i = len;
        } else {
            i = i + 3;
        }
    }
    assert(out@ + Seq::<char>::empty() =~= out@);
    text::text_of(&out)
}

/// What was read of a text in base 64: whole bytes, and what is pending of the next.
pub struct Reading {
    pub out: Seq<u8>,
    pub pending: int,
    pub bits: int,
}

/// A power of two.
pub open spec fn two_to(bits: int) -> int {
    vstd::arithmetic::power2::pow2(bits as nat) as int
}

impl Reading {
    /// After one more digit.
    pub open spec fn with(self, v: int) -> Reading {
        let n = self.pending * 64 + v;
        let bits = self.bits + 6;
        if bits < 8 {
            Reading { pending: n, bits, ..self }
        } else {
            Reading {
                out: self.out.push((n / two_to(bits - 8)) as u8),
                pending: n % two_to(bits - 8),
                bits: bits - 8,
            }
        }
    }
}

/// What the bytes of a text say in base 64, or the first that says nothing.
pub open spec fn reading(b: Seq<u8>) -> Result<Reading, u8>
    decreases b.len(),
{
    if b.len() == 0 {
        Ok(Reading { out: Seq::empty(), pending: 0, bits: 0 })
    } else {
        match reading(b.drop_last()) {
            Err(x) => Err(x),
            Ok(r) => match sextet(b.last()) {
                Some(v) => Ok(r.with(v)),
                None => if is_filler(b.last()) {
                    Ok(r)
                } else {
                    Err(b.last())
                },
            },
        }
    }
}

/// The bytes that a text in base 64 writes. Bits that fill no byte are dropped.
pub open spec fn decoded(s: Seq<char>) -> Result<Seq<u8>, Seq<char>> {
    match reading(vstd::utf8::encode_utf8(s)) {
        Ok(r) => Ok(r.out),
        Err(b) => Err("bad base64 char "@ + text::quoted_char(b as char)),
    }
}

proof fn bad_byte_stays(b: Seq<u8>, i: int)
    requires
        0 <= i <= b.len(),
        reading(b.take(i)) is Err,
    ensures
        reading(b) == reading(b.take(i)),
    decreases b.len(),
{
    if i < b.len() {
        assert(b.drop_last().take(i) =~= b.take(i));
        bad_byte_stays(b.drop_last(), i);
    } else {
        assert(b.take(i) =~= b);
    }
}

fn value_of(b: u8) -> (r: Option<u32>)
    ensures
        match sextet(b) {
            Some(v) => r matches Some(w) && w == v && w < 64,
            None => r is None,
        },
{
    if 65 <= b && b <= 90 {
        Some((b - 65) as u32)
    } else if 97 <= b && b <= 122 {
        Some((b - 97 + 26) as u32)
    } else if 48 <= b && b <= 57 {
        Some((b - 48 + 52) as u32)
    } else if b == 45 || b == 43 {
        Some(62)
    } else if b == 95 || b == 47 {
        Some(63)
    } else {
        None
    }
}

/// Reads base 64; see [`decoded`].
pub fn b64url_decode(s: &str) -> (r: Result<Vec<u8>, String>)
    ensures
        match decoded(s@) {
            Ok(b) => r matches Ok(v) && v@ == b,
            Err(e) => r matches Err(f) && f@ == e,
        },
{
    let b = s.as_bytes();
    let mut out: Vec<u8> = Vec::new();
    let mut pending: u32 = 0;
    let mut bits: u32 = 0;
    for i in 0..b.len()
        invariant
            b@ == vstd::utf8::encode_utf8(s@),
            bits == 0 || bits == 2 || bits == 4 || bits == 6,
            bits == 0 ==> pending == 0,
            bits == 2 ==> pending < 4,
            bits == 4 ==> pending < 16,
            bits == 6 ==> pending < 64,
            reading(b@.take(i as int)) == Ok::<Reading, u8>(
                Reading { out: out@, pending: pending as int, bits: bits as int },
            ),
    {
        assert(b@.take(i + 1).drop_last() =~= b@.take(i as int));
        let ch = b[i];
        match value_of(ch) {
            Some(v) => {
                let n: u32 = pending * 64 + v;
                if bits + 6 < 8 {
                    pending = n;
                    bits = bits + 6;
                } else {
                    let d: u32 = if bits == 2 {
                        1
                    } else if bits == 4 {
                        4
                    } else {
                        16
                    };
                    proof {
                        vstd::arithmetic::power2::lemma2_to64();
                    }
                    assert(d == two_to(bits + 6 - 8));
                    out.push((n / d) as u8);
                    pending = n % d;
                    bits = bits - 2;
                }
            },
            None => {
                if !(ch == 61 || ch == 10 || ch == 13) {
                    proof {
                        bad_byte_stays(b@, i + 1);
                    }
                    let mut e = owned("bad base64 char ");
                    e.append(text::quote_char(ch as char).as_str());
                    return Err(e);
                }
            },
        }
    }
    assert(b@.take(b@.len() as int) =~= b@);
    Ok(out)
}

/// An address as a word, or why it is none.
pub open spec fn address_of(addr: Seq<char>) -> Result<Seq<u8>, Seq<char>> {
    let s = text::bare(addr);
    if !digests::is_hex_text(s) {
        Err("address not hex: "@ + digests::hex_refusal(s))
    } else if s.len() != 40 {
        Err("address must be 20 bytes, got "@ + text::dec((s.len() / 2) as nat))
    } else {
        Ok(words::address_word(digests::unhex(s)))
    }
}

fn word_addr(addr: &str) -> (r: Result<[u8; 32], String>)
    ensures
        match address_of(addr@) {
            Ok(w) => r matches Ok(v) && v@ == w,
            Err(e) => r matches Err(f) && f@ == e,
        },
{
    let raw = text::text_of(&text::strip_0x(&text::chars_of(addr)));
    match digests::hex_decode(raw.as_str()) {
        Ok(bytes) => {
            if bytes.len() != 20 {
                let mut e = owned("address must be 20 bytes, got ");
                e.append(dec_u128(bytes.len() as u128).as_str());
                return Err(e);
            }
            let mut a = [0u8; 20];
            for i in 0..20usize
                invariant
                    bytes@.len() == 20,
                    forall|j: int| 0 <= j < i ==> a@[j] == bytes@[j],
            {
                a[i] = bytes[i];
            }
            assert(a@ =~= bytes@);
            Ok(words::word_addr(&a))
        },
        Err(why) => {
            let mut e = owned("address not hex: ");
            e.append(why.as_str());
            Err(e)
        },
    }
}

/// The digest of a text's bytes.
pub open spec fn text_digest(s: Seq<char>) -> Seq<u8> {
    digests::keccak256(vstd::utf8::encode_utf8(s))
}

/// The domain in which a login is signed.
pub open spec fn domain_separator() -> Seq<u8> {
    digests::keccak256(
        Seq::<u8>::empty() + text_digest(
            "EIP712Domain(string name,string version,uint256 chainId)"@,
        ) + text_digest("ClobAuthDomain"@) + text_digest("1"@) + words::word_of(CHAIN_ID as int),
    )
}

fn clob_auth_domain_separator() -> (r: [u8; 32])
    ensures
        r@ == domain_separator(),
{
    let mut buf: Vec<u8> = Vec::new();
    push_bytes(
        &mut buf,
        &digests::keccak("EIP712Domain(string name,string version,uint256 chainId)".as_bytes()),
    );
    push_bytes(&mut buf, &digests::keccak("ClobAuthDomain".as_bytes()));
    push_bytes(&mut buf, &digests::keccak("1".as_bytes()));
    push_bytes(&mut buf, &word_u128(CHAIN_ID as u128));
    digests::keccak(buf.as_slice())
}

/// The digest of a login's fields, given the address as a word.
pub open spec fn login_digest(address: Seq<u8>, timestamp: int, nonce: int) -> Seq<u8> {
    digests::keccak256(
        Seq::<u8>::empty() + text_digest(
            "ClobAuth(address address,string timestamp,uint256 nonce,string message)"@,
        ) + address + text_digest(text::dec(timestamp as nat)) + words::word_of(nonce)
            + text_digest("This message attests that I control the given wallet"@),
    )
}

fn clob_auth_struct_hash(address: &str, timestamp: u64, nonce: u128) -> (r: Result<
    [u8; 32],
    String,
>)
    ensures
        match address_of(address@) {
            Ok(w) => r matches Ok(v) && v@ == login_digest(w, timestamp as int, nonce as int),
            Err(e) => r matches Err(f) && f@ == e,
        },
{
    let mut buf: Vec<u8> = Vec::new();
    push_bytes(
        &mut buf,
        &digests::keccak(
            "ClobAuth(address address,string timestamp,uint256 nonce,string message)".as_bytes(),
        ),
    );
    let w = match word_addr(address) {
        Ok(w) => w,
        Err(e) => {
            return Err(e);
        },
    };
    push_bytes(&mut buf, &w);
    push_bytes(&mut buf, &digests::keccak(dec_u128(timestamp as u128).as_str().as_bytes()));
    push_bytes(&mut buf, &word_u128(nonce));
    push_bytes(
        &mut buf,
        &digests::keccak("This message attests that I control the given wallet".as_bytes()),
    );
    Ok(digests::keccak(buf.as_slice()))
}

/// What is signed for a login, or why the address is none.
pub open spec fn login(address: Seq<char>, timestamp: int, nonce: int) -> Result<
    Seq<u8>,
    Seq<char>,
> {
    match address_of(address) {
        Ok(w) => Ok(
            digests::keccak256(
                seq![0x19u8, 0x01u8] + domain_separator() + login_digest(w, timestamp, nonce),
            ),
        ),
        Err(e) => Err(e),
    }
}

/// What is signed for a login; see [`login`].
pub fn clob_auth_digest(address: &str, timestamp: u64, nonce: u128) -> (r: Result<
    [u8; 32],
    String,
>)
    ensures
        match login(address@, timestamp as int, nonce as int) {
            Ok(d) => r matches Ok(v) && v@ == d,
            Err(e) => r matches Err(f) && f@ == e,
        },
{
    let mut buf: Vec<u8> = Vec::new();
    buf.push(0x19);
    buf.push(0x01);
    assert(buf@ =~= seq![0x19u8, 0x01u8]);
    push_bytes(&mut buf, &clob_auth_domain_separator());
    match clob_auth_struct_hash(address, timestamp, nonce) {
        Ok(h) => {
            push_bytes(&mut buf, &h);
            Ok(digests::keccak(buf.as_slice()))
        },
        Err(e) => Err(e),
    }
}

/// The address of a public point: the last twenty bytes of its digest.
pub open spec fn point_address(p: Seq<u8>) -> Result<Seq<char>, Seq<char>> {
    if p.len() != 65 || p[0] != 0x04 {
        Err("unexpected public key encoding"@)
    } else {
        Ok("0x"@ + text::hex_of(digests::keccak256(p.skip(1)).skip(12)))
    }
}

/// The address of a public point; see [`point_address`].
pub fn address_of_point(p: &Vec<u8>) -> (r: Result<String, String>)
    ensures
        match point_address(p@) {
            Ok(a) => r matches Ok(v) && v@ == a,
            Err(e) => r matches Err(f) && f@ == e,
        },
{
    if p.len() != 65 || p[0] != 0x04 {
        return Err(owned("unexpected public key encoding"));
    }
    let mut rest: Vec<u8> = Vec::new();
    for i in 1..65usize
        invariant
            p@.len() == 65,
            rest@ == p@.subrange(1, i as int),
    {
        rest.push(p[i]);
        assert(p@.subrange(1, i as int).push(p@[i as int]) =~= p@.subrange(1, i + 1));
    }
    assert(rest@ =~= p@.skip(1));
    let h = digests::keccak(rest.as_slice());
    let mut s = owned("0x");
    s.append(digests::hex_encode(&words::tail20(&h)).as_str());
    Ok(s)
}

/// The address of a key, or why it is none.
pub fn address_from_key(private_key: &[u8; 32]) -> (r: Result<String, String>)
    ensures
        if digests::is_key(private_key@) {
            match point_address(digests::point(private_key@)) {
                Ok(a) => r matches Ok(v) && v@ == a,
                Err(e) => r matches Err(f) && f@ == e,
            }
        } else {
            r matches Err(f) && f@ == "bad key: "@ + "signature error"@
        },
{
    match digests::check_key(private_key) {
        Ok(_) => address_of_point(&digests::public_point(private_key)),
        Err(why) => Err(with_cause("bad key: ", why.as_str())),
    }
}

fn with_cause(head: &str, why: &str) -> (r: String)
    ensures
        r@ == head@ + why@,
{
    let mut s = owned(head);
    s.append(why);
    s
}

/// A signature as the venue takes it: both halves and the recovery number from 27 on.
pub open spec fn wire_signature(s: (Seq<u8>, Seq<u8>, u8)) -> Seq<char> {
    "0x"@ + text::hex_of(s.0 + s.1 + seq![(s.2 + 27) as u8])
}

/// A signature as the venue takes it; see [`wire_signature`].
pub fn write_signature(r: &[u8; 32], s: &[u8; 32], id: u8) -> (t: String)
    requires
        id <= 3,
    ensures
        t@ == wire_signature((r@, s@, id)),
{
    let mut out = text::bytes_of(r);
    push_bytes(&mut out, s);
    let ghost both = out@;
    out.push(id + 27);
    assert(out@ =~= both + seq![(id + 27) as u8]);
    let mut t = owned("0x");
    t.append(digests::hex_encode(out.as_slice()).as_str());
    t
}

/// The signature of a login, or why there is none.
pub open spec fn login_signature(
    key: Seq<u8>,
    address: Seq<char>,
    timestamp: int,
    nonce: int,
) -> Result<Seq<char>, Seq<char>> {
    if !digests::is_key(key) {
        Err("bad key: "@ + "signature error"@)
    } else {
        match login(address, timestamp, nonce) {
            Err(e) => Err(e),
            Ok(d) => match digests::signed(key, d) {
                Some(s) => Ok(wire_signature(s)),
                None => Err("sign failed: "@ + "signature error"@),
            },
        }
    }
}

/// Signs a login; see [`login_signature`].
pub fn sign_clob_auth(
    private_key: &[u8; 32],
    address: &str,
    timestamp: u64,
    nonce: u128,
) -> (r: Result<String, String>)
    ensures
        match login_signature(private_key@, address@, timestamp as int, nonce as int) {
            Ok(s) => r matches Ok(t) && t@ == s,
            Err(e) => r matches Err(f) && f@ == e,
        },
{
    match digests::check_key(private_key) {
        Ok(_) => {},
        Err(why) => {
            return Err(with_cause("bad key: ", why.as_str()));
        },
    }
    let digest = match clob_auth_digest(address, timestamp, nonce) {
        Ok(d) => d,
        Err(e) => {
            return Err(e);
        },
    };
    match digests::sign(private_key, &digest) {
        Ok((a, b, id)) => Ok(write_signature(&a, &b, id)),
        Err(why) => Err(with_cause("sign failed: ", why.as_str())),
    }
}

/// What these headers say.
pub open spec fn header_views(v: Seq<(&'static str, String)>) -> Seq<(Seq<char>, Seq<char>)> {
    v.map_values(|h: (&'static str, String)| (h.0@, h.1@))
}

/// The headers of a login that the wallet's key signs.
pub fn l1_headers(
    private_key: &[u8; 32],
    address: &str,
    timestamp: u64,
    nonce: u128,
) -> (r: Result<Vec<(&'static str, String)>, String>)
    ensures
        match login_signature(private_key@, address@, timestamp as int, nonce as int) {
            Ok(s) => r matches Ok(h) && header_views(h@) == seq![
                (POLY_ADDRESS@, address@),
                (POLY_SIGNATURE@, s),
                (POLY_TIMESTAMP@, text::dec(timestamp as nat)),
                (POLY_NONCE@, text::dec(nonce as nat)),
            ],
            Err(e) => r matches Err(f) && f@ == e,
        },
{
    match sign_clob_auth(private_key, address, timestamp, nonce) {
        Ok(s) => {
            let ghost sig = s@;
            let mut h: Vec<(&'static str, String)> = Vec::new();
            h.push((POLY_ADDRESS, owned(address)));
            h.push((POLY_SIGNATURE, s));
            h.push((POLY_TIMESTAMP, dec_u128(timestamp as u128)));
            h.push((POLY_NONCE, dec_u128(nonce)));
            assert(header_views(h@) =~= seq![
                (POLY_ADDRESS@, address@),
                (POLY_SIGNATURE@, sig),
                (POLY_TIMESTAMP@, text::dec(timestamp as nat)),
                (POLY_NONCE@, text::dec(nonce as nat)),
            ]);
            Ok(h)
        },
        Err(e) => Err(e),
    }
}

/// What is tagged of a request: the time, the method, the path without its query, and
/// the body with double quotes in place of single ones.
pub open spec fn request_text(
    timestamp: int,
    method: Seq<char>,
    path: Seq<char>,
    body: Option<Seq<char>>,
) -> Seq<char> {
    let head = text::dec(timestamp as nat) + method + text::up_to(path, '?');
    match body {
        Some(b) => if b.len() == 0 {
            head
        } else {
            head + text::swapped(b, '\'', '"')
        },
        None => head,
    }
}

/// A body as a text.
pub open spec fn body_text(b: Option<&str>) -> Option<Seq<char>> {
    match b {
        Some(s) => Some(s@),
        None => None,
    }
}

/// The tag of a request under a secret, or why the secret is none.
pub open spec fn request_tag(
    secret: Seq<char>,
    timestamp: int,
    method: Seq<char>,
    path: Seq<char>,
    body: Option<Seq<char>>,
) -> Result<Seq<char>, Seq<char>> {
    match decoded(secret) {
        Ok(k) => Ok(
            encoded(
                digests::hmac256(
                    k,
                    vstd::utf8::encode_utf8(request_text(timestamp, method, path, body)),
                ),
            ),
        ),
        Err(e) => Err(e),
    }
}

/// Tags a request; see [`request_tag`].
pub fn hmac_signature(
    secret: &str,
    timestamp: u64,
    method: &str,
    path: &str,
    body: Option<&str>,
) -> (r: Result<String, String>)
    ensures
        match request_tag(secret@, timestamp as int, method@, path@, body_text(body)) {
            Ok(s) => r matches Ok(t) && t@ == s,
            Err(e) => r matches Err(f) && f@ == e,
        },
{
    let key = match b64url_decode(secret) {
        Ok(k) => k,
        Err(e) => {
            return Err(e);
        },
    };
    let msg = request_line(timestamp, method, path, body);
    Ok(b64url_encode(&digests::hmac(key.as_slice(), msg.as_str().as_bytes())))
}

/// What is tagged of a request; see [`request_text`].
pub fn request_line(timestamp: u64, method: &str, path: &str, body: Option<&str>) -> (r: String)
    ensures
        r@ == request_text(timestamp as int, method@, path@, body_text(body)),
{
    let mut msg = dec_u128(timestamp as u128);
    msg.append(method);
    msg.append(text::cut_at(path, '?').as_str());
    if let Some(b) = body {
        if text::chars_of(b).len() > 0 {
            msg.append(text::swap_char(b, '\'', '"').as_str());
        }
    }
    msg
}

/// The headers of a request that a secret tags.
pub fn l2_headers(
    address: &str,
    creds: &ApiCreds,
    timestamp: u64,
    method: &str,
    path: &str,
    body: Option<&str>,
) -> (r: Result<Vec<(&'static str, String)>, String>)
    ensures
        match request_tag(creds.secret@, timestamp as int, method@, path@, body_text(body)) {
            Ok(s) => r matches Ok(h) && header_views(h@) == seq![
                (POLY_ADDRESS@, address@),
                (POLY_SIGNATURE@, s),
                (POLY_TIMESTAMP@, text::dec(timestamp as nat)),
                (POLY_API_KEY@, creds.key@),
                (POLY_PASSPHRASE@, creds.passphrase@),
            ],
            Err(e) => r matches Err(f) && f@ == e,
        },
{
    match hmac_signature(creds.secret.as_str(), timestamp, method, path, body) {
        Ok(s) => {
            let ghost sig = s@;
            let mut h: Vec<(&'static str, String)> = Vec::new();
            h.push((POLY_ADDRESS, owned(address)));
            h.push((POLY_SIGNATURE, s));
            h.push((POLY_TIMESTAMP, dec_u128(timestamp as u128)));
            h.push((POLY_API_KEY, creds.key.clone()));
            h.push((POLY_PASSPHRASE, creds.passphrase.clone()));
            assert(header_views(h@) =~= seq![
                (POLY_ADDRESS@, address@),
                (POLY_SIGNATURE@, sig),
                (POLY_TIMESTAMP@, text::dec(timestamp as nat)),
                (POLY_API_KEY@, creds.key@),
                (POLY_PASSPHRASE@, creds.passphrase@),
            ]);
            Ok(h)
        },
        Err(e) => Err(e),
    }
}

/// The credentials in a document: all three of them, or none.
pub open spec fn creds_in(v: Json) -> Option<(Seq<char>, Seq<char>, Seq<char>)> {
    match (
        json::text_in(json::field(v, "apiKey"@)),
        json::text_in(json::field(v, "secret"@)),
        json::text_in(json::field(v, "passphrase"@)),
    ) {
        (Some(k), Some(s), Some(p)) => Some((k, s, p)),
        _ => None,
    }
}

/// Reads credentials out of a document; see [`creds_in`].
pub fn read_creds(v: &Json) -> (r: Option<ApiCreds>)
    ensures
        match creds_in(*v) {
            Some(c) => r matches Some(d) && d.key@ == c.0 && d.secret@ == c.1 && d.passphrase@
                == c.2,
            None => r is None,
        },
{
    match (v.text_at("apiKey"), v.text_at("secret"), v.text_at("passphrase")) {
        (Some(key), Some(secret), Some(passphrase)) => Some(ApiCreds { key, secret, passphrase }),
        _ => None,
    }
}

/// Whether `r` is what a reply says of credentials.
pub open spec fn says_creds(body: Seq<char>, r: Result<ApiCreds, String>) -> bool {
    match json::parsed(body) {
        Err(e) => r matches Err(f) && f@ == "creds not json: "@ + e,
        Ok(v) => match creds_in(json::held(v)) {
            Some(c) => r matches Ok(d) && d.key@ == c.0 && d.secret@ == c.1 && d.passphrase@ == c.2,
            None => r matches Err(f) && f@ == "creds missing fields: "@ + text::fitting(body, 200),
        },
    }
}

/// Reads credentials out of a reply; see [`says_creds`].
pub fn parse_creds(body: &str) -> (r: Result<ApiCreds, String>)
    ensures
        says_creds(body@, r),
{
    match try_json(body) {
        Err(e) => Err(with_cause("creds not json: ", e.as_str())),
        Ok(v) => match read_creds(&v) {
            Some(c) => Ok(c),
            None => Err(with_cause("creds missing fields: ", text::fit(body, 200).as_str())),
        },
    }
}

/// The credentials that a request to derive them gave; where there are none, new ones
/// have to be asked for.
pub fn after_derive(success: bool, body: &str) -> (r: Option<ApiCreds>)
    ensures
        r matches Some(c) ==> success && says_creds(body@, Ok(c)),
        r is None ==> !success || exists|e: String| says_creds(body@, Err(e)),
{
    if success {
        match parse_creds(body) {
            Ok(c) => Some(c),
            Err(e) => {
                assert(says_creds(body@, Err(e)));
                None
            },
        }
    } else {
        None
    }
}

/// The credentials that a request to create them gave, or why there are none: what both
/// requests were answered, with the start of each reply.
pub fn after_create(
    success: bool,
    status: &str,
    body: &str,
    derive_status: &str,
    derive_body: &str,
) -> (r: Result<ApiCreds, String>)
    ensures
        success ==> says_creds(body@, r),
        !success ==> (r matches Err(f) && f@ == "could not obtain L2 creds — derive "@
            + derive_status@ + " ("@ + text::first_chars(derive_body@, 120) + "), create "@
            + status@ + " ("@ + text::first_chars(body@, 120) + ")"@),
{
    if success {
        return parse_creds(body);
    }
    let mut e = owned("could not obtain L2 creds — derive ");
    e.append(derive_status);
    e.append(" (");
    e.append(text::head(derive_body, 120).as_str());
    e.append("), create ");
    e.append(status);
    e.append(" (");
    e.append(text::head(body, 120).as_str());
    e.append(")");
    Err(e)
}

/// The digits of the bytes before `i`, where `i` is a whole number of threes.
spec fn encoded_to(b: Seq<u8>, i: int) -> Seq<char>
    decreases units::larger(i, 0),
{
    if i <= 0 {
        Seq::empty()
    } else {
        encoded_to(b, i - 3) + quad(b, i - 3)
    }
}

spec fn as_bytes(s: Seq<char>) -> Seq<u8> {
    Seq::new(s.len(), |i: int| s[i] as u8)
}

proof fn encoded_splits(b: Seq<u8>, i: int)
    requires
        i % 3 == 0,
        0 <= i < b.len() + 3,
    ensures
        encoded(b) == encoded_to(b, i) + encoded_from(b, i),
    decreases i,
{
    if i > 0 {
        encoded_splits(b, i - 3);
        assert(encoded_to(b, i - 3) + (quad(b, i - 3) + encoded_from(b, i)) =~= encoded_to(b, i)
            + encoded_from(b, i));
    } else {
        assert(encoded(b) =~= encoded_to(b, 0) + encoded_from(b, 0));
    }
}

proof fn sextet_reads_back(v: int)
    requires
        0 <= v < 64,
    ensures
        sextet(sextet_char(v) as u8) == Some(v),
        (sextet_char(v) as u32) < 0x80,
        sextet_char(v) as u8 as char == sextet_char(v),
{
}

proof fn digits_of_three(a: u8, b: u8, c: u8)
    ensures
        ({
            let n = a * 0x1_0000 + b * 0x100 + c;
            let v = n / 0x4_0000;
            let w = n / 0x1000 % 64;
            let x = n / 64 % 64;
            let y = n % 64;
            &&& 0 <= v < 64 && 0 <= w < 64 && 0 <= x < 64 && 0 <= y < 64
            &&& (v * 64 + w) / 16 == a
            &&& ((v * 64 + w) % 16 * 64 + x) / 4 == b
            &&& (((v * 64 + w) % 16 * 64 + x) % 4 * 64 + y) == c
        }),
{
    assert({
        let n = a * 0x1_0000 + b * 0x100 + c;
        let v = n / 0x4_0000;
        let w = n / 0x1000 % 64;
        let x = n / 64 % 64;
        let y = n % 64;
        &&& 0 <= v < 64 && 0 <= w < 64 && 0 <= x < 64 && 0 <= y < 64
        &&& (v * 64 + w) / 16 == a
        &&& ((v * 64 + w) % 16 * 64 + x) / 4 == b
        &&& (((v * 64 + w) % 16 * 64 + x) % 4 * 64 + y) == c
    }) by (bit_vector);
}

proof fn quad_reads_back(head: Seq<u8>, b: Seq<u8>, i: int)
    requires
        0 <= i < b.len(),
        reading(head) == Ok::<Reading, u8>(Reading { out: b.take(i), pending: 0, bits: 0 }),
    ensures
        reading(head + as_bytes(quad(b, i))) matches Ok(r) && (if i + 3 <= b.len() {
            r == (Reading { out: b.take(i + 3), pending: 0, bits: 0 })
        } else {
            r.out == b
        }),
{
    let q = as_bytes(quad(b, i));
    let x = byte_at(b, i) as u8;
    let y = byte_at(b, i + 1) as u8;
    let z = byte_at(b, i + 2) as u8;
    digits_of_three(x, y, z);
    vstd::arithmetic::power2::lemma2_to64();
    let n = x * 0x1_0000 + y * 0x100 + z;
    sextet_reads_back(n / 0x4_0000);
    sextet_reads_back(n / 0x1000 % 64);
    sextet_reads_back(n / 64 % 64);
    sextet_reads_back(n % 64);
    let s1 = head.push(q[0]);
    let s2 = s1.push(q[1]);
    let s3 = s2.push(q[2]);
    let s4 = s3.push(q[3]);
    assert(s4 =~= head + q);
    assert(s1.drop_last() =~= head);
    assert(s2.drop_last() =~= s1);
    assert(s3.drop_last() =~= s2);
    assert(s4.drop_last() =~= s3);
    let v = n / 0x4_0000;
    let w = n / 0x1000 % 64;
    let u = n / 64 % 64;
    let first = Reading { out: b.take(i), pending: v, bits: 6 };
    assert(b.take(i).push(x) =~= b.take(i + 1));
    let second = Reading { out: b.take(i + 1), pending: (v * 64 + w) % 16, bits: 4 };
    assert(q[0] == sextet_char(v) as u8);
    assert(q[1] == sextet_char(w) as u8);
    assert(reading(s1) == Ok::<Reading, u8>(first));
    assert(first.with(w) == second);
    assert(reading(s2) == Ok::<Reading, u8>(second));
    if i + 1 < b.len() {
        let third = Reading {
            out: b.take(i + 2),
            pending: ((v * 64 + w) % 16 * 64 + u) % 4,
            bits: 2,
        };
        assert(b.take(i + 1).push(y) =~= b.take(i + 2));
        assert(q[2] == sextet_char(u) as u8);
        assert(second.with(u) == third);
        assert(reading(s3) == Ok::<Reading, u8>(third));
        if i + 2 < b.len() {
            assert(b.take(i + 2).push(z) =~= b.take(i + 3));
            assert(q[3] == sextet_char(n % 64) as u8);
            let m = third.pending * 64 + n % 64;
            assert(two_to(0) == 1);
            assert(m / 1 == m && m % 1 == 0);
            assert(m / two_to(0) == m && m % two_to(0) == 0);
            assert(third.with(n % 64) == Reading { out: b.take(i + 3), pending: 0, bits: 0 });
        } else {
            assert(b.take(i + 2) =~= b);
            assert(q[3] == 61);
        }
    } else {
        assert(b.take(i + 1) =~= b);
        assert(q[2] == 61);
        assert(q[3] == 61);
    }
}

proof fn prefix_reads_back(b: Seq<u8>, i: int)
    requires
        i % 3 == 0,
        0 <= i < b.len() + 3,
    ensures
        reading(as_bytes(encoded_to(b, i))) matches Ok(r) && (if i <= b.len() {
            r == (Reading { out: b.take(i), pending: 0, bits: 0 })
        } else {
            r.out == b
        }),
    decreases i,
{
    if i <= 0 {
        assert(b.take(0) =~= Seq::<u8>::empty());
        assert(as_bytes(encoded_to(b, 0)) =~= Seq::<u8>::empty());
    } else {
        prefix_reads_back(b, i - 3);
        quad_reads_back(as_bytes(encoded_to(b, i - 3)), b, i - 3);
        assert(as_bytes(encoded_to(b, i)) =~= as_bytes(encoded_to(b, i - 3)) + as_bytes(
            quad(b, i - 3),
        ));
    }
}

proof fn encoded_is_ascii(b: Seq<u8>, i: int)
    requires
        0 <= i,
    ensures
        vstd::utf8::is_ascii_chars(encoded_from(b, i)),
    decreases units::larger(b.len() - i, 0),
{
    if i < b.len() {
        encoded_is_ascii(b, i + 3);
        let x = byte_at(b, i) as u8;
        let y = byte_at(b, i + 1) as u8;
        let z = byte_at(b, i + 2) as u8;
        digits_of_three(x, y, z);
        let n = x * 0x1_0000 + y * 0x100 + z;
        sextet_reads_back(n / 0x4_0000);
        sextet_reads_back(n / 0x1000 % 64);
        sextet_reads_back(n / 64 % 64);
        sextet_reads_back(n % 64);
        let e = encoded_from(b, i);
        assert forall|k: int| 0 <= k < e.len() implies '\0' <= #[trigger] e[k] <= '\u{7f}' by {
            if k < 4 {
                assert(e[k] == quad(b, i)[k]);
            } else {
                assert(e[k] == encoded_from(b, i + 3)[k - 4]);
            }
        }
    }
}

/// Bytes that are written in base 64 read back as they were.
pub proof fn base64_reads_back(b: Seq<u8>)
    ensures
        decoded(encoded(b)) == Ok::<Seq<u8>, Seq<char>>(b),
{
    let e = encoded(b);
    encoded_is_ascii(b, 0);
    vstd::utf8::is_ascii_chars_encode_utf8(e);
    assert(vstd::utf8::encode_utf8(e) =~= as_bytes(e));
    let n: int = if b.len() % 3 == 0 {
        b.len() as int
    } else {
        b.len() + 3 - b.len() % 3
    };
    encoded_splits(b, n);
    prefix_reads_back(b, n);
    assert(encoded_from(b, n) =~= Seq::<char>::empty());
    assert(e =~= encoded_to(b, n));
    if n == b.len() {
        assert(b.take(n) =~= b);
    }
}

/// A digit of base 64 in the alphabet that URLs take.
pub open spec fn url_digit(c: char) -> char {
    if c == '+' {
        '-'
    } else if c == '/' {
        '_'
    } else {
        c
    }
}

/// The digits of a text in base 64, in the alphabet that URLs take: without padding and
/// without line ends.
pub open spec fn digits_alone(s: Seq<char>) -> Seq<char>
    decreases s.len(),
{
    if s.len() == 0 {
        Seq::empty()
    } else {
        let before = digits_alone(s.drop_last());
        if s.last() == '=' || s.last() == '\n' || s.last() == '\r' {
            before
        } else {
            before.push(url_digit(s.last()))
        }
    }
}

proof fn digits_are_enough(s: Seq<char>)
    requires
        vstd::utf8::is_ascii_chars(digits_alone(s)),
    ensures
        vstd::utf8::is_ascii_chars(s),
        reading(as_bytes(s)) == reading(as_bytes(digits_alone(s))),
    decreases s.len(),
{
    if s.len() > 0 {
        let rest = s.drop_last();
        let d = digits_alone(rest);
        let c = s.last();
        let all = digits_alone(s);
        assert forall|i: int| 0 <= i < d.len() implies '\0' <= #[trigger] d[i] <= '\u{7f}' by {
            assert(all[i] == d[i]);
        }
        digits_are_enough(rest);
        if !(c == '=' || c == '\n' || c == '\r') {
            assert(all.last() == url_digit(c));
            assert('\0' <= all[d.len() as int] <= '\u{7f}');
            assert(as_bytes(all).drop_last() =~= as_bytes(d));
            assert(as_bytes(all).last() == url_digit(c) as u8);
        }
        assert forall|i: int| 0 <= i < s.len() implies '\0' <= #[trigger] s[i] <= '\u{7f}' by {
            if i < rest.len() {
                assert(rest[i] == s[i]);
            }
        }
        assert(as_bytes(s).drop_last() =~= as_bytes(rest));
        assert(as_bytes(s).last() == c as u8);
    } else {
        assert(as_bytes(s) =~= as_bytes(digits_alone(s)));
    }
}

proof fn digits_stay_ascii(s: Seq<char>)
    requires
        vstd::utf8::is_ascii_chars(s),
    ensures
        vstd::utf8::is_ascii_chars(digits_alone(s)),
    decreases s.len(),
{
    if s.len() > 0 {
        let rest = s.drop_last();
        assert forall|i: int| 0 <= i < rest.len() implies '\0' <= #[trigger] rest[i]
            <= '\u{7f}' by {
            assert(s[i] == rest[i]);
        }
        digits_stay_ascii(rest);
        assert('\0' <= s[s.len() - 1] <= '\u{7f}');
        let all = digits_alone(s);
        assert forall|i: int| 0 <= i < all.len() implies '\0' <= #[trigger] all[i]
            <= '\u{7f}' by {
            if i < digits_alone(rest).len() {
                assert(all[i] == digits_alone(rest)[i]);
            }
        }
    }
}

/// Bytes read back from any text that has their digits: with padding or without, in either
/// alphabet, and with line ends anywhere.
pub proof fn any_spelling_reads_back(b: Seq<u8>, s: Seq<char>)
    requires
        digits_alone(s) == digits_alone(encoded(b)),
    ensures
        decoded(s) == Ok::<Seq<u8>, Seq<char>>(b),
{
    let e = encoded(b);
    encoded_is_ascii(b, 0);
    digits_stay_ascii(e);
    digits_are_enough(e);
    digits_are_enough(s);
    vstd::utf8::is_ascii_chars_encode_utf8(e);
    vstd::utf8::is_ascii_chars_encode_utf8(s);
    assert(vstd::utf8::encode_utf8(e) =~= as_bytes(e));
    assert(vstd::utf8::encode_utf8(s) =~= as_bytes(s));
    base64_reads_back(b);
}

/// A text without its padding has the same digits.
pub proof fn padding_is_no_digit(s: Seq<char>)
    ensures
        digits_alone(s.filter(|c: char| c != '=')) == digits_alone(s),
    decreases s.len(),
{
    reveal(Seq::filter);
    let keep = |c: char| c != '=';
    if s.len() > 0 {
        padding_is_no_digit(s.drop_last());
        let f = s.drop_last().filter(keep);
        assert(f.push(s.last()).drop_last() =~= f);
    }
}

/// A text in the other alphabet has the same digits.
pub proof fn alphabets_have_the_same_digits(s: Seq<char>)
    ensures
        digits_alone(text::swapped(text::swapped(s, '-', '+'), '_', '/')) == digits_alone(s),
    decreases s.len(),
{
    let t = text::swapped(text::swapped(s, '-', '+'), '_', '/');
    if s.len() > 0 {
        alphabets_have_the_same_digits(s.drop_last());
        assert(t.drop_last() =~= text::swapped(
            text::swapped(s.drop_last(), '-', '+'),
            '_',
            '/',
        ));
    } else {
        assert(t =~= s);
    }
}

/// A line end that is put in anywhere changes no digit.
pub proof fn line_ends_are_no_digits(s: Seq<char>, i: int, c: char)
    requires
        0 <= i <= s.len(),
        c == '\n' || c == '\r',
    ensures
        digits_alone(s.insert(i, c)) == digits_alone(s),
    decreases s.len(),
{
    let t = s.insert(i, c);
    if i == s.len() {
        assert(t.drop_last() =~= s);
    } else {
        line_ends_are_no_digits(s.drop_last(), i, c);
        assert(t.drop_last() =~= s.drop_last().insert(i, c));
        assert(t.last() == s.last());
    }
}

/// A text is refused exactly where one of its bytes is neither a digit of base 64, of either
/// alphabet, nor padding nor a line end.
pub proof fn only_foreign_bytes_are_refused(s: Seq<char>)
    ensures
        decoded(s) is Err <==> exists|i: int|
            0 <= i < vstd::utf8::encode_utf8(s).len() && sextet(
                #[trigger] vstd::utf8::encode_utf8(s)[i],
            ) is None && !is_filler(vstd::utf8::encode_utf8(s)[i]),
{
    foreign_bytes(vstd::utf8::encode_utf8(s));
}

proof fn foreign_bytes(b: Seq<u8>)
    ensures
        reading(b) is Err <==> exists|i: int|
            0 <= i < b.len() && sextet(#[trigger] b[i]) is None && !is_filler(b[i]),
    decreases b.len(),
{
    if b.len() > 0 {
        let rest = b.drop_last();
        foreign_bytes(rest);
        if reading(rest) is Err {
            let i = choose|i: int|
                0 <= i < rest.len() && sextet(#[trigger] rest[i]) is None && !is_filler(rest[i]);
            assert(b[i] == rest[i]);
        } else {
            assert(b.last() == b[b.len() - 1]);
            assert forall|i: int| 0 <= i < rest.len() implies !(sextet(#[trigger] b[i]) is None
                && !is_filler(b[i])) by {
                assert(rest[i] == b[i]);
            }
        }
    }
}

} // verus!
