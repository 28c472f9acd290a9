//! Hashes, signatures and hexadecimal text. What a hash or a signature is stays
//! with the crates that compute it; here each has a name.

use vstd::prelude::*;
use crate::text;

verus! {

/// The Keccak-256 hash of a message.
pub uninterp spec fn keccak256(msg: Seq<u8>) -> Seq<u8>;

/// The SHA-256 hash of a message.
pub uninterp spec fn sha256(msg: Seq<u8>) -> Seq<u8>;

/// The HMAC-SHA256 tag of a message under a key.
pub uninterp spec fn hmac256(key: Seq<u8>, msg: Seq<u8>) -> Seq<u8>;

/// Whether 32 bytes are a signing key of secp256k1.
pub uninterp spec fn is_key(key: Seq<u8>) -> bool;

/// The uncompressed public point of a signing key.
pub uninterp spec fn point(key: Seq<u8>) -> Seq<u8>;

/// The signature of a digest under a key: its two halves and its recovery number;
/// nothing where no signature comes out.
pub uninterp spec fn signed(key: Seq<u8>, digest: Seq<u8>) -> Option<(Seq<u8>, Seq<u8>, u8)>;

/// `tiny_keccak::Keccak::v256` over the one message. Its output is 32 bytes.
#[verifier::external_body]
pub(crate) fn keccak(msg: &[u8]) -> (r: [u8; 32])
    ensures
        r@ == keccak256(msg@),
{
    let mut h = tiny_keccak::Keccak::v256();
    let mut out = [0u8; 32];
    tiny_keccak::Hasher::update(&mut h, msg);
    tiny_keccak::Hasher::finalize(h, &mut out);
    out
}

/// `sha2::Sha256` over the one message. Its output is 32 bytes.
#[verifier::external_body]
pub(crate) fn sha(msg: &[u8]) -> (r: [u8; 32])
    ensures
        r@ == sha256(msg@),
{
    <sha2::Sha256 as sha2::Digest>::digest(msg).into()
}

/// `hmac::Hmac` with SHA-256, which takes a key of any length. Its tag is 32 bytes.
#[verifier::external_body]
pub(crate) fn hmac(key: &[u8], msg: &[u8]) -> (r: [u8; 32])
    ensures
        r@ == hmac256(key@, msg@),
{
    let mut mac = <hmac::Hmac<sha2::Sha256> as hmac::Mac>::new_from_slice(key).unwrap();
    hmac::Mac::update(&mut mac, msg);
    hmac::Mac::finalize(mac).into_bytes().into()
}

/// `k256::ecdsa::SigningKey::from_bytes`: whether it takes the bytes as a key. What it
/// says of bytes that it refuses is always the same, and is given as its text.
#[verifier::external_body]
pub(crate) fn check_key(key: &[u8; 32]) -> (r: Result<(), String>)
    ensures
        r is Ok == is_key(key@),
        r matches Err(e) ==> e@ == "signature error"@,
{
    match k256::ecdsa::SigningKey::from_bytes(key.into()) {
        Ok(_) => Ok(()),
        Err(e) => Err(e.to_string()),
    }
}

/// `VerifyingKey::to_encoded_point(false)` of a key that was taken: the point
/// without compression, 65 bytes of which the first is four.
#[verifier::external_body]
pub(crate) fn public_point(key: &[u8; 32]) -> (r: Vec<u8>)
    requires
        is_key(key@),
    ensures
        r@ == point(key@),
{
    let sk = k256::ecdsa::SigningKey::from_bytes(key.into()).unwrap();
    sk.verifying_key().to_encoded_point(false).as_bytes().to_vec()
}

/// `SigningKey::sign_prehash_recoverable`, which draws its nonce from the key and
/// the digest alone (RFC 6979). Each half has 32 bytes; the recovery number is at
/// most three. What it says where no signature comes out is always the same.
#[verifier::external_body]
pub(crate) fn sign(key: &[u8; 32], digest: &[u8; 32]) -> (r: Result<
    ([u8; 32], [u8; 32], u8),
    String,
>)
    requires
        is_key(key@),
    ensures
        match signed(key@, digest@) {
            Some(s) => r matches Ok(t) && t.0@ == s.0 && t.1@ == s.1 && t.2 == s.2 && t.2 <= 3,
            None => r matches Err(e) && e@ == "signature error"@,
        },
{
    let sk = k256::ecdsa::SigningKey::from_bytes(key.into()).unwrap();
    match sk.sign_prehash_recoverable(digest) {
        Ok((sig, id)) => Ok((sig.r().to_bytes().into(), sig.s().to_bytes().into(), id.to_byte())),
        Err(e) => Err(e.to_string()),
    }
}

/// `hex::encode`: two lower-case digits a byte, in order.
#[verifier::external_body]
pub(crate) fn hex_encode(b: &[u8]) -> (r: String)
    ensures
        r@ == text::hex_of(b@),
{
    hex::encode(b)
}

/// The value of a hexadecimal digit of either case.
pub open spec fn hex_value(c: char) -> int {
    if '0' <= c <= '9' {
        c as int - 48
    } else if 'a' <= c <= 'f' {
        c as int - 87
    } else {
        c as int - 55
    }
}

/// Whether a text is an even number of hexadecimal digits.
pub open spec fn is_hex_text(s: Seq<char>) -> bool {
    &&& s.len() % 2 == 0
    &&& forall|i: int| 0 <= i < s.len() ==> text::is_hex(#[trigger] s[i])
}

/// The bytes that a hexadecimal text writes.
pub open spec fn unhex(s: Seq<char>) -> Seq<u8> {
    Seq::new(
        (s.len() / 2) as nat,
        |i: int| (hex_value(s[2 * i]) * 16 + hex_value(s[2 * i + 1])) as u8,
    )
}

/// Whether a byte is a hexadecimal digit of either case.
pub open spec fn is_hex_byte(b: u8) -> bool {
    48 <= b <= 57 || 65 <= b <= 70 || 97 <= b <= 102
}

/// The first byte from `i` on that is no hexadecimal digit.
pub open spec fn first_foreign(b: Seq<u8>, i: int) -> int
    decreases b.len() - i,
{
    if i < b.len() && is_hex_byte(b[i]) {
        first_foreign(b, i + 1)
    } else {
        i
    }
}

/// Why a text is no hexadecimal one: its length in bytes is odd, or a byte, named as a
/// character and by its place, is no digit.
pub open spec fn hex_refusal(s: Seq<char>) -> Seq<char> {
    let b = vstd::utf8::encode_utf8(s);
    let i = first_foreign(b, 0);
    if b.len() % 2 != 0 {
        "Odd number of digits"@
    } else {
        "Invalid character "@ + text::quoted_char(b[i] as char) + " at position "@ + text::dec(
            i as nat,
        )
    }
}

/// `hex::decode`: the bytes of an even number of digits of either case; anything
/// else is refused, and the refusal is given as its text, which names the first byte that is
/// no digit unless the length is odd.
#[verifier::external_body]
pub(crate) fn hex_decode(s: &str) -> (r: Result<Vec<u8>, String>)
    ensures
        r is Ok == is_hex_text(s@),
        r matches Ok(v) ==> v@ == unhex(s@),
        r matches Err(e) ==> e@ == hex_refusal(s@),
{
    match hex::decode(s) {
        Ok(v) => Ok(v),
        Err(e) => Err(e.to_string()),
    }
}

} // verus!
