//! What is signed and tagged.

use vstd::prelude::*;
use crate::auth;
use crate::digests;
use crate::text;

verus! {

/// What is tagged of a request is its time, its method, its path without what is asked behind
/// it, and its body, one behind the other: it begins with the time and the method, and ends
/// with the body. A body that is empty is none.
pub proof fn a_request_is_tagged_whole(
    timestamp: nat,
    method: Seq<char>,
    path: Seq<char>,
    body: Seq<char>,
)
    requires
        body.len() > 0,
        forall|i: int| 0 <= i < body.len() ==> #[trigger] body[i] != '\'',
        forall|i: int| 0 <= i < path.len() ==> #[trigger] path[i] != '?',
    ensures
        ({
            let s = auth::request_text(timestamp as int, method, path, Some(body));
            let t = text::dec(timestamp);
            &&& s == t + method + path + body
            &&& auth::request_text(timestamp as int, method, path, None) == t + method + path
            &&& auth::request_text(timestamp as int, method, path, Some(Seq::empty()))
                == auth::request_text(timestamp as int, method, path, None)
        }),
{
    crate::laws::text::cut_is_a_start(path, '?');
    let cut = text::up_to(path, '?');
    if cut.len() < path.len() {
        assert(path[cut.len() as int] == '?');
    }
    assert(path.take(path.len() as int) =~= path);
    assert(text::swapped(body, '\'', '"') =~= body);
}

/// What is asked behind a path is not tagged.
pub proof fn what_is_asked_is_not_tagged(
    timestamp: int,
    method: Seq<char>,
    path: Seq<char>,
    asked: Seq<char>,
    body: Option<Seq<char>>,
)
    ensures
        auth::request_text(timestamp, method, path + seq!['?'] + asked, body)
            == auth::request_text(timestamp, method, path, body),
{
    cut_before(path, asked);
}

proof fn cut_before(path: Seq<char>, asked: Seq<char>)
    ensures
        text::up_to(path + seq!['?'] + asked, '?') == text::up_to(path, '?'),
    decreases path.len(),
{
    let all = path + seq!['?'] + asked;
    if path.len() == 0 {
        assert(all[0] == '?');
    } else {
        assert(all[0] == path[0]);
        if path[0] != '?' {
            assert(all.skip(1) =~= path.skip(1) + seq!['?'] + asked);
            cut_before(path.skip(1), asked);
        }
    }
}

/// A tag depends on the secret's bytes, not on how they are written, and there is none for a
/// secret that cannot be read.
pub proof fn a_tag_is_of_the_secrets_bytes(
    a: Seq<char>,
    b: Seq<char>,
    timestamp: int,
    method: Seq<char>,
    path: Seq<char>,
    body: Option<Seq<char>>,
)
    requires
        auth::decoded(a) == auth::decoded(b),
    ensures
        auth::request_tag(a, timestamp, method, path, body) == auth::request_tag(
            b,
            timestamp,
            method,
            path,
            body,
        ),
        auth::request_tag(a, timestamp, method, path, body) is Err <==> auth::decoded(a) is Err,
        auth::request_tag(a, timestamp, method, path, body) matches Ok(s) ==> auth::decoded(s)
            == Ok::<Seq<u8>, Seq<char>>(
            digests::hmac256(
                auth::decoded(a)->Ok_0,
                vstd::utf8::encode_utf8(auth::request_text(timestamp, method, path, body)),
            ),
        ),
{
    if auth::decoded(a) is Ok {
        auth::base64_reads_back(
            digests::hmac256(
                auth::decoded(a)->Ok_0,
                vstd::utf8::encode_utf8(auth::request_text(timestamp, method, path, body)),
            ),
        );
    }
}

/// A signature is written as its two halves and its recovery number, twenty-seven over, in two
/// digits a byte behind the mark of a number.
pub proof fn a_signature_is_written_whole(r: Seq<u8>, s: Seq<u8>, id: u8)
    requires
        r.len() == 32,
        s.len() == 32,
        id <= 3,
    ensures
        ({
            let t = auth::wire_signature((r, s, id));
            &&& t.len() == 132
            &&& t.take(2) == "0x"@
            &&& t.skip(2) == text::hex_of((r + s).push((27 + id) as u8))
        }),
{
    reveal_strlit("0x");
    let b = r + s + seq![(id + 27) as u8];
    assert(b =~= (r + s).push((27 + id) as u8));
    crate::laws::text::hex_writes_two_digits_a_byte(b);
    let t = auth::wire_signature((r, s, id));
    assert(t.take(2) =~= "0x"@);
    assert(t.skip(2) =~= text::hex_of(b));
}

/// A login is signed of its address: the mark of a number before it makes no other, and one
/// that is not twenty bytes is refused.
pub proof fn a_login_is_of_its_address(address: Seq<char>, timestamp: int, nonce: int)
    ensures
        auth::login("0x"@ + address, timestamp, nonce) == auth::login(address, timestamp, nonce),
        auth::login(address, timestamp, nonce) is Ok <==> digests::is_hex_text(
            text::bare(address),
        ) && text::bare(address).len() == 40,
{
    reveal_strlit("0x");
    assert(("0x"@ + address).skip(2) =~= address);
}

/// The address of a point is the last twenty bytes of the hash of its coordinates.
pub proof fn an_address_is_the_end_of_a_hash(p: Seq<u8>)
    ensures
        auth::point_address(p) is Ok <==> p.len() == 65 && p[0] == 4,
        p.len() == 65 && p[0] == 4 ==> auth::point_address(p) == Ok::<Seq<char>, Seq<char>>(
            "0x"@ + text::hex_of(digests::keccak256(p.subrange(1, 65)).skip(12)),
        ),
{
    if p.len() == 65 {
        assert(p.skip(1) =~= p.subrange(1, 65));
    }
}

/// Hexadecimal text reads back as the bytes that it was written of.
pub proof fn hex_reads_back(b: Seq<u8>)
    ensures
        digests::is_hex_text(text::hex_of(b)),
        digests::unhex(text::hex_of(b)) == b,
{
    crate::laws::text::hex_writes_two_digits_a_byte(b);
    let h = text::hex_of(b);
    assert forall|i: int| 0 <= i < h.len() implies text::is_hex(#[trigger] h[i]) by {
        assert(0 <= crate::laws::text::hex_value(h[i]) < 16);
    }
    assert forall|i: int| 0 <= i < b.len() implies digests::unhex(h)[i] == b[i] by {
        assert(crate::laws::text::hex_value(h[2 * i]) * 16 + crate::laws::text::hex_value(
            h[2 * i + 1],
        ) == b[i]);
        assert(0 <= crate::laws::text::hex_value(h[2 * i]) < 16);
        assert(0 <= crate::laws::text::hex_value(h[2 * i + 1]) < 16);
    }
    assert(digests::unhex(h) =~= b);
}

} // verus!
