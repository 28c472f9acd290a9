//! Credentials and signatures.

use copybot_hot::auth::{
    address_from_key, address_of_point, after_create, after_derive, b64url_decode, b64url_encode,
    clob_auth_digest, hmac_signature, l1_headers, l2_headers, parse_creds, request_line,
    sign_clob_auth, write_signature, ApiCreds,
};

const ADDRESS: &str = "0xf39fd6e51aad88f6f4ce6ab8827279cfffb92266";
const SECRET: &str = "AAAAAAAAAAAAAAAAAAAAAAAAAAAAAAAAAAAAAAAAAAA=";
const SIGNATURE: &str = "0x1a7118db6100dfd8efd102be36f472b59475dcac56eb4c9a2a94748d3655ba7c\
3c89deb8c19ee79eceb0a531122fbfbe88ed118034f9d8212e2b725e7b296b9d1c";

/// The first key of a well-known test wallet.
fn key() -> [u8; 32] {
    hex::decode("ac0974bec39a17e36ba4a6b4d238ff944bacb478cbed5efcae784d7bf4f2ff80")
        .unwrap()
        .try_into()
        .unwrap()
}

fn creds() -> ApiCreds {
    ApiCreds { key: "ab-cd-ef12".into(), secret: SECRET.into(), passphrase: "pass".into() }
}

#[test]
fn a_key_has_the_address_it_is_known_for() {
    let mut one = [0u8; 32];
    one[31] = 1;
    assert_eq!(address_from_key(&one).unwrap(), "0x7e5f4552091a69125d5dfcb7b8c2659029395bdf");
    assert_eq!(address_from_key(&key()).unwrap(), ADDRESS);
}

#[test]
fn zero_is_no_key() {
    assert_eq!(address_from_key(&[0u8; 32]), Err("bad key: signature error".to_string()));
    assert_eq!(
        sign_clob_auth(&[0u8; 32], ADDRESS, 1, 0),
        Err("bad key: signature error".to_string())
    );
}

#[test]
fn a_compressed_point_is_refused() {
    let refusal = Err("unexpected public key encoding".to_string());
    assert_eq!(address_of_point(&vec![2u8; 33]), refusal);
    assert_eq!(address_of_point(&vec![2u8; 65]), refusal);
}

#[test]
fn the_digest_covers_address_time_and_nonce() {
    let d = clob_auth_digest(ADDRESS, 10_000_000, 23).unwrap();
    assert_eq!(
        hex::encode(d),
        "577908bf2b712def8592d5078487f59ab9aa28b656e6fda011c8ac4333792037"
    );
    assert_ne!(clob_auth_digest(ADDRESS, 10_000_001, 23).unwrap(), d);
    assert_ne!(clob_auth_digest(ADDRESS, 10_000_000, 24).unwrap(), d);
}

#[test]
fn an_address_that_is_none_is_refused() {
    assert_eq!(
        clob_auth_digest("0x1234", 1, 0),
        Err("address must be 20 bytes, got 2".to_string())
    );
    assert_eq!(
        clob_auth_digest("0xzz", 1, 0),
        Err("address not hex: Invalid character 'z' at position 0".to_string())
    );
}

#[test]
fn a_signature_is_the_same_every_time() {
    assert_eq!(sign_clob_auth(&key(), ADDRESS, 10_000_000, 23).unwrap(), SIGNATURE);
    let h = l1_headers(&key(), ADDRESS, 10_000_000, 23).unwrap();
    assert_eq!(
        h,
        vec![
            ("POLY_ADDRESS", ADDRESS.to_string()),
            ("POLY_SIGNATURE", SIGNATURE.to_string()),
            ("POLY_TIMESTAMP", "10000000".to_string()),
            ("POLY_NONCE", "23".to_string()),
        ]
    );
}

#[test]
fn the_recovery_number_is_written_from_27_on() {
    let s = write_signature(&[0x11; 32], &[0x22; 32], 1);
    assert_eq!(s, format!("0x{}{}1c", "11".repeat(32), "22".repeat(32)));
}

#[test]
fn a_request_is_tagged_with_the_secret() {
    assert_eq!(
        hmac_signature(SECRET, 1_000_000, "test-sign", "/orders", Some("{'hash': '0x123'}")),
        Ok("ZwAdJKvoYRlEKDkNMwd5BuwNNtg93kNaR_oU2HrfVvc=".to_string())
    );
    assert_eq!(
        hmac_signature(SECRET, 7, "GET", "/a?b=1", None),
        Ok("-6CMyFe3sDdo8x7ET13XJgJRjDwl1v1o2jWYU6BUQ4U=".to_string())
    );
    let h = l2_headers(ADDRESS, &creds(), 7, "GET", "/a", Some("")).unwrap();
    assert_eq!(
        h,
        vec![
            ("POLY_ADDRESS", ADDRESS.to_string()),
            ("POLY_SIGNATURE", "-6CMyFe3sDdo8x7ET13XJgJRjDwl1v1o2jWYU6BUQ4U=".to_string()),
            ("POLY_TIMESTAMP", "7".to_string()),
            ("POLY_API_KEY", "ab-cd-ef12".to_string()),
            ("POLY_PASSPHRASE", "pass".to_string()),
        ]
    );
}

#[test]
fn a_request_line_has_no_query_and_no_single_quotes() {
    assert_eq!(request_line(7, "POST", "/a?b=1", Some("{'x':1}")), "7POST/a{\"x\":1}");
    assert_eq!(request_line(7, "GET", "/a", None), "7GET/a");
}

#[test]
fn a_secret_that_is_no_base64_is_refused() {
    assert_eq!(
        hmac_signature("a b", 1, "GET", "/", None),
        Err("bad base64 char ' '".to_string())
    );
    assert_eq!(b64url_decode("a\t"), Err("bad base64 char '\\t'".to_string()));
}

#[test]
fn base64_is_written_and_read_back() {
    assert_eq!(b64url_encode(b""), "");
    assert_eq!(b64url_encode(b"f"), "Zg==");
    assert_eq!(b64url_encode(b"fo"), "Zm8=");
    assert_eq!(b64url_encode(b"foo"), "Zm9v");
    assert_eq!(b64url_encode(&[0xfb, 0xff]), "-_8=");
    for n in 0..40u8 {
        let v: Vec<u8> = (0..n).map(|i| i.wrapping_mul(89)).collect();
        assert_eq!(b64url_decode(&b64url_encode(&v)).unwrap(), v);
    }
    assert_eq!(b64url_decode("+/8=\r\n").unwrap(), vec![0xfb, 0xff]);
}

#[test]
fn credentials_are_read_or_the_answer_is_quoted() {
    let body = r#"{"apiKey":"k","secret":"s","passphrase":"p"}"#;
    let want = ApiCreds { key: "k".into(), secret: "s".into(), passphrase: "p".into() };
    assert_eq!(parse_creds(body).as_ref(), Ok(&want));
    assert_eq!(
        parse_creds(r#"{"apiKey":"k"}"#),
        Err(r#"creds missing fields: {"apiKey":"k"}"#.to_string())
    );
    assert!(parse_creds("nope").unwrap_err().starts_with("creds not json: "));
    assert_eq!(after_derive(true, body).as_ref(), Some(&want));
    assert_eq!(after_derive(false, body), None);
    assert_eq!(after_derive(true, "{}"), None);
    assert_eq!(after_create(true, "200 OK", body, "404 Not Found", "none").as_ref(), Ok(&want));
    let e = after_create(false, "400 Bad Request", "bad", "404 Not Found", "none").unwrap_err();
    assert!(e.contains("400") && e.contains("bad") && e.contains("404"), "{e}");
}

#[test]
fn credentials_are_shown_without_their_secrets() {
    let s = creds().redacted();
    assert!(s.contains("ef12") && !s.contains("AAAA") && !s.contains("pass="), "{s}");
}

#[test]
fn any_spelling_of_base64_reads_back() {
    let d = [0xfbu8, 0xff, 0x00, 0x7f];
    let e = b64url_encode(&d);
    assert_eq!(e, "-_8Afw==");
    for s in ["-_8Afw", "+/8Afw==", "-_8A\r\nfw==", "\n+_8A\nfw"] {
        assert_eq!(b64url_decode(s).unwrap(), d, "{s:?}");
    }
    assert!(b64url_decode("-_8A fw==").is_err());
}
