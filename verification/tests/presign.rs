//! Orders signed ahead of time.

use copybot_hot::presign::{Order, PresignCache, Presigned};

fn order(token: &str, salt: u128) -> Order {
    Order {
        token_id: token.into(),
        side: 0,
        maker_amount: 4_000_000,
        taker_amount: 10_000_000,
        salt,
        timestamp: 7,
        neg_risk: false,
        signature_type: 2,
        maker: "0xm".into(),
        signer: "0xs".into(),
    }
}

#[test]
fn a_signature_serves_one_order_and_only_that_one() {
    let mut c = PresignCache::new();
    assert!(c.is_empty());
    assert_eq!(c.take_if_exact(&order("T", 1)), None);
    c.put(Presigned { order: order("T", 1), signature: "0xsig".into() });
    assert_eq!(c.len(), 1);
    let other = Order { maker_amount: 4_000_001, ..order("T", 1) };
    assert_eq!(c.take_if_exact(&other), None);
    assert_eq!((c.hits, c.misses, c.rejected), (0, 1, 1));
}

#[test]
fn an_exact_order_takes_the_signature_away() {
    let mut c = PresignCache::new();
    c.put(Presigned { order: order("T", 1), signature: "0xsig".into() });
    assert_eq!(c.take_if_exact(&order("T", 1)).as_deref(), Some("0xsig"));
    assert_eq!(c.take_if_exact(&order("T", 1)), None);
    assert_eq!((c.hits, c.misses), (1, 1));
    c.put(Presigned { order: order("U", 1), signature: "0xsig".into() });
    c.forget("U");
    assert!(c.is_empty());
}
