//! Orders that were signed ahead of their need.

use vstd::prelude::*;
use crate::table::Table;
use crate::text;
use crate::units;
use crate::units::plus;

verus! {

/// An order as it is signed.
#[derive(Debug, PartialEq, Eq)]
pub struct Order {
    pub token_id: String,
    pub side: u8,
    pub maker_amount: u128,
    pub taker_amount: u128,
    pub salt: u128,
    pub timestamp: u64,
    pub neg_risk: bool,
    pub signature_type: u8,
    pub maker: String,
    pub signer: String,
}

/// What an order says.
#[verifier::ext_equal]
pub struct OrderView {
    pub token_id: Seq<char>,
    pub side: u8,
    pub maker_amount: u128,
    pub taker_amount: u128,
    pub salt: u128,
    pub timestamp: u64,
    pub neg_risk: bool,
    pub signature_type: u8,
    pub maker: Seq<char>,
    pub signer: Seq<char>,
}

impl View for Order {
    type V = OrderView;

    open spec fn view(&self) -> OrderView {
        OrderView {
            token_id: self.token_id@,
            side: self.side,
            maker_amount: self.maker_amount,
            taker_amount: self.taker_amount,
            salt: self.salt,
            timestamp: self.timestamp,
            neg_risk: self.neg_risk,
            signature_type: self.signature_type,
            maker: self.maker@,
            signer: self.signer@,
        }
    }
}

impl Order {
    /// Whether two orders agree in everything that is signed.
    pub fn same_order(&self, other: &Order) -> (r: bool)
        ensures
            r == (self@ == other@),
    {
        text::same(self.token_id.as_str(), other.token_id.as_str()) && self.side == other.side
            && self.maker_amount == other.maker_amount && self.taker_amount == other.taker_amount
            && self.salt == other.salt && self.timestamp == other.timestamp && self.neg_risk
            == other.neg_risk && self.signature_type == other.signature_type && text::same(
            self.maker.as_str(),
            other.maker.as_str(),
        ) && text::same(self.signer.as_str(), other.signer.as_str())
    }
}

/// An order with its signature.
#[derive(Debug)]
pub struct Presigned {
    pub order: Order,
    pub signature: String,
}

/// Signed orders, each under the token that it is for.
struct Kept {
    orders: Table<String, Presigned>,
}

/// Whether every order stands under the token that it is for.
pub open spec fn under_their_tokens(m: Map<Seq<char>, Presigned>) -> bool {
    forall|k: Seq<char>| #[trigger] m.contains_key(k) ==> m[k].order.token_id@ == k
}

impl Kept {
    #[verifier::type_invariant]
    spec fn inv(self) -> bool {
        under_their_tokens(self.orders@)
    }

    fn new() -> (r: Self)
        ensures
            r.orders@ == Map::<Seq<char>, Presigned>::empty(),
    {
        Kept { orders: Table::new() }
    }

    fn put(&mut self, p: Presigned)
        ensures
            final(self).orders@ == old(self).orders@.insert(p.order.token_id@, p),
            under_their_tokens(final(self).orders@),
    {
        proof {
            use_type_invariant(&*self);
        }
        let ghost start = self.orders@;
        let mut orders: Table<String, Presigned> = Table::new();
        std::mem::swap(&mut orders, &mut self.orders);
        let k = p.order.token_id.clone();
        orders.insert(k, p);
        assert forall|q: Seq<char>| #[trigger] orders@.contains_key(q) implies
            orders@[q].order.token_id@ == q by {
            assert(q == k@ || start.contains_key(q));
        }
        self.orders = orders;
    }

    fn remove(&mut self, k: &String) -> (r: Option<Presigned>)
        ensures
            final(self).orders@ == old(self).orders@.remove(k@),
            under_their_tokens(final(self).orders@),
            match r {
                Some(p) => old(self).orders@.contains_key(k@) && p == old(self).orders@[k@],
                None => !old(self).orders@.contains_key(k@),
            },
    {
        proof {
            use_type_invariant(&*self);
        }
        let ghost start = self.orders@;
        let mut orders: Table<String, Presigned> = Table::new();
        std::mem::swap(&mut orders, &mut self.orders);
        let r = orders.remove(k);
        assert forall|q: Seq<char>| #[trigger] orders@.contains_key(q) implies
            orders@[q].order.token_id@ == q by {
            assert(start.contains_key(q));
        }
        self.orders = orders;
        r
    }
}

/// The signed orders by token, at most one for each, and how often they served.
pub struct PresignCache {
    kept: Kept,
    pub hits: u64,
    pub misses: u64,
    pub rejected: u64,
}

/// What a cache says.
#[verifier::ext_equal]
pub struct CacheView {
    pub orders: Map<Seq<char>, Presigned>,
    pub hits: u64,
    pub misses: u64,
    pub rejected: u64,
}

impl View for PresignCache {
    type V = CacheView;

    closed spec fn view(&self) -> CacheView {
        CacheView {
            orders: self.kept.orders@,
            hits: self.hits,
            misses: self.misses,
            rejected: self.rejected,
        }
    }
}

impl CacheView {
    /// A cache with one more order.
    pub open spec fn stored(self, p: Presigned) -> CacheView {
        CacheView { orders: self.orders.insert(p.order.token_id@, p), ..self }
    }

    /// Whether an order that is exactly this one was signed.
    pub open spec fn holds(self, want: OrderView) -> bool {
        self.orders.contains_key(want.token_id) && self.orders[want.token_id].order@ == want
    }

    /// After an order was asked for: whatever was signed for its token is gone.
    pub open spec fn taken(self, want: OrderView) -> CacheView {
        if !self.orders.contains_key(want.token_id) {
            CacheView { misses: units::plus_capped(self.misses, 1), ..self }
        } else if self.holds(want) {
            CacheView {
                orders: self.orders.remove(want.token_id),
                hits: units::plus_capped(self.hits, 1),
                ..self
            }
        } else {
            CacheView {
                orders: self.orders.remove(want.token_id),
                rejected: units::plus_capped(self.rejected, 1),
                ..self
            }
        }
    }
}

impl PresignCache {
    /// An empty cache.
    pub fn new() -> (r: Self)
        ensures
            r@ == (CacheView { orders: Map::empty(), hits: 0, misses: 0, rejected: 0 }),
    {
        PresignCache { kept: Kept::new(), hits: 0, misses: 0, rejected: 0 }
    }

    /// Keeps a signed order, in place of any other for its token.
    pub fn put(&mut self, p: Presigned)
        ensures
            final(self)@ == (CacheView {
                orders: old(self)@.orders.insert(p.order.token_id@, p),
                ..old(self)@
            }),
            final(self)@ == old(self)@.stored(p),
            under_their_tokens(final(self)@.orders),
    {
        self.kept.put(p);
    }

    /// Drops what was signed for a token.
    pub fn forget(&mut self, token: &str)
        ensures
            final(self)@ == (CacheView {
                orders: old(self)@.orders.remove(token@),
                ..old(self)@
            }),
            under_their_tokens(final(self)@.orders),
    {
        let _ = self.kept.remove(&text::owned(token));
    }

    /// How many signed orders there are.
    pub fn len(&self) -> (r: usize)
        ensures
            r == self@.orders.dom().len(),
    {
        self.kept.orders.len()
    }

    /// Whether there is no signed order.
    pub fn is_empty(&self) -> (r: bool)
        ensures
            r == (self@.orders.dom().len() == 0),
    {
        self.kept.orders.len() == 0
    }

    /// The signature of exactly this order, once.
    pub fn take_if_exact(&mut self, want: &Order) -> (r: Option<String>)
        ensures
            final(self)@ == old(self)@.taken(want@),
            under_their_tokens(final(self)@.orders),
            r is Some == old(self)@.holds(want@),
            r matches Some(s) ==> s@ == old(self)@.orders[want@.token_id].signature@,
    {
        let ghost start = self@;
        match self.kept.remove(&want.token_id) {
            None => {
                self.misses = plus(self.misses, 1);
                assert(self.kept.orders@ =~= start.orders);
                assert(self@ =~= start.taken(want@));
                None
            },
            Some(p) => {
                if !p.order.same_order(want) {
                    self.rejected = plus(self.rejected, 1);
                    return None;
                }
                self.hits = plus(self.hits, 1);
                Some(p.signature)
            },
        }
    }
}

impl Default for PresignCache {
    fn default() -> (r: Self)
        ensures
            r@ == (CacheView { orders: Map::empty(), hits: 0, misses: 0, rejected: 0 }),
    {
        PresignCache::new()
    }
}

/// A signature never serves twice: once asked for, nothing is left for its token.
pub proof fn signature_serves_once(v: CacheView, want: OrderView, again: OrderView)
    requires
        want.token_id == again.token_id,
    ensures
        !v.taken(want).holds(again),
{
}

} // verus!
