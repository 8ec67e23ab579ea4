//! The auction registry: the one owner of all auction records and indexes,
//! driving each auction through creation, bidding, and the three claim paths.
//!
//! Every operation takes what the hosting environment knows — the calling
//! identity, the attached amount, the clock — as plain arguments, decides,
//! mutates the registry, and returns the payment or custody instruction the
//! host must carry out.  A refused operation returns its error and leaves the
//! registry exactly as it was.

use vstd::prelude::*;

use crate::auction::{
    auction_at, bid_outcome, bid_updated, claim_back_nft_outcome, claim_near_outcome,
    claim_nft_outcome, create_auction_check, has_auction, new_auction, refund_fits,
    with_near_claimed, with_nft_claimed, Auction, MarketError, Payment, TokenMove,
    CREATE_AUCTION_FEE, ENROLL_FEE,
};

verus! {

/// A seller together with the auction identifiers they created, in creation
/// order.
#[derive(Debug)]
pub struct OwnerAuctions {
    pub owner: u64,
    pub auction_ids: Vec<u128>,
}

/// The stateful marketplace service.  `auction_by_id` is the authoritative
/// store: the auction with identifier `i` sits at position `i`.
/// `auctions_by_owner` is a discovery index, `auctioned_tokens` the set of
/// tokens currently in escrow.
#[derive(Debug)]
pub struct MarketPlace {
    /// Account that constructed the marketplace.
    pub owner: u64,
    /// Monotonic counter: the identifier the next auction will get.
    pub total_auctions: u128,
    /// All auctions ever created, never removed; position equals identifier.
    pub auction_by_id: Vec<Auction>,
    /// Seller identity to the auction identifiers they created.
    pub auctions_by_owner: Vec<OwnerAuctions>,
    /// Tokens currently in escrow: each appears at most once.
    pub auctioned_tokens: Vec<u64>,
}

/// No token appears twice in the escrow sequence.
pub open spec fn distinct_tokens(s: Seq<u64>) -> bool {
    forall|i: int, j: int| 0 <= i < j < s.len() ==> s[i] != s[j]
}

/// The auction identifiers recorded for `owner`: the sequence held by the
/// first entry for that owner, or empty if there is none.
pub open spec fn owner_ids(entries: Seq<OwnerAuctions>, owner: u64) -> Seq<u128>
    decreases entries.len(),
{
    if entries.len() == 0 {
        Seq::empty()
    } else if entries[0].owner == owner {
        entries[0].auction_ids@
    } else {
        owner_ids(entries.drop_first(), owner)
    }
}

/// One discovery entry is sound against the store: every identifier it lists
/// names an auction this owner created, and the list is strictly increasing,
/// which is creation order.
pub open spec fn entry_ok(e: OwnerAuctions, auctions: Seq<Auction>) -> bool {
    &&& forall|k: int|
        0 <= k < e.auction_ids@.len() ==> (#[trigger] e.auction_ids@[k]) < auctions.len()
            && auctions[e.auction_ids@[k] as int].owner == e.owner
    &&& forall|k1: int, k2: int|
        0 <= k1 < k2 < e.auction_ids@.len() ==> e.auction_ids@[k1] < e.auction_ids@[k2]
}

impl MarketPlace {
    /// Identifiers are dense: the counter counts the store, and each record
    /// carries its own position as its identifier.
    pub open spec fn ids_well_formed(self) -> bool {
        &&& self.auction_by_id@.len() == self.total_auctions as int
        &&& forall|i: int|
            0 <= i < self.auction_by_id@.len() ==> (#[trigger] self.auction_by_id@[i]).auction_id
                == i as u128
    }

    /// The standing price never falls below the asking price.
    pub open spec fn prices_well_formed(self) -> bool {
        forall|i: int|
            0 <= i < self.auction_by_id@.len() ==> (#[trigger] self.auction_by_id@[i]).current_price
                >= self.auction_by_id@[i].start_price
    }

    /// The escrow set and the store agree: a token is escrowed exactly while
    /// some auction still holds it, no token is escrowed twice, and no two
    /// undisbursed auctions hold the same token.
    pub open spec fn escrow_well_formed(self) -> bool {
        &&& distinct_tokens(self.auctioned_tokens@)
        &&& forall|i: int|
            0 <= i < self.auction_by_id@.len() && !(#[trigger] self.auction_by_id@[i]).is_nft_claimed
                ==> self.auctioned_tokens@.contains(self.auction_by_id@[i].auction_token)
        &&& forall|t: u64|
            #[trigger] self.auctioned_tokens@.contains(t) ==> exists|i: int|
                0 <= i < self.auction_by_id@.len() && (#[trigger] self.auction_by_id@[i]).auction_token
                    == t && !self.auction_by_id@[i].is_nft_claimed
        &&& forall|i: int, j: int|
            0 <= i < self.auction_by_id@.len() && 0 <= j < self.auction_by_id@.len() && i != j
                && !(#[trigger] self.auction_by_id@[i]).is_nft_claimed
                && !(#[trigger] self.auction_by_id@[j]).is_nft_claimed
                ==> self.auction_by_id@[i].auction_token != self.auction_by_id@[j].auction_token
    }

    /// The discovery index is sound: owners appear once, and each entry is
    /// sound against the store.
    pub open spec fn owners_well_formed(self) -> bool {
        &&& forall|i: int, j: int|
            0 <= i < j < self.auctions_by_owner@.len() ==> (
            #[trigger] self.auctions_by_owner@[i]).owner != (
            #[trigger] self.auctions_by_owner@[j]).owner
        &&& forall|i: int|
            0 <= i < self.auctions_by_owner@.len() ==> entry_ok(
                #[trigger] self.auctions_by_owner@[i],
                self.auction_by_id@,
            )
    }

    /// Everything constructors establish and every operation preserves.
    pub open spec fn wf(self) -> bool {
        &&& self.ids_well_formed()
        &&& self.prices_well_formed()
        &&& self.escrow_well_formed()
        &&& self.owners_well_formed()
    }

    /// A fresh marketplace: no auctions, no escrow, counter at zero.
    pub fn new(owner: u64) -> (m: MarketPlace)
        ensures
            m.wf(),
            m.owner == owner,
            m.total_auctions == 0,
            m.auction_by_id@.len() == 0,
            m.auctions_by_owner@.len() == 0,
            m.auctioned_tokens@.len() == 0,
    {
        MarketPlace {
            owner,
            total_auctions: 0,
            auction_by_id: Vec::new(),
            auctions_by_owner: Vec::new(),
            auctioned_tokens: Vec::new(),
        }
    }

    /// Read-only lookup of an auction snapshot.
    pub fn get_auction(&self, auction_id: u128) -> (r: Result<Auction, MarketError>)
        ensures
            r == (if has_auction(self.auction_by_id@, auction_id) {
                Ok::<Auction, MarketError>(auction_at(self.auction_by_id@, auction_id))
            } else {
                Err::<Auction, MarketError>(MarketError::AuctionNotFound)
            }),
    {
        let n = self.auction_by_id.len();
        if auction_id < n as u128 {
            Ok(self.auction_by_id[auction_id as usize])
        } else {
            Err(MarketError::AuctionNotFound)
        }
    }

    /// Whether `token` is currently escrowed.
    pub fn is_token_auctioned(&self, token: u64) -> (b: bool)
        ensures
            b == self.auctioned_tokens@.contains(token),
    {
        let n = self.auctioned_tokens.len();
        let mut k: usize = 0;
        while k < n
            invariant
                k <= n,
                n == self.auctioned_tokens@.len(),
                forall|m: int| 0 <= m < k ==> self.auctioned_tokens@[m] != token,
            decreases n - k,
        {
            if self.auctioned_tokens[k] == token {
                return true;
            }
            k += 1;
        }
        false
    }

    /// Take `token` out of the escrow set; membership of every other token is
    /// untouched.
    fn remove_token(&mut self, token: u64)
        requires
            distinct_tokens(old(self).auctioned_tokens@),
            old(self).auctioned_tokens@.contains(token),
        ensures
            final(self).auctioned_tokens@.len() + 1 == old(self).auctioned_tokens@.len(),
            !final(self).auctioned_tokens@.contains(token),
            forall|u: u64|
                u != token ==> final(self).auctioned_tokens@.contains(u) == old(
                    self,
                ).auctioned_tokens@.contains(u),
            distinct_tokens(final(self).auctioned_tokens@),
            final(self).auction_by_id == old(self).auction_by_id,
            final(self).auctions_by_owner == old(self).auctions_by_owner,
            final(self).owner == old(self).owner,
            final(self).total_auctions == old(self).total_auctions,
    {
        let ghost s = self.auctioned_tokens@;
        let n = self.auctioned_tokens.len();
        let mut k: usize = 0;
        while k < n
            invariant
                k <= n,
                n == self.auctioned_tokens@.len(),
                self.auctioned_tokens@ == s,
                s == old(self).auctioned_tokens@,
                distinct_tokens(s),
                s.contains(token),
                forall|m: int| 0 <= m < k ==> s[m] != token,
                self.auction_by_id == old(self).auction_by_id,
                self.auctions_by_owner == old(self).auctions_by_owner,
                self.owner == old(self).owner,
                self.total_auctions == old(self).total_auctions,
            decreases n - k,
        {
            if self.auctioned_tokens[k] == token {
                proof {
                    assert(s[k as int] == token);
                }
                self.auctioned_tokens.remove(k);
                proof {
                    let kk = k as int;
                    s.remove_ensures(kk);
                    let r = self.auctioned_tokens@;
                    assert(r == s.remove(kk));
                    assert forall|u: u64| u != token implies r.contains(u) == s.contains(u) by {
                        if s.contains(u) {
                            let m = choose|m: int| 0 <= m < s.len() && s[m] == u;
                            if m < kk {
                                assert(r[m] == u);
                            } else {
                                assert(m > kk);
                                assert(r[m - 1] == u);
                            }
                        }
                        if r.contains(u) {
                            let m = choose|m: int| 0 <= m < r.len() && r[m] == u;
                            if m < kk {
                                assert(s[m] == u);
                            } else {
                                assert(s[m + 1] == u);
                            }
                        }
                    }
                    assert forall|m: int| 0 <= m < r.len() implies r[m] != token by {
                        if m < kk {
                            assert(r[m] == s[m]);
                            assert(s[m] != token);
                        } else {
                            assert(r[m] == s[m + 1]);
                            assert(kk < m + 1 < s.len());
                            if s[m + 1] == token {
                                assert(s[kk] == s[m + 1]);
                                assert(s[kk] != s[m + 1]);
                            }
                        }
                    }
                    assert(!r.contains(token));
                    assert forall|i: int, j: int| 0 <= i < j < r.len() implies r[i] != r[j] by {
                        let si: int = if i < kk {
                            i
                        } else {
                            i + 1
                        };
                        let sj: int = if j < kk {
                            j
                        } else {
                            j + 1
                        };
                        assert(0 <= si < sj < s.len());
                        assert(r[i] == s[si]);
                        assert(r[j] == s[sj]);
                        assert(s[si] != s[sj]);
                    }
                }
                return ;
            }
            k += 1;
        }
        proof {
            let m = choose|m: int| 0 <= m < s.len() && s[m] == token;
            assert(s[m] != token);
        }
    }

    /// Place a bid: the attached deposit must strictly beat the standing
    /// price, strictly inside the bidding window.  On success the deposit
    /// becomes the new price, the caller the bidder to beat, and the refund
    /// owed to the previous bidder — their bid less the enrollment fee, which
    /// the marketplace keeps — is returned for the host to pay out.
    pub fn bid(&mut self, auction_id: u128, caller: u64, deposit: u128, now: u64) -> (r: Result<
        Option<Payment>,
        MarketError,
    >)
        requires
            old(self).wf(),
            refund_fits(old(self).auction_by_id@, auction_id, deposit, now),
        ensures
            final(self).wf(),
            r == bid_outcome(old(self).auction_by_id@, auction_id, caller, deposit, now),
            r is Err ==> *final(self) == *old(self),
            r is Ok ==> final(self).auction_by_id@ == old(self).auction_by_id@.update(
                auction_id as int,
                bid_updated(auction_at(old(self).auction_by_id@, auction_id), caller, deposit),
            ),
            r is Ok ==> auction_at(final(self).auction_by_id@, auction_id).current_price
                > auction_at(old(self).auction_by_id@, auction_id).current_price,
            final(self).owner == old(self).owner,
            final(self).total_auctions == old(self).total_auctions,
            final(self).auctions_by_owner == old(self).auctions_by_owner,
            final(self).auctioned_tokens == old(self).auctioned_tokens,
    {
        let n = self.auction_by_id.len();
        if !(auction_id < n as u128) {
            return Err(MarketError::AuctionNotFound);
        }
        let i = auction_id as usize;
        let a = self.auction_by_id[i];
        if now <= a.start_time {
            return Err(MarketError::AuctionNotStarted);
        }
        if now >= a.end_time {
            return Err(MarketError::AuctionEnded);
        }
        if deposit <= a.current_price {
            return Err(MarketError::BidTooLow);
        }
        let refund = match a.winner {
            Some(w) => Some(Payment { to: w, amount: a.current_price - ENROLL_FEE }),
            None => None,
        };
        let updated = Auction { current_price: deposit, winner: Some(caller), ..a };
        self.auction_by_id[i] = updated;
        proof {
            lemma_records_after_update(*old(self), *self, i as int, updated);
            lemma_escrow_after_update(*old(self), *self, i as int, updated);
        }
        Ok(refund)
    }

    /// Pay the proceeds — the full standing price — out to the seller,
    /// exactly once, strictly after the end of the auction.
    pub fn claim_near(&mut self, auction_id: u128, caller: u64, now: u64) -> (r: Result<
        Payment,
        MarketError,
    >)
        requires
            old(self).wf(),
        ensures
            final(self).wf(),
            r == claim_near_outcome(old(self).auction_by_id@, auction_id, caller, now),
            r is Err ==> *final(self) == *old(self),
            r is Ok ==> final(self).auction_by_id@ == old(self).auction_by_id@.update(
                auction_id as int,
                with_near_claimed(auction_at(old(self).auction_by_id@, auction_id)),
            ),
            final(self).owner == old(self).owner,
            final(self).total_auctions == old(self).total_auctions,
            final(self).auctions_by_owner == old(self).auctions_by_owner,
            final(self).auctioned_tokens == old(self).auctioned_tokens,
    {
        let n = self.auction_by_id.len();
        if !(auction_id < n as u128) {
            return Err(MarketError::AuctionNotFound);
        }
        let i = auction_id as usize;
        let a = self.auction_by_id[i];
        if caller != a.owner {
            return Err(MarketError::NotOwner);
        }
        if now <= a.end_time {
            return Err(MarketError::AuctionNotEnded);
        }
        if a.is_near_claimed {
            return Err(MarketError::AlreadyClaimed);
        }
        let updated = Auction { is_near_claimed: true, ..a };
        self.auction_by_id[i] = updated;
        proof {
            lemma_records_after_update(*old(self), *self, i as int, updated);
            lemma_escrow_after_update(*old(self), *self, i as int, updated);
        }
        Ok(Payment { to: a.owner, amount: a.current_price })
    }

    /// Hand the escrowed token over to the winner, exactly once, strictly
    /// after the end of the auction.  The returned instruction moves the
    /// token out of marketplace custody.
    pub fn claim_nft(&mut self, auction_id: u128, caller: u64, now: u64) -> (r: Result<
        TokenMove,
        MarketError,
    >)
        requires
            old(self).wf(),
        ensures
            final(self).wf(),
            r == claim_nft_outcome(old(self).auction_by_id@, auction_id, caller, now),
            r is Err ==> *final(self) == *old(self),
            r is Ok ==> final(self).auction_by_id@ == old(self).auction_by_id@.update(
                auction_id as int,
                with_nft_claimed(auction_at(old(self).auction_by_id@, auction_id)),
            ),
            r is Ok ==> !final(self).auctioned_tokens@.contains(
                auction_at(old(self).auction_by_id@, auction_id).auction_token,
            ),
            r is Ok ==> forall|u: u64|
                u != auction_at(old(self).auction_by_id@, auction_id).auction_token ==> final(self).auctioned_tokens@.contains(u) == old(self).auctioned_tokens@.contains(u),
            final(self).owner == old(self).owner,
            final(self).total_auctions == old(self).total_auctions,
            final(self).auctions_by_owner == old(self).auctions_by_owner,
    {
        let n = self.auction_by_id.len();
        if !(auction_id < n as u128) {
            return Err(MarketError::AuctionNotFound);
        }
        let i = auction_id as usize;
        let a = self.auction_by_id[i];
        if now <= a.end_time {
            return Err(MarketError::AuctionNotEnded);
        }
        let is_winner = match a.winner {
            Some(w) => w == caller,
            None => false,
        };
        if !is_winner {
            return Err(MarketError::NotWinner);
        }
        if a.is_nft_claimed {
            return Err(MarketError::AlreadyClaimed);
        }
        let updated = Auction { is_nft_claimed: true, ..a };
        self.auction_by_id[i] = updated;
        self.remove_token(a.auction_token);
        proof {
            lemma_records_after_update(*old(self), *self, i as int, updated);
            lemma_escrow_after_token_claim(*old(self), *self, i as int);
        }
        Ok(TokenMove { token: a.auction_token, to: caller })
    }

    /// Return the token to the seller when no bid was ever placed, exactly
    /// once, strictly after the end of the auction.
    pub fn claim_back_nft(&mut self, auction_id: u128, caller: u64, now: u64) -> (r: Result<
        TokenMove,
        MarketError,
    >)
        requires
            old(self).wf(),
        ensures
            final(self).wf(),
            r == claim_back_nft_outcome(old(self).auction_by_id@, auction_id, caller, now),
            r is Err ==> *final(self) == *old(self),
            r is Ok ==> final(self).auction_by_id@ == old(self).auction_by_id@.update(
                auction_id as int,
                with_nft_claimed(auction_at(old(self).auction_by_id@, auction_id)),
            ),
            r is Ok ==> !final(self).auctioned_tokens@.contains(
                auction_at(old(self).auction_by_id@, auction_id).auction_token,
            ),
            r is Ok ==> forall|u: u64|
                u != auction_at(old(self).auction_by_id@, auction_id).auction_token ==> final(self).auctioned_tokens@.contains(u) == old(self).auctioned_tokens@.contains(u),
            final(self).owner == old(self).owner,
            final(self).total_auctions == old(self).total_auctions,
            final(self).auctions_by_owner == old(self).auctions_by_owner,
    {
        let n = self.auction_by_id.len();
        if !(auction_id < n as u128) {
            return Err(MarketError::AuctionNotFound);
        }
        let i = auction_id as usize;
        let a = self.auction_by_id[i];
        if caller != a.owner {
            return Err(MarketError::NotOwner);
        }
        if now <= a.end_time {
            return Err(MarketError::AuctionNotEnded);
        }
        let has_bidder = match a.winner {
            Some(_) => true,
            None => false,
        };
        if has_bidder {
            return Err(MarketError::NoBidder);
        }
        if a.is_nft_claimed {
            return Err(MarketError::AlreadyClaimed);
        }
        let updated = Auction { is_nft_claimed: true, ..a };
        self.auction_by_id[i] = updated;
        self.remove_token(a.auction_token);
        proof {
            lemma_records_after_update(*old(self), *self, i as int, updated);
            lemma_escrow_after_token_claim(*old(self), *self, i as int);
        }
        Ok(TokenMove { token: a.auction_token, to: a.owner })
    }

    /// Position of the discovery entry for `owner`, if there is one.
    fn find_owner_entry(&self, owner: u64) -> (r: Option<usize>)
        ensures
            match r {
                Some(j) => j < self.auctions_by_owner@.len()
                    && self.auctions_by_owner@[j as int].owner == owner && forall|m: int|
                    0 <= m < j ==> (#[trigger] self.auctions_by_owner@[m]).owner != owner,
                None => forall|m: int|
                    0 <= m < self.auctions_by_owner@.len() ==> (
                    #[trigger] self.auctions_by_owner@[m]).owner != owner,
            },
    {
        let n = self.auctions_by_owner.len();
        let mut k: usize = 0;
        while k < n
            invariant
                k <= n,
                n == self.auctions_by_owner@.len(),
                forall|m: int| 0 <= m < k ==> (#[trigger] self.auctions_by_owner@[m]).owner != owner,
            decreases n - k,
        {
            if self.auctions_by_owner[k].owner == owner {
                return Some(k);
            }
            k += 1;
        }
        None
    }

    /// The auction identifiers `owner` created, in creation order.
    pub fn get_auctions_by_owner(&self, owner: u64) -> (ids: Vec<u128>)
        ensures
            ids@ == owner_ids(self.auctions_by_owner@, owner),
    {
        match self.find_owner_entry(owner) {
            Some(j) => {
                proof {
                    lemma_owner_ids_found(self.auctions_by_owner@, j as int);
                }
                let e = &self.auctions_by_owner[j];
                let n = e.auction_ids.len();
                let mut out: Vec<u128> = Vec::new();
                let mut k: usize = 0;
                while k < n
                    invariant
                        k <= n,
                        n == e.auction_ids@.len(),
                        out@ == e.auction_ids@.subrange(0, k as int),
                    decreases n - k,
                {
                    out.push(e.auction_ids[k]);
                    proof {
                        assert(out@ =~= e.auction_ids@.subrange(0, k as int + 1));
                    }
                    k += 1;
                }
                proof {
                    assert(out@ =~= e.auction_ids@);
                }
                out
            },
            None => {
                proof {
                    lemma_owner_ids_absent(self.auctions_by_owner@, owner);
                }
                Vec::new()
            },
        }
    }

    /// Open an auction: escrow `auction_token`, allocate the next identifier,
    /// record the auction, and index it for its seller.  The caller must be
    /// the token's owner of record (`token_owner` is what the custodian
    /// answered), the token must not already be escrowed, and the exact
    /// creation fee must be attached.  On success the host owes the custody
    /// transfer of `auction_token` from the caller into marketplace escrow.
    pub fn create_auction(
        &mut self,
        caller: u64,
        deposit: u128,
        token_owner: u64,
        auction_token: u64,
        start_price: u128,
        start_time: u64,
        end_time: u64,
    ) -> (r: Result<Auction, MarketError>)
        requires
            old(self).wf(),
        ensures
            final(self).wf(),
            r == (match create_auction_check(
                caller,
                deposit,
                token_owner,
                old(self).auctioned_tokens@.contains(auction_token),
            ) {
                Some(e) => Err::<Auction, MarketError>(e),
                None => Ok::<Auction, MarketError>(
                    new_auction(
                        caller,
                        old(self).total_auctions,
                        auction_token,
                        start_price,
                        start_time,
                        end_time,
                    ),
                ),
            }),
            r is Err ==> *final(self) == *old(self),
            r is Ok ==> final(self).total_auctions == old(self).total_auctions + 1,
            r is Ok ==> final(self).auction_by_id@ == old(self).auction_by_id@.push(
                new_auction(
                    caller,
                    old(self).total_auctions,
                    auction_token,
                    start_price,
                    start_time,
                    end_time,
                ),
            ),
            r is Ok ==> final(self).auctioned_tokens@ == old(self).auctioned_tokens@.push(
                auction_token,
            ),
            r is Ok ==> owner_ids(final(self).auctions_by_owner@, caller) == owner_ids(
                old(self).auctions_by_owner@,
                caller,
            ).push(old(self).total_auctions),
            r is Ok ==> forall|o: u64|
                o != caller ==> owner_ids(final(self).auctions_by_owner@, o) == owner_ids(
                    old(self).auctions_by_owner@,
                    o,
                ),
            final(self).owner == old(self).owner,
    {
        if token_owner != caller {
            return Err(MarketError::NotOwner);
        }
        if self.is_token_auctioned(auction_token) {
            return Err(MarketError::AlreadyAuctioned);
        }
        if deposit != CREATE_AUCTION_FEE {
            return Err(MarketError::InvalidFee);
        }
        let n = self.auction_by_id.len();
        let id = self.total_auctions;
        proof {
            assert(id == n as u128);
        }
        let a = Auction {
            owner: caller,
            auction_id: id,
            auction_token,
            start_price,
            start_time,
            end_time,
            current_price: start_price,
            winner: None,
            is_near_claimed: false,
            is_nft_claimed: false,
        };
        self.auction_by_id.push(a);
        self.auctioned_tokens.push(auction_token);
        self.total_auctions = id + 1;
        proof {
            lemma_store_after_create(*old(self), *self, a);
        }
        let found = self.find_owner_entry(caller);
        match found {
            Some(j) => {
                let ghost pre_entries = self.auctions_by_owner@;
                self.auctions_by_owner[j].auction_ids.push(id);
                proof {
                    let now_entries = self.auctions_by_owner@;
                    let jj = j as int;
                    assert(now_entries[jj].owner == caller);
                    assert(now_entries[jj].auction_ids@ == pre_entries[jj].auction_ids@.push(id));
                    assert forall|m: int| 0 <= m < now_entries.len() && m != jj implies now_entries[m]
                        == pre_entries[m] by {}
                    lemma_owner_ids_found(pre_entries, jj);
                    lemma_owner_ids_found(now_entries, jj);
                    assert(owner_ids(now_entries, caller) == owner_ids(pre_entries, caller).push(
                        id,
                    ));
                    assert forall|o: u64| o != caller implies owner_ids(now_entries, o) == owner_ids(
                        pre_entries,
                        o,
                    ) by {
                        lemma_owner_ids_agree(pre_entries, now_entries, o);
                    }
                    assert forall|m: int| 0 <= m < now_entries.len() implies entry_ok(
                        #[trigger] now_entries[m],
                        self.auction_by_id@,
                    ) by {
                        assert(entry_ok(pre_entries[m], old(self).auction_by_id@));
                        lemma_entry_ok_push(pre_entries[m], old(self).auction_by_id@, a);
                        if m == jj {
                            let e2 = now_entries[jj];
                            let e1 = pre_entries[jj];
                            assert forall|k: int| 0 <= k < e2.auction_ids@.len() implies (
                            #[trigger] e2.auction_ids@[k]) < self.auction_by_id@.len()
                                && self.auction_by_id@[e2.auction_ids@[k] as int].owner
                                == e2.owner by {
                                if k < e1.auction_ids@.len() {
                                    assert(e2.auction_ids@[k] == e1.auction_ids@[k]);
                                } else {
                                    assert(e2.auction_ids@[k] == id);
                                    assert(self.auction_by_id@[id as int] == a);
                                }
                            }
                            assert forall|k1: int, k2: int|
                                0 <= k1 < k2 < e2.auction_ids@.len() implies e2.auction_ids@[k1]
                                < e2.auction_ids@[k2] by {
                                if k2 < e1.auction_ids@.len() {
                                    assert(e2.auction_ids@[k1] == e1.auction_ids@[k1]);
                                    assert(e2.auction_ids@[k2] == e1.auction_ids@[k2]);
                                } else {
                                    assert(e2.auction_ids@[k2] == id);
                                    assert(e2.auction_ids@[k1] == e1.auction_ids@[k1]);
                                    assert(e1.auction_ids@[k1] < old(self).auction_by_id@.len());
                                }
                            }
                        }
                    }
                }
            },
            None => {
                let ghost pre_entries = self.auctions_by_owner@;
                let mut ids_vec: Vec<u128> = Vec::new();
                ids_vec.push(id);
                let entry = OwnerAuctions { owner: caller, auction_ids: ids_vec };
                let ghost ne = entry;
                self.auctions_by_owner.push(entry);
                proof {
                    let now_entries = self.auctions_by_owner@;
                    assert(now_entries == pre_entries.push(ne));
                    lemma_owner_ids_absent(pre_entries, caller);
                    lemma_owner_ids_push_absent(pre_entries, ne);
                    assert(ne.auction_ids@ == Seq::<u128>::empty().push(id));
                    assert(owner_ids(now_entries, caller) == owner_ids(pre_entries, caller).push(
                        id,
                    ));
                    assert forall|o: u64| o != caller implies owner_ids(now_entries, o) == owner_ids(
                        pre_entries,
                        o,
                    ) by {
                        lemma_owner_ids_push_other(pre_entries, ne, o);
                    }
                    assert forall|m: int| 0 <= m < now_entries.len() implies entry_ok(
                        #[trigger] now_entries[m],
                        self.auction_by_id@,
                    ) by {
                        if m < pre_entries.len() {
                            assert(now_entries[m] == pre_entries[m]);
                            assert(entry_ok(pre_entries[m], old(self).auction_by_id@));
                            lemma_entry_ok_push(pre_entries[m], old(self).auction_by_id@, a);
                        } else {
                            assert(now_entries[m] == ne);
                            assert(ne.auction_ids@.len() == 1);
                            assert(ne.auction_ids@[0] == id);
                            assert(self.auction_by_id@[id as int] == a);
                        }
                    }
                }
            },
        }
        Ok(a)
    }
}

/// Replacing one record with one that keeps its identifier, owner, and a
/// price at or above its asking price leaves the store and the discovery
/// index well formed.
proof fn lemma_records_after_update(pre: MarketPlace, post: MarketPlace, i: int, b: Auction)
    requires
        pre.wf(),
        0 <= i < pre.auction_by_id@.len(),
        post.auction_by_id@ == pre.auction_by_id@.update(i, b),
        post.auctions_by_owner@ == pre.auctions_by_owner@,
        post.total_auctions == pre.total_auctions,
        b.auction_id == pre.auction_by_id@[i].auction_id,
        b.owner == pre.auction_by_id@[i].owner,
        b.current_price >= b.start_price,
    ensures
        post.ids_well_formed(),
        post.prices_well_formed(),
        post.owners_well_formed(),
{
    assert forall|k: int| 0 <= k < post.auction_by_id@.len() implies (
    #[trigger] post.auction_by_id@[k]).auction_id == k as u128 by {
        if k != i {
            assert(post.auction_by_id@[k] == pre.auction_by_id@[k]);
        }
    }
    assert forall|k: int| 0 <= k < post.auction_by_id@.len() implies (
    #[trigger] post.auction_by_id@[k]).current_price >= post.auction_by_id@[k].start_price by {
        if k != i {
            assert(post.auction_by_id@[k] == pre.auction_by_id@[k]);
        }
    }
    assert forall|e: int| 0 <= e < post.auctions_by_owner@.len() implies entry_ok(
        #[trigger] post.auctions_by_owner@[e],
        post.auction_by_id@,
    ) by {
        assert(entry_ok(pre.auctions_by_owner@[e], pre.auction_by_id@));
        let ent = post.auctions_by_owner@[e];
        assert forall|k: int| 0 <= k < ent.auction_ids@.len() implies (
        #[trigger] ent.auction_ids@[k]) < post.auction_by_id@.len() && post.auction_by_id@[ent.auction_ids@[k] as int].owner
            == ent.owner by {
            let id = ent.auction_ids@[k] as int;
            if id != i {
                assert(post.auction_by_id@[id] == pre.auction_by_id@[id]);
            }
        }
    }
}

/// Replacing one record with one that keeps its token and its custody flag
/// leaves the escrow bookkeeping well formed, with the escrow set untouched.
proof fn lemma_escrow_after_update(pre: MarketPlace, post: MarketPlace, i: int, b: Auction)
    requires
        pre.wf(),
        0 <= i < pre.auction_by_id@.len(),
        post.auction_by_id@ == pre.auction_by_id@.update(i, b),
        post.auctioned_tokens@ == pre.auctioned_tokens@,
        b.auction_token == pre.auction_by_id@[i].auction_token,
        b.is_nft_claimed == pre.auction_by_id@[i].is_nft_claimed,
    ensures
        post.escrow_well_formed(),
{
    assert forall|k: int|
        0 <= k < post.auction_by_id@.len() && !(#[trigger] post.auction_by_id@[k]).is_nft_claimed implies post.auctioned_tokens@.contains(
        post.auction_by_id@[k].auction_token,
    ) by {
        if k != i {
            assert(post.auction_by_id@[k] == pre.auction_by_id@[k]);
        } else {
            assert(!pre.auction_by_id@[i].is_nft_claimed);
        }
    }
    assert forall|t: u64| #[trigger] post.auctioned_tokens@.contains(t) implies exists|k: int|
        0 <= k < post.auction_by_id@.len() && (#[trigger] post.auction_by_id@[k]).auction_token == t
            && !post.auction_by_id@[k].is_nft_claimed by {
        let k = choose|k: int|
            0 <= k < pre.auction_by_id@.len() && (#[trigger] pre.auction_by_id@[k]).auction_token
                == t && !pre.auction_by_id@[k].is_nft_claimed;
        assert(post.auction_by_id@[k].auction_token == t && !post.auction_by_id@[k].is_nft_claimed);
    }
    assert forall|k: int, l: int|
        0 <= k < post.auction_by_id@.len() && 0 <= l < post.auction_by_id@.len() && k != l && !(
        #[trigger] post.auction_by_id@[k]).is_nft_claimed && !(
        #[trigger] post.auction_by_id@[l]).is_nft_claimed implies post.auction_by_id@[k].auction_token
        != post.auction_by_id@[l].auction_token by {
        assert(post.auction_by_id@[k].auction_token == pre.auction_by_id@[k].auction_token);
        assert(post.auction_by_id@[k].is_nft_claimed == pre.auction_by_id@[k].is_nft_claimed);
        assert(post.auction_by_id@[l].auction_token == pre.auction_by_id@[l].auction_token);
        assert(post.auction_by_id@[l].is_nft_claimed == pre.auction_by_id@[l].is_nft_claimed);
    }
}

/// Marking record `i` as disbursed while taking exactly its token out of the
/// escrow set leaves the escrow bookkeeping well formed.
proof fn lemma_escrow_after_token_claim(pre: MarketPlace, post: MarketPlace, i: int)
    requires
        pre.wf(),
        0 <= i < pre.auction_by_id@.len(),
        !pre.auction_by_id@[i].is_nft_claimed,
        post.auction_by_id@ == pre.auction_by_id@.update(
            i,
            with_nft_claimed(pre.auction_by_id@[i]),
        ),
        !post.auctioned_tokens@.contains(pre.auction_by_id@[i].auction_token),
        forall|u: u64|
            u != pre.auction_by_id@[i].auction_token ==> post.auctioned_tokens@.contains(u)
                == pre.auctioned_tokens@.contains(u),
        distinct_tokens(post.auctioned_tokens@),
    ensures
        post.escrow_well_formed(),
{
    let tok = pre.auction_by_id@[i].auction_token;
    assert forall|k: int|
        0 <= k < post.auction_by_id@.len() && !(#[trigger] post.auction_by_id@[k]).is_nft_claimed implies post.auctioned_tokens@.contains(
        post.auction_by_id@[k].auction_token,
    ) by {
        assert(k != i);
        assert(post.auction_by_id@[k] == pre.auction_by_id@[k]);
        assert(pre.auction_by_id@[k].auction_token != tok);
        assert(pre.auctioned_tokens@.contains(pre.auction_by_id@[k].auction_token));
    }
    assert forall|t: u64| #[trigger] post.auctioned_tokens@.contains(t) implies exists|k: int|
        0 <= k < post.auction_by_id@.len() && (#[trigger] post.auction_by_id@[k]).auction_token == t
            && !post.auction_by_id@[k].is_nft_claimed by {
        assert(t != tok);
        assert(pre.auctioned_tokens@.contains(t));
        let k = choose|k: int|
            0 <= k < pre.auction_by_id@.len() && (#[trigger] pre.auction_by_id@[k]).auction_token
                == t && !pre.auction_by_id@[k].is_nft_claimed;
        assert(k != i);
        assert(post.auction_by_id@[k].auction_token == t && !post.auction_by_id@[k].is_nft_claimed);
    }
    assert forall|k: int, l: int|
        0 <= k < post.auction_by_id@.len() && 0 <= l < post.auction_by_id@.len() && k != l && !(
        #[trigger] post.auction_by_id@[k]).is_nft_claimed && !(
        #[trigger] post.auction_by_id@[l]).is_nft_claimed implies post.auction_by_id@[k].auction_token
        != post.auction_by_id@[l].auction_token by {
        assert(k != i && l != i);
        assert(post.auction_by_id@[k] == pre.auction_by_id@[k]);
        assert(post.auction_by_id@[l] == pre.auction_by_id@[l]);
    }
}

/// Appending a fresh record whose identifier is the next position, and whose
/// token was not escrowed, leaves the store and the escrow bookkeeping well
/// formed.
proof fn lemma_store_after_create(pre: MarketPlace, post: MarketPlace, a: Auction)
    requires
        pre.wf(),
        !pre.auctioned_tokens@.contains(a.auction_token),
        !a.is_nft_claimed,
        a.auction_id as int == pre.auction_by_id@.len(),
        a.current_price >= a.start_price,
        post.auction_by_id@ == pre.auction_by_id@.push(a),
        post.auctioned_tokens@ == pre.auctioned_tokens@.push(a.auction_token),
        post.total_auctions as int == pre.total_auctions as int + 1,
    ensures
        post.ids_well_formed(),
        post.prices_well_formed(),
        post.escrow_well_formed(),
{
    let n = pre.auction_by_id@.len() as int;
    assert forall|k: int| 0 <= k < post.auction_by_id@.len() implies (
    #[trigger] post.auction_by_id@[k]).auction_id == k as u128 by {
        if k < n {
            assert(post.auction_by_id@[k] == pre.auction_by_id@[k]);
        }
    }
    assert forall|k: int| 0 <= k < post.auction_by_id@.len() implies (
    #[trigger] post.auction_by_id@[k]).current_price >= post.auction_by_id@[k].start_price by {
        if k < n {
            assert(post.auction_by_id@[k] == pre.auction_by_id@[k]);
        }
    }
    let tn = pre.auctioned_tokens@.len() as int;
    assert forall|i: int, j: int|
        0 <= i < j < post.auctioned_tokens@.len() implies post.auctioned_tokens@[i]
        != post.auctioned_tokens@[j] by {
        if j < tn {
            assert(post.auctioned_tokens@[i] == pre.auctioned_tokens@[i]);
            assert(post.auctioned_tokens@[j] == pre.auctioned_tokens@[j]);
        } else {
            assert(post.auctioned_tokens@[j] == a.auction_token);
            assert(post.auctioned_tokens@[i] == pre.auctioned_tokens@[i]);
            assert(pre.auctioned_tokens@.contains(pre.auctioned_tokens@[i]));
        }
    }
    assert forall|k: int|
        0 <= k < post.auction_by_id@.len() && !(#[trigger] post.auction_by_id@[k]).is_nft_claimed implies post.auctioned_tokens@.contains(
        post.auction_by_id@[k].auction_token,
    ) by {
        if k < n {
            assert(post.auction_by_id@[k] == pre.auction_by_id@[k]);
            let t = pre.auction_by_id@[k].auction_token;
            assert(pre.auctioned_tokens@.contains(t));
            let m = choose|m: int| 0 <= m < pre.auctioned_tokens@.len() && pre.auctioned_tokens@[m] == t;
            assert(post.auctioned_tokens@[m] == t);
        } else {
            assert(post.auctioned_tokens@[tn] == a.auction_token);
        }
    }
    assert forall|t: u64| #[trigger] post.auctioned_tokens@.contains(t) implies exists|k: int|
        0 <= k < post.auction_by_id@.len() && (#[trigger] post.auction_by_id@[k]).auction_token == t
            && !post.auction_by_id@[k].is_nft_claimed by {
        let m = choose|m: int| 0 <= m < post.auctioned_tokens@.len() && post.auctioned_tokens@[m] == t;
        if m < tn {
            assert(pre.auctioned_tokens@[m] == t);
            assert(pre.auctioned_tokens@.contains(t));
            let k = choose|k: int|
                0 <= k < pre.auction_by_id@.len() && (#[trigger] pre.auction_by_id@[k]).auction_token
                    == t && !pre.auction_by_id@[k].is_nft_claimed;
            assert(post.auction_by_id@[k].auction_token == t
                && !post.auction_by_id@[k].is_nft_claimed);
        } else {
            assert(t == a.auction_token);
            assert(post.auction_by_id@[n].auction_token == t && !post.auction_by_id@[n].is_nft_claimed);
        }
    }
    assert forall|k: int, l: int|
        0 <= k < post.auction_by_id@.len() && 0 <= l < post.auction_by_id@.len() && k != l && !(
        #[trigger] post.auction_by_id@[k]).is_nft_claimed && !(
        #[trigger] post.auction_by_id@[l]).is_nft_claimed implies post.auction_by_id@[k].auction_token
        != post.auction_by_id@[l].auction_token by {
        if k < n && l < n {
            assert(post.auction_by_id@[k] == pre.auction_by_id@[k]);
            assert(post.auction_by_id@[l] == pre.auction_by_id@[l]);
        } else if k < n {
            assert(post.auction_by_id@[l] == a);
            assert(post.auction_by_id@[k] == pre.auction_by_id@[k]);
            assert(pre.auctioned_tokens@.contains(pre.auction_by_id@[k].auction_token));
        } else {
            assert(post.auction_by_id@[k] == a);
            assert(post.auction_by_id@[l] == pre.auction_by_id@[l]);
            assert(pre.auctioned_tokens@.contains(pre.auction_by_id@[l].auction_token));
        }
    }
}

/// `owner_ids` reads the first entry of the owner it is asked about.
proof fn lemma_owner_ids_found(entries: Seq<OwnerAuctions>, j: int)
    requires
        0 <= j < entries.len(),
        forall|m: int| 0 <= m < j ==> (#[trigger] entries[m]).owner != entries[j].owner,
    ensures
        owner_ids(entries, entries[j].owner) == entries[j].auction_ids@,
    decreases entries.len(),
{
    if j > 0 {
        let rest = entries.drop_first();
        assert forall|m: int| 0 <= m < j - 1 implies (#[trigger] rest[m]).owner != rest[j
            - 1].owner by {
            assert(rest[m] == entries[m + 1]);
            assert(rest[j - 1] == entries[j]);
        }
        lemma_owner_ids_found(rest, j - 1);
        assert(rest[j - 1] == entries[j]);
    }
}

/// An owner with no entry has no recorded identifiers.
proof fn lemma_owner_ids_absent(entries: Seq<OwnerAuctions>, owner: u64)
    requires
        forall|m: int| 0 <= m < entries.len() ==> (#[trigger] entries[m]).owner != owner,
    ensures
        owner_ids(entries, owner) == Seq::<u128>::empty(),
    decreases entries.len(),
{
    if entries.len() > 0 {
        let rest = entries.drop_first();
        assert forall|m: int| 0 <= m < rest.len() implies (#[trigger] rest[m]).owner != owner by {
            assert(rest[m] == entries[m + 1]);
        }
        lemma_owner_ids_absent(rest, owner);
    }
}

/// `owner_ids` depends only on the entries of the owner it is asked about.
proof fn lemma_owner_ids_agree(s1: Seq<OwnerAuctions>, s2: Seq<OwnerAuctions>, owner: u64)
    requires
        s1.len() == s2.len(),
        forall|m: int| 0 <= m < s1.len() ==> (#[trigger] s1[m]).owner == s2[m].owner,
        forall|m: int| 0 <= m < s1.len() && (#[trigger] s1[m]).owner == owner ==> s1[m] == s2[m],
    ensures
        owner_ids(s1, owner) == owner_ids(s2, owner),
    decreases s1.len(),
{
    if s1.len() > 0 {
        assert(s1[0].owner == s2[0].owner);
        if s1[0].owner == owner {
            assert(s1[0] == s2[0]);
        } else {
            let r1 = s1.drop_first();
            let r2 = s2.drop_first();
            assert forall|m: int| 0 <= m < r1.len() implies (#[trigger] r1[m]).owner == r2[m].owner
                && ((r1[m]).owner == owner ==> r1[m] == r2[m]) by {
                assert(r1[m] == s1[m + 1]);
                assert(r2[m] == s2[m + 1]);
            }
            lemma_owner_ids_agree(r1, r2, owner);
        }
    }
}

/// Appending an entry leaves every other owner's recorded identifiers alone.
proof fn lemma_owner_ids_push_other(entries: Seq<OwnerAuctions>, e: OwnerAuctions, owner: u64)
    requires
        owner != e.owner,
    ensures
        owner_ids(entries.push(e), owner) == owner_ids(entries, owner),
    decreases entries.len(),
{
    let p = entries.push(e);
    if entries.len() == 0 {
        assert(p[0] == e);
        assert(p.drop_first() =~= Seq::<OwnerAuctions>::empty());
        lemma_owner_ids_absent(p.drop_first(), owner);
        lemma_owner_ids_absent(entries, owner);
    } else {
        assert(p[0] == entries[0]);
        if p[0].owner != owner {
            assert(p.drop_first() =~= entries.drop_first().push(e));
            lemma_owner_ids_push_other(entries.drop_first(), e, owner);
        }
    }
}

/// Appending an entry for an owner with no earlier entry records exactly
/// that entry's identifiers for them.
proof fn lemma_owner_ids_push_absent(entries: Seq<OwnerAuctions>, e: OwnerAuctions)
    requires
        forall|m: int| 0 <= m < entries.len() ==> (#[trigger] entries[m]).owner != e.owner,
    ensures
        owner_ids(entries.push(e), e.owner) == e.auction_ids@,
    decreases entries.len(),
{
    let p = entries.push(e);
    if entries.len() == 0 {
        assert(p[0] == e);
    } else {
        assert(p[0] == entries[0]);
        assert(entries[0].owner != e.owner);
        let rest = entries.drop_first();
        assert forall|m: int| 0 <= m < rest.len() implies (#[trigger] rest[m]).owner != e.owner by {
            assert(rest[m] == entries[m + 1]);
        }
        assert(p.drop_first() =~= rest.push(e));
        lemma_owner_ids_push_absent(rest, e);
    }
}

/// An entry sound against the store stays sound when a record is appended.
proof fn lemma_entry_ok_push(e: OwnerAuctions, auctions: Seq<Auction>, a: Auction)
    requires
        entry_ok(e, auctions),
    ensures
        entry_ok(e, auctions.push(a)),
{
    assert forall|k: int| 0 <= k < e.auction_ids@.len() implies (#[trigger] e.auction_ids@[k])
        < auctions.push(a).len() && auctions.push(a)[e.auction_ids@[k] as int].owner == e.owner by {
        assert(e.auction_ids@[k] < auctions.len());
        assert(auctions.push(a)[e.auction_ids@[k] as int] == auctions[e.auction_ids@[k] as int]);
    }
}

} // verus!
