//! Laws of the registry that span more than one operation or call, proved
//! once and for all from the outcome functions and the registry invariant.
//!
//! The invariant half of the price law — the standing price never falls
//! below the asking price — is the `prices_well_formed` clause of
//! `MarketPlace::wf`, which every operation requires and re-establishes.

use vstd::prelude::*;

use crate::auction::{
    auction_at, bid_outcome, bid_updated, claim_back_nft_outcome, claim_near_outcome,
    claim_nft_outcome, create_auction_check, has_auction, with_near_claimed, with_nft_claimed,
    Auction, MarketError, Payment, TokenMove, ENROLL_FEE,
};
use crate::registry::MarketPlace;

verus! {

/// A successful bid strictly raises the standing price: the accepted deposit,
/// which becomes the new price, strictly exceeds the price it replaces.
pub proof fn lemma_bid_raises_price(
    auctions: Seq<Auction>,
    auction_id: u128,
    caller: u64,
    deposit: u128,
    now: u64,
)
    requires
        bid_outcome(auctions, auction_id, caller, deposit, now) is Ok,
    ensures
        deposit > auction_at(auctions, auction_id).current_price,
        bid_updated(auction_at(auctions, auction_id), caller, deposit).current_price
            > auction_at(auctions, auction_id).current_price,
{
}

/// The standing price never falls below the asking price, in every reachable
/// registry state.
pub proof fn lemma_price_at_least_start(m: MarketPlace, auction_id: u128)
    requires
        m.wf(),
        has_auction(m.auction_by_id@, auction_id),
    ensures
        auction_at(m.auction_by_id@, auction_id).current_price >= auction_at(
            m.auction_by_id@,
            auction_id,
        ).start_price,
{
}

/// A token sits in at most one open auction: two distinct records that have
/// not yet released their token never hold the same token.
pub proof fn lemma_token_in_one_open_auction(m: MarketPlace, i: int, j: int)
    requires
        m.wf(),
        0 <= i < m.auction_by_id@.len(),
        0 <= j < m.auction_by_id@.len(),
        i != j,
        !m.auction_by_id@[i].is_nft_claimed,
        !m.auction_by_id@[j].is_nft_claimed,
    ensures
        m.auction_by_id@[i].auction_token != m.auction_by_id@[j].auction_token,
{
}

/// Creating an auction for a token already in escrow is always refused as
/// `AlreadyAuctioned`, whatever fee is attached.  The caller is taken to own
/// the token: one who does not is refused as `NotOwner` before the escrow
/// set is even consulted.
pub proof fn lemma_create_escrowed_fails(caller: u64, deposit: u128)
    ensures
        create_auction_check(caller, deposit, caller, true) == Some(MarketError::AlreadyAuctioned),
{
}

/// Claiming the proceeds is idempotent in effect: once a claim by the seller
/// has succeeded, repeating it at any later time fails with `AlreadyClaimed`.
pub proof fn lemma_claim_near_idempotent(
    auctions: Seq<Auction>,
    auction_id: u128,
    caller: u64,
    now1: u64,
    now2: u64,
)
    requires
        claim_near_outcome(auctions, auction_id, caller, now1) is Ok,
        now2 >= now1,
    ensures
        claim_near_outcome(
            auctions.update(auction_id as int, with_near_claimed(auction_at(auctions, auction_id))),
            auction_id,
            caller,
            now2,
        ) == Err::<Payment, MarketError>(MarketError::AlreadyClaimed),
{
}

/// Claiming the token is idempotent in effect: once the winner's claim has
/// succeeded, repeating it at any later time fails with `AlreadyClaimed`.
pub proof fn lemma_claim_nft_idempotent(
    auctions: Seq<Auction>,
    auction_id: u128,
    caller: u64,
    now1: u64,
    now2: u64,
)
    requires
        claim_nft_outcome(auctions, auction_id, caller, now1) is Ok,
        now2 >= now1,
    ensures
        claim_nft_outcome(
            auctions.update(auction_id as int, with_nft_claimed(auction_at(auctions, auction_id))),
            auction_id,
            caller,
            now2,
        ) == Err::<TokenMove, MarketError>(MarketError::AlreadyClaimed),
{
}

/// Taking an unsold token back is idempotent in effect: once the seller's
/// claim has succeeded, repeating it at any later time fails with
/// `AlreadyClaimed`.
pub proof fn lemma_claim_back_nft_idempotent(
    auctions: Seq<Auction>,
    auction_id: u128,
    caller: u64,
    now1: u64,
    now2: u64,
)
    requires
        claim_back_nft_outcome(auctions, auction_id, caller, now1) is Ok,
        now2 >= now1,
    ensures
        claim_back_nft_outcome(
            auctions.update(auction_id as int, with_nft_claimed(auction_at(auctions, auction_id))),
            auction_id,
            caller,
            now2,
        ) == Err::<TokenMove, MarketError>(MarketError::AlreadyClaimed),
{
}

/// Every outbid bidder is owed back exactly their standing bid less the
/// enrollment fee — the fee itself is never refunded — and a first bid owes
/// nobody anything.
pub proof fn lemma_outbid_refund_exact(
    auctions: Seq<Auction>,
    auction_id: u128,
    caller: u64,
    deposit: u128,
    now: u64,
)
    requires
        bid_outcome(auctions, auction_id, caller, deposit, now) is Ok,
        auction_at(auctions, auction_id).current_price >= ENROLL_FEE,
    ensures
        auction_at(auctions, auction_id).winner matches Some(prev) ==> bid_outcome(
            auctions,
            auction_id,
            caller,
            deposit,
            now,
        ) == Ok::<Option<Payment>, MarketError>(
            Some(
                Payment {
                    to: prev,
                    amount: (auction_at(auctions, auction_id).current_price - ENROLL_FEE) as u128,
                },
            ),
        ),
        auction_at(auctions, auction_id).winner is None ==> bid_outcome(
            auctions,
            auction_id,
            caller,
            deposit,
            now,
        ) == Ok::<Option<Payment>, MarketError>(None),
{
}

/// A bid at or before the start of the window, or at or after its end, is
/// always refused.  The `bid` operation leaves the registry untouched on
/// every refusal.
pub proof fn lemma_bid_outside_window_fails(
    auctions: Seq<Auction>,
    auction_id: u128,
    caller: u64,
    deposit: u128,
    now: u64,
)
    requires
        has_auction(auctions, auction_id),
        now <= auction_at(auctions, auction_id).start_time || now >= auction_at(
            auctions,
            auction_id,
        ).end_time,
    ensures
        bid_outcome(auctions, auction_id, caller, deposit, now) is Err,
{
}

} // verus!
