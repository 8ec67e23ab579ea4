//! The per-auction record, the error taxonomy, the configured fees, and the
//! outcome functions that say, for every input, what each registry operation
//! returns.

use vstd::prelude::*;

verus! {

/// Exact fee that must accompany a mint request.
pub const MINT_FEE: u128 = 1_000_000_000_000_000_000_000_00;

/// Exact fee that must accompany `create_auction`.
pub const CREATE_AUCTION_FEE: u128 = 1_000_000_000_000_000_000_000_000;

/// Fixed amount forfeited by a bidder who is later outbid: it is withheld
/// from that bidder's refund and retained by the marketplace.
pub const ENROLL_FEE: u128 = 1_000_000_000_000_000_000_000_00;

/// Why a registry operation was refused.  Every error is fatal to the call:
/// the registry state is left exactly as it was.
#[derive(PartialEq, Eq, Structural, Clone, Copy, Debug)]
pub enum MarketError {
    NotOwner,
    AlreadyAuctioned,
    InvalidFee,
    AuctionNotFound,
    AuctionNotStarted,
    AuctionEnded,
    AuctionNotEnded,
    BidTooLow,
    NotWinner,
    AlreadyClaimed,
    NoBidder,
}

/// One escrow round over exactly one token.
///
/// Identities and tokens are plain integers: the hosting layer keeps the
/// mapping between them and whatever richer account or token names it uses.
#[derive(PartialEq, Eq, Clone, Copy, Debug)]
pub struct Auction {
    /// The seller: owner of the token when the auction was created.
    pub owner: u64,
    /// Unique, monotonically assigned, never reused.
    pub auction_id: u128,
    /// The escrowed token.
    pub auction_token: u64,
    /// Asking price at creation; never changes afterwards.
    pub start_price: u128,
    /// Bidding opens strictly after this timestamp.
    pub start_time: u64,
    /// Bidding closes at this timestamp; claims open strictly after it.
    pub end_time: u64,
    /// Highest bid received, or `start_price` while there is none.
    pub current_price: u128,
    /// Current highest bidder, absent until the first valid bid.
    pub winner: Option<u64>,
    /// True once the proceeds have been paid out to the seller.
    pub is_near_claimed: bool,
    /// True once the token has left escrow, to the winner or back to the seller.
    pub is_nft_claimed: bool,
}

/// An instruction to pay `amount` to account `to`, to be carried out by the
/// hosting ledger after the call that returned it.
#[derive(PartialEq, Eq, Structural, Clone, Copy, Debug)]
pub struct Payment {
    pub to: u64,
    pub amount: u128,
}

/// An instruction to move `token` out of marketplace custody to account `to`.
#[derive(PartialEq, Eq, Structural, Clone, Copy, Debug)]
pub struct TokenMove {
    pub token: u64,
    pub to: u64,
}

/// Whether `auction_id` names an existing auction.  Identifiers are assigned
/// densely from zero, so existence is a bound check.
pub open spec fn has_auction(auctions: Seq<Auction>, auction_id: u128) -> bool {
    auction_id < auctions.len()
}

/// The record behind `auction_id`.
pub open spec fn auction_at(auctions: Seq<Auction>, auction_id: u128) -> Auction {
    auctions[auction_id as int]
}

/// The record a fresh auction starts from: price at the asking price, no
/// winner, nothing disbursed.
pub open spec fn new_auction(
    owner: u64,
    auction_id: u128,
    auction_token: u64,
    start_price: u128,
    start_time: u64,
    end_time: u64,
) -> Auction {
    Auction {
        owner,
        auction_id,
        auction_token,
        start_price,
        start_time,
        end_time,
        current_price: start_price,
        winner: None,
        is_near_claimed: false,
        is_nft_claimed: false,
    }
}

/// The check `create_auction` runs, in order: the caller must be the token's
/// owner of record, the token must not already be escrowed, and the exact
/// creation fee must be attached.  `None` means the creation goes through.
pub open spec fn create_auction_check(
    caller: u64,
    deposit: u128,
    token_owner: u64,
    escrowed: bool,
) -> Option<MarketError> {
    if token_owner != caller {
        Some(MarketError::NotOwner)
    } else if escrowed {
        Some(MarketError::AlreadyAuctioned)
    } else if deposit != CREATE_AUCTION_FEE {
        Some(MarketError::InvalidFee)
    } else {
        None
    }
}

/// An auction after a successful bid of `deposit` by `caller`: the bid is the
/// new price, the caller is the bidder to beat, everything else stands.
pub open spec fn bid_updated(a: Auction, caller: u64, deposit: u128) -> Auction {
    Auction { current_price: deposit, winner: Some(caller), ..a }
}

/// An auction whose proceeds have been disbursed.
pub open spec fn with_near_claimed(a: Auction) -> Auction {
    Auction { is_near_claimed: true, ..a }
}

/// An auction whose token has left escrow.
pub open spec fn with_nft_claimed(a: Auction) -> Auction {
    Auction { is_nft_claimed: true, ..a }
}

/// What `bid` returns: the refund owed to the previous bidder (their bid less
/// the enrollment fee), `Ok(None)` on a first bid, or the error that refused
/// the bid.  A bid is accepted exactly when the auction exists, the clock is
/// strictly inside the bidding window, and the deposit strictly beats the
/// standing price.
pub open spec fn bid_outcome(
    auctions: Seq<Auction>,
    auction_id: u128,
    caller: u64,
    deposit: u128,
    now: u64,
) -> Result<Option<Payment>, MarketError> {
    if !has_auction(auctions, auction_id) {
        Err(MarketError::AuctionNotFound)
    } else {
        let a = auction_at(auctions, auction_id);
        if now <= a.start_time {
            Err(MarketError::AuctionNotStarted)
        } else if now >= a.end_time {
            Err(MarketError::AuctionEnded)
        } else if deposit <= a.current_price {
            Err(MarketError::BidTooLow)
        } else {
            match a.winner {
                Some(w) => Ok(Some(Payment { to: w, amount: (a.current_price - ENROLL_FEE) as u128 })),
                None => Ok(None),
            }
        }
    }
}

/// What `claim_nft` returns: the instruction moving the token to the winner,
/// or the error that refused the claim.  Only the winner can claim, only
/// strictly after the end, and only while the token is still in escrow.
pub open spec fn claim_nft_outcome(
    auctions: Seq<Auction>,
    auction_id: u128,
    caller: u64,
    now: u64,
) -> Result<TokenMove, MarketError> {
    if !has_auction(auctions, auction_id) {
        Err(MarketError::AuctionNotFound)
    } else {
        let a = auction_at(auctions, auction_id);
        if now <= a.end_time {
            Err(MarketError::AuctionNotEnded)
        } else if a.winner != Some(caller) {
            Err(MarketError::NotWinner)
        } else if a.is_nft_claimed {
            Err(MarketError::AlreadyClaimed)
        } else {
            Ok(TokenMove { token: a.auction_token, to: caller })
        }
    }
}

/// What `claim_near` returns: the instruction paying the full standing price
/// to the seller, or the error that refused the claim.  Only the seller can
/// claim, only strictly after the end, and only once.
pub open spec fn claim_near_outcome(
    auctions: Seq<Auction>,
    auction_id: u128,
    caller: u64,
    now: u64,
) -> Result<Payment, MarketError> {
    if !has_auction(auctions, auction_id) {
        Err(MarketError::AuctionNotFound)
    } else {
        let a = auction_at(auctions, auction_id);
        if caller != a.owner {
            Err(MarketError::NotOwner)
        } else if now <= a.end_time {
            Err(MarketError::AuctionNotEnded)
        } else if a.is_near_claimed {
            Err(MarketError::AlreadyClaimed)
        } else {
            Ok(Payment { to: a.owner, amount: a.current_price })
        }
    }
}

/// What `claim_back_nft` returns: the instruction returning the token to the
/// seller, or the error that refused the claim.  Only the seller can claim,
/// only strictly after the end, only when no bid was ever placed, and only
/// while the token is still in escrow.
pub open spec fn claim_back_nft_outcome(
    auctions: Seq<Auction>,
    auction_id: u128,
    caller: u64,
    now: u64,
) -> Result<TokenMove, MarketError> {
    if !has_auction(auctions, auction_id) {
        Err(MarketError::AuctionNotFound)
    } else {
        let a = auction_at(auctions, auction_id);
        if caller != a.owner {
            Err(MarketError::NotOwner)
        } else if now <= a.end_time {
            Err(MarketError::AuctionNotEnded)
        } else if a.winner is Some {
            Err(MarketError::NoBidder)
        } else if a.is_nft_claimed {
            Err(MarketError::AlreadyClaimed)
        } else {
            Ok(TokenMove { token: a.auction_token, to: a.owner })
        }
    }
}

/// Machine-limit precondition of `bid`: if the bid would be accepted and a
/// previous bidder refunded, the standing price covers the enrollment fee,
/// so that withholding the fee from the refund cannot underflow.  A bid that
/// is refused never subtracts, so it is not constrained.
pub open spec fn refund_fits(
    auctions: Seq<Auction>,
    auction_id: u128,
    deposit: u128,
    now: u64,
) -> bool {
    (has_auction(auctions, auction_id) && {
        let a = auction_at(auctions, auction_id);
        now > a.start_time && now < a.end_time && deposit > a.current_price && a.winner is Some
    }) ==> auction_at(auctions, auction_id).current_price >= ENROLL_FEE
}

/// Whether `deposit` is the exact mint fee.  Minting itself is the token
/// custodian's work; this is the marketplace's own gate in front of it.
pub fn mint_fee_ok(deposit: u128) -> (r: bool)
    ensures
        r == (deposit == MINT_FEE),
{
    deposit == MINT_FEE
}

} // verus!
