use marketplace::auction::{
    mint_fee_ok, Auction, MarketError, Payment, TokenMove, CREATE_AUCTION_FEE, ENROLL_FEE,
    MINT_FEE,
};
use marketplace::registry::MarketPlace;

// A convenient money unit: one tenth of the enrollment fee, so that scenario
// prices like "100" stay above the fee scale.
const UNIT: u128 = ENROLL_FEE / 10;

const SELLER: u64 = 1;
const ALICE: u64 = 2;
const BOB: u64 = 3;
const TOKEN: u64 = 42;
const T0: u64 = 1_000;

fn market_with_auction() -> MarketPlace {
    let mut m = MarketPlace::new(SELLER);
    let r = m.create_auction(
        SELLER,
        CREATE_AUCTION_FEE,
        SELLER,
        TOKEN,
        100 * UNIT,
        T0,
        T0 + 100,
    );
    assert!(r.is_ok());
    m
}

#[test]
fn new_marketplace_is_empty() {
    let m = MarketPlace::new(SELLER);
    assert_eq!(m.total_auctions, 0);
    assert_eq!(m.get_auction(0), Err(MarketError::AuctionNotFound));
    assert!(!m.is_token_auctioned(TOKEN));
    assert_eq!(m.get_auctions_by_owner(SELLER), Vec::<u128>::new());
}

#[test]
fn create_auction_returns_snapshot() {
    let mut m = MarketPlace::new(SELLER);
    let a = m
        .create_auction(SELLER, CREATE_AUCTION_FEE, SELLER, TOKEN, 100 * UNIT, T0, T0 + 100)
        .unwrap();
    let expected = Auction {
        owner: SELLER,
        auction_id: 0,
        auction_token: TOKEN,
        start_price: 100 * UNIT,
        start_time: T0,
        end_time: T0 + 100,
        current_price: 100 * UNIT,
        winner: None,
        is_near_claimed: false,
        is_nft_claimed: false,
    };
    assert_eq!(a, expected);
    assert_eq!(m.total_auctions, 1);
    assert_eq!(m.get_auction(0), Ok(expected));
    assert!(m.is_token_auctioned(TOKEN));
    assert_eq!(m.get_auctions_by_owner(SELLER), vec![0u128]);
}

#[test]
fn create_auction_by_non_owner_fails() {
    let mut m = MarketPlace::new(SELLER);
    let r = m.create_auction(ALICE, CREATE_AUCTION_FEE, SELLER, TOKEN, 100 * UNIT, T0, T0 + 100);
    assert_eq!(r, Err(MarketError::NotOwner));
    assert_eq!(m.total_auctions, 0);
}

#[test]
fn create_auction_with_wrong_fee_fails() {
    let mut m = MarketPlace::new(SELLER);
    let low = m.create_auction(SELLER, CREATE_AUCTION_FEE - 1, SELLER, TOKEN, UNIT, T0, T0 + 100);
    assert_eq!(low, Err(MarketError::InvalidFee));
    let high = m.create_auction(SELLER, CREATE_AUCTION_FEE + 1, SELLER, TOKEN, UNIT, T0, T0 + 100);
    assert_eq!(high, Err(MarketError::InvalidFee));
    assert_eq!(m.total_auctions, 0);
}

#[test]
fn create_auction_on_escrowed_token_fails() {
    let mut m = market_with_auction();
    let r = m.create_auction(SELLER, CREATE_AUCTION_FEE, SELLER, TOKEN, UNIT, T0, T0 + 100);
    assert_eq!(r, Err(MarketError::AlreadyAuctioned));
    assert_eq!(m.total_auctions, 1);
}

#[test]
fn auction_ids_are_monotonic_and_indexed_per_owner() {
    let mut m = MarketPlace::new(SELLER);
    m.create_auction(SELLER, CREATE_AUCTION_FEE, SELLER, TOKEN, UNIT, T0, T0 + 100).unwrap();
    m.create_auction(ALICE, CREATE_AUCTION_FEE, ALICE, 43, UNIT, T0, T0 + 100).unwrap();
    m.create_auction(SELLER, CREATE_AUCTION_FEE, SELLER, 44, UNIT, T0, T0 + 100).unwrap();
    assert_eq!(m.total_auctions, 3);
    assert_eq!(m.get_auction(1).unwrap().auction_id, 1);
    assert_eq!(m.get_auctions_by_owner(SELLER), vec![0u128, 2u128]);
    assert_eq!(m.get_auctions_by_owner(ALICE), vec![1u128]);
    assert_eq!(m.get_auctions_by_owner(BOB), Vec::<u128>::new());
}

#[test]
fn bid_on_missing_auction_fails() {
    let mut m = MarketPlace::new(SELLER);
    assert_eq!(m.bid(7, ALICE, UNIT, T0), Err(MarketError::AuctionNotFound));
}

#[test]
fn bid_before_start_fails_and_mutates_nothing() {
    let mut m = market_with_auction();
    let before = m.get_auction(0).unwrap();
    // at the boundary: the window opens strictly after start_time
    assert_eq!(m.bid(0, ALICE, 150 * UNIT, T0), Err(MarketError::AuctionNotStarted));
    assert_eq!(m.bid(0, ALICE, 150 * UNIT, T0 - 1), Err(MarketError::AuctionNotStarted));
    assert_eq!(m.get_auction(0).unwrap(), before);
}

#[test]
fn bid_at_or_after_end_fails_and_mutates_nothing() {
    let mut m = market_with_auction();
    let before = m.get_auction(0).unwrap();
    assert_eq!(m.bid(0, ALICE, 150 * UNIT, T0 + 100), Err(MarketError::AuctionEnded));
    assert_eq!(m.bid(0, ALICE, 150 * UNIT, T0 + 200), Err(MarketError::AuctionEnded));
    assert_eq!(m.get_auction(0).unwrap(), before);
}

#[test]
fn bid_not_above_current_price_fails() {
    let mut m = market_with_auction();
    assert_eq!(m.bid(0, ALICE, 100 * UNIT, T0 + 10), Err(MarketError::BidTooLow));
    assert_eq!(m.bid(0, ALICE, 99 * UNIT, T0 + 10), Err(MarketError::BidTooLow));
    assert_eq!(m.get_auction(0).unwrap().winner, None);
}

#[test]
fn first_bid_refunds_nobody() {
    let mut m = market_with_auction();
    let r = m.bid(0, ALICE, 150 * UNIT, T0 + 10);
    assert_eq!(r, Ok(None));
    let a = m.get_auction(0).unwrap();
    assert_eq!(a.current_price, 150 * UNIT);
    assert_eq!(a.winner, Some(ALICE));
    assert_eq!(a.start_price, 100 * UNIT);
}

#[test]
fn outbid_refunds_previous_bidder_minus_enrollment_fee() {
    let mut m = market_with_auction();
    m.bid(0, ALICE, 150 * UNIT, T0 + 10).unwrap();
    let r = m.bid(0, BOB, 200 * UNIT, T0 + 30);
    assert_eq!(r, Ok(Some(Payment { to: ALICE, amount: 150 * UNIT - ENROLL_FEE })));
    assert_eq!(r, Ok(Some(Payment { to: ALICE, amount: 140 * UNIT })));
    let a = m.get_auction(0).unwrap();
    assert_eq!(a.current_price, 200 * UNIT);
    assert_eq!(a.winner, Some(BOB));
}

#[test]
fn full_bidding_and_settlement_round() {
    let mut m = market_with_auction();
    // first bid by A
    assert_eq!(m.bid(0, ALICE, 150 * UNIT, T0 + 10), Ok(None));
    let a = m.get_auction(0).unwrap();
    assert_eq!((a.current_price, a.winner), (150 * UNIT, Some(ALICE)));
    // a lower bid by B changes nothing
    let before = m.get_auction(0).unwrap();
    assert_eq!(m.bid(0, BOB, 120 * UNIT, T0 + 20), Err(MarketError::BidTooLow));
    assert_eq!(m.get_auction(0).unwrap(), before);
    // a higher bid by B outbids A, who is refunded their bid less the fee
    assert_eq!(
        m.bid(0, BOB, 200 * UNIT, T0 + 30),
        Ok(Some(Payment { to: ALICE, amount: 150 * UNIT - ENROLL_FEE }))
    );
    let a = m.get_auction(0).unwrap();
    assert_eq!((a.current_price, a.winner), (200 * UNIT, Some(BOB)));
    // after the end, the winner takes the token and the seller the proceeds
    assert_eq!(
        m.claim_nft(0, BOB, T0 + 150),
        Ok(TokenMove { token: TOKEN, to: BOB })
    );
    assert!(!m.is_token_auctioned(TOKEN));
    assert_eq!(
        m.claim_near(0, SELLER, T0 + 150),
        Ok(Payment { to: SELLER, amount: 200 * UNIT })
    );
    // repeating either claim fails
    assert_eq!(m.claim_nft(0, BOB, T0 + 160), Err(MarketError::AlreadyClaimed));
    assert_eq!(m.claim_near(0, SELLER, T0 + 160), Err(MarketError::AlreadyClaimed));
}

#[test]
fn funds_then_token_claim_order_works() {
    let mut m = market_with_auction();
    m.bid(0, ALICE, 150 * UNIT, T0 + 10).unwrap();
    // proceeds first, token second: the two flags are independent
    assert_eq!(
        m.claim_near(0, SELLER, T0 + 150),
        Ok(Payment { to: SELLER, amount: 150 * UNIT })
    );
    assert_eq!(
        m.claim_nft(0, ALICE, T0 + 151),
        Ok(TokenMove { token: TOKEN, to: ALICE })
    );
    assert_eq!(m.claim_near(0, SELLER, T0 + 152), Err(MarketError::AlreadyClaimed));
    assert_eq!(m.claim_nft(0, ALICE, T0 + 152), Err(MarketError::AlreadyClaimed));
    let a = m.get_auction(0).unwrap();
    assert!(a.is_near_claimed && a.is_nft_claimed);
}

#[test]
fn claim_nft_guards() {
    let mut m = market_with_auction();
    m.bid(0, ALICE, 150 * UNIT, T0 + 10).unwrap();
    assert_eq!(m.claim_nft(9, ALICE, T0 + 150), Err(MarketError::AuctionNotFound));
    assert_eq!(m.claim_nft(0, ALICE, T0 + 100), Err(MarketError::AuctionNotEnded));
    assert_eq!(m.claim_nft(0, BOB, T0 + 150), Err(MarketError::NotWinner));
    assert_eq!(m.claim_nft(0, SELLER, T0 + 150), Err(MarketError::NotWinner));
    assert_eq!(m.claim_nft(0, ALICE, T0 + 150), Ok(TokenMove { token: TOKEN, to: ALICE }));
    assert_eq!(m.claim_nft(0, ALICE, T0 + 151), Err(MarketError::AlreadyClaimed));
}

#[test]
fn claim_nft_without_any_bid_fails_as_not_winner() {
    let mut m = market_with_auction();
    assert_eq!(m.claim_nft(0, SELLER, T0 + 150), Err(MarketError::NotWinner));
}

#[test]
fn claim_near_guards() {
    let mut m = market_with_auction();
    m.bid(0, ALICE, 150 * UNIT, T0 + 10).unwrap();
    assert_eq!(m.claim_near(9, SELLER, T0 + 150), Err(MarketError::AuctionNotFound));
    assert_eq!(m.claim_near(0, ALICE, T0 + 150), Err(MarketError::NotOwner));
    assert_eq!(m.claim_near(0, SELLER, T0 + 100), Err(MarketError::AuctionNotEnded));
    assert_eq!(
        m.claim_near(0, SELLER, T0 + 150),
        Ok(Payment { to: SELLER, amount: 150 * UNIT })
    );
    assert_eq!(m.claim_near(0, SELLER, T0 + 151), Err(MarketError::AlreadyClaimed));
}

#[test]
fn unsold_auction_returns_token_to_seller() {
    let mut m = market_with_auction();
    // nobody bid; before the end nothing can be claimed back
    assert_eq!(m.claim_back_nft(0, SELLER, T0 + 100), Err(MarketError::AuctionNotEnded));
    assert_eq!(
        m.claim_back_nft(0, SELLER, T0 + 150),
        Ok(TokenMove { token: TOKEN, to: SELLER })
    );
    assert!(!m.is_token_auctioned(TOKEN));
    // repeating the claim fails
    assert_eq!(m.claim_back_nft(0, SELLER, T0 + 151), Err(MarketError::AlreadyClaimed));
    // the proceeds path pays out the asking price if the seller asks for it
    assert_eq!(
        m.claim_near(0, SELLER, T0 + 151),
        Ok(Payment { to: SELLER, amount: 100 * UNIT })
    );
}

#[test]
fn claim_back_nft_guards() {
    let mut m = market_with_auction();
    assert_eq!(m.claim_back_nft(9, SELLER, T0 + 150), Err(MarketError::AuctionNotFound));
    assert_eq!(m.claim_back_nft(0, ALICE, T0 + 150), Err(MarketError::NotOwner));
    let mut m2 = market_with_auction();
    m2.bid(0, ALICE, 150 * UNIT, T0 + 10).unwrap();
    assert_eq!(m2.claim_back_nft(0, SELLER, T0 + 150), Err(MarketError::NoBidder));
}

#[test]
fn token_can_be_auctioned_again_after_release() {
    let mut m = market_with_auction();
    m.claim_back_nft(0, SELLER, T0 + 150).unwrap();
    let r = m.create_auction(SELLER, CREATE_AUCTION_FEE, SELLER, TOKEN, UNIT, T0 + 200, T0 + 300);
    assert!(r.is_ok());
    assert_eq!(r.unwrap().auction_id, 1);
    assert!(m.is_token_auctioned(TOKEN));
    assert_eq!(m.get_auctions_by_owner(SELLER), vec![0u128, 1u128]);
}

#[test]
fn fees_are_exact_configured_amounts() {
    assert_eq!(MINT_FEE, 100_000_000_000_000_000_000_000);
    assert_eq!(CREATE_AUCTION_FEE, 1_000_000_000_000_000_000_000_000);
    assert_eq!(ENROLL_FEE, 100_000_000_000_000_000_000_000);
    assert!(mint_fee_ok(MINT_FEE));
    assert!(!mint_fee_ok(MINT_FEE - 1));
    assert!(!mint_fee_ok(MINT_FEE + 1));
}
