//! A verified auction marketplace for uniquely identified tokens.
//!
//! A seller escrows a token, runs a time-boxed bidding round, and the outcome
//! is settled exactly once: the token goes to the winner (or back to the
//! seller if nobody bid) and the proceeds go to the seller.  The registry in
//! this crate is the decision core of that lifecycle: it works on plain
//! values (identities and tokens as integers, amounts and timestamps), and
//! every transfer of funds or custody it decides on is returned to the caller
//! as an instruction to carry out.

pub mod auction;
pub mod laws;
pub mod registry;
