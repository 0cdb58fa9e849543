//! A crowdfunding campaign ledger: accounts open campaigns with a target and an
//! expiry height, other accounts invest by escrowing funds, and at the expiry
//! height each campaign is settled to its owner or refunded to its investors.

pub mod balances;
pub mod campaign;
pub mod escrow;
pub mod mint;
pub mod seqs;
