//! Verified core of a small command-line wallet for a Namada chain: the text
//! handling of user input and wallet-file keys, the menu, and the decisions
//! of the token-transfer flow. Network, disk and terminal work lives in the
//! application crate that drives this library.

pub mod text;
pub mod wallet_file;
pub mod transfer;
pub mod menu;
pub mod account;
