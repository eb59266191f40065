//! Transaction construction for a MimbleWimble wallet: the interactive slate
//! signing protocol, and the bookkeeping of outputs and transaction log
//! entries that keeps a wallet's records in step with what it has signed.
//!
//! A payment goes through these hands:
//!
//! - [`tx`] makes the slate and takes the steps of the payer and the payee;
//! - [`selection`] chooses the payer's inputs, [`builder`] attaches them;
//! - [`slate`] holds the two signing rounds and the finalization, over the
//!   signatures of [`aggsig`] in the group of [`group`];
//! - [`ledger`] locks the inputs, posts the transaction and repairs the
//!   records, which [`wallet`] holds;
//! - [`payment_proof`] binds a proof to the finalized kernel;
//! - [`wire`] writes slates and proofs as bytes, and reads them;
//! - [`command`] decides what the wallet's commands do next.
//!
//! What holds of all this, whatever the inputs, is stated and proved in
//! [`slate_laws`], [`selection_laws`], [`ledger_laws`], [`payment_laws`] and
//! [`balance`].

pub mod aggsig;
pub mod balance;
pub mod builder;
mod clock;
pub mod command;
pub mod error;
pub mod group;
pub mod ids;
pub mod keychain;
pub mod ledger;
pub mod ledger_laws;
pub mod payment_laws;
pub mod payment_proof;
pub mod selection;
pub mod selection_laws;
pub mod seqs;
pub mod slate;
pub mod slate_laws;
pub mod transaction;
pub mod tx;
pub mod types;
pub mod wallet;
pub mod wire;
