//! Transactional core of a two-location retail point of sale: a stock ledger,
//! the sale, return, exchange and transfer processors that mutate it, and the
//! read-only reports computed from its history.
//!
//! Every operation is all-or-nothing: it either returns `Ok` and commits all of
//! its effects, or returns an error and leaves the ledger exactly as it was.
//!
//! The state is an explicit [`ledger::Ledger`] that the caller owns and hands
//! to each operation, together with a reading of the clock. Amounts are
//! integers of the minor currency unit.
//!
//! - [`stock`]: product rows and the engine that applies stock movements.
//! - [`sale`], [`refunds`], [`transfer`]: the processors and their undo.
//! - [`report`], [`cash`], [`listing`]: the figures and listings read from the
//!   history.
//! - [`catalog`], [`dictionary`], [`expense`]: products, reference lists and
//!   expenses.
//! - [`laws`]: what holds of every ledger and across operations.
//! - [`kinds`], [`clock`], [`text`], [`error`], [`order`], [`daylist`],
//!   [`backup`]: the vocabulary and the utilities the rest is built on.

pub mod backup;
pub mod cash;
pub mod catalog;
pub mod clock;
pub mod daylist;
pub mod dictionary;
pub mod error;
pub mod expense;
pub mod kinds;
pub mod laws;
pub mod ledger;
pub mod listing;
pub mod order;
pub mod refunds;
pub mod report;
pub mod sale;
pub mod stock;
pub mod text;
pub mod transfer;
