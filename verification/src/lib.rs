//! A ledger of tax lots.
//!
//! Every tracked account holds its balance as lots: quantities of the asset
//! with the date, the price and the kind of their acquisition. Lots move out
//! of accounts into pending transfers and open orders, and from there into
//! another account, back into the account they came from, or out of the
//! ledger as disposed lots. Nothing else happens to them: the ledger creates
//! and destroys no quantity.
//!
//! - [`lot`], [`calendar`], [`ident`], [`exchange`], [`records`] and
//!   [`account`] hold the records.
//! - [`arithmetic`] says what extracting a quantity from lots and merging lots
//!   means, and [`account`] does it.
//! - [`model`] is the ledger as a value with its operations as functions, and
//!   [`db`] is the ledger itself, which follows the model step by step.
//! - [`laws`] proves what holds of the model: conservation, the balance
//!   identity, and that a cancelled transfer leaves no trace.
//!
//! The ledger does no input or output. It says when it wants to be written
//! to stable storage, and its owner does the writing.

pub mod account;
pub mod arithmetic;
pub mod calendar;
pub mod db;
pub mod error;
pub mod exchange;
pub mod ident;
pub mod laws;
pub mod lot;
pub mod model;
pub mod records;
pub mod search;
pub mod tally;
