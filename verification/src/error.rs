//! Why a ledger operation was refused.

use vstd::prelude::*;
use crate::ident::{Address, Signature};

verus! {

/// Why a ledger operation was refused.
#[derive(Debug, PartialEq, Eq)]
pub enum DbError {
    AccountAlreadyExists(Address),
    AccountDoesNotExist(Address),
    PendingTransferDoesNotExist(Signature),
    PendingDepositDoesNotExist(Signature),
    AccountHasInsufficientBalance(Address),
    OpenOrderDoesNotExist(String),
}

/// What a [`DbError`] is in contracts.
pub enum DbErrorView {
    AccountAlreadyExists(Address),
    AccountDoesNotExist(Address),
    PendingTransferDoesNotExist(Signature),
    PendingDepositDoesNotExist(Signature),
    AccountHasInsufficientBalance(Address),
    OpenOrderDoesNotExist(Seq<char>),
}

impl View for DbError {
    type V = DbErrorView;

    open spec fn view(&self) -> DbErrorView {
        match *self {
            DbError::AccountAlreadyExists(a) => DbErrorView::AccountAlreadyExists(a),
            DbError::AccountDoesNotExist(a) => DbErrorView::AccountDoesNotExist(a),
            DbError::PendingTransferDoesNotExist(s) => DbErrorView::PendingTransferDoesNotExist(s),
            DbError::PendingDepositDoesNotExist(s) => DbErrorView::PendingDepositDoesNotExist(s),
            DbError::AccountHasInsufficientBalance(a) => DbErrorView::AccountHasInsufficientBalance(
                a,
            ),
            DbError::OpenOrderDoesNotExist(id) => DbErrorView::OpenOrderDoesNotExist(id@),
        }
    }
}

/// The result of a ledger operation.
pub type DbResult<T> = Result<T, DbError>;

/// What the result of an operation that returns nothing is in contracts.
pub open spec fn outcome(r: DbResult<()>) -> Result<(), DbErrorView> {
    match r {
        Ok(_) => Ok(()),
        Err(e) => Err(e@),
    }
}

} // verus!
