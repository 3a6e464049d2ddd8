//! The records that the ledger keeps beside its accounts.

use vstd::prelude::*;
use crate::account::copy_lots;
use crate::exchange::Exchange;
use crate::ident::{Address, Signature};
use crate::lot::Lot;
use crate::search::Keyed;

verus! {

/// A deposit to an exchange that is not yet confirmed.
#[derive(Clone, Copy, Debug, PartialEq, Eq)]
pub struct PendingDeposit {
    /// The signature of the transaction that makes the deposit.
    pub signature: Signature,
    pub exchange: Exchange,
    pub amount: u64,
}

/// A transfer between two tracked accounts that is not yet confirmed. Its lots
/// have left the sender and have not reached the recipient.
#[derive(Debug, PartialEq, Eq)]
pub struct PendingTransfer {
    /// The signature of the transaction that makes the transfer.
    pub signature: Signature,
    pub from_address: Address,
    pub to_address: Address,
    pub lots: Vec<Lot>,
}

/// What a [`PendingTransfer`] is in contracts.
pub struct TransferView {
    pub signature: Signature,
    pub from_address: Address,
    pub to_address: Address,
    pub lots: Seq<Lot>,
}

impl View for PendingTransfer {
    type V = TransferView;

    open spec fn view(&self) -> TransferView {
        TransferView {
            signature: self.signature,
            from_address: self.from_address,
            to_address: self.to_address,
            lots: self.lots@,
        }
    }
}

impl Clone for PendingTransfer {
    fn clone(&self) -> (copy: Self)
        ensures
            copy@ == self@,
    {
        PendingTransfer {
            signature: self.signature,
            from_address: self.from_address,
            to_address: self.to_address,
            lots: copy_lots(&self.lots),
        }
    }
}

/// An order on an exchange that is neither filled nor cancelled. Its lots
/// have left the deposit account.
#[derive(Debug, PartialEq, Eq)]
pub struct OpenOrder {
    pub exchange: Exchange,
    pub pair: String,
    pub order_id: String,
    pub lots: Vec<Lot>,
    pub deposit_address: Address,
}

/// What an [`OpenOrder`] is in contracts.
pub struct OrderView {
    pub exchange: Exchange,
    pub pair: Seq<char>,
    pub order_id: Seq<char>,
    pub lots: Seq<Lot>,
    pub deposit_address: Address,
}

impl View for OpenOrder {
    type V = OrderView;

    open spec fn view(&self) -> OrderView {
        OrderView {
            exchange: self.exchange,
            pair: self.pair@,
            order_id: self.order_id@,
            lots: self.lots@,
            deposit_address: self.deposit_address,
        }
    }
}

impl Clone for OpenOrder {
    fn clone(&self) -> (copy: Self)
        ensures
            copy@ == self@,
    {
        OpenOrder {
            exchange: self.exchange,
            pair: self.pair.clone(),
            order_id: self.order_id.clone(),
            lots: copy_lots(&self.lots),
            deposit_address: self.deposit_address,
        }
    }
}

/// The account into which stake is swept, with the place of the keypair that
/// has authority over it.
#[derive(Debug, PartialEq, Eq)]
pub struct SweepStakeAccount {
    pub address: Address,
    pub stake_authority: String,
}

/// What a [`SweepStakeAccount`] is in contracts.
pub struct SweepStakeAccountView {
    pub address: Address,
    pub stake_authority: Seq<char>,
}

impl View for SweepStakeAccount {
    type V = SweepStakeAccountView;

    open spec fn view(&self) -> SweepStakeAccountView {
        SweepStakeAccountView { address: self.address, stake_authority: self.stake_authority@ }
    }
}

impl Clone for SweepStakeAccount {
    fn clone(&self) -> (copy: Self)
        ensures
            copy@ == self@,
    {
        SweepStakeAccount { address: self.address, stake_authority: self.stake_authority.clone() }
    }
}

/// A stake account that is used for a while on the way to the sweep stake
/// account.
#[derive(Clone, Copy, Debug, PartialEq, Eq)]
pub struct TransitorySweepStake {
    pub address: Address,
}

impl Keyed for PendingDeposit {
    type Key = Signature;

    type Probe = Signature;

    open spec fn key(&self) -> Signature {
        self.signature
    }

    open spec fn asked(probe: &Signature) -> Signature {
        *probe
    }

    fn has_key(&self, probe: &Signature) -> (has: bool) {
        self.signature == *probe
    }
}

impl Keyed for PendingTransfer {
    type Key = Signature;

    type Probe = Signature;

    open spec fn key(&self) -> Signature {
        self.signature
    }

    open spec fn asked(probe: &Signature) -> Signature {
        *probe
    }

    fn has_key(&self, probe: &Signature) -> (has: bool) {
        self.signature == *probe
    }
}

impl Keyed for OpenOrder {
    type Key = Seq<char>;

    type Probe = String;

    open spec fn key(&self) -> Seq<char> {
        self.order_id@
    }

    open spec fn asked(probe: &String) -> Seq<char> {
        probe@
    }

    fn has_key(&self, probe: &String) -> (has: bool) {
        self.order_id == *probe
    }
}

impl Keyed for TransitorySweepStake {
    type Key = Address;

    type Probe = Address;

    open spec fn key(&self) -> Address {
        self.address
    }

    open spec fn asked(probe: &Address) -> Address {
        *probe
    }

    fn has_key(&self, probe: &Address) -> (has: bool) {
        self.address == *probe
    }
}

} // verus!
