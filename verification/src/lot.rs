//! Tax lots: a quantity of the asset together with how it was acquired.

use vstd::prelude::*;
use vstd::std_specs::cmp::PartialEqSpecImpl;
use vstd::string::StringExecFns;
use crate::calendar::Date;
use crate::exchange::Exchange;
use crate::ident::Signature;

verus! {

/// A network epoch.
pub type Epoch = u64;

/// A network slot.
pub type Slot = u64;

/// A price in USD per whole unit of the asset, held as the bit pattern of its
/// IEEE 754 binary64 value.
///
/// The ledger never computes with a price: it carries prices along and asks
/// whether two of them are the same. Two prices are the same when their bit
/// patterns are.
#[derive(Clone, Copy, Debug, PartialEq, Eq, Structural, Hash)]
pub struct Price {
    pub bits: u64,
}

/// How a lot came into the ledger.
#[derive(Clone, Copy, Debug, Eq)]
pub enum LotAcquistionKind {
    /// Received as a protocol reward.
    EpochReward { epoch: Epoch, slot: Slot },
    /// Received by an on-chain transfer.
    Transaction { slot: Slot, signature: Signature },
    /// Provenance unknown.
    NotAvailable,
}

impl PartialEq for LotAcquistionKind {
    fn eq(&self, other: &Self) -> (r: bool) {
        match (self, other) {
            (
                LotAcquistionKind::EpochReward { epoch: e1, slot: s1 },
                LotAcquistionKind::EpochReward { epoch: e2, slot: s2 },
            ) => *e1 == *e2 && *s1 == *s2,
            (
                LotAcquistionKind::Transaction { slot: s1, signature: g1 },
                LotAcquistionKind::Transaction { slot: s2, signature: g2 },
            ) => *s1 == *s2 && *g1 == *g2,
            (LotAcquistionKind::NotAvailable, LotAcquistionKind::NotAvailable) => true,
            _ => false,
        }
    }
}

impl PartialEqSpecImpl for LotAcquistionKind {
    open spec fn obeys_eq_spec() -> bool {
        true
    }

    open spec fn eq_spec(&self, other: &Self) -> bool {
        *self == *other
    }
}

/// When, at what price and how a lot was acquired. Two lots with the same
/// acquisition are interchangeable, and merging coalesces them.
#[derive(Clone, Copy, Debug, Eq)]
pub struct LotAcquistion {
    pub when: Date,
    pub price: Price,
    pub kind: LotAcquistionKind,
}

impl PartialEq for LotAcquistion {
    fn eq(&self, other: &Self) -> (r: bool) {
        self.when == other.when && self.price == other.price && self.kind == other.kind
    }
}

impl PartialEqSpecImpl for LotAcquistion {
    open spec fn obeys_eq_spec() -> bool {
        true
    }

    open spec fn eq_spec(&self, other: &Self) -> bool {
        *self == *other
    }
}

/// A quantity of the asset, in its smallest unit, with its acquisition.
#[derive(Clone, Copy, Debug, PartialEq, Eq)]
pub struct Lot {
    pub lot_number: usize,
    pub acquisition: LotAcquistion,
    pub amount: u64,
}

/// How a lot left the ledger.
#[derive(Debug, PartialEq, Eq)]
pub enum LotDisposalKind {
    /// Sold for USD by an order on an exchange.
    Usd { exchange: Exchange, pair: String, order_id: String },
}

/// What a [`LotDisposalKind`] is in contracts.
pub enum LotDisposalKindView {
    Usd { exchange: Exchange, pair: Seq<char>, order_id: Seq<char> },
}

impl View for LotDisposalKind {
    type V = LotDisposalKindView;

    open spec fn view(&self) -> LotDisposalKindView {
        match *self {
            LotDisposalKind::Usd { exchange, pair, order_id } => LotDisposalKindView::Usd {
                exchange,
                pair: pair@,
                order_id: order_id@,
            },
        }
    }
}

impl LotDisposalKindView {
    /// The disposal in words: the name of the exchange, the pair, and the id
    /// of the order.
    pub open spec fn description(self) -> Seq<char> {
        match self {
            LotDisposalKindView::Usd { exchange, pair, order_id } => exchange.name_of() + " "@
                + pair + ", order "@ + order_id,
        }
    }
}

impl LotDisposalKind {
    /// The disposal in words: the name of the exchange, the pair, and the id
    /// of the order.
    pub fn describe(&self) -> (text: String)
        ensures
            text@ == self@.description(),
    {
        match self {
            LotDisposalKind::Usd { exchange, pair, order_id } => {
                let mut text: String = exchange.name().to_owned();
                text.append(" ");
                text.append(pair.as_str());
                text.append(", order ");
                text.append(order_id.as_str());
                text
            },
        }
    }
}

impl Clone for LotDisposalKind {
    fn clone(&self) -> (copy: Self)
        ensures
            copy@ == self@,
    {
        match self {
            LotDisposalKind::Usd { exchange, pair, order_id } => LotDisposalKind::Usd {
                exchange: *exchange,
                pair: pair.clone(),
                order_id: order_id.clone(),
            },
        }
    }
}

/// The record of a sale: a lot, and when, at what price and how it was sold.
#[derive(Debug, PartialEq, Eq)]
pub struct DisposedLot {
    pub lot: Lot,
    pub when: Date,
    pub price: Price,
    pub kind: LotDisposalKind,
}

/// What a [`DisposedLot`] is in contracts.
pub struct DisposedLotView {
    pub lot: Lot,
    pub when: Date,
    pub price: Price,
    pub kind: LotDisposalKindView,
}

impl View for DisposedLot {
    type V = DisposedLotView;

    open spec fn view(&self) -> DisposedLotView {
        DisposedLotView { lot: self.lot, when: self.when, price: self.price, kind: self.kind@ }
    }
}

impl Clone for DisposedLot {
    fn clone(&self) -> (copy: Self)
        ensures
            copy@ == self@,
    {
        DisposedLot {
            lot: self.lot,
            when: self.when,
            price: self.price,
            kind: self.kind.clone(),
        }
    }
}

} // verus!
