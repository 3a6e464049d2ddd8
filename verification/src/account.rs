//! Tracked accounts and the two operations on their lots: extracting a
//! quantity and merging lots back in.

use vstd::prelude::*;
use crate::arithmetic::{
    acquisitions, checked_total, extract, extraction, lemma_merge_lot_quantity,
    lemma_quantity_push, merge, total_amount,
};
use crate::db::Db;
use crate::error::{DbError, DbErrorView, DbResult};
use crate::ident::Address;
use crate::lot::{Epoch, Lot};
use crate::search::{lemma_first_index_absent, lemma_first_index_found, Keyed};

verus! {

/// An account whose lots the ledger tracks.
#[derive(Debug, PartialEq, Eq)]
pub struct TrackedAccount {
    pub address: Address,
    pub description: String,
    pub last_update_epoch: Epoch,
    pub last_update_balance: u64,
    pub lots: Vec<Lot>,
}

/// What a [`TrackedAccount`] is in contracts.
pub struct AccountView {
    pub address: Address,
    pub description: Seq<char>,
    pub last_update_epoch: Epoch,
    pub last_update_balance: u64,
    pub lots: Seq<Lot>,
}

impl View for TrackedAccount {
    type V = AccountView;

    open spec fn view(&self) -> AccountView {
        AccountView {
            address: self.address,
            description: self.description@,
            last_update_epoch: self.last_update_epoch,
            last_update_balance: self.last_update_balance,
            lots: self.lots@,
        }
    }
}

impl AccountView {
    /// The balance identity: the lots of the account sum to its balance.
    pub open spec fn balanced(self) -> bool {
        total_amount(self.lots) == self.last_update_balance
    }

    /// The account after `amount` was extracted from it, where a lot that is
    /// split off gets the number `fresh`.
    pub open spec fn extracted(self, amount: u64, fresh: usize) -> AccountView {
        AccountView {
            lots: extraction(self.lots, amount as nat, fresh).kept,
            last_update_balance: (self.last_update_balance - amount) as u64,
            ..self
        }
    }

    /// The account after `incoming` lots were merged into it.
    pub open spec fn merged(self, incoming: Seq<Lot>) -> AccountView {
        AccountView {
            lots: merge(self.lots, incoming),
            last_update_balance: (self.last_update_balance + total_amount(incoming)) as u64,
            ..self
        }
    }
}

impl Keyed for TrackedAccount {
    type Key = Address;

    type Probe = Address;

    open spec fn key(&self) -> Address {
        self.address
    }

    open spec fn asked(probe: &Address) -> Address {
        *probe
    }

    fn has_key(&self, probe: &Address) -> (has: bool) {
        self.address == *probe
    }
}

/// A copy of `lots`.
pub fn copy_lots(lots: &Vec<Lot>) -> (copy: Vec<Lot>)
    ensures
        copy@ == lots@,
{
    let mut copy: Vec<Lot> = Vec::new();
    let mut i: usize = 0;
    while i < lots.len()
        invariant
            i <= lots.len(),
            copy@ == lots@.take(i as int),
        decreases lots.len() - i,
    {
        copy.push(lots[i]);
        assert(lots@.take(i + 1) =~= lots@.take(i as int).push(lots@[i as int]));
        i += 1;
    }
    assert(lots@.take(lots.len() as int) =~= lots@);
    copy
}

impl Clone for TrackedAccount {
    fn clone(&self) -> (copy: Self)
        ensures
            copy@ == self@,
    {
        TrackedAccount {
            address: self.address,
            description: self.description.clone(),
            last_update_epoch: self.last_update_epoch,
            last_update_balance: self.last_update_balance,
            lots: copy_lots(&self.lots),
        }
    }
}

impl TrackedAccount {
    /// The sum of the lots of an account that satisfies the balance identity.
    pub fn assert_lot_balance(&self) -> (lot_balance: u64)
        requires
            self@.balanced(),
        ensures
            lot_balance == self.last_update_balance,
            lot_balance == total_amount(self.lots@),
    {
        match checked_total(&self.lots, 0) {
            Some(lot_balance) => lot_balance,
            None => self.last_update_balance,
        }
    }

    /// Whether the account satisfies the balance identity.
    pub fn is_balanced(&self) -> (balanced: bool)
        ensures
            balanced == self@.balanced(),
    {
        match checked_total(&self.lots, 0) {
            Some(lot_balance) => lot_balance == self.last_update_balance,
            None => false,
        }
    }

    /// Whether `lots` can be merged into the account without its balance
    /// leaving the range of the machine's integers.
    pub fn can_merge(&self, lots: &Vec<Lot>) -> (fits: bool)
        ensures
            fits == (self.last_update_balance + total_amount(lots@) <= u64::MAX),
    {
        checked_total(lots, self.last_update_balance).is_some()
    }

    /// Takes `amount` out of the account and returns the lots that hold it.
    ///
    /// The lots are drawn from in the order of their dates, except that the
    /// earliest lot comes last. At most one lot is split; the part that
    /// leaves gets a new lot number from `db`. With less than `amount` in the
    /// account nothing changes.
    pub fn extract_lots(&mut self, db: &mut Db, amount: u64) -> (r: DbResult<Vec<Lot>>)
        requires
            old(self)@.balanced(),
            amount <= old(self).last_update_balance && extraction(
                old(self).lots@,
                amount as nat,
                old(db)@.next_lot_number,
            ).minted ==> old(db)@.next_lot_number < usize::MAX,
        ensures
            old(db).wf() ==> final(db).wf(),
            final(self)@.balanced(),
            old(self).last_update_balance < amount ==> {
                &&& r matches Err(e)
                &&& e@ == DbErrorView::AccountHasInsufficientBalance(old(self).address)
                &&& final(self)@ == old(self)@
                &&& final(db)@ == old(db)@
            },
            amount <= old(self).last_update_balance ==> {
                let drawn = extraction(old(self).lots@, amount as nat, old(db)@.next_lot_number);
                &&& r matches Ok(lots)
                &&& lots@ == drawn.taken
                &&& final(self)@ == old(self)@.extracted(amount, old(db)@.next_lot_number)
                &&& final(db)@ == if drawn.minted {
                    old(db)@.issue_lot_number()
                } else {
                    old(db)@
                }
            },
    {
        if self.last_update_balance < amount {
            return Err(DbError::AccountHasInsufficientBalance(self.address));
        }
        match extract(&self.lots, amount, db.peek_lot_number()) {
            Some((kept, taken, minted)) => {
                if minted {
                    db.next_lot_number();
                }
                self.lots = kept;
                self.last_update_balance = self.last_update_balance - amount;
                Ok(taken)
            },
            None => Err(DbError::AccountHasInsufficientBalance(self.address)),
        }
    }

    /// Puts `lots` into the account: each lot is added onto the first lot with
    /// the same acquisition, or else becomes a lot of the account with its own
    /// number. The balance grows by what came in.
    pub fn merge_lots(&mut self, lots: Vec<Lot>)
        requires
            old(self)@.balanced(),
            old(self).last_update_balance + total_amount(lots@) <= u64::MAX,
        ensures
            final(self)@ == old(self)@.merged(lots@),
            final(self)@.balanced(),
    {
        let mut k: usize = 0;
        assert(lots@.take(0) =~= Seq::<Lot>::empty());
        while k < lots.len()
            invariant
                k <= lots.len(),
                self@ == old(self)@.merged(lots@.take(k as int)),
                self@.balanced(),
                old(self).last_update_balance + total_amount(lots@) <= u64::MAX,
                total_amount(lots@.take(k as int)) <= total_amount(lots@),
            decreases lots.len() - k,
        {
            let lot = lots[k];
            proof {
                assert(lots@.take(k + 1).drop_last() =~= lots@.take(k as int));
                assert(lots@.take(k + 1) =~= lots@.take(k as int).push(lot));
                lemma_quantity_push(lots@.take(k as int), lot, None);
                assert(lots@ =~= lots@.take(k + 1) + lots@.skip(k + 1));
                crate::arithmetic::lemma_quantity_concat(
                    lots@.take(k + 1),
                    lots@.skip(k + 1),
                    None,
                );
                lemma_merge_lot_quantity(self.lots@, lot, None);
            }
            let mut i: usize = 0;
            while i < self.lots.len() && !(self.lots[i].acquisition == lot.acquisition)
                invariant
                    i <= self.lots.len(),
                    forall|j: int| 0 <= j < i ==> self.lots@[j].acquisition != lot.acquisition,
                decreases self.lots.len() - i,
            {
                i += 1;
            }
            if i < self.lots.len() {
                proof {
                    lemma_first_index_found(acquisitions(self.lots@), lot.acquisition, i as int);
                    crate::arithmetic::lemma_amount_within_total(self.lots@, i as int);
                }
                let existing = self.lots[i];
                self.lots.set(i, Lot { amount: existing.amount + lot.amount, ..existing });
            } else {
                proof {
                    lemma_first_index_absent(acquisitions(self.lots@), lot.acquisition);
                }
                self.lots.push(lot);
            }
            self.last_update_balance = self.last_update_balance + lot.amount;
            k += 1;
        }
        assert(lots@.take(lots.len() as int) =~= lots@);
    }
}

} // verus!
