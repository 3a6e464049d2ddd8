//! The ledger: the tracked accounts, the pending deposits and transfers, the
//! open orders and the disposed lots, with the operations that move lots
//! between them.
//!
//! The ledger lives in memory. Whoever owns it writes it to stable storage
//! when [`Db::save_due`] says so, and reports that with [`Db::saved`]. Every
//! operation asks for a save only when all the records it touches are
//! written, so that what is stored never shows half of a transition.

use vstd::prelude::*;
use crate::account::TrackedAccount;
use crate::arithmetic::extract;
use crate::error::{outcome, DbError, DbResult};
use crate::calendar::Date;
use crate::exchange::Exchange;
use crate::ident::{Address, Signature};
use crate::lot::{DisposedLot, Lot, LotDisposalKind, Price};
use crate::model::{
    addresses, deposit_at, deposit_signatures, deposits_at, disposals, order_at, order_ids,
    orders_at, sold_by, transfer_signatures, transitory_account, Ledger,
};
use crate::records::{
    OpenOrder, PendingDeposit, PendingTransfer, SweepStakeAccount, TransitorySweepStake,
};
use crate::laws::lemma_put_account_lookup;
use crate::search::{first_index_of, keys, lemma_first_index_of, lemma_remove_to_set, position};

verus! {

/// The views of `items`, item by item.
pub open spec fn views<T: View>(items: Seq<T>) -> Seq<T::V> {
    items.map_values(|item: T| item@)
}

/// A record of which a copy can be made.
pub trait Copied: View + Sized {
    /// A copy of the record.
    fn copied(&self) -> (copy: Self)
        ensures
            copy@ == self@,
    ;
}

impl Copied for TrackedAccount {
    fn copied(&self) -> (copy: Self) {
        self.clone()
    }
}

impl Copied for PendingTransfer {
    fn copied(&self) -> (copy: Self) {
        self.clone()
    }
}

impl Copied for OpenOrder {
    fn copied(&self) -> (copy: Self) {
        self.clone()
    }
}

impl Copied for DisposedLot {
    fn copied(&self) -> (copy: Self) {
        self.clone()
    }
}

/// A copy of each of the records, in their order.
pub fn copies<T: Copied>(items: &Vec<T>) -> (copy: Vec<T>)
    ensures
        views(copy@) == views(items@),
{
    let mut copy: Vec<T> = Vec::new();
    let mut i: usize = 0;
    assert(views(copy@) =~= views(items@).take(0));
    while i < items.len()
        invariant
            i <= items.len(),
            views(copy@) == views(items@).take(i as int),
        decreases items.len() - i,
    {
        let ghost so_far = views(copy@);
        let item = items[i].copied();
        copy.push(item);
        assert(views(copy@) =~= so_far.push(item@));
        assert(views(items@).take(i + 1) =~= views(items@).take(i as int).push(
            views(items@)[i as int],
        ));
        i += 1;
    }
    assert(views(items@).take(i as int) =~= views(items@));
    copy
}

/// The address of each transitory stake account.
pub open spec fn transitory_addresses(transitory: Seq<TransitorySweepStake>) -> Seq<Address> {
    transitory.map_values(|stake: TransitorySweepStake| stake.address)
}

/// The ledger.
pub struct Db {
    accounts: Vec<TrackedAccount>,
    deposits: Vec<PendingDeposit>,
    transfers: Vec<PendingTransfer>,
    orders: Vec<OpenOrder>,
    disposed_lots: Vec<DisposedLot>,
    next_lot_number: usize,
    sweep_stake_account: Option<SweepStakeAccount>,
    transitory: Vec<TransitorySweepStake>,
    save_due: bool,
}

impl View for Db {
    type V = Ledger;

    closed spec fn view(&self) -> Ledger {
        Ledger {
            accounts: views(self.accounts@),
            deposits: self.deposits@,
            transfers: views(self.transfers@),
            orders: views(self.orders@),
            disposed_lots: views(self.disposed_lots@),
            next_lot_number: self.next_lot_number,
            sweep_stake_account: match self.sweep_stake_account {
                Some(account) => Some(account@),
                None => None,
            },
            transitory_sweep_stake_addresses: transitory_addresses(self.transitory@).to_set(),
            save_due: self.save_due,
        }
    }
}

impl Db {
    /// The invariant of the ledger: every account satisfies the balance
    /// identity, no address is registered twice, and no transitory stake
    /// address is noted twice.
    pub closed spec fn wf(&self) -> bool {
        &&& self@.well_formed()
        &&& transitory_addresses(self.transitory@).no_duplicates()
    }

    /// The balance identity: in a ledger that satisfies its invariant, the
    /// lots of every account sum to its balance, and every address is the
    /// address of one account at most.
    pub proof fn law_balance_identity(&self)
        requires
            self.wf(),
        ensures
            self@.well_formed(),
    {
    }

    /// A ledger that holds nothing.
    pub fn new() -> (db: Db)
        ensures
            db.wf(),
            db@ == Ledger::empty(),
    {
        let db = Db {
            accounts: Vec::new(),
            deposits: Vec::new(),
            transfers: Vec::new(),
            orders: Vec::new(),
            disposed_lots: Vec::new(),
            next_lot_number: 0,
            sweep_stake_account: None,
            transitory: Vec::new(),
            save_due: false,
        };
        assert(db@.accounts =~= Seq::empty());
        assert(db@.transfers =~= Seq::empty());
        assert(db@.orders =~= Seq::empty());
        assert(db@.disposed_lots =~= Seq::empty());
        assert(db@.transitory_sweep_stake_addresses =~= Set::empty());
        db
    }

    /// Whether the ledger asks to be written to stable storage.
    pub fn save_due(&self) -> (due: bool)
        ensures
            due == self@.save_due,
    {
        self.save_due
    }

    /// Tells the ledger that it was written to stable storage.
    pub fn saved(&mut self)
        ensures
            final(self)@ == old(self)@.saved(),
            old(self).wf() ==> final(self).wf(),
    {
        self.save_due = false;
    }

    /// Asks for the ledger to be written to stable storage.
    fn save(&mut self)
        ensures
            final(self)@ == old(self)@.save(),
            old(self).wf() ==> final(self).wf(),
    {
        self.save_due = true;
    }

    /// Issues the next lot number. Each number is issued once.
    pub fn next_lot_number(&mut self) -> (lot_number: usize)
        requires
            old(self)@.next_lot_number < usize::MAX,
        ensures
            lot_number == old(self)@.next_lot_number,
            final(self)@ == old(self)@.issue_lot_number(),
            old(self).wf() ==> final(self).wf(),
    {
        let lot_number = self.next_lot_number;
        self.next_lot_number = lot_number + 1;
        lot_number
    }

    /// Where the account with `address` stands among the accounts.
    fn get_account_position(&self, address: Address) -> (found: Option<usize>)
        ensures
            match found {
                Some(i) => self@.account_index(address) == Some(i as int) && i
                    < self.accounts.len(),
                None => self@.account_index(address) is None,
            },
    {
        assert(addresses(self@.accounts) =~= keys(self.accounts@));
        position(&self.accounts, &address)
    }

    /// The account with `address`, if it is registered.
    pub fn get_account(&self, address: Address) -> (account: Option<TrackedAccount>)
        ensures
            match account {
                Some(account) => self@.account(address) == Some(account@),
                None => self@.account(address) is None,
            },
    {
        match self.get_account_position(address) {
            Some(i) => Some(self.accounts[i].clone()),
            None => None,
        }
    }

    /// Registers `account`, unless its address is registered already. Asks
    /// for no save.
    pub fn add_account_no_save(&mut self, account: TrackedAccount) -> (r: DbResult<()>)
        requires
            old(self).wf(),
            account@.balanced(),
        ensures
            final(self).wf(),
            final(self)@ == old(self)@.add_account_no_save(account@).after,
            outcome(r) == old(self)@.add_account_no_save(account@).outcome,
    {
        if self.get_account_position(account.address).is_some() {
            Err(DbError::AccountAlreadyExists(account.address))
        } else {
            proof {
                lemma_first_index_of(addresses(self@.accounts), account.address);
            }
            self.accounts.push(account);
            assert(self@.accounts =~= old(self)@.accounts.push(account@));
            assert(addresses(self@.accounts) =~= addresses(old(self)@.accounts).push(
                account.address,
            ));
            Ok(())
        }
    }

    /// Registers `account` and asks for a save, unless its address is
    /// registered already.
    pub fn add_account(&mut self, account: TrackedAccount) -> (r: DbResult<()>)
        requires
            old(self).wf(),
            account@.balanced(),
        ensures
            final(self).wf(),
            final(self)@ == old(self)@.add_account(account@).after,
            outcome(r) == old(self)@.add_account(account@).outcome,
    {
        match self.add_account_no_save(account) {
            Ok(()) => {
                self.save();
                Ok(())
            },
            Err(e) => Err(e),
        }
    }

    /// Replaces the account that has the address of `account` by `account`,
    /// which then stands behind the other accounts, and asks for a save.
    pub fn update_account(&mut self, account: TrackedAccount) -> (r: DbResult<()>)
        requires
            old(self).wf(),
            account@.balanced(),
        ensures
            final(self).wf(),
            final(self)@ == old(self)@.update_account(account@).after,
            outcome(r) == old(self)@.update_account(account@).outcome,
    {
        match self.get_account_position(account.address) {
            None => Err(DbError::AccountDoesNotExist(account.address)),
            Some(position) => {
                proof {
                    lemma_first_index_of(addresses(self@.accounts), account.address);
                }
                self.accounts.remove(position);
                self.accounts.push(account);
                assert(self@.accounts =~= old(self)@.accounts.remove(position as int).push(
                    account@,
                ));
                proof {
                    lemma_put_account_lookup(old(self)@, position as int, account@, self@);
                }
                self.save();
                Ok(())
            },
        }
    }

    /// Takes the account with `address` out of the ledger. Asks for no save.
    fn remove_account_no_save(&mut self, address: Address) -> (r: DbResult<()>)
        requires
            old(self).wf(),
        ensures
            final(self).wf(),
            final(self)@ == old(self)@.remove_account_no_save(address).after,
            outcome(r) == old(self)@.remove_account_no_save(address).outcome,
    {
        match self.get_account_position(address) {
            None => Err(DbError::AccountDoesNotExist(address)),
            Some(position) => {
                proof {
                    lemma_remove_to_set(addresses(self@.accounts), position as int);
                }
                self.accounts.remove(position);
                assert(self@.accounts =~= old(self)@.accounts.remove(position as int));
                assert(addresses(self@.accounts) =~= addresses(old(self)@.accounts).remove(
                    position as int,
                ));
                Ok(())
            },
        }
    }

    /// Takes the account with `address` out of the ledger and asks for a
    /// save.
    pub fn remove_account(&mut self, address: Address) -> (r: DbResult<()>)
        requires
            old(self).wf(),
        ensures
            final(self).wf(),
            final(self)@ == old(self)@.remove_account(address).after,
            outcome(r) == old(self)@.remove_account(address).outcome,
    {
        match self.remove_account_no_save(address) {
            Ok(()) => {
                self.save();
                Ok(())
            },
            Err(e) => Err(e),
        }
    }
}

/// Where the first transfer with `signature` stands.
fn transfer_position(transfers: &Vec<PendingTransfer>, signature: Signature) -> (found: Option<
    usize,
>)
    ensures
        match found {
            Some(i) => first_index_of(transfer_signatures(views(transfers@)), signature) == Some(
                i as int,
            ) && i < transfers.len(),
            None => first_index_of(transfer_signatures(views(transfers@)), signature) is None,
        },
{
    assert(transfer_signatures(views(transfers@)) =~= keys(transfers@));
    position(transfers, &signature)
}

impl Db {
    /// Records a transfer of `amount`, or of the whole balance where no amount
    /// is given, from one tracked account to another. The lots leave the
    /// sender and are held by a pending transfer until it is resolved.
    pub fn record_transfer(
        &mut self,
        signature: Signature,
        from_address: Address,
        amount: Option<u64>,
        to_address: Address,
    ) -> (r: DbResult<()>)
        requires
            old(self).wf(),
            old(self)@.record_transfer_mints(from_address, amount, to_address) ==> old(
                self,
            )@.next_lot_number < usize::MAX,
        ensures
            final(self).wf(),
            final(self)@ == old(self)@.record_transfer(
                signature,
                from_address,
                amount,
                to_address,
            ).after,
            outcome(r) == old(self)@.record_transfer(
                signature,
                from_address,
                amount,
                to_address,
            ).outcome,
    {
        proof {
            lemma_first_index_of(addresses(self@.accounts), from_address);
        }
        let mut from_account = match self.get_account(from_address) {
            Some(account) => account,
            None => {
                return Err(DbError::AccountDoesNotExist(from_address));
            },
        };
        if self.get_account_position(to_address).is_none() {
            return Err(DbError::AccountDoesNotExist(to_address));
        }
        let wanted = match amount {
            Some(amount) => amount,
            None => from_account.last_update_balance,
        };
        let lots = match from_account.extract_lots(self, wanted) {
            Ok(lots) => lots,
            Err(e) => {
                return Err(e);
            },
        };
        let ghost numbered = self@;
        let transfer = PendingTransfer { signature, from_address, to_address, lots };
        self.transfers.push(transfer);
        assert(self@.transfers =~= numbered.transfers.push(transfer@));
        self.update_account(from_account)
    }

    /// Resolves the first pending transfer with `signature`: on success its
    /// lots are merged into the recipient, else back into the sender. Where
    /// the sender or the recipient is not registered, the transfer is refused
    /// and stays pending.
    fn complete_transfer(&mut self, signature: Signature, success: bool) -> (r: DbResult<()>)
        requires
            old(self).wf(),
            old(self)@.transfer_fits(signature, success),
        ensures
            final(self).wf(),
            final(self)@ == old(self)@.complete_transfer(signature, success).after,
            outcome(r) == old(self)@.complete_transfer(signature, success).outcome,
    {
        let i = match transfer_position(&self.transfers, signature) {
            Some(i) => i,
            None => {
                return Err(DbError::PendingTransferDoesNotExist(signature));
            },
        };
        let from_address = self.transfers[i].from_address;
        let to_address = self.transfers[i].to_address;
        proof {
            lemma_first_index_of(addresses(self@.accounts), from_address);
            lemma_first_index_of(addresses(self@.accounts), to_address);
        }
        let mut from_account = match self.get_account(from_address) {
            Some(account) => account,
            None => {
                return Err(DbError::AccountDoesNotExist(from_address));
            },
        };
        let mut to_account = match self.get_account(to_address) {
            Some(account) => account,
            None => {
                return Err(DbError::AccountDoesNotExist(to_address));
            },
        };
        let transfer = self.transfers.remove(i);
        assert(self@.transfers =~= old(self)@.transfers.remove(i as int));
        if from_address == to_address {
            from_account.merge_lots(transfer.lots);
            self.update_account(from_account)
        } else {
            if success {
                to_account.merge_lots(transfer.lots);
            } else {
                from_account.merge_lots(transfer.lots);
            }
            match self.update_account(to_account) {
                Ok(()) => self.update_account(from_account),
                Err(e) => Err(e),
            }
        }
    }

    /// Resolves the pending transfer with `signature` as failed: its lots go
    /// back to the sender.
    pub fn cancel_transfer(&mut self, signature: Signature) -> (r: DbResult<()>)
        requires
            old(self).wf(),
            old(self)@.transfer_fits(signature, false),
        ensures
            final(self).wf(),
            final(self)@ == old(self)@.complete_transfer(signature, false).after,
            outcome(r) == old(self)@.complete_transfer(signature, false).outcome,
    {
        self.complete_transfer(signature, false)
    }

    /// Resolves the pending transfer with `signature` as done: its lots go to
    /// the recipient.
    pub fn confirm_transfer(&mut self, signature: Signature) -> (r: DbResult<()>)
        requires
            old(self).wf(),
            old(self)@.transfer_fits(signature, true),
        ensures
            final(self).wf(),
            final(self)@ == old(self)@.complete_transfer(signature, true).after,
            outcome(r) == old(self)@.complete_transfer(signature, true).outcome,
    {
        self.complete_transfer(signature, true)
    }

    /// The pending transfers, oldest first.
    pub fn pending_transfers(&self) -> (transfers: Vec<PendingTransfer>)
        ensures
            views(transfers@) == self@.transfers,
    {
        copies(&self.transfers)
    }
}

/// Where the first deposit with `signature` stands.
fn deposit_position(deposits: &Vec<PendingDeposit>, signature: Signature) -> (found: Option<usize>)
    ensures
        match found {
            Some(i) => first_index_of(deposit_signatures(deposits@), signature) == Some(i as int)
                && i < deposits.len(),
            None => first_index_of(deposit_signatures(deposits@), signature) is None,
        },
{
    assert(deposit_signatures(deposits@) =~= keys(deposits@));
    position(deposits, &signature)
}

impl Db {
    /// Records a deposit of `amount` from a tracked account to the deposit
    /// account of `exchange`: the quantity is transferred under the
    /// signature, and the deposit is noted. Where the transfer is refused,
    /// nothing is noted.
    pub fn record_deposit(
        &mut self,
        signature: Signature,
        from_address: Address,
        amount: u64,
        exchange: Exchange,
        deposit_address: Address,
    ) -> (r: DbResult<()>)
        requires
            old(self).wf(),
            old(self)@.record_transfer_mints(from_address, Some(amount), deposit_address) ==> old(
                self,
            )@.next_lot_number < usize::MAX,
        ensures
            final(self).wf(),
            final(self)@ == old(self)@.record_deposit(
                signature,
                from_address,
                amount,
                exchange,
                deposit_address,
            ).after,
            outcome(r) == old(self)@.record_deposit(
                signature,
                from_address,
                amount,
                exchange,
                deposit_address,
            ).outcome,
    {
        match self.record_transfer(signature, from_address, Some(amount), deposit_address) {
            Ok(()) => {
                self.deposits.push(PendingDeposit { signature, exchange, amount });
                Ok(())
            },
            Err(e) => Err(e),
        }
    }

    /// Resolves the first pending deposit with `signature`: the transfer that
    /// carries its lots is resolved, and the deposit is taken off the notes.
    /// Where the transfer is refused, the deposit stays pending.
    fn complete_deposit(&mut self, signature: Signature, success: bool) -> (r: DbResult<()>)
        requires
            old(self).wf(),
            old(self)@.transfer_fits(signature, success),
        ensures
            final(self).wf(),
            final(self)@ == old(self)@.complete_deposit(signature, success).after,
            outcome(r) == old(self)@.complete_deposit(signature, success).outcome,
    {
        let i = match deposit_position(&self.deposits, signature) {
            Some(i) => i,
            None => {
                return Err(DbError::PendingDepositDoesNotExist(signature));
            },
        };
        match self.complete_transfer(signature, success) {
            Ok(()) => {
                self.deposits.remove(i);
                Ok(())
            },
            Err(e) => Err(e),
        }
    }

    /// Resolves the pending deposit with `signature` as failed: its lots go
    /// back to the account they came from.
    pub fn cancel_deposit(&mut self, signature: Signature) -> (r: DbResult<()>)
        requires
            old(self).wf(),
            old(self)@.transfer_fits(signature, false),
        ensures
            final(self).wf(),
            final(self)@ == old(self)@.complete_deposit(signature, false).after,
            outcome(r) == old(self)@.complete_deposit(signature, false).outcome,
    {
        self.complete_deposit(signature, false)
    }

    /// Resolves the pending deposit with `signature` as done: its lots go to
    /// the deposit account of the exchange.
    pub fn confirm_deposit(&mut self, signature: Signature) -> (r: DbResult<()>)
        requires
            old(self).wf(),
            old(self)@.transfer_fits(signature, true),
        ensures
            final(self).wf(),
            final(self)@ == old(self)@.complete_deposit(signature, true).after,
            outcome(r) == old(self)@.complete_deposit(signature, true).outcome,
    {
        self.complete_deposit(signature, true)
    }

    /// The pending deposits at `exchange`, or all of them where no exchange is
    /// given, oldest first.
    pub fn pending_deposits(&self, exchange: Option<Exchange>) -> (deposits: Vec<PendingDeposit>)
        ensures
            deposits@ == deposits_at(self@.deposits, exchange),
    {
        let mut deposits: Vec<PendingDeposit> = Vec::new();
        let mut i: usize = 0;
        assert(self.deposits@.take(0) =~= Seq::empty());
        assert(deposits_at(Seq::empty(), exchange) =~= Seq::empty()) by {
            reveal(Seq::filter);
        }
        while i < self.deposits.len()
            invariant
                i <= self.deposits.len(),
                deposits@ == deposits_at(self.deposits@.take(i as int), exchange),
            decreases self.deposits.len() - i,
        {
            let deposit = self.deposits[i];
            proof {
                assert(self.deposits@.take(i + 1) =~= self.deposits@.take(i as int).push(deposit));
                self.deposits@.take(i as int).lemma_filter_push(deposit, deposit_at(exchange));
            }
            let wanted = match exchange {
                Some(exchange) => deposit.exchange == exchange,
                None => true,
            };
            if wanted {
                deposits.push(deposit);
            }
            i += 1;
        }
        assert(self.deposits@.take(i as int) =~= self.deposits@);
        deposits
    }
}

/// Where the first order with `order_id` stands.
fn order_position(orders: &Vec<OpenOrder>, order_id: &String) -> (found: Option<usize>)
    ensures
        match found {
            Some(i) => first_index_of(order_ids(views(orders@)), order_id@) == Some(i as int) && i
                < orders.len(),
            None => first_index_of(order_ids(views(orders@)), order_id@) is None,
        },
{
    assert(order_ids(views(orders@)) =~= keys(orders@));
    position(orders, order_id)
}

/// Adds to `disposed` the record of the sale of each lot of `order`.
fn dispose(disposed: &mut Vec<DisposedLot>, order: &OpenOrder, price: Price, when: Date)
    ensures
        views(final(disposed)@) == views(old(disposed)@) + disposals(
            order@.lots,
            when,
            price,
            sold_by(order@),
        ),
{
    let ghost before = views(disposed@);
    let ghost kind = sold_by(order@);
    let mut k: usize = 0;
    assert(views(disposed@) =~= before + disposals(order.lots@.take(0), when, price, kind));
    while k < order.lots.len()
        invariant
            k <= order.lots.len(),
            kind == sold_by(order@),
            views(disposed@) == before + disposals(order.lots@.take(k as int), when, price, kind),
        decreases order.lots.len() - k,
    {
        let ghost so_far = views(disposed@);
        let sold = DisposedLot {
            lot: order.lots[k],
            when,
            price,
            kind: LotDisposalKind::Usd {
                exchange: order.exchange,
                pair: order.pair.clone(),
                order_id: order.order_id.clone(),
            },
        };
        disposed.push(sold);
        assert(views(disposed@) =~= so_far.push(sold@));
        assert(disposals(order.lots@.take(k + 1), when, price, kind) =~= disposals(
            order.lots@.take(k as int),
            when,
            price,
            kind,
        ).push(sold@));
        assert(so_far.push(sold@) =~= before + disposals(
            order.lots@.take(k + 1),
            when,
            price,
            kind,
        ));
        k += 1;
    }
    assert(order.lots@.take(k as int) =~= order.lots@);
}

impl Db {
    /// Records an order for `lots`, which the caller has extracted from
    /// `deposit_account` already: the order is noted, and the account is
    /// stored as it is handed in. Where no account with its address is
    /// registered, the order is refused and nothing is noted.
    pub fn record_order(
        &mut self,
        deposit_account: TrackedAccount,
        exchange: Exchange,
        pair: String,
        order_id: String,
        lots: Vec<Lot>,
    ) -> (r: DbResult<()>)
        requires
            old(self).wf(),
            deposit_account@.balanced(),
        ensures
            final(self).wf(),
            final(self)@ == old(self)@.record_order(
                deposit_account@,
                exchange,
                pair@,
                order_id@,
                lots@,
            ).after,
            outcome(r) == old(self)@.record_order(
                deposit_account@,
                exchange,
                pair@,
                order_id@,
                lots@,
            ).outcome,
    {
        if self.get_account_position(deposit_account.address).is_none() {
            return Err(DbError::AccountDoesNotExist(deposit_account.address));
        }
        let order = OpenOrder {
            exchange,
            pair,
            order_id,
            lots,
            deposit_address: deposit_account.address,
        };
        self.orders.push(order);
        assert(self@.orders =~= old(self)@.orders.push(order@));
        self.update_account(deposit_account)
    }

    /// Resolves the first open order with `order_id`. Filled at a price on a
    /// date, each of its lots becomes a disposed lot. Cancelled, its lots are
    /// merged back into the deposit account; where that account is not
    /// registered, the cancellation is refused and the order stays open.
    fn complete_order(&mut self, order_id: &str, filled: Option<(Price, Date)>) -> (r: DbResult<
        (),
    >)
        requires
            old(self).wf(),
            filled is None ==> old(self)@.order_fits(order_id@),
        ensures
            final(self).wf(),
            final(self)@ == old(self)@.complete_order(order_id@, filled).after,
            outcome(r) == old(self)@.complete_order(order_id@, filled).outcome,
    {
        let order_id: String = order_id.to_owned();
        let i = match order_position(&self.orders, &order_id) {
            Some(i) => i,
            None => {
                return Err(DbError::OpenOrderDoesNotExist(order_id));
            },
        };
        match filled {
            Some((price, when)) => {
                let order = self.orders.remove(i);
                assert(self@.orders =~= old(self)@.orders.remove(i as int));
                dispose(&mut self.disposed_lots, &order, price, when);
                self.save();
                Ok(())
            },
            None => {
                let deposit_address = self.orders[i].deposit_address;
                proof {
                    lemma_first_index_of(addresses(self@.accounts), deposit_address);
                }
                let mut deposit_account = match self.get_account(deposit_address) {
                    Some(account) => account,
                    None => {
                        return Err(DbError::AccountDoesNotExist(deposit_address));
                    },
                };
                let order = self.orders.remove(i);
                assert(self@.orders =~= old(self)@.orders.remove(i as int));
                deposit_account.merge_lots(order.lots);
                self.update_account(deposit_account)
            },
        }
    }

    /// Resolves the open order with `order_id` as cancelled: its lots go back
    /// to the deposit account.
    pub fn cancel_order(&mut self, order_id: &str) -> (r: DbResult<()>)
        requires
            old(self).wf(),
            old(self)@.order_fits(order_id@),
        ensures
            final(self).wf(),
            final(self)@ == old(self)@.complete_order(order_id@, None).after,
            outcome(r) == old(self)@.complete_order(order_id@, None).outcome,
    {
        self.complete_order(order_id, None)
    }

    /// Resolves the open order with `order_id` as filled at `price` on the
    /// date `when`: each of its lots becomes a disposed lot.
    pub fn confirm_order(&mut self, order_id: &str, price: Price, when: Date) -> (r: DbResult<()>)
        requires
            old(self).wf(),
        ensures
            final(self).wf(),
            final(self)@ == old(self)@.complete_order(order_id@, Some((price, when))).after,
            outcome(r) == old(self)@.complete_order(order_id@, Some((price, when))).outcome,
    {
        self.complete_order(order_id, Some((price, when)))
    }

    /// The open orders at `exchange`, or all of them where no exchange is
    /// given, oldest first.
    pub fn open_orders(&self, exchange: Option<Exchange>) -> (orders: Vec<OpenOrder>)
        ensures
            views(orders@) == orders_at(self@.orders, exchange),
    {
        let mut orders: Vec<OpenOrder> = Vec::new();
        let mut i: usize = 0;
        assert(self@.orders.take(0) =~= Seq::empty());
        assert(orders_at(Seq::empty(), exchange) =~= Seq::empty()) by {
            reveal(Seq::filter);
        }
        assert(views(orders@) =~= Seq::empty());
        while i < self.orders.len()
            invariant
                i <= self.orders.len(),
                views(orders@) == orders_at(self@.orders.take(i as int), exchange),
            decreases self.orders.len() - i,
        {
            let ghost so_far = views(orders@);
            let order = self.orders[i].clone();
            proof {
                assert(self@.orders.take(i + 1) =~= self@.orders.take(i as int).push(order@));
                self@.orders.take(i as int).lemma_filter_push(order@, order_at(exchange));
            }
            let wanted = match exchange {
                Some(exchange) => order.exchange == exchange,
                None => true,
            };
            if wanted {
                orders.push(order);
                assert(views(orders@) =~= so_far.push(order@));
            }
            i += 1;
        }
        assert(self@.orders.take(i as int) =~= self@.orders);
        orders
    }

    /// The disposed lots, in the order in which they were sold.
    pub fn disposed_lots(&self) -> (disposed: Vec<DisposedLot>)
        ensures
            views(disposed@) == self@.disposed_lots,
    {
        copies(&self.disposed_lots)
    }

    /// The tracked accounts, in the order in which they were last written.
    pub fn get_accounts(&self) -> (accounts: Vec<TrackedAccount>)
        ensures
            views(accounts@) == self@.accounts,
    {
        copies(&self.accounts)
    }
}

/// Where `address` stands among the transitory stake addresses.
fn transitory_position(transitory: &Vec<TransitorySweepStake>, address: Address) -> (found: Option<
    usize,
>)
    ensures
        match found {
            Some(i) => i < transitory.len() && transitory_addresses(transitory@)[i as int]
                == address,
            None => !transitory_addresses(transitory@).to_set().contains(address),
        },
{
    assert(transitory_addresses(transitory@) =~= keys(transitory@));
    proof {
        lemma_first_index_of(transitory_addresses(transitory@), address);
    }
    position(transitory, &address)
}

impl Db {
    /// The sweep stake account, if one is named.
    pub fn get_sweep_stake_account(&self) -> (account: Option<SweepStakeAccount>)
        ensures
            match account {
                Some(account) => self@.sweep_stake_account == Some(account@),
                None => self@.sweep_stake_account is None,
            },
    {
        match &self.sweep_stake_account {
            Some(account) => Some(account.clone()),
            None => None,
        }
    }

    /// Names the sweep stake account, which must be a registered account, and
    /// asks for a save.
    pub fn set_sweep_stake_account(&mut self, sweep_stake_account: SweepStakeAccount) -> (r:
        DbResult<()>)
        requires
            old(self).wf(),
        ensures
            final(self).wf(),
            final(self)@ == old(self)@.set_sweep_stake_account(sweep_stake_account@).after,
            outcome(r) == old(self)@.set_sweep_stake_account(sweep_stake_account@).outcome,
    {
        if self.get_account_position(sweep_stake_account.address).is_none() {
            return Err(DbError::AccountDoesNotExist(sweep_stake_account.address));
        }
        self.sweep_stake_account = Some(sweep_stake_account);
        self.save();
        Ok(())
    }

    /// The transitory stake addresses, each once, in no particular order.
    pub fn get_transitory_sweep_stake_addresses(&self) -> (found: Vec<Address>)
        requires
            self.wf(),
        ensures
            found@.to_set() == self@.transitory_sweep_stake_addresses,
            found@.no_duplicates(),
    {
        let mut found: Vec<Address> = Vec::new();
        let mut i: usize = 0;
        assert(found@ =~= transitory_addresses(self.transitory@).take(0));
        while i < self.transitory.len()
            invariant
                i <= self.transitory.len(),
                found@ == transitory_addresses(self.transitory@).take(i as int),
            decreases self.transitory.len() - i,
        {
            found.push(self.transitory[i].address);
            assert(found@ =~= transitory_addresses(self.transitory@).take(i + 1));
            i += 1;
        }
        assert(found@ =~= transitory_addresses(self.transitory@));
        found
    }

    /// Notes `address` as a transitory stake address, asks for a save, and
    /// registers an empty account for it. The note is kept also where an
    /// account with that address exists already.
    pub fn add_transitory_sweep_stake_address(
        &mut self,
        address: Address,
        current_epoch: crate::lot::Epoch,
    ) -> (r: DbResult<()>)
        requires
            old(self).wf(),
        ensures
            final(self).wf(),
            final(self)@ == old(self)@.add_transitory_sweep_stake_address(
                address,
                current_epoch,
            ).after,
            outcome(r) == old(self)@.add_transitory_sweep_stake_address(
                address,
                current_epoch,
            ).outcome,
    {
        if transitory_position(&self.transitory, address).is_some() {
            return Err(DbError::AccountAlreadyExists(address));
        }
        proof {
            transitory_addresses(self.transitory@).lemma_push_to_set_commute(address);
        }
        self.transitory.push(TransitorySweepStake { address });
        assert(transitory_addresses(self.transitory@) =~= transitory_addresses(
            old(self).transitory@,
        ).push(address));
        self.save();
        let account = TrackedAccount {
            address,
            description: "Transitory stake account".to_owned(),
            last_update_epoch: current_epoch,
            last_update_balance: 0,
            lots: Vec::new(),
        };
        assert(account@ == transitory_account(address, current_epoch));
        self.add_account_no_save(account)
    }

    /// Takes the account with `address` out of the ledger, if there is one,
    /// and then `address` off the transitory stake addresses, asking for a
    /// save. The account stays out also where the address was not noted.
    pub fn remove_transitory_sweep_stake_address(&mut self, address: Address) -> (r: DbResult<
        (),
    >)
        requires
            old(self).wf(),
        ensures
            final(self).wf(),
            final(self)@ == old(self)@.remove_transitory_sweep_stake_address(address).after,
            outcome(r) == old(self)@.remove_transitory_sweep_stake_address(address).outcome,
    {
        let _ = self.remove_account_no_save(address);
        let ghost noted = transitory_addresses(self.transitory@);
        match transitory_position(&self.transitory, address) {
            None => Err(DbError::AccountDoesNotExist(address)),
            Some(i) => {
                proof {
                    lemma_remove_to_set(noted, i as int);
                }
                self.transitory.remove(i);
                assert(transitory_addresses(self.transitory@) =~= noted.remove(i as int));
                self.save();
                Ok(())
            },
        }
    }
}

impl Db {
    /// The number that the next new lot gets. Issues nothing.
    pub fn peek_lot_number(&self) -> (lot_number: usize)
        ensures
            lot_number == self@.next_lot_number,
    {
        self.next_lot_number
    }

    /// Whether recording this transfer splits a lot, and so issues a lot
    /// number.
    pub fn record_transfer_mints(
        &self,
        from_address: Address,
        amount: Option<u64>,
        to_address: Address,
    ) -> (mints: bool)
        requires
            self.wf(),
        ensures
            mints == self@.record_transfer_mints(from_address, amount, to_address),
    {
        proof {
            lemma_first_index_of(addresses(self@.accounts), from_address);
        }
        let from = match self.get_account_position(from_address) {
            Some(i) => &self.accounts[i],
            None => {
                return false;
            },
        };
        if self.get_account_position(to_address).is_none() {
            return false;
        }
        let wanted = match amount {
            Some(amount) => amount,
            None => from.last_update_balance,
        };
        match extract(&from.lots, wanted, self.next_lot_number) {
            Some((_, _, minted)) => minted,
            None => false,
        }
    }

    /// Whether the pending transfer with `signature` can be resolved without
    /// a balance leaving the range of the machine's integers.
    pub fn transfer_fits(&self, signature: Signature, success: bool) -> (fits: bool)
        ensures
            fits == self@.transfer_fits(signature, success),
    {
        match transfer_position(&self.transfers, signature) {
            None => true,
            Some(i) => {
                let transfer = &self.transfers[i];
                proof {
                    lemma_first_index_of(addresses(self@.accounts), transfer.from_address);
                    lemma_first_index_of(addresses(self@.accounts), transfer.to_address);
                }
                match (
                    self.get_account_position(transfer.from_address),
                    self.get_account_position(transfer.to_address),
                ) {
                    (Some(from), Some(to)) => {
                        if success {
                            self.accounts[to].can_merge(&transfer.lots)
                        } else {
                            self.accounts[from].can_merge(&transfer.lots)
                        }
                    },
                    _ => true,
                }
            },
        }
    }

    /// Whether the open order with `order_id` can be cancelled without a
    /// balance leaving the range of the machine's integers.
    pub fn order_fits(&self, order_id: &str) -> (fits: bool)
        ensures
            fits == self@.order_fits(order_id@),
    {
        let order_id: String = order_id.to_owned();
        match order_position(&self.orders, &order_id) {
            None => true,
            Some(i) => {
                let order = &self.orders[i];
                proof {
                    lemma_first_index_of(addresses(self@.accounts), order.deposit_address);
                }
                match self.get_account_position(order.deposit_address) {
                    Some(at) => self.accounts[at].can_merge(&order.lots),
                    None => true,
                }
            },
        }
    }

    /// A ledger that holds the given records, as they were read from stable
    /// storage, and asks for no save. Transitory stake addresses that occur
    /// more than once are noted once. There is no such ledger where an
    /// account does not satisfy the balance identity or two accounts have one
    /// address.
    pub fn restore(
        accounts: Vec<TrackedAccount>,
        deposits: Vec<PendingDeposit>,
        transfers: Vec<PendingTransfer>,
        orders: Vec<OpenOrder>,
        disposed_lots: Vec<DisposedLot>,
        next_lot_number: usize,
        sweep_stake_account: Option<SweepStakeAccount>,
        transitory: Vec<TransitorySweepStake>,
    ) -> (db: Option<Db>)
        ensures
            db is Some <==> (forall|i: int|
                0 <= i < accounts.len() ==> (#[trigger] accounts@[i])@.balanced()) && addresses(
                views(accounts@),
            ).no_duplicates(),
            db matches Some(db) ==> db.wf() && db@ == (Ledger {
                accounts: views(accounts@),
                deposits: deposits@,
                transfers: views(transfers@),
                orders: views(orders@),
                disposed_lots: views(disposed_lots@),
                next_lot_number,
                sweep_stake_account: match sweep_stake_account {
                    Some(account) => Some(account@),
                    None => None,
                },
                transitory_sweep_stake_addresses: transitory_addresses(transitory@).to_set(),
                save_due: false,
            }),
    {
        let mut i: usize = 0;
        while i < accounts.len()
            invariant
                i <= accounts.len(),
                forall|j: int| 0 <= j < i ==> (#[trigger] accounts@[j])@.balanced(),
            decreases accounts.len() - i,
        {
            if !accounts[i].is_balanced() {
                return None;
            }
            i += 1;
        }
        if !addresses_differ(&accounts) {
            return None;
        }
        let mut noted: Vec<TransitorySweepStake> = Vec::new();
        let mut k: usize = 0;
        assert(transitory_addresses(noted@).to_set() =~= transitory_addresses(
            transitory@.take(0),
        ).to_set());
        while k < transitory.len()
            invariant
                k <= transitory.len(),
                transitory_addresses(noted@).no_duplicates(),
                transitory_addresses(noted@).to_set() == transitory_addresses(
                    transitory@.take(k as int),
                ).to_set(),
            decreases transitory.len() - k,
        {
            let stake = transitory[k];
            proof {
                assert(transitory_addresses(transitory@.take(k + 1)) =~= transitory_addresses(
                    transitory@.take(k as int),
                ).push(stake.address));
                transitory_addresses(transitory@.take(k as int)).lemma_push_to_set_commute(
                    stake.address,
                );
                transitory_addresses(noted@).lemma_push_to_set_commute(stake.address);
            }
            if transitory_position(&noted, stake.address).is_none() {
                let ghost before = transitory_addresses(noted@);
                noted.push(stake);
                assert(transitory_addresses(noted@) =~= before.push(stake.address));
                assert(forall|j: int| 0 <= j < before.len() ==> before[j] != stake.address) by {
                    assert forall|j: int| 0 <= j < before.len() implies before[j]
                        != stake.address by {
                        assert(before.to_set().contains(before[j]));
                    }
                }
            } else {
                assert(transitory_addresses(noted@).to_set().insert(stake.address)
                    =~= transitory_addresses(noted@).to_set());
            }
            k += 1;
        }
        assert(transitory@.take(k as int) =~= transitory@);
        let db = Db {
            accounts,
            deposits,
            transfers,
            orders,
            disposed_lots,
            next_lot_number,
            sweep_stake_account,
            transitory: noted,
            save_due: false,
        };
        assert forall|i: int| 0 <= i < db@.accounts.len() implies (#[trigger] db@.accounts[i])
            .balanced() by {
            assert(db@.accounts[i] == accounts@[i]@);
        }
        Some(db)
    }
}

/// Whether no two of the accounts have one address.
fn addresses_differ(accounts: &Vec<TrackedAccount>) -> (differ: bool)
    ensures
        differ == addresses(views(accounts@)).no_duplicates(),
{
    let ghost listed = addresses(views(accounts@));
    let mut i: usize = 0;
    while i < accounts.len()
        invariant
            i <= accounts.len(),
            listed == addresses(views(accounts@)),
            forall|a: int, b: int| 0 <= a < b < i ==> listed[a] != listed[b],
        decreases accounts.len() - i,
    {
        let mut j: usize = 0;
        while j < i
            invariant
                j <= i < accounts.len(),
                listed == addresses(views(accounts@)),
                forall|a: int| 0 <= a < j ==> listed[a] != listed[i as int],
            decreases i - j,
        {
            if accounts[j].address == accounts[i].address {
                assert(listed[j as int] == listed[i as int]);
                return false;
            }
            j += 1;
        }
        i += 1;
    }
    true
}

} // verus!
