//! The ledger as a value, and every operation on it as a function from the
//! ledger before to the ledger after.
//!
//! The executable ledger in [`crate::db`] promises to follow these functions
//! step by step. What holds of them, the conservation of quantity above all,
//! is proved in [`crate::laws`].

use vstd::prelude::*;
use crate::account::AccountView;
use crate::arithmetic::{extraction, total_amount};
use crate::calendar::Date;
use crate::error::DbErrorView;
use crate::exchange::Exchange;
use crate::ident::{Address, Signature};
use crate::lot::{DisposedLotView, Epoch, Lot, LotDisposalKindView, Price};
use crate::records::{OrderView, PendingDeposit, SweepStakeAccountView, TransferView};
use crate::search::first_index_of;
use crate::tally::sum;

verus! {

/// Everything the ledger holds.
pub struct Ledger {
    /// The tracked accounts, in the order in which they were last written.
    pub accounts: Seq<AccountView>,
    pub deposits: Seq<PendingDeposit>,
    pub transfers: Seq<TransferView>,
    pub orders: Seq<OrderView>,
    pub disposed_lots: Seq<DisposedLotView>,
    /// The number that the next new lot gets.
    pub next_lot_number: usize,
    pub sweep_stake_account: Option<SweepStakeAccountView>,
    pub transitory_sweep_stake_addresses: Set<Address>,
    /// Whether the ledger asks to be written to stable storage.
    pub save_due: bool,
}

/// The ledger after an operation, and whether the operation was carried out.
pub struct Step {
    pub after: Ledger,
    pub outcome: Result<(), DbErrorView>,
}

/// The address of each account.
pub open spec fn addresses(accounts: Seq<AccountView>) -> Seq<Address> {
    accounts.map_values(|account: AccountView| account.address)
}

/// The signature of each pending deposit.
pub open spec fn deposit_signatures(deposits: Seq<PendingDeposit>) -> Seq<Signature> {
    deposits.map_values(|deposit: PendingDeposit| deposit.signature)
}

/// The signature of each pending transfer.
pub open spec fn transfer_signatures(transfers: Seq<TransferView>) -> Seq<Signature> {
    transfers.map_values(|transfer: TransferView| transfer.signature)
}

/// The id of each open order.
pub open spec fn order_ids(orders: Seq<OrderView>) -> Seq<Seq<char>> {
    orders.map_values(|order: OrderView| order.order_id)
}

/// How the lots of `order` are disposed of when it is filled.
pub open spec fn sold_by(order: OrderView) -> LotDisposalKindView {
    LotDisposalKindView::Usd {
        exchange: order.exchange,
        pair: order.pair,
        order_id: order.order_id,
    }
}

/// The records of the sale of `lots`, lot by lot.
pub open spec fn disposals(
    lots: Seq<Lot>,
    when: Date,
    price: Price,
    kind: LotDisposalKindView,
) -> Seq<DisposedLotView> {
    lots.map_values(|lot: Lot| DisposedLotView { lot, when, price, kind })
}

/// What each account holds.
pub open spec fn account_holdings(accounts: Seq<AccountView>) -> Seq<nat> {
    accounts.map_values(|account: AccountView| total_amount(account.lots))
}

/// What each pending transfer holds.
pub open spec fn transfer_holdings(transfers: Seq<TransferView>) -> Seq<nat> {
    transfers.map_values(|transfer: TransferView| total_amount(transfer.lots))
}

/// What each open order holds.
pub open spec fn order_holdings(orders: Seq<OrderView>) -> Seq<nat> {
    orders.map_values(|order: OrderView| total_amount(order.lots))
}

/// The amount of each disposed lot.
pub open spec fn disposed_amounts(disposed_lots: Seq<DisposedLotView>) -> Seq<nat> {
    disposed_lots.map_values(|disposed: DisposedLotView| disposed.lot.amount as nat)
}

/// Whether something at the exchange `found` is asked for by `wanted`: by
/// every exchange where none is given.
pub open spec fn at_exchange(found: Exchange, wanted: Option<Exchange>) -> bool {
    wanted matches Some(wanted) ==> found == wanted
}

/// The test for a deposit to be at `exchange`.
pub open spec fn deposit_at(exchange: Option<Exchange>) -> spec_fn(PendingDeposit) -> bool {
    |deposit: PendingDeposit| at_exchange(deposit.exchange, exchange)
}

/// The test for an order to be at `exchange`.
pub open spec fn order_at(exchange: Option<Exchange>) -> spec_fn(OrderView) -> bool {
    |order: OrderView| at_exchange(order.exchange, exchange)
}

/// The deposits at `exchange`, or all of them where no exchange is given.
pub open spec fn deposits_at(deposits: Seq<PendingDeposit>, exchange: Option<Exchange>) -> Seq<
    PendingDeposit,
> {
    deposits.filter(deposit_at(exchange))
}

/// The orders at `exchange`, or all of them where no exchange is given.
pub open spec fn orders_at(orders: Seq<OrderView>, exchange: Option<Exchange>) -> Seq<OrderView> {
    orders.filter(order_at(exchange))
}

/// The account that a transitory stake address is registered as.
pub open spec fn transitory_account(address: Address, current_epoch: Epoch) -> AccountView {
    AccountView {
        address,
        description: "Transitory stake account"@,
        last_update_epoch: current_epoch,
        last_update_balance: 0,
        lots: Seq::empty(),
    }
}

impl Ledger {
    /// The ledger that holds nothing.
    pub open spec fn empty() -> Ledger {
        Ledger {
            accounts: Seq::empty(),
            deposits: Seq::empty(),
            transfers: Seq::empty(),
            orders: Seq::empty(),
            disposed_lots: Seq::empty(),
            next_lot_number: 0,
            sweep_stake_account: None,
            transitory_sweep_stake_addresses: Set::empty(),
            save_due: false,
        }
    }

    /// Every account satisfies the balance identity, and no address is
    /// registered twice.
    pub open spec fn well_formed(self) -> bool {
        &&& forall|i: int|
            0 <= i < self.accounts.len() ==> (#[trigger] self.accounts[i]).balanced()
        &&& addresses(self.accounts).no_duplicates()
    }

    /// All the quantity in the ledger: what the accounts, the pending
    /// transfers and the open orders hold, and what was disposed of.
    pub open spec fn total_quantity(self) -> nat {
        sum(account_holdings(self.accounts)) + sum(transfer_holdings(self.transfers)) + sum(
            order_holdings(self.orders),
        ) + sum(disposed_amounts(self.disposed_lots))
    }

    /// Whether an account with `address` is registered.
    pub open spec fn registered(self, address: Address) -> bool {
        self.account_index(address) is Some
    }

    /// Where the account with `address` stands.
    pub open spec fn account_index(self, address: Address) -> Option<int> {
        first_index_of(addresses(self.accounts), address)
    }

    /// The account with `address`.
    pub open spec fn account(self, address: Address) -> Option<AccountView> {
        match self.account_index(address) {
            Some(i) => Some(self.accounts[i]),
            None => None,
        }
    }

    /// The first pending transfer with `signature`.
    pub open spec fn transfer(self, signature: Signature) -> Option<TransferView> {
        match first_index_of(transfer_signatures(self.transfers), signature) {
            Some(i) => Some(self.transfers[i]),
            None => None,
        }
    }

    /// The first open order with `order_id`.
    pub open spec fn order(self, order_id: Seq<char>) -> Option<OrderView> {
        match first_index_of(order_ids(self.orders), order_id) {
            Some(i) => Some(self.orders[i]),
            None => None,
        }
    }

    /// The operation is refused and changes nothing.
    pub open spec fn refuse(self, error: DbErrorView) -> Step {
        Step { after: self, outcome: Err(error) }
    }

    /// The ledger asks to be written to stable storage.
    pub open spec fn save(self) -> Ledger {
        Ledger { save_due: true, ..self }
    }

    /// The ledger was written to stable storage.
    pub open spec fn saved(self) -> Ledger {
        Ledger { save_due: false, ..self }
    }

    /// The operation is carried out, and the ledger asks to be written.
    pub open spec fn commit(self) -> Step {
        Step { after: self.save(), outcome: Ok(()) }
    }

    /// Registers `account`, unless its address is registered already.
    pub open spec fn add_account_no_save(self, account: AccountView) -> Step {
        if self.account_index(account.address) is Some {
            self.refuse(DbErrorView::AccountAlreadyExists(account.address))
        } else {
            Step {
                after: Ledger { accounts: self.accounts.push(account), ..self },
                outcome: Ok(()),
            }
        }
    }

    /// Registers `account` and asks for a save, unless its address is
    /// registered already.
    pub open spec fn add_account(self, account: AccountView) -> Step {
        let step = self.add_account_no_save(account);
        if step.outcome is Ok {
            step.after.commit()
        } else {
            step
        }
    }

    /// The accounts with the one at `i` taken out and `account` put behind the
    /// others.
    pub open spec fn put_account(self, i: int, account: AccountView) -> Ledger {
        Ledger { accounts: self.accounts.remove(i).push(account), ..self }
    }

    /// Replaces the account that has the address of `account` by `account`.
    pub open spec fn update_account(self, account: AccountView) -> Step {
        match self.account_index(account.address) {
            Some(i) => self.put_account(i, account).commit(),
            None => self.refuse(DbErrorView::AccountDoesNotExist(account.address)),
        }
    }

    /// Takes the account with `address` out of the ledger.
    pub open spec fn remove_account_no_save(self, address: Address) -> Step {
        match self.account_index(address) {
            Some(i) => Step {
                after: Ledger { accounts: self.accounts.remove(i), ..self },
                outcome: Ok(()),
            },
            None => self.refuse(DbErrorView::AccountDoesNotExist(address)),
        }
    }

    /// Takes the account with `address` out of the ledger and asks for a
    /// save.
    pub open spec fn remove_account(self, address: Address) -> Step {
        let step = self.remove_account_no_save(address);
        if step.outcome is Ok {
            step.after.commit()
        } else {
            step
        }
    }

    /// The ledger after a lot number was issued.
    pub open spec fn issue_lot_number(self) -> Ledger {
        Ledger { next_lot_number: (self.next_lot_number + 1) as usize, ..self }
    }

    /// The quantity that a transfer of `amount` from `account` moves: `amount`,
    /// or the whole balance where no amount is given.
    pub open spec fn wanted(account: AccountView, amount: Option<u64>) -> u64 {
        match amount {
            Some(amount) => amount,
            None => account.last_update_balance,
        }
    }

    /// Whether recording this transfer splits a lot, and so issues a lot
    /// number.
    pub open spec fn record_transfer_mints(
        self,
        from_address: Address,
        amount: Option<u64>,
        to_address: Address,
    ) -> bool {
        match self.account(from_address) {
            Some(from) => {
                &&& self.account_index(to_address) is Some
                &&& Self::wanted(from, amount) <= from.last_update_balance
                &&& extraction(
                    from.lots,
                    Self::wanted(from, amount) as nat,
                    self.next_lot_number,
                ).minted
            },
            None => false,
        }
    }

    /// Records a transfer: the lots leave the sender and are held by a pending
    /// transfer.
    pub open spec fn record_transfer(
        self,
        signature: Signature,
        from_address: Address,
        amount: Option<u64>,
        to_address: Address,
    ) -> Step {
        match self.account(from_address) {
            None => self.refuse(DbErrorView::AccountDoesNotExist(from_address)),
            Some(from) => {
                let wanted = Self::wanted(from, amount);
                if self.account_index(to_address) is None {
                    self.refuse(DbErrorView::AccountDoesNotExist(to_address))
                } else if from.last_update_balance < wanted {
                    self.refuse(DbErrorView::AccountHasInsufficientBalance(from_address))
                } else {
                    let drawn = extraction(from.lots, wanted as nat, self.next_lot_number);
                    let reduced = from.extracted(wanted, self.next_lot_number);
                    let transfer = TransferView {
                        signature,
                        from_address,
                        to_address,
                        lots: drawn.taken,
                    };
                    let numbered = if drawn.minted {
                        self.issue_lot_number()
                    } else {
                        self
                    };
                    Ledger {
                        transfers: self.transfers.push(transfer),
                        ..numbered
                    }.update_account(reduced)
                }
            },
        }
    }

    /// Whether the lots of the pending transfer with `signature` fit into the
    /// account that gets them: the recipient on success, the sender on failure.
    pub open spec fn transfer_fits(self, signature: Signature, success: bool) -> bool {
        match first_index_of(transfer_signatures(self.transfers), signature) {
            Some(i) => {
                let transfer = self.transfers[i];
                match (self.account(transfer.from_address), self.account(transfer.to_address)) {
                    (Some(from), Some(to)) => (if success {
                        to
                    } else {
                        from
                    }).last_update_balance + total_amount(transfer.lots) <= u64::MAX,
                    _ => true,
                }
            },
            None => true,
        }
    }

    /// Resolves the first pending transfer with `signature`: its lots are
    /// merged into the recipient on success and back into the sender on
    /// failure. Where the sender or the recipient is not registered, the
    /// transfer is refused and stays pending.
    ///
    /// Both accounts are written, the recipient first; an account that
    /// transfers to itself is written once, with the lots.
    pub open spec fn complete_transfer(self, signature: Signature, success: bool) -> Step {
        match first_index_of(transfer_signatures(self.transfers), signature) {
            None => self.refuse(DbErrorView::PendingTransferDoesNotExist(signature)),
            Some(i) => {
                let transfer = self.transfers[i];
                match (self.account(transfer.from_address), self.account(transfer.to_address)) {
                    (None, _) => self.refuse(
                        DbErrorView::AccountDoesNotExist(transfer.from_address),
                    ),
                    (Some(_), None) => self.refuse(
                        DbErrorView::AccountDoesNotExist(transfer.to_address),
                    ),
                    (Some(from), Some(to)) => {
                        let released = Ledger { transfers: self.transfers.remove(i), ..self };
                        if transfer.from_address == transfer.to_address {
                            released.update_account(from.merged(transfer.lots))
                        } else if success {
                            released.update_account(to.merged(transfer.lots)).after.update_account(
                                from,
                            )
                        } else {
                            released.update_account(to).after.update_account(
                                from.merged(transfer.lots),
                            )
                        }
                    },
                }
            },
        }
    }

    /// Records a deposit: the quantity is transferred from the sender to the
    /// deposit account of the exchange, and the deposit is noted. Where the
    /// transfer is refused, nothing is noted.
    pub open spec fn record_deposit(
        self,
        signature: Signature,
        from_address: Address,
        amount: u64,
        exchange: Exchange,
        deposit_address: Address,
    ) -> Step {
        let step = self.record_transfer(signature, from_address, Some(amount), deposit_address);
        if step.outcome is Ok {
            Step {
                after: Ledger {
                    deposits: step.after.deposits.push(
                        PendingDeposit { signature, exchange, amount },
                    ),
                    ..step.after
                },
                outcome: Ok(()),
            }
        } else {
            step
        }
    }

    /// Resolves the first pending deposit with `signature`, and with it the
    /// transfer that carries its lots. Where the transfer is refused, the
    /// deposit stays pending.
    pub open spec fn complete_deposit(self, signature: Signature, success: bool) -> Step {
        match first_index_of(deposit_signatures(self.deposits), signature) {
            None => self.refuse(DbErrorView::PendingDepositDoesNotExist(signature)),
            Some(i) => {
                let step = self.complete_transfer(signature, success);
                if step.outcome is Ok {
                    Step {
                        after: Ledger { deposits: step.after.deposits.remove(i), ..step.after },
                        outcome: Ok(()),
                    }
                } else {
                    step
                }
            },
        }
    }

    /// Records an order. The lots have left `deposit_account` already: the
    /// account is stored as it is handed in. Where no account with its
    /// address is registered, the order is refused and nothing is noted.
    pub open spec fn record_order(
        self,
        deposit_account: AccountView,
        exchange: Exchange,
        pair: Seq<char>,
        order_id: Seq<char>,
        lots: Seq<Lot>,
    ) -> Step {
        let order = OrderView {
            exchange,
            pair,
            order_id,
            lots,
            deposit_address: deposit_account.address,
        };
        if self.account_index(deposit_account.address) is None {
            self.refuse(DbErrorView::AccountDoesNotExist(deposit_account.address))
        } else {
            Ledger { orders: self.orders.push(order), ..self }.update_account(deposit_account)
        }
    }

    /// Whether the lots of the open order with `order_id` fit into the deposit
    /// account that gets them back when the order is cancelled.
    pub open spec fn order_fits(self, order_id: Seq<char>) -> bool {
        match first_index_of(order_ids(self.orders), order_id) {
            Some(i) => match self.account(self.orders[i].deposit_address) {
                Some(account) => account.last_update_balance + total_amount(self.orders[i].lots)
                    <= u64::MAX,
                None => true,
            },
            None => true,
        }
    }

    /// Resolves the first open order with `order_id`. Filled at a price on a
    /// date, each of its lots becomes a disposed lot. Cancelled, its lots are
    /// merged back into the deposit account; where that account is not
    /// registered, the cancellation is refused and the order stays open.
    pub open spec fn complete_order(
        self,
        order_id: Seq<char>,
        filled: Option<(Price, Date)>,
    ) -> Step {
        match first_index_of(order_ids(self.orders), order_id) {
            None => self.refuse(DbErrorView::OpenOrderDoesNotExist(order_id)),
            Some(i) => {
                let order = self.orders[i];
                let closed = Ledger { orders: self.orders.remove(i), ..self };
                match filled {
                    Some((price, when)) => {
                        Ledger {
                            disposed_lots: closed.disposed_lots + disposals(
                                order.lots,
                                when,
                                price,
                                sold_by(order),
                            ),
                            ..closed
                        }.commit()
                    },
                    None => match self.account(order.deposit_address) {
                        None => self.refuse(
                            DbErrorView::AccountDoesNotExist(order.deposit_address),
                        ),
                        Some(account) => closed.update_account(account.merged(order.lots)),
                    },
                }
            },
        }
    }

    /// Names the sweep stake account, which must be a registered account.
    pub open spec fn set_sweep_stake_account(self, account: SweepStakeAccountView) -> Step {
        if self.account_index(account.address) is None {
            self.refuse(DbErrorView::AccountDoesNotExist(account.address))
        } else {
            Ledger { sweep_stake_account: Some(account), ..self }.commit()
        }
    }

    /// Notes `address` as a transitory stake address and registers an empty
    /// account for it. The note is kept, and a save asked for, also where the
    /// account cannot be registered because one with that address exists.
    pub open spec fn add_transitory_sweep_stake_address(
        self,
        address: Address,
        current_epoch: Epoch,
    ) -> Step {
        if self.transitory_sweep_stake_addresses.contains(address) {
            self.refuse(DbErrorView::AccountAlreadyExists(address))
        } else {
            Ledger {
                transitory_sweep_stake_addresses: self.transitory_sweep_stake_addresses.insert(
                    address,
                ),
                ..self
            }.save().add_account_no_save(transitory_account(address, current_epoch))
        }
    }

    /// Takes the account with `address` out of the ledger, if there is one, and
    /// then `address` out of the transitory stake addresses. The account stays
    /// out also where the address was not noted as transitory.
    pub open spec fn remove_transitory_sweep_stake_address(self, address: Address) -> Step {
        let cleared = self.remove_account_no_save(address).after;
        if !self.transitory_sweep_stake_addresses.contains(address) {
            cleared.refuse(DbErrorView::AccountDoesNotExist(address))
        } else {
            Ledger {
                transitory_sweep_stake_addresses: self.transitory_sweep_stake_addresses.remove(
                    address,
                ),
                ..cleared
            }.commit()
        }
    }
}

/// An operation that records or resolves a deposit, a transfer or an order.
#[allow(inconsistent_fields)]
pub enum Operation {
    RecordTransfer {
        signature: Signature,
        from_address: Address,
        amount: Option<u64>,
        to_address: Address,
    },
    ResolveTransfer { signature: Signature, success: bool },
    RecordDeposit {
        signature: Signature,
        from_address: Address,
        amount: u64,
        exchange: Exchange,
        deposit_address: Address,
    },
    ResolveDeposit { signature: Signature, success: bool },
    RecordOrder {
        deposit_account: AccountView,
        exchange: Exchange,
        pair: Seq<char>,
        order_id: Seq<char>,
        lots: Seq<Lot>,
    },
    ResolveOrder { order_id: Seq<char>, filled: Option<(Price, Date)> },
}

impl Ledger {
    /// The operation, carried out on the ledger.
    pub open spec fn apply(self, operation: Operation) -> Step {
        match operation {
            Operation::RecordTransfer { signature, from_address, amount, to_address } => {
                self.record_transfer(signature, from_address, amount, to_address)
            },
            Operation::ResolveTransfer { signature, success } => self.complete_transfer(
                signature,
                success,
            ),
            Operation::RecordDeposit {
                signature,
                from_address,
                amount,
                exchange,
                deposit_address,
            } => self.record_deposit(signature, from_address, amount, exchange, deposit_address),
            Operation::ResolveDeposit { signature, success } => self.complete_deposit(
                signature,
                success,
            ),
            Operation::RecordOrder { deposit_account, exchange, pair, order_id, lots } => {
                self.record_order(deposit_account, exchange, pair, order_id, lots)
            },
            Operation::ResolveOrder { order_id, filled } => self.complete_order(order_id, filled),
        }
    }

    /// What is asked of an operation for the ledger to keep its quantity.
    ///
    /// An order comes with lots that its caller has taken out of the deposit
    /// account, and with that account as it then stands. So the account that
    /// comes with an order satisfies the balance identity and holds, together
    /// with the lots of the order, what the registered account holds. Of the
    /// other operations nothing is asked.
    pub open spec fn admits(self, operation: Operation) -> bool {
        match operation {
            Operation::RecordOrder { deposit_account, lots, .. } => {
                &&& deposit_account.balanced()
                &&& self.account(deposit_account.address) matches Some(held) ==> held.last_update_balance
                    == deposit_account.last_update_balance + total_amount(lots)
            },
            _ => true,
        }
    }

    /// The ledger after the operations were carried out one after the other.
    pub open spec fn run(self, operations: Seq<Operation>) -> Ledger
        decreases operations.len(),
    {
        if operations.len() == 0 {
            self
        } else {
            self.run(operations.drop_last()).apply(operations.last()).after
        }
    }

    /// Whether each of the operations is admitted by the ledger that it is
    /// carried out on.
    pub open spec fn admits_all(self, operations: Seq<Operation>) -> bool
        decreases operations.len(),
    {
        operations.len() == 0 || (self.admits_all(operations.drop_last()) && self.run(
            operations.drop_last(),
        ).admits(operations.last()))
    }
}

} // verus!
