//! What holds of the ledger whatever is done with it.

use vstd::prelude::*;
use crate::account::AccountView;
use crate::arithmetic::{
    amount_acquired, extraction, known_in, law_merged_back_lots_are_known,
    lemma_extraction_exact, lemma_extraction_quantity, lemma_merge_quantity, total_amount,
};
use crate::calendar::Date;
use crate::exchange::Exchange;
use crate::ident::{Address, Signature};
use crate::lot::{Lot, LotAcquistion, LotDisposalKindView, Price};
use crate::model::{
    account_holdings, addresses, deposit_signatures, disposals, disposed_amounts, order_holdings,
    order_ids, sold_by, transfer_holdings, transfer_signatures, Ledger, Operation,
};
use crate::records::TransferView;
use crate::search::{
    first_index_of, lemma_first_index_absent, lemma_first_index_of, lemma_only_index,
};
use crate::tally::{lemma_sum_concat, lemma_sum_push, lemma_sum_remove, sum};

verus! {

/// Replacing the account at `i` changes what the accounts hold by the
/// difference between the two.
pub proof fn lemma_put_account_holdings(ledger: Ledger, i: int, account: AccountView)
    requires
        0 <= i < ledger.accounts.len(),
    ensures
        sum(account_holdings(ledger.put_account(i, account).accounts)) + total_amount(
            ledger.accounts[i].lots,
        ) == sum(account_holdings(ledger.accounts)) + total_amount(account.lots),
{
    let held = account_holdings(ledger.accounts);
    assert(account_holdings(ledger.put_account(i, account).accounts) =~= held.remove(i).push(
        total_amount(account.lots),
    ));
    lemma_sum_remove(held, i);
    lemma_sum_push(held.remove(i), total_amount(account.lots));
}

/// Replacing an account by one with the same address, in a ledger where no
/// address occurs twice: in the ledger `put` that has the new accounts, the
/// same addresses are registered, the new account is found under its address,
/// and every other account is found as before.
pub proof fn lemma_put_account_lookup(ledger: Ledger, i: int, account: AccountView, put: Ledger)
    requires
        addresses(ledger.accounts).no_duplicates(),
        0 <= i < ledger.accounts.len(),
        ledger.accounts[i].address == account.address,
        put.accounts == ledger.put_account(i, account).accounts,
    ensures
        addresses(put.accounts).no_duplicates(),
        put.account_index(account.address) == Some(ledger.accounts.len() - 1),
        put.account(account.address) == Some(account),
        forall|a: Address| a != account.address ==> #[trigger] put.account(a) == ledger.account(a),
        forall|a: Address| #[trigger] put.registered(a) == ledger.registered(a),
        ledger.well_formed() && account.balanced() ==> put.well_formed(),
{
    let before = addresses(ledger.accounts);
    let after = addresses(put.accounts);
    assert(after =~= before.remove(i).push(account.address));
    assert(after.no_duplicates()) by {
        assert forall|j: int, k: int| 0 <= j < after.len() && 0 <= k < after.len() && j
            != k implies after[j] != after[k] by {
            let jj = if j < i {
                j
            } else if j < after.len() - 1 {
                j + 1
            } else {
                i
            };
            let kk = if k < i {
                k
            } else if k < after.len() - 1 {
                k + 1
            } else {
                i
            };
            assert(after[j] == before[jj]);
            assert(after[k] == before[kk]);
        }
    }
    lemma_only_index(after, account.address, after.len() - 1);
    assert forall|a: Address| a != account.address implies #[trigger] put.account(a)
        == ledger.account(a) by {
        lemma_first_index_of(before, a);
        match first_index_of(before, a) {
            Some(j) => {
                let jj = if j < i {
                    j
                } else {
                    j - 1
                };
                assert(after[jj] == a);
                lemma_only_index(after, a, jj);
            },
            None => {
                assert forall|k: int| 0 <= k < after.len() implies after[k] != a by {
                    if k < after.len() - 1 {
                        let kk = if k < i {
                            k
                        } else {
                            k + 1
                        };
                        assert(after[k] == before[kk]);
                    }
                }
                lemma_first_index_absent(after, a);
            },
        }
    }
    assert forall|a: Address| #[trigger] put.registered(a) == ledger.registered(a) by {
        if a == account.address {
            lemma_only_index(before, a, i);
        } else {
            assert(put.account(a) == ledger.account(a));
        }
    }
    if ledger.well_formed() && account.balanced() {
        assert forall|k: int| 0 <= k < put.accounts.len() implies (#[trigger] put.accounts[k])
            .balanced() by {
            if k < put.accounts.len() - 1 {
                let kk = if k < i {
                    k
                } else {
                    k + 1
                };
                assert(put.accounts[k] == ledger.accounts[kk]);
            }
        }
    }
}

/// The ledger that holds nothing is well formed and holds no quantity.
pub proof fn law_empty_ledger()
    ensures
        Ledger::empty().well_formed(),
        Ledger::empty().total_quantity() == 0,
{
    let empty = Ledger::empty();
    assert(addresses(empty.accounts) =~= Seq::empty());
    assert(account_holdings(empty.accounts) =~= Seq::empty());
    assert(transfer_holdings(empty.transfers) =~= Seq::empty());
    assert(order_holdings(empty.orders) =~= Seq::empty());
    assert(disposed_amounts(empty.disposed_lots) =~= Seq::empty());
}

/// Registering an account that satisfies the balance identity keeps the
/// ledger well formed. The account is registered exactly when its address was
/// not, and the ledger then holds what it held and what the account holds. A
/// refusal changes nothing.
pub proof fn law_add_account(ledger: Ledger, account: AccountView)
    requires
        ledger.well_formed(),
        account.balanced(),
    ensures
        ledger.add_account(account).after.well_formed(),
        ledger.add_account(account).outcome is Ok <==> !ledger.registered(account.address),
        ledger.add_account(account).outcome is Err ==> ledger.add_account(account).after
            == ledger,
        ledger.add_account(account).outcome is Ok ==> ledger.add_account(
            account,
        ).after.total_quantity() == ledger.total_quantity() + total_amount(account.lots),
        ledger.add_account(account).outcome is Ok ==> ledger.add_account(account).after.account(
            account.address,
        ) == Some(account),
{
    let after = ledger.add_account(account).after;
    lemma_first_index_of(addresses(ledger.accounts), account.address);
    if !ledger.registered(account.address) {
        let before = addresses(ledger.accounts);
        assert(addresses(after.accounts) =~= before.push(account.address));
        lemma_only_index(addresses(after.accounts), account.address, before.len() as int);
        assert(account_holdings(after.accounts) =~= account_holdings(ledger.accounts).push(
            total_amount(account.lots),
        ));
        lemma_sum_push(account_holdings(ledger.accounts), total_amount(account.lots));
    }
}

/// Replacing a registered account by one that satisfies the balance identity
/// keeps the ledger well formed. The account is replaced exactly when its
/// address is registered; it is then found under its address, and every other
/// account is found as before. A refusal changes nothing.
pub proof fn law_update_account(ledger: Ledger, account: AccountView)
    requires
        ledger.well_formed(),
        account.balanced(),
    ensures
        ledger.update_account(account).after.well_formed(),
        ledger.update_account(account).outcome is Ok <==> ledger.registered(account.address),
        ledger.update_account(account).outcome is Err ==> ledger.update_account(account).after
            == ledger,
        ledger.update_account(account).outcome is Ok ==> ledger.update_account(
            account,
        ).after.account(account.address) == Some(account),
        forall|a: Address|
            a != account.address ==> #[trigger] ledger.update_account(account).after.account(a)
                == ledger.account(a),
{
    lemma_first_index_of(addresses(ledger.accounts), account.address);
    let after = ledger.update_account(account).after;
    if let Some(i) = ledger.account_index(account.address) {
        lemma_put_account_lookup(ledger, i, account, after);
    }
}

/// Recording a transfer creates and destroys nothing and keeps the ledger
/// well formed. A refusal changes nothing.
pub proof fn law_record_transfer(
    ledger: Ledger,
    signature: Signature,
    from_address: Address,
    amount: Option<u64>,
    to_address: Address,
)
    requires
        ledger.well_formed(),
    ensures
        ledger.record_transfer(signature, from_address, amount, to_address).after.total_quantity()
            == ledger.total_quantity(),
        ledger.record_transfer(signature, from_address, amount, to_address).after.well_formed(),
        ledger.record_transfer(signature, from_address, amount, to_address).outcome is Err
            ==> ledger.record_transfer(signature, from_address, amount, to_address).after
            == ledger,
{
    lemma_first_index_of(addresses(ledger.accounts), from_address);
    let step = ledger.record_transfer(signature, from_address, amount, to_address);
    if step.outcome is Ok {
        let i = ledger.account_index(from_address)->0;
        let from = ledger.accounts[i];
        let wanted = Ledger::wanted(from, amount);
        let drawn = extraction(from.lots, wanted as nat, ledger.next_lot_number);
        let reduced = from.extracted(wanted, ledger.next_lot_number);
        lemma_extraction_exact(from.lots, wanted as nat, ledger.next_lot_number);
        let held = transfer_holdings(ledger.transfers);
        assert(transfer_holdings(step.after.transfers) =~= held.push(total_amount(drawn.taken)));
        lemma_sum_push(held, total_amount(drawn.taken));
        lemma_put_account_holdings(ledger, i, reduced);
        lemma_put_account_lookup(ledger, i, reduced, step.after);
    }
}

/// What resolving the pending transfer at `i` does to the ledger `before`:
/// that transfer is no longer pending; its lots are merged into the recipient
/// on success and into the sender on failure; every other account and every
/// other pending transfer is as it was.
pub open spec fn resolved(before: Ledger, i: int, success: bool, after: Ledger) -> bool {
    let transfer = before.transfers[i];
    let gets = if success {
        transfer.to_address
    } else {
        transfer.from_address
    };
    &&& after.transfers == before.transfers.remove(i)
    &&& before.account(gets) matches Some(account) && after.account(gets) == Some(
        account.merged(transfer.lots),
    )
    &&& forall|a: Address| a != gets ==> #[trigger] after.account(a) == before.account(a)
}

/// Resolving a pending transfer creates and destroys nothing and keeps the
/// ledger well formed. It is carried out exactly when a transfer with the
/// signature is pending and its sender and recipient are registered; a
/// refusal changes nothing.
///
/// This is stated of a ledger in which the lots fit into the account that
/// gets them.
pub proof fn law_complete_transfer(ledger: Ledger, signature: Signature, success: bool)
    requires
        ledger.well_formed(),
        ledger.transfer_fits(signature, success),
    ensures
        ledger.complete_transfer(signature, success).after.total_quantity()
            == ledger.total_quantity(),
        ledger.complete_transfer(signature, success).after.well_formed(),
        ledger.complete_transfer(signature, success).outcome is Ok <==> (ledger.transfer(
            signature,
        ) matches Some(transfer) && ledger.registered(transfer.from_address)
            && ledger.registered(transfer.to_address)),
        ledger.complete_transfer(signature, success).outcome is Err ==> ledger.complete_transfer(
            signature,
            success,
        ).after == ledger,
        ledger.complete_transfer(signature, success).outcome is Ok ==> resolved(
            ledger,
            first_index_of(transfer_signatures(ledger.transfers), signature)->0,
            success,
            ledger.complete_transfer(signature, success).after,
        ),
{
    let signatures = transfer_signatures(ledger.transfers);
    lemma_first_index_of(signatures, signature);
    if let Some(i) = first_index_of(signatures, signature) {
        let transfer = ledger.transfers[i];
        lemma_first_index_of(addresses(ledger.accounts), transfer.from_address);
        lemma_first_index_of(addresses(ledger.accounts), transfer.to_address);
        if ledger.registered(transfer.from_address) && ledger.registered(transfer.to_address) {
            let f = ledger.account_index(transfer.from_address)->0;
            let t = ledger.account_index(transfer.to_address)->0;
            let from = ledger.accounts[f];
            let to = ledger.accounts[t];
            let released = Ledger { transfers: ledger.transfers.remove(i), ..ledger };
            assert(transfer_holdings(released.transfers) =~= transfer_holdings(
                ledger.transfers,
            ).remove(i));
            lemma_sum_remove(transfer_holdings(ledger.transfers), i);
            let done = ledger.complete_transfer(signature, success).after;
            if transfer.from_address == transfer.to_address {
                let merged = from.merged(transfer.lots);
                lemma_merge_quantity(from.lots, transfer.lots, None);
                assert(done == released.put_account(f, merged).save());
                lemma_put_account_lookup(released, f, merged, done);
                lemma_put_account_holdings(released, f, merged);
                assert forall|a: Address| a != transfer.from_address implies #[trigger] done.account(
                    a,
                ) == ledger.account(a) by {
                    assert(released.account(a) == ledger.account(a));
                }
            } else {
                let (from2, to2) = if success {
                    (from, to.merged(transfer.lots))
                } else {
                    (from.merged(transfer.lots), to)
                };
                if success {
                    lemma_merge_quantity(to.lots, transfer.lots, None);
                } else {
                    lemma_merge_quantity(from.lots, transfer.lots, None);
                }
                let credited = released.put_account(t, to2).save();
                lemma_put_account_lookup(released, t, to2, credited);
                lemma_put_account_holdings(released, t, to2);
                assert(released.update_account(to2).after == credited);
                assert(credited.account(transfer.from_address) == released.account(
                    transfer.from_address,
                ));
                lemma_first_index_of(addresses(credited.accounts), transfer.from_address);
                let f2 = credited.account_index(transfer.from_address)->0;
                assert(credited.accounts[f2] == from);
                assert(done == credited.put_account(f2, from2).save());
                lemma_put_account_lookup(credited, f2, from2, done);
                lemma_put_account_holdings(credited, f2, from2);
                assert forall|a: Address|
                    a != transfer.from_address && a != transfer.to_address implies #[trigger] done.account(
                    a,
                ) == ledger.account(a) by {
                    assert(released.account(a) == ledger.account(a));
                    assert(credited.account(a) == released.account(a));
                    assert(done.account(a) == credited.account(a));
                }
                assert(done.account(transfer.to_address) == credited.account(
                    transfer.to_address,
                ));
            }
        }
    }
}

/// Recording a deposit creates and destroys nothing and keeps the ledger
/// well formed. A refusal changes nothing.
pub proof fn law_record_deposit(
    ledger: Ledger,
    signature: Signature,
    from_address: Address,
    amount: u64,
    exchange: Exchange,
    deposit_address: Address,
)
    requires
        ledger.well_formed(),
    ensures
        ledger.record_deposit(
            signature,
            from_address,
            amount,
            exchange,
            deposit_address,
        ).after.total_quantity() == ledger.total_quantity(),
        ledger.record_deposit(
            signature,
            from_address,
            amount,
            exchange,
            deposit_address,
        ).after.well_formed(),
        ledger.record_deposit(signature, from_address, amount, exchange, deposit_address).outcome
            is Err ==> ledger.record_deposit(
            signature,
            from_address,
            amount,
            exchange,
            deposit_address,
        ).after == ledger,
{
    law_record_transfer(ledger, signature, from_address, Some(amount), deposit_address);
}

/// Resolving a pending deposit creates and destroys nothing and keeps the
/// ledger well formed. It is carried out exactly when a deposit with the
/// signature is pending and the transfer with the signature can be resolved;
/// a refusal changes nothing.
///
/// This is stated of a ledger in which the lots fit into the account that
/// gets them.
pub proof fn law_complete_deposit(ledger: Ledger, signature: Signature, success: bool)
    requires
        ledger.well_formed(),
        ledger.transfer_fits(signature, success),
    ensures
        ledger.complete_deposit(signature, success).after.total_quantity()
            == ledger.total_quantity(),
        ledger.complete_deposit(signature, success).after.well_formed(),
        ledger.complete_deposit(signature, success).outcome is Ok <==> first_index_of(
            deposit_signatures(ledger.deposits),
            signature,
        ) is Some && ledger.complete_transfer(signature, success).outcome is Ok,
        ledger.complete_deposit(signature, success).outcome is Err ==> ledger.complete_deposit(
            signature,
            success,
        ).after == ledger,
{
    law_complete_transfer(ledger, signature, success);
}

/// Recording an order for lots that were extracted from the deposit account
/// creates and destroys nothing and keeps the ledger well formed. The order
/// is recorded exactly when the deposit account is registered; a refusal
/// changes nothing.
///
/// This is stated of a deposit account that satisfies the balance identity
/// and holds, with the lots of the order, what the registered account held.
pub proof fn law_record_order(
    ledger: Ledger,
    deposit_account: AccountView,
    exchange: Exchange,
    pair: Seq<char>,
    order_id: Seq<char>,
    lots: Seq<Lot>,
)
    requires
        ledger.well_formed(),
        deposit_account.balanced(),
        ledger.account(deposit_account.address) matches Some(held) ==> held.last_update_balance
            == deposit_account.last_update_balance + total_amount(lots),
    ensures
        ledger.record_order(deposit_account, exchange, pair, order_id, lots).outcome is Ok
            <==> ledger.registered(deposit_account.address),
        ledger.record_order(deposit_account, exchange, pair, order_id, lots).outcome is Err
            ==> ledger.record_order(deposit_account, exchange, pair, order_id, lots).after
            == ledger,
        ledger.record_order(deposit_account, exchange, pair, order_id, lots).after.total_quantity()
            == ledger.total_quantity(),
        ledger.record_order(deposit_account, exchange, pair, order_id, lots).after.well_formed(),
{
    lemma_first_index_of(addresses(ledger.accounts), deposit_account.address);
    if let Some(i) = ledger.account_index(deposit_account.address) {
        let after = ledger.record_order(deposit_account, exchange, pair, order_id, lots).after;
        lemma_put_account_lookup(ledger, i, deposit_account, after);
        lemma_put_account_holdings(ledger, i, deposit_account);
        assert(order_holdings(after.orders) =~= order_holdings(ledger.orders).push(
            total_amount(lots),
        ));
        lemma_sum_push(order_holdings(ledger.orders), total_amount(lots));
    }
}

/// The records of the sale of lots hold what the lots held.
pub proof fn lemma_disposals_amount(
    lots: Seq<Lot>,
    when: Date,
    price: Price,
    kind: LotDisposalKindView,
)
    ensures
        sum(disposed_amounts(disposals(lots, when, price, kind))) == total_amount(lots),
    decreases lots.len(),
{
    if lots.len() > 0 {
        lemma_disposals_amount(lots.drop_last(), when, price, kind);
        assert(disposed_amounts(disposals(lots, when, price, kind)).drop_last()
            =~= disposed_amounts(disposals(lots.drop_last(), when, price, kind)));
    }
}

/// Resolving an open order creates and destroys nothing and keeps the ledger
/// well formed. An order that is filled is resolved exactly when an order with
/// the id is open; one that is cancelled, exactly when moreover its deposit
/// account is registered. A refusal changes nothing.
///
/// This is stated of a ledger in which, where the order is cancelled, the
/// lots fit into the deposit account.
pub proof fn law_complete_order(ledger: Ledger, order_id: Seq<char>, filled: Option<(Price, Date)>)
    requires
        ledger.well_formed(),
        filled is None ==> ledger.order_fits(order_id),
    ensures
        ledger.complete_order(order_id, filled).after.total_quantity() == ledger.total_quantity(),
        ledger.complete_order(order_id, filled).after.well_formed(),
        ledger.complete_order(order_id, filled).outcome is Ok <==> (ledger.order(order_id)
            matches Some(order) && (filled is None ==> ledger.registered(order.deposit_address))),
        ledger.complete_order(order_id, filled).outcome is Err ==> ledger.complete_order(
            order_id,
            filled,
        ).after == ledger,
{
    let ids = order_ids(ledger.orders);
    lemma_first_index_of(ids, order_id);
    if let Some(i) = first_index_of(ids, order_id) {
        let order = ledger.orders[i];
        let closed = Ledger { orders: ledger.orders.remove(i), ..ledger };
        assert(order_holdings(closed.orders) =~= order_holdings(ledger.orders).remove(i));
        lemma_sum_remove(order_holdings(ledger.orders), i);
        let done = ledger.complete_order(order_id, filled).after;
        match filled {
            Some((price, when)) => {
                let sold = disposals(order.lots, when, price, sold_by(order));
                assert(disposed_amounts(ledger.disposed_lots + sold) =~= disposed_amounts(
                    ledger.disposed_lots,
                ) + disposed_amounts(sold));
                lemma_sum_concat(disposed_amounts(ledger.disposed_lots), disposed_amounts(sold));
                lemma_disposals_amount(order.lots, when, price, sold_by(order));
            },
            None => {
                lemma_first_index_of(addresses(ledger.accounts), order.deposit_address);
                if let Some(a) = ledger.account_index(order.deposit_address) {
                    let account = ledger.accounts[a];
                    let merged = account.merged(order.lots);
                    lemma_merge_quantity(account.lots, order.lots, None);
                    lemma_put_account_lookup(closed, a, merged, done);
                    lemma_put_account_holdings(closed, a, merged);
                }
            },
        }
    }
}

/// In a well-formed ledger that holds no more than the machine's integers
/// reach, the lots of every pending transfer and of every open order fit into
/// the account that gets them.
pub proof fn lemma_fits_within_total(ledger: Ledger)
    requires
        ledger.well_formed(),
        ledger.total_quantity() <= u64::MAX,
    ensures
        forall|signature: Signature, success: bool| #[trigger]
            ledger.transfer_fits(signature, success),
        forall|order_id: Seq<char>| #[trigger] ledger.order_fits(order_id),
{
    assert forall|signature: Signature, success: bool| #[trigger]
        ledger.transfer_fits(signature, success) by {
        lemma_first_index_of(transfer_signatures(ledger.transfers), signature);
        if let Some(i) = first_index_of(transfer_signatures(ledger.transfers), signature) {
            let transfer = ledger.transfers[i];
            lemma_sum_remove(transfer_holdings(ledger.transfers), i);
            lemma_first_index_of(addresses(ledger.accounts), transfer.from_address);
            lemma_first_index_of(addresses(ledger.accounts), transfer.to_address);
            if let Some(f) = ledger.account_index(transfer.from_address) {
                lemma_sum_remove(account_holdings(ledger.accounts), f);
            }
            if let Some(t) = ledger.account_index(transfer.to_address) {
                lemma_sum_remove(account_holdings(ledger.accounts), t);
            }
        }
    }
    assert forall|order_id: Seq<char>| #[trigger] ledger.order_fits(order_id) by {
        lemma_first_index_of(order_ids(ledger.orders), order_id);
        if let Some(i) = first_index_of(order_ids(ledger.orders), order_id) {
            let order = ledger.orders[i];
            lemma_sum_remove(order_holdings(ledger.orders), i);
            lemma_first_index_of(addresses(ledger.accounts), order.deposit_address);
            if let Some(a) = ledger.account_index(order.deposit_address) {
                lemma_sum_remove(account_holdings(ledger.accounts), a);
            }
        }
    }
}

/// An operation that is refused changes nothing.
pub proof fn law_refusal_changes_nothing(ledger: Ledger, operation: Operation)
    requires
        ledger.well_formed(),
    ensures
        ledger.apply(operation).outcome is Err ==> ledger.apply(operation).after == ledger,
{
    match operation {
        Operation::RecordTransfer { from_address, .. } => {
            lemma_first_index_of(addresses(ledger.accounts), from_address);
        },
        Operation::ResolveTransfer { signature, success } => {
            lemma_resolved_or_unchanged(ledger, signature, success);
        },
        Operation::RecordDeposit { from_address, .. } => {
            lemma_first_index_of(addresses(ledger.accounts), from_address);
        },
        Operation::ResolveDeposit { signature, success } => {
            lemma_resolved_or_unchanged(ledger, signature, success);
        },
        Operation::RecordOrder { .. } => {},
        Operation::ResolveOrder { order_id, .. } => {
            lemma_first_index_of(order_ids(ledger.orders), order_id);
            if let Some(i) = first_index_of(order_ids(ledger.orders), order_id) {
                lemma_first_index_of(addresses(ledger.accounts), ledger.orders[i].deposit_address);
            }
        },
    }
}

/// A transfer that is not resolved leaves the ledger as it was.
proof fn lemma_resolved_or_unchanged(ledger: Ledger, signature: Signature, success: bool)
    requires
        ledger.well_formed(),
    ensures
        ledger.complete_transfer(signature, success).outcome is Err ==> ledger.complete_transfer(
            signature,
            success,
        ).after == ledger,
{
    let signatures = transfer_signatures(ledger.transfers);
    lemma_first_index_of(signatures, signature);
    if let Some(i) = first_index_of(signatures, signature) {
        let transfer = ledger.transfers[i];
        lemma_first_index_of(addresses(ledger.accounts), transfer.from_address);
        lemma_first_index_of(addresses(ledger.accounts), transfer.to_address);
        if ledger.registered(transfer.from_address) && ledger.registered(transfer.to_address)
            && transfer.from_address != transfer.to_address {
            let t = ledger.account_index(transfer.to_address)->0;
            let to = ledger.accounts[t];
            let to2 = if success {
                to.merged(transfer.lots)
            } else {
                to
            };
            let released = Ledger { transfers: ledger.transfers.remove(i), ..ledger };
            let credited = released.update_account(to2).after;
            lemma_put_account_lookup(released, t, to2, credited);
            assert(credited.registered(transfer.from_address) == released.registered(
                transfer.from_address,
            ));
        }
    }
}

/// An operation that the ledger admits creates and destroys nothing and keeps
/// the ledger well formed, whether it is carried out or refused.
pub proof fn law_operation_conserves(ledger: Ledger, operation: Operation)
    requires
        ledger.well_formed(),
        ledger.total_quantity() <= u64::MAX,
        ledger.admits(operation),
    ensures
        ledger.apply(operation).after.total_quantity() == ledger.total_quantity(),
        ledger.apply(operation).after.well_formed(),
{
    lemma_fits_within_total(ledger);
    match operation {
        Operation::RecordTransfer { signature, from_address, amount, to_address } => {
            law_record_transfer(ledger, signature, from_address, amount, to_address);
        },
        Operation::ResolveTransfer { signature, success } => {
            assert(ledger.transfer_fits(signature, success));
            law_complete_transfer(ledger, signature, success);
        },
        Operation::RecordDeposit { signature, from_address, amount, exchange, deposit_address } => {
            law_record_deposit(ledger, signature, from_address, amount, exchange, deposit_address);
        },
        Operation::ResolveDeposit { signature, success } => {
            assert(ledger.transfer_fits(signature, success));
            law_complete_deposit(ledger, signature, success);
        },
        Operation::RecordOrder { deposit_account, exchange, pair, order_id, lots } => {
            law_record_order(ledger, deposit_account, exchange, pair, order_id, lots);
        },
        Operation::ResolveOrder { order_id, filled } => {
            assert(ledger.order_fits(order_id));
            law_complete_order(ledger, order_id, filled);
        },
    }
}

/// Conservation: over any sequence of operations that record or resolve
/// deposits, transfers and orders, the quantity in the accounts, the pending
/// transfers, the open orders and the disposed lots together stays what it
/// was, and the ledger stays well formed.
///
/// This is stated of a ledger that holds no more than the machine's integers
/// reach, and of orders that come with the lots and the account as their
/// caller has extracted them.
pub proof fn law_conservation(ledger: Ledger, operations: Seq<Operation>)
    requires
        ledger.well_formed(),
        ledger.total_quantity() <= u64::MAX,
        ledger.admits_all(operations),
    ensures
        ledger.run(operations).total_quantity() == ledger.total_quantity(),
        ledger.run(operations).well_formed(),
    decreases operations.len(),
{
    if operations.len() > 0 {
        law_conservation(ledger, operations.drop_last());
        law_operation_conserves(ledger.run(operations.drop_last()), operations.last());
    }
}

/// The two accounts are the same but for how their quantity is cut into
/// lots: they have the same address, description, epoch and balance, and of
/// every acquisition they hold the same amount.
pub open spec fn same_holdings(a: AccountView, b: AccountView) -> bool {
    &&& a.address == b.address
    &&& a.description == b.description
    &&& a.last_update_epoch == b.last_update_epoch
    &&& a.last_update_balance == b.last_update_balance
    &&& total_amount(a.lots) == total_amount(b.lots)
    &&& forall|acquisition: LotAcquistion| #[trigger]
        amount_acquired(a.lots, acquisition) == amount_acquired(b.lots, acquisition)
}

/// Round trip: a transfer that is recorded and then resolved as failed leaves
/// the sender with the holdings it had, in lots that it had, every other
/// account as it was, the same transfers pending, and the same quantity in the
/// ledger.
///
/// This is stated of a signature that no pending transfer has: else the
/// older transfer with the signature is the one that is resolved.
pub proof fn law_round_trip_cancel(
    ledger: Ledger,
    signature: Signature,
    from_address: Address,
    amount: Option<u64>,
    to_address: Address,
)
    requires
        ledger.well_formed(),
        ledger.transfer(signature) is None,
        ledger.record_transfer(signature, from_address, amount, to_address).outcome is Ok,
    ensures
        ({
            let recorded = ledger.record_transfer(
                signature,
                from_address,
                amount,
                to_address,
            ).after;
            let cancelled = recorded.complete_transfer(signature, false);
            &&& cancelled.outcome is Ok
            &&& ledger.account(from_address) is Some
            &&& cancelled.after.account(from_address) is Some
            &&& same_holdings(
                cancelled.after.account(from_address)->0,
                ledger.account(from_address)->0,
            )
            &&& forall|k: int|
                0 <= k < cancelled.after.account(from_address)->0.lots.len() ==> known_in(
                    #[trigger] cancelled.after.account(from_address)->0.lots[k],
                    ledger.account(from_address)->0.lots,
                )
            &&& forall|a: Address|
                a != from_address ==> #[trigger] cancelled.after.account(a) == ledger.account(a)
            &&& cancelled.after.transfers == ledger.transfers
            &&& cancelled.after.total_quantity() == ledger.total_quantity()
            &&& cancelled.after.well_formed()
        }),
{
    lemma_first_index_of(addresses(ledger.accounts), from_address);
    lemma_first_index_of(transfer_signatures(ledger.transfers), signature);
    let i = ledger.account_index(from_address)->0;
    let before = ledger.accounts[i];
    let wanted = Ledger::wanted(before, amount);
    let fresh = ledger.next_lot_number;
    let drawn = extraction(before.lots, wanted as nat, fresh);
    let reduced = before.extracted(wanted, fresh);
    lemma_extraction_exact(before.lots, wanted as nat, fresh);
    let recorded = ledger.record_transfer(signature, from_address, amount, to_address).after;
    let transfer = TransferView { signature, from_address, to_address, lots: drawn.taken };
    lemma_put_account_lookup(ledger, i, reduced, recorded);
    law_record_transfer(ledger, signature, from_address, amount, to_address);
    let signatures = transfer_signatures(ledger.transfers);
    let last = ledger.transfers.len() as int;
    assert(transfer_signatures(recorded.transfers) =~= signatures.push(signature));
    crate::search::lemma_first_index_found(
        transfer_signatures(recorded.transfers),
        signature,
        last,
    );
    assert(recorded.transfer(signature) == Some(transfer));
    assert(recorded.account(from_address) == Some(reduced));
    assert(recorded.registered(to_address) == ledger.registered(to_address));
    lemma_first_index_of(addresses(recorded.accounts), to_address);
    assert(recorded.transfer_fits(signature, false));
    law_complete_transfer(recorded, signature, false);
    let cancelled = recorded.complete_transfer(signature, false);
    assert(resolved(recorded, last, false, cancelled.after));
    assert(recorded.transfers.remove(last) =~= ledger.transfers);
    let after = cancelled.after.account(from_address)->0;
    assert(after == reduced.merged(drawn.taken));
    lemma_merge_quantity(reduced.lots, drawn.taken, None);
    assert forall|k: int| 0 <= k < after.lots.len() implies known_in(
        #[trigger] after.lots[k],
        before.lots,
    ) by {
        law_merged_back_lots_are_known(before.lots, wanted as nat, fresh, k);
    }
    assert forall|acquisition: LotAcquistion| #[trigger]
        amount_acquired(after.lots, acquisition) == amount_acquired(
            before.lots,
            acquisition,
        ) by {
        lemma_extraction_quantity(before.lots, wanted as nat, fresh, Some(acquisition));
        lemma_merge_quantity(reduced.lots, drawn.taken, Some(acquisition));
    }
    assert forall|a: Address| a != from_address implies #[trigger] cancelled.after.account(a)
        == ledger.account(a) by {
        assert(cancelled.after.account(a) == recorded.account(a));
        assert(recorded.account(a) == ledger.account(a));
    }
}

} // verus!
