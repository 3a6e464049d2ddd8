use lot_ledger::account::TrackedAccount;
use lot_ledger::calendar::Date;
use lot_ledger::db::Db;
use lot_ledger::error::DbError;
use lot_ledger::exchange::Exchange;
use lot_ledger::ident::{Address, Signature};
use lot_ledger::lot::{Lot, LotAcquistion, LotAcquistionKind, Price};
use lot_ledger::records::{PendingDeposit, PendingTransfer};

fn address(n: u8) -> Address {
    Address { bytes: [n; 32] }
}

fn signature(n: u8) -> Signature {
    Signature { bytes: [n; 64] }
}

fn date(year: i32, month: u32, day: u32) -> Date {
    Date { year, month, day }
}

fn lot(lot_number: usize, when: Date, price: f64, amount: u64) -> Lot {
    Lot {
        lot_number,
        acquisition: LotAcquistion {
            when,
            price: Price { bits: price.to_bits() },
            kind: LotAcquistionKind::NotAvailable,
        },
        amount,
    }
}

fn account(n: u8, lots: Vec<Lot>) -> TrackedAccount {
    TrackedAccount {
        address: address(n),
        description: format!("account {}", n),
        last_update_epoch: 7,
        last_update_balance: lots.iter().map(|lot| lot.amount).sum(),
        lots,
    }
}

fn sender_lots() -> Vec<Lot> {
    vec![lot(0, date(2021, 1, 1), 10., 1000), lot(1, date(2020, 1, 1), 1., 10)]
}

/// A ledger with the sender 1, the empty recipient 2, and two lot numbers
/// issued.
fn ledger() -> Db {
    let mut db = Db::new();
    db.next_lot_number();
    db.next_lot_number();
    db.add_account(account(1, sender_lots())).unwrap();
    db.add_account(account(2, vec![])).unwrap();
    db.saved();
    db
}

fn everything(db: &Db) -> u64 {
    let in_accounts: u64 =
        db.get_accounts().iter().flat_map(|a| a.lots.iter()).map(|lot| lot.amount).sum();
    let in_transfers: u64 =
        db.pending_transfers().iter().flat_map(|t| t.lots.iter()).map(|lot| lot.amount).sum();
    let in_orders: u64 =
        db.open_orders(None).iter().flat_map(|o| o.lots.iter()).map(|lot| lot.amount).sum();
    let disposed: u64 = db.disposed_lots().iter().map(|d| d.lot.amount).sum();
    in_accounts + in_transfers + in_orders + disposed
}

#[test]
fn a_recorded_transfer_holds_the_lots_that_left_the_sender() {
    let mut db = ledger();

    assert_eq!(db.record_transfer(signature(1), address(1), Some(500), address(2)), Ok(()));

    assert_eq!(
        db.pending_transfers(),
        vec![PendingTransfer {
            signature: signature(1),
            from_address: address(1),
            to_address: address(2),
            lots: vec![lot(2, date(2021, 1, 1), 10., 500)],
        }]
    );
    let sender = db.get_account(address(1)).unwrap();
    assert_eq!(
        sender.lots,
        vec![lot(1, date(2020, 1, 1), 1., 10), lot(0, date(2021, 1, 1), 10., 500)]
    );
    assert_eq!(sender.last_update_balance, 510);
    assert_eq!(sender.description, "account 1");
    assert_eq!(sender.last_update_epoch, 7);
    assert_eq!(db.get_account(address(2)), Some(account(2, vec![])));
    assert_eq!(db.peek_lot_number(), 3);
    assert!(db.save_due());
    assert_eq!(everything(&db), 1010);
}

#[test]
fn a_cancelled_transfer_gives_the_sender_its_holdings_back() {
    let mut db = ledger();
    db.record_transfer(signature(1), address(1), Some(500), address(2)).unwrap();
    db.saved();

    assert!(db.transfer_fits(signature(1), false));
    assert_eq!(db.cancel_transfer(signature(1)), Ok(()));

    let sender = db.get_account(address(1)).unwrap();
    assert_eq!(
        sender.lots,
        vec![lot(1, date(2020, 1, 1), 1., 10), lot(0, date(2021, 1, 1), 10., 1000)]
    );
    assert_eq!(sender.last_update_balance, 1010);
    assert_eq!(db.get_account(address(2)), Some(account(2, vec![])));
    assert_eq!(db.pending_transfers(), vec![]);
    assert!(db.save_due());
    assert_eq!(everything(&db), 1010);
}

#[test]
fn a_confirmed_transfer_gives_the_lots_to_the_recipient() {
    let mut db = ledger();
    db.record_transfer(signature(1), address(1), Some(500), address(2)).unwrap();

    assert!(db.transfer_fits(signature(1), true));
    assert_eq!(db.confirm_transfer(signature(1)), Ok(()));

    let recipient = db.get_account(address(2)).unwrap();
    assert_eq!(recipient.lots, vec![lot(2, date(2021, 1, 1), 10., 500)]);
    assert_eq!(recipient.last_update_balance, 500);
    let sender = db.get_account(address(1)).unwrap();
    assert_eq!(sender.last_update_balance, 510);
    assert_eq!(db.pending_transfers(), vec![]);
    assert_eq!(everything(&db), 1010);
    let order: Vec<Address> = db.get_accounts().iter().map(|a| a.address).collect();
    assert_eq!(order, vec![address(2), address(1)]);
}

#[test]
fn a_transfer_without_an_amount_moves_the_whole_balance() {
    let mut db = ledger();

    db.record_transfer(signature(1), address(1), None, address(2)).unwrap();

    assert_eq!(db.get_account(address(1)).unwrap().lots, vec![]);
    assert_eq!(db.get_account(address(1)).unwrap().last_update_balance, 0);
    assert_eq!(
        db.pending_transfers()[0].lots,
        vec![lot(1, date(2020, 1, 1), 1., 10), lot(0, date(2021, 1, 1), 10., 1000)]
    );
    assert_eq!(db.peek_lot_number(), 2);
}

#[test]
fn a_transfer_needs_both_accounts_and_enough_balance() {
    let mut db = ledger();

    assert_eq!(
        db.record_transfer(signature(1), address(9), Some(1), address(2)),
        Err(DbError::AccountDoesNotExist(address(9)))
    );
    assert_eq!(
        db.record_transfer(signature(1), address(1), Some(1), address(8)),
        Err(DbError::AccountDoesNotExist(address(8)))
    );
    assert_eq!(
        db.record_transfer(signature(1), address(1), Some(1011), address(2)),
        Err(DbError::AccountHasInsufficientBalance(address(1)))
    );
    assert_eq!(db.pending_transfers(), vec![]);
    assert_eq!(db.get_account(address(1)), Some(account(1, sender_lots())));
    assert_eq!(db.peek_lot_number(), 2);
    assert!(!db.save_due());
}

#[test]
fn resolving_a_transfer_that_is_not_pending_is_refused() {
    let mut db = ledger();
    db.record_transfer(signature(1), address(1), Some(5), address(2)).unwrap();

    assert_eq!(
        db.confirm_transfer(signature(2)),
        Err(DbError::PendingTransferDoesNotExist(signature(2)))
    );
    assert_eq!(
        db.cancel_transfer(signature(2)),
        Err(DbError::PendingTransferDoesNotExist(signature(2)))
    );
    assert_eq!(db.pending_transfers().len(), 1);
    db.confirm_transfer(signature(1)).unwrap();
    assert_eq!(
        db.confirm_transfer(signature(1)),
        Err(DbError::PendingTransferDoesNotExist(signature(1)))
    );
}

#[test]
fn a_transfer_whose_account_is_gone_stays_pending() {
    let mut db = ledger();
    db.record_transfer(signature(1), address(1), Some(5), address(2)).unwrap();
    db.remove_account(address(2)).unwrap();
    db.saved();
    let pending = db.pending_transfers();

    assert_eq!(
        db.confirm_transfer(signature(1)),
        Err(DbError::AccountDoesNotExist(address(2)))
    );
    assert_eq!(
        db.cancel_transfer(signature(1)),
        Err(DbError::AccountDoesNotExist(address(2)))
    );

    assert_eq!(db.pending_transfers(), pending);
    assert_eq!(db.get_account(address(1)).unwrap().last_update_balance, 1005);
    assert!(!db.save_due());
    assert_eq!(everything(&db), 1010);
    db.add_account(account(2, vec![])).unwrap();
    assert_eq!(db.confirm_transfer(signature(1)), Ok(()));
    assert_eq!(db.get_account(address(2)).unwrap().last_update_balance, 5);
    assert_eq!(everything(&db), 1010);
}

#[test]
fn only_the_transfer_with_the_signature_is_resolved() {
    let mut db = ledger();
    db.record_transfer(signature(1), address(1), Some(5), address(2)).unwrap();
    db.record_transfer(signature(2), address(1), Some(7), address(2)).unwrap();
    db.record_transfer(signature(3), address(1), Some(9), address(2)).unwrap();

    db.confirm_transfer(signature(2)).unwrap();

    let left: Vec<Signature> = db.pending_transfers().iter().map(|t| t.signature).collect();
    assert_eq!(left, vec![signature(1), signature(3)]);
    assert_eq!(db.get_account(address(2)).unwrap().last_update_balance, 7);
    assert_eq!(everything(&db), 1010);
}

#[test]
fn lots_that_do_not_fit_into_the_recipient_are_found_out() {
    let mut db = Db::new();
    db.add_account(account(1, vec![lot(0, date(2021, 1, 1), 1., 10)])).unwrap();
    db.add_account(account(2, vec![lot(1, date(2021, 1, 1), 1., u64::MAX - 5)])).unwrap();
    db.record_transfer(signature(1), address(1), Some(6), address(2)).unwrap();

    assert!(!db.transfer_fits(signature(1), true));
    assert!(db.transfer_fits(signature(1), false));
    assert!(db.transfer_fits(signature(2), true));
    db.cancel_transfer(signature(1)).unwrap();
    assert_eq!(db.get_account(address(1)).unwrap().last_update_balance, 10);
}

#[test]
fn a_sequence_of_operations_keeps_the_quantity_in_the_ledger() {
    let mut db = ledger();
    db.add_account(account(3, vec![lot(5, date(2019, 3, 3), 2., 77)])).unwrap();
    assert_eq!(everything(&db), 1087);

    db.record_transfer(signature(1), address(1), Some(300), address(2)).unwrap();
    assert_eq!(everything(&db), 1087);
    db.record_deposit(signature(2), address(3), 50, Exchange::Kraken, address(2)).unwrap();
    assert_eq!(everything(&db), 1087);
    db.confirm_transfer(signature(1)).unwrap();
    assert_eq!(everything(&db), 1087);
    db.cancel_deposit(signature(2)).unwrap();
    assert_eq!(everything(&db), 1087);
    let mut seller = db.get_account(address(2)).unwrap();
    let lots = seller.extract_lots(&mut db, 120).unwrap();
    db.record_order(seller, Exchange::Kraken, "SOLUSD".to_string(), "o1".to_string(), lots)
        .unwrap();
    assert_eq!(everything(&db), 1087);
    db.confirm_order("o1", Price { bits: 25f64.to_bits() }, date(2022, 6, 1)).unwrap();
    assert_eq!(everything(&db), 1087);
    assert_eq!(db.disposed_lots().iter().map(|d| d.lot.amount).sum::<u64>(), 120);
    for a in db.get_accounts() {
        assert!(a.is_balanced());
    }
}

#[test]
fn a_recorded_deposit_is_noted_and_its_lots_are_in_transit() {
    let mut db = ledger();

    assert_eq!(
        db.record_deposit(signature(4), address(1), 100, Exchange::Kraken, address(2)),
        Ok(())
    );

    let noted = PendingDeposit { signature: signature(4), exchange: Exchange::Kraken, amount: 100 };
    assert_eq!(db.pending_deposits(None), vec![noted]);
    assert_eq!(db.pending_deposits(Some(Exchange::Kraken)), vec![noted]);
    assert_eq!(db.pending_deposits(Some(Exchange::Binance)), vec![]);
    assert_eq!(
        db.pending_transfers(),
        vec![PendingTransfer {
            signature: signature(4),
            from_address: address(1),
            to_address: address(2),
            lots: vec![lot(2, date(2021, 1, 1), 10., 100)],
        }]
    );
    assert_eq!(db.get_account(address(1)).unwrap().last_update_balance, 910);
    assert!(db.save_due());
}

#[test]
fn a_confirmed_deposit_reaches_the_deposit_account() {
    let mut db = ledger();
    db.record_deposit(signature(4), address(1), 100, Exchange::Kraken, address(2)).unwrap();

    assert_eq!(db.confirm_deposit(signature(4)), Ok(()));

    assert_eq!(db.pending_deposits(None), vec![]);
    assert_eq!(db.pending_transfers(), vec![]);
    assert_eq!(
        db.get_account(address(2)).unwrap().lots,
        vec![lot(2, date(2021, 1, 1), 10., 100)]
    );
    assert_eq!(db.get_account(address(1)).unwrap().last_update_balance, 910);
}

#[test]
fn a_cancelled_deposit_goes_back_to_where_it_came_from() {
    let mut db = ledger();
    db.record_deposit(signature(4), address(1), 100, Exchange::Kraken, address(2)).unwrap();

    assert_eq!(db.cancel_deposit(signature(4)), Ok(()));

    assert_eq!(db.pending_deposits(None), vec![]);
    assert_eq!(db.pending_transfers(), vec![]);
    assert_eq!(db.get_account(address(2)).unwrap().lots, vec![]);
    let sender = db.get_account(address(1)).unwrap();
    assert_eq!(sender.last_update_balance, 1010);
    assert_eq!(
        sender.lots,
        vec![lot(1, date(2020, 1, 1), 1., 10), lot(0, date(2021, 1, 1), 10., 1000)]
    );
}

#[test]
fn resolving_a_deposit_that_is_not_pending_is_refused() {
    let mut db = ledger();
    db.record_transfer(signature(4), address(1), Some(100), address(2)).unwrap();

    assert_eq!(
        db.confirm_deposit(signature(4)),
        Err(DbError::PendingDepositDoesNotExist(signature(4)))
    );
    assert_eq!(
        db.cancel_deposit(signature(5)),
        Err(DbError::PendingDepositDoesNotExist(signature(5)))
    );
    assert_eq!(db.pending_transfers().len(), 1);
}

#[test]
fn a_refused_deposit_leaves_nothing() {
    let mut db = ledger();

    assert_eq!(
        db.record_deposit(signature(4), address(1), 5000, Exchange::Ftx, address(2)),
        Err(DbError::AccountHasInsufficientBalance(address(1)))
    );
    assert_eq!(
        db.record_deposit(signature(4), address(1), 5, Exchange::Ftx, address(9)),
        Err(DbError::AccountDoesNotExist(address(9)))
    );

    assert_eq!(db.pending_deposits(None), vec![]);
    assert_eq!(db.pending_transfers(), vec![]);
    assert_eq!(db.get_account(address(1)), Some(account(1, sender_lots())));
    assert!(!db.save_due());
}

#[test]
fn a_deposit_whose_transfer_is_refused_stays_pending() {
    let mut db = ledger();
    db.record_deposit(signature(4), address(1), 5, Exchange::Ftx, address(2)).unwrap();
    db.confirm_transfer(signature(4)).unwrap();
    db.saved();

    assert_eq!(
        db.confirm_deposit(signature(4)),
        Err(DbError::PendingTransferDoesNotExist(signature(4)))
    );
    assert_eq!(
        db.cancel_deposit(signature(4)),
        Err(DbError::PendingTransferDoesNotExist(signature(4)))
    );

    assert_eq!(db.pending_deposits(None).len(), 1);
    assert!(!db.save_due());
}

#[test]
fn deposits_are_listed_by_exchange() {
    let mut db = ledger();
    db.record_deposit(signature(1), address(1), 1, Exchange::Kraken, address(2)).unwrap();
    db.record_deposit(signature(2), address(1), 2, Exchange::Binance, address(2)).unwrap();
    db.record_deposit(signature(3), address(1), 3, Exchange::Kraken, address(2)).unwrap();

    let amounts = |deposits: Vec<PendingDeposit>| -> Vec<u64> {
        deposits.iter().map(|d| d.amount).collect()
    };
    assert_eq!(amounts(db.pending_deposits(None)), vec![1, 2, 3]);
    assert_eq!(amounts(db.pending_deposits(Some(Exchange::Kraken))), vec![1, 3]);
    assert_eq!(amounts(db.pending_deposits(Some(Exchange::Binance))), vec![2]);
    assert_eq!(amounts(db.pending_deposits(Some(Exchange::Coinbase))), vec![]);
}

#[test]
fn a_transfer_of_an_account_to_itself_comes_back_either_way() {
    let mut db = ledger();
    db.record_transfer(signature(1), address(1), Some(500), address(1)).unwrap();
    assert_eq!(db.get_account(address(1)).unwrap().last_update_balance, 510);
    db.cancel_transfer(signature(1)).unwrap();
    assert_eq!(db.get_account(address(1)).unwrap().last_update_balance, 1010);
    assert_eq!(everything(&db), 1010);

    db.record_transfer(signature(2), address(1), Some(500), address(1)).unwrap();
    assert!(db.transfer_fits(signature(2), true));
    db.confirm_transfer(signature(2)).unwrap();
    let account = db.get_account(address(1)).unwrap();
    assert_eq!(account.last_update_balance, 1010);
    assert_eq!(
        account.lots,
        vec![lot(1, date(2020, 1, 1), 1., 10), lot(0, date(2021, 1, 1), 10., 1000)]
    );
    assert!(account.is_balanced());
    assert_eq!(db.pending_transfers(), vec![]);
    assert_eq!(db.get_accounts().len(), 2);
    assert_eq!(everything(&db), 1010);
}

#[test]
fn of_transfers_that_share_a_signature_the_oldest_is_resolved() {
    let mut db = ledger();
    db.record_transfer(signature(1), address(1), Some(5), address(2)).unwrap();
    db.record_transfer(signature(1), address(1), Some(7), address(2)).unwrap();
    assert_eq!(db.pending_transfers().len(), 2);

    db.confirm_transfer(signature(1)).unwrap();

    assert_eq!(db.pending_transfers().len(), 1);
    assert_eq!(db.pending_transfers()[0].lots[0].amount, 7);
    assert_eq!(db.get_account(address(2)).unwrap().last_update_balance, 5);
    assert_eq!(db.get_account(address(1)).unwrap().last_update_balance, 998);
    assert_eq!(everything(&db), 1010);
    db.cancel_transfer(signature(1)).unwrap();
    assert_eq!(db.pending_transfers(), vec![]);
    assert_eq!(db.get_account(address(1)).unwrap().last_update_balance, 1005);
    assert_eq!(everything(&db), 1010);
}

#[test]
fn whether_a_transfer_issues_a_lot_number_is_told_before_it_is_recorded() {
    let db = ledger();
    assert!(db.record_transfer_mints(address(1), Some(500), address(2)));
    assert!(!db.record_transfer_mints(address(1), Some(1000), address(2)));
    assert!(db.record_transfer_mints(address(1), Some(1005), address(2)));
    assert!(!db.record_transfer_mints(address(1), None, address(2)));
    assert!(!db.record_transfer_mints(address(1), Some(0), address(2)));
    assert!(!db.record_transfer_mints(address(1), Some(2000), address(2)));
    assert!(!db.record_transfer_mints(address(9), Some(500), address(2)));
    assert!(!db.record_transfer_mints(address(1), Some(500), address(9)));
}
