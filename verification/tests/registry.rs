use lot_ledger::account::TrackedAccount;
use lot_ledger::calendar::Date;
use lot_ledger::db::Db;
use lot_ledger::error::DbError;
use lot_ledger::exchange::Exchange;
use lot_ledger::ident::{Address, Signature};
use lot_ledger::lot::{
    DisposedLot, Lot, LotAcquistion, LotAcquistionKind, LotDisposalKind, Price,
};
use lot_ledger::records::{
    OpenOrder, PendingDeposit, PendingTransfer, SweepStakeAccount, TransitorySweepStake,
};

fn address(n: u8) -> Address {
    Address { bytes: [n; 32] }
}

fn date(year: i32, month: u32, day: u32) -> Date {
    Date { year, month, day }
}

fn lot(lot_number: usize, when: Date, price: f64, amount: u64) -> Lot {
    Lot {
        lot_number,
        acquisition: LotAcquistion {
            when,
            price: Price { bits: price.to_bits() },
            kind: LotAcquistionKind::NotAvailable,
        },
        amount,
    }
}

fn account(n: u8, lots: Vec<Lot>) -> TrackedAccount {
    TrackedAccount {
        address: address(n),
        description: format!("account {}", n),
        last_update_epoch: 7,
        last_update_balance: lots.iter().map(|lot| lot.amount).sum(),
        lots,
    }
}

#[test]
fn a_new_ledger_holds_nothing() {
    let db = Db::new();
    assert_eq!(db.get_accounts(), vec![]);
    assert_eq!(db.pending_deposits(None), vec![]);
    assert_eq!(db.pending_transfers(), vec![]);
    assert_eq!(db.open_orders(None), vec![]);
    assert_eq!(db.disposed_lots(), vec![]);
    assert_eq!(db.get_sweep_stake_account(), None);
    assert_eq!(db.get_transitory_sweep_stake_addresses(), vec![]);
    assert_eq!(db.peek_lot_number(), 0);
    assert!(!db.save_due());
}

#[test]
fn lot_numbers_are_issued_once_and_in_order() {
    let mut db = Db::new();
    assert_eq!(db.next_lot_number(), 0);
    assert_eq!(db.next_lot_number(), 1);
    assert_eq!(db.peek_lot_number(), 2);
    assert_eq!(db.peek_lot_number(), 2);
    assert_eq!(db.next_lot_number(), 2);
    assert!(!db.save_due());
}

#[test]
fn an_address_is_registered_once() {
    let mut db = Db::new();
    let first = account(1, vec![lot(0, date(2021, 1, 1), 1., 5)]);

    assert_eq!(db.add_account(first.clone()), Ok(()));
    assert!(db.save_due());
    db.saved();
    assert!(!db.save_due());
    assert_eq!(
        db.add_account(account(1, vec![])),
        Err(DbError::AccountAlreadyExists(address(1)))
    );
    assert!(!db.save_due());
    assert_eq!(
        db.add_account_no_save(account(1, vec![])),
        Err(DbError::AccountAlreadyExists(address(1)))
    );

    assert_eq!(db.get_accounts(), vec![first.clone()]);
    assert_eq!(db.get_account(address(1)), Some(first));
    assert_eq!(db.get_account(address(2)), None);
}

#[test]
fn registering_without_a_save_asks_for_none() {
    let mut db = Db::new();
    assert_eq!(db.add_account_no_save(account(1, vec![])), Ok(()));
    assert!(!db.save_due());
    assert_eq!(db.get_accounts().len(), 1);
}

#[test]
fn an_updated_account_replaces_the_registered_one_and_stands_last() {
    let mut db = Db::new();
    db.add_account(account(1, vec![])).unwrap();
    db.add_account(account(2, vec![])).unwrap();
    db.add_account(account(3, vec![])).unwrap();
    db.saved();
    let richer = account(2, vec![lot(0, date(2021, 1, 1), 1., 5)]);

    assert_eq!(db.update_account(richer.clone()), Ok(()));

    assert!(db.save_due());
    assert_eq!(db.get_account(address(2)), Some(richer.clone()));
    assert_eq!(db.get_accounts(), vec![account(1, vec![]), account(3, vec![]), richer]);
    assert_eq!(
        db.update_account(account(4, vec![])),
        Err(DbError::AccountDoesNotExist(address(4)))
    );
    assert_eq!(db.get_accounts().len(), 3);
}

#[test]
fn a_removed_account_is_gone() {
    let mut db = Db::new();
    db.add_account(account(1, vec![])).unwrap();
    db.add_account(account(2, vec![])).unwrap();
    db.saved();

    assert_eq!(db.remove_account(address(1)), Ok(()));

    assert!(db.save_due());
    assert_eq!(db.get_account(address(1)), None);
    assert_eq!(db.get_accounts(), vec![account(2, vec![])]);
    db.saved();
    assert_eq!(db.remove_account(address(1)), Err(DbError::AccountDoesNotExist(address(1))));
    assert!(!db.save_due());
}

#[test]
fn the_sweep_stake_account_must_be_registered() {
    let mut db = Db::new();
    db.add_account(account(1, vec![])).unwrap();
    db.saved();
    let known = SweepStakeAccount { address: address(1), stake_authority: "/keys/a.json".into() };
    let unknown = SweepStakeAccount { address: address(2), stake_authority: "/keys/b.json".into() };

    assert_eq!(
        db.set_sweep_stake_account(unknown),
        Err(DbError::AccountDoesNotExist(address(2)))
    );
    assert_eq!(db.get_sweep_stake_account(), None);
    assert!(!db.save_due());
    assert_eq!(db.set_sweep_stake_account(known.clone()), Ok(()));
    assert_eq!(db.get_sweep_stake_account(), Some(known));
    assert!(db.save_due());
}

#[test]
fn a_transitory_stake_address_is_noted_and_registered_as_an_empty_account() {
    let mut db = Db::new();

    assert_eq!(db.add_transitory_sweep_stake_address(address(5), 321), Ok(()));

    assert_eq!(db.get_transitory_sweep_stake_addresses(), vec![address(5)]);
    assert_eq!(
        db.get_account(address(5)),
        Some(TrackedAccount {
            address: address(5),
            description: "Transitory stake account".to_string(),
            last_update_epoch: 321,
            last_update_balance: 0,
            lots: vec![],
        })
    );
    assert!(db.save_due());
    assert_eq!(
        db.add_transitory_sweep_stake_address(address(5), 322),
        Err(DbError::AccountAlreadyExists(address(5)))
    );
    assert_eq!(db.get_transitory_sweep_stake_addresses(), vec![address(5)]);
}

#[test]
fn a_transitory_stake_address_is_noted_also_where_its_account_exists() {
    let mut db = Db::new();
    db.add_account(account(5, vec![lot(0, date(2021, 1, 1), 1., 5)])).unwrap();
    db.saved();

    assert_eq!(
        db.add_transitory_sweep_stake_address(address(5), 1),
        Err(DbError::AccountAlreadyExists(address(5)))
    );

    assert_eq!(db.get_transitory_sweep_stake_addresses(), vec![address(5)]);
    assert_eq!(db.get_account(address(5)).unwrap().last_update_balance, 5);
    assert!(db.save_due());
}

#[test]
fn removing_a_transitory_stake_address_takes_its_account_along() {
    let mut db = Db::new();
    db.add_transitory_sweep_stake_address(address(5), 1).unwrap();
    db.add_transitory_sweep_stake_address(address(6), 1).unwrap();
    db.add_account(account(7, vec![])).unwrap();
    db.saved();

    assert_eq!(db.remove_transitory_sweep_stake_address(address(5)), Ok(()));

    assert_eq!(db.get_transitory_sweep_stake_addresses(), vec![address(6)]);
    assert_eq!(db.get_account(address(5)), None);
    assert!(db.save_due());
    db.saved();
    assert_eq!(
        db.remove_transitory_sweep_stake_address(address(7)),
        Err(DbError::AccountDoesNotExist(address(7)))
    );
    assert_eq!(db.get_account(address(7)), None);
    assert!(!db.save_due());
    assert_eq!(
        db.remove_transitory_sweep_stake_address(address(9)),
        Err(DbError::AccountDoesNotExist(address(9)))
    );
}

#[test]
fn a_ledger_is_restored_from_its_records() {
    let accounts = vec![account(1, vec![lot(0, date(2021, 1, 1), 1., 5)]), account(2, vec![])];
    let deposits = vec![PendingDeposit {
        signature: Signature { bytes: [1; 64] },
        exchange: Exchange::Kraken,
        amount: 9,
    }];
    let transfers = vec![PendingTransfer {
        signature: Signature { bytes: [1; 64] },
        from_address: address(1),
        to_address: address(2),
        lots: vec![lot(1, date(2021, 1, 1), 1., 9)],
    }];
    let orders = vec![OpenOrder {
        exchange: Exchange::Ftx,
        pair: "SOLUSD".to_string(),
        order_id: "o".to_string(),
        lots: vec![lot(2, date(2021, 1, 1), 1., 3)],
        deposit_address: address(2),
    }];
    let disposed = vec![DisposedLot {
        lot: lot(3, date(2021, 1, 1), 1., 4),
        when: date(2022, 1, 1),
        price: Price { bits: 2f64.to_bits() },
        kind: LotDisposalKind::Usd {
            exchange: Exchange::Ftx,
            pair: "SOLUSD".to_string(),
            order_id: "n".to_string(),
        },
    }];
    let sweep = SweepStakeAccount { address: address(2), stake_authority: "k.json".to_string() };
    let transitory = vec![
        TransitorySweepStake { address: address(8) },
        TransitorySweepStake { address: address(9) },
        TransitorySweepStake { address: address(8) },
    ];

    let mut db = Db::restore(
        accounts.clone(),
        deposits.clone(),
        transfers.clone(),
        orders.clone(),
        disposed.clone(),
        4,
        Some(sweep.clone()),
        transitory,
    )
    .unwrap();

    assert_eq!(db.get_accounts(), accounts);
    assert_eq!(db.pending_deposits(None), deposits);
    assert_eq!(db.pending_transfers(), transfers);
    assert_eq!(db.open_orders(None), orders);
    assert_eq!(db.disposed_lots(), disposed);
    assert_eq!(db.get_sweep_stake_account(), Some(sweep));
    assert_eq!(db.get_transitory_sweep_stake_addresses(), vec![address(8), address(9)]);
    assert_eq!(db.peek_lot_number(), 4);
    assert!(!db.save_due());
    db.confirm_deposit(Signature { bytes: [1; 64] }).unwrap();
    assert_eq!(db.get_account(address(2)).unwrap().last_update_balance, 9);
}

#[test]
fn a_ledger_with_an_account_that_does_not_add_up_is_not_restored() {
    let mut bad = account(2, vec![lot(0, date(2021, 1, 1), 1., 5)]);
    bad.last_update_balance = 4;
    let restored =
        Db::restore(vec![account(1, vec![]), bad], vec![], vec![], vec![], vec![], 0, None, vec![]);
    assert!(restored.is_none());
    let restored =
        Db::restore(vec![account(1, vec![])], vec![], vec![], vec![], vec![], 0, None, vec![]);
    assert!(restored.is_some());
}

#[test]
fn a_ledger_with_two_accounts_of_one_address_is_not_restored() {
    let restored = Db::restore(
        vec![account(1, vec![]), account(2, vec![]), account(1, vec![lot(0, date(2021, 1, 1), 1., 5)])],
        vec![],
        vec![],
        vec![],
        vec![],
        0,
        None,
        vec![],
    );
    assert!(restored.is_none());
}

#[test]
fn exchanges_are_known_by_their_names() {
    let all = [
        (Exchange::Binance, "Binance"),
        (Exchange::BinanceUs, "BinanceUs"),
        (Exchange::Coinbase, "Coinbase"),
        (Exchange::Ftx, "Ftx"),
        (Exchange::FtxUs, "FtxUs"),
        (Exchange::Kraken, "Kraken"),
    ];
    for (exchange, name) in all {
        assert_eq!(exchange.name(), name);
        assert_eq!(Exchange::from_name(name), Some(exchange));
    }
    assert_eq!(Exchange::from_name("kraken"), None);
    assert_eq!(Exchange::from_name(""), None);
    assert_eq!(Exchange::from_name("Kraken "), None);
}
