use lot_ledger::account::TrackedAccount;
use lot_ledger::arithmetic::{checked_total, extract, sort_lots};
use lot_ledger::calendar::Date;
use lot_ledger::db::Db;
use lot_ledger::error::DbError;
use lot_ledger::ident::{Address, Signature};
use lot_ledger::lot::{Lot, LotAcquistion, LotAcquistionKind, Price};

fn address(n: u8) -> Address {
    Address { bytes: [n; 32] }
}

fn date(year: i32, month: u32, day: u32) -> Date {
    Date { year, month, day }
}

fn usd(price: f64) -> Price {
    Price { bits: price.to_bits() }
}

fn lot(lot_number: usize, when: Date, price: f64, amount: u64) -> Lot {
    Lot {
        lot_number,
        acquisition: LotAcquistion { when, price: usd(price), kind: LotAcquistionKind::NotAvailable },
        amount,
    }
}

fn account(n: u8, lots: Vec<Lot>) -> TrackedAccount {
    TrackedAccount {
        address: address(n),
        description: format!("account {}", n),
        last_update_epoch: 7,
        last_update_balance: lots.iter().map(|lot| lot.amount).sum(),
        lots,
    }
}

fn ledger_with_counter(next: usize) -> Db {
    let mut db = Db::new();
    for _ in 0..next {
        db.next_lot_number();
    }
    db
}

#[test]
fn extracting_half_of_a_lot_splits_it_and_spares_the_reserve() {
    let mut db = ledger_with_counter(2);
    let mut a = account(
        1,
        vec![lot(0, date(2021, 1, 1), 10., 1000), lot(1, date(2020, 1, 1), 1., 10)],
    );
    assert_eq!(a.last_update_balance, 1010);

    let extracted = a.extract_lots(&mut db, 500).unwrap();

    assert_eq!(extracted, vec![lot(2, date(2021, 1, 1), 10., 500)]);
    assert_eq!(
        a.lots,
        vec![lot(1, date(2020, 1, 1), 1., 10), lot(0, date(2021, 1, 1), 10., 500)]
    );
    assert_eq!(a.last_update_balance, 510);
    assert!(a.is_balanced());
    assert_eq!(db.peek_lot_number(), 3);
}

#[test]
fn extracting_more_than_the_balance_is_refused_and_changes_nothing() {
    let mut db = ledger_with_counter(5);
    let mut a = account(1, vec![lot(0, date(2021, 1, 1), 10., 100)]);
    let before = a.clone();

    let result = a.extract_lots(&mut db, 101);

    assert_eq!(result, Err(DbError::AccountHasInsufficientBalance(address(1))));
    assert_eq!(a, before);
    assert_eq!(db.peek_lot_number(), 5);
}

#[test]
fn extracting_nothing_takes_no_lot() {
    let mut db = Db::new();
    let mut a = account(
        1,
        vec![lot(0, date(2021, 3, 1), 10., 100), lot(1, date(2021, 1, 1), 10., 0)],
    );

    let extracted = a.extract_lots(&mut db, 0).unwrap();

    assert_eq!(extracted, vec![]);
    assert_eq!(
        a.lots,
        vec![lot(1, date(2021, 1, 1), 10., 0), lot(0, date(2021, 3, 1), 10., 100)]
    );
    assert_eq!(a.last_update_balance, 100);
    assert_eq!(db.peek_lot_number(), 0);
}

#[test]
fn extracting_from_an_account_without_lots() {
    let mut db = Db::new();
    let mut a = account(1, vec![]);
    assert_eq!(a.extract_lots(&mut db, 0), Ok(vec![]));
    assert_eq!(
        a.extract_lots(&mut db, 1),
        Err(DbError::AccountHasInsufficientBalance(address(1)))
    );
}

#[test]
fn extracting_whole_lots_issues_no_lot_number() {
    let mut db = ledger_with_counter(9);
    let mut a = account(
        1,
        vec![
            lot(0, date(2020, 1, 1), 1., 10),
            lot(1, date(2021, 1, 1), 2., 20),
            lot(2, date(2022, 1, 1), 3., 30),
        ],
    );

    let extracted = a.extract_lots(&mut db, 50).unwrap();

    assert_eq!(
        extracted,
        vec![lot(1, date(2021, 1, 1), 2., 20), lot(2, date(2022, 1, 1), 3., 30)]
    );
    assert_eq!(a.lots, vec![lot(0, date(2020, 1, 1), 1., 10)]);
    assert_eq!(a.last_update_balance, 10);
    assert_eq!(db.peek_lot_number(), 9);
}

#[test]
fn extracting_the_whole_balance_takes_the_reserve_too() {
    let mut db = Db::new();
    let mut a = account(
        1,
        vec![lot(0, date(2021, 1, 1), 2., 20), lot(1, date(2020, 1, 1), 1., 10)],
    );

    let extracted = a.extract_lots(&mut db, 30).unwrap();

    assert_eq!(
        extracted,
        vec![lot(1, date(2020, 1, 1), 1., 10), lot(0, date(2021, 1, 1), 2., 20)]
    );
    assert_eq!(a.lots, vec![]);
    assert_eq!(a.last_update_balance, 0);
    assert_eq!(db.peek_lot_number(), 0);
}

#[test]
fn the_reserve_is_split_only_when_the_other_lots_do_not_suffice() {
    let mut db = ledger_with_counter(4);
    let mut a = account(
        1,
        vec![lot(0, date(2020, 1, 1), 1., 10), lot(1, date(2021, 1, 1), 2., 20)],
    );

    let extracted = a.extract_lots(&mut db, 25).unwrap();

    assert_eq!(
        extracted,
        vec![lot(4, date(2020, 1, 1), 1., 5), lot(1, date(2021, 1, 1), 2., 20)]
    );
    assert_eq!(a.lots, vec![lot(0, date(2020, 1, 1), 1., 5)]);
    assert_eq!(a.last_update_balance, 5);
    assert_eq!(db.peek_lot_number(), 5);
}

#[test]
fn the_earliest_lot_stays_when_the_others_suffice() {
    let mut db = Db::new();
    let mut a = account(
        1,
        vec![
            lot(0, date(2021, 6, 1), 2., 40),
            lot(1, date(2019, 5, 5), 1., 3),
            lot(2, date(2020, 2, 2), 3., 60),
        ],
    );

    let extracted = a.extract_lots(&mut db, 100).unwrap();

    assert_eq!(
        extracted,
        vec![lot(2, date(2020, 2, 2), 3., 60), lot(0, date(2021, 6, 1), 2., 40)]
    );
    assert_eq!(a.lots, vec![lot(1, date(2019, 5, 5), 1., 3)]);
}

#[test]
fn lots_of_one_date_are_drawn_in_the_order_in_which_they_stand() {
    let mut db = ledger_with_counter(10);
    let mut a = account(
        1,
        vec![
            lot(0, date(2021, 1, 1), 1., 5),
            lot(1, date(2021, 1, 1), 2., 6),
            lot(2, date(2021, 1, 1), 3., 7),
        ],
    );

    let extracted = a.extract_lots(&mut db, 8).unwrap();

    assert_eq!(
        extracted,
        vec![lot(1, date(2021, 1, 1), 2., 6), lot(10, date(2021, 1, 1), 3., 2)]
    );
    assert_eq!(
        a.lots,
        vec![lot(2, date(2021, 1, 1), 3., 5), lot(0, date(2021, 1, 1), 1., 5)]
    );
}

#[test]
fn an_empty_lot_in_the_way_leaves_with_the_others() {
    let mut db = Db::new();
    let mut a = account(
        1,
        vec![
            lot(0, date(2020, 1, 1), 1., 10),
            lot(1, date(2021, 1, 1), 2., 0),
            lot(2, date(2022, 1, 1), 3., 30),
        ],
    );

    let extracted = a.extract_lots(&mut db, 30).unwrap();

    assert_eq!(
        extracted,
        vec![lot(1, date(2021, 1, 1), 2., 0), lot(2, date(2022, 1, 1), 3., 30)]
    );
    assert_eq!(a.lots, vec![lot(0, date(2020, 1, 1), 1., 10)]);
}

#[test]
fn extraction_is_exact_for_every_amount_up_to_the_balance() {
    let lots = vec![
        lot(0, date(2020, 1, 1), 1., 3),
        lot(1, date(2021, 1, 1), 2., 4),
        lot(2, date(2021, 1, 1), 2., 5),
        lot(3, date(2019, 1, 1), 7., 2),
    ];
    for amount in 0..=14u64 {
        let mut db = ledger_with_counter(4);
        let mut a = account(1, lots.clone());
        let extracted = a.extract_lots(&mut db, amount).unwrap();
        assert_eq!(extracted.iter().map(|lot| lot.amount).sum::<u64>(), amount);
        assert_eq!(a.lots.iter().map(|lot| lot.amount).sum::<u64>(), 14 - amount);
        assert_eq!(a.last_update_balance, 14 - amount);
        assert!(a.is_balanced());
        assert_eq!(a.assert_lot_balance(), 14 - amount);
    }
    let mut db = Db::new();
    let mut a = account(1, lots);
    assert_eq!(
        a.extract_lots(&mut db, 15),
        Err(DbError::AccountHasInsufficientBalance(address(1)))
    );
}

#[test]
fn dates_are_ordered_by_year_then_month_then_day() {
    assert!(date(2020, 12, 31).is_before(&date(2021, 1, 1)));
    assert!(date(2021, 1, 31).is_before(&date(2021, 2, 1)));
    assert!(date(2021, 2, 1).is_before(&date(2021, 2, 2)));
    assert!(!date(2021, 2, 2).is_before(&date(2021, 2, 2)));
    assert!(!date(2021, 2, 3).is_before(&date(2021, 2, 2)));
    assert!(!date(2022, 1, 1).is_before(&date(2021, 12, 31)));
    assert!(date(-1, 1, 1).is_before(&date(0, 1, 1)));
}

#[test]
fn an_account_whose_lots_do_not_sum_to_its_balance_is_found_out() {
    let mut a = account(1, vec![lot(0, date(2021, 1, 1), 1., 5)]);
    assert!(a.is_balanced());
    a.last_update_balance = 6;
    assert!(!a.is_balanced());
    let b = TrackedAccount {
        address: address(2),
        description: String::new(),
        last_update_epoch: 0,
        last_update_balance: 0,
        lots: vec![lot(0, date(2021, 1, 1), 1., u64::MAX), lot(1, date(2021, 1, 1), 1., 1)],
    };
    assert!(!b.is_balanced());
}

#[test]
fn signatures_and_addresses_are_compared_byte_by_byte() {
    let mut bytes = [3u8; 64];
    let a = Signature { bytes };
    bytes[63] = 4;
    let b = Signature { bytes };
    assert!(a == a);
    assert!(a != b);
    let mut bytes = [3u8; 32];
    let c = Address { bytes };
    bytes[0] = 9;
    let d = Address { bytes };
    assert!(c == c);
    assert!(c != d);
}

#[test]
fn lots_are_extracted_without_a_ledger() {
    let lots = vec![lot(0, date(2021, 1, 1), 10., 1000), lot(1, date(2020, 1, 1), 1., 10)];

    let (kept, taken, minted) = extract(&lots, 500, 42).unwrap();
    assert_eq!(kept, vec![lot(1, date(2020, 1, 1), 1., 10), lot(0, date(2021, 1, 1), 10., 500)]);
    assert_eq!(taken, vec![lot(42, date(2021, 1, 1), 10., 500)]);
    assert!(minted);

    let (kept, taken, minted) = extract(&lots, 1010, 42).unwrap();
    assert_eq!(kept, vec![]);
    assert_eq!(taken, vec![lot(1, date(2020, 1, 1), 1., 10), lot(0, date(2021, 1, 1), 10., 1000)]);
    assert!(!minted);

    let (kept, taken, minted) = extract(&lots, 1005, usize::MAX).unwrap();
    assert_eq!(kept, vec![lot(1, date(2020, 1, 1), 1., 5)]);
    assert_eq!(
        taken,
        vec![lot(usize::MAX, date(2020, 1, 1), 1., 5), lot(0, date(2021, 1, 1), 10., 1000)]
    );
    assert!(minted);

    assert_eq!(extract(&lots, 1011, 42), None);
    assert_eq!(extract(&vec![], 0, 42), Some((vec![], vec![], false)));
    assert_eq!(extract(&vec![], 1, 42), None);
    let heavy = vec![lot(0, date(2021, 1, 1), 1., u64::MAX), lot(1, date(2020, 1, 1), 1., 9)];
    let (kept, taken, minted) = extract(&heavy, u64::MAX, 2).unwrap();
    assert_eq!(kept, vec![lot(1, date(2020, 1, 1), 1., 9)]);
    assert_eq!(taken, vec![lot(0, date(2021, 1, 1), 1., u64::MAX)]);
    assert!(!minted);
}

#[test]
fn lots_are_sorted_by_date_and_keep_their_order_within_a_date() {
    let lots = vec![
        lot(0, date(2021, 2, 1), 1., 1),
        lot(1, date(2020, 2, 1), 1., 2),
        lot(2, date(2021, 2, 1), 1., 3),
        lot(3, date(2020, 2, 1), 1., 4),
        lot(4, date(2019, 12, 31), 1., 5),
    ];
    let numbers: Vec<usize> = sort_lots(&lots).iter().map(|lot| lot.lot_number).collect();
    assert_eq!(numbers, vec![4, 1, 3, 0, 2]);
    assert_eq!(sort_lots(&vec![]), vec![]);
}

#[test]
fn amounts_are_summed_as_far_as_the_integers_reach() {
    let lots = vec![lot(0, date(2021, 1, 1), 1., 7), lot(1, date(2021, 1, 1), 1., 8)];
    assert_eq!(checked_total(&lots, 0), Some(15));
    assert_eq!(checked_total(&lots, u64::MAX - 15), Some(u64::MAX));
    assert_eq!(checked_total(&lots, u64::MAX - 14), None);
    assert_eq!(checked_total(&vec![], 3), Some(3));
}
