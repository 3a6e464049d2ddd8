use lot_ledger::account::TrackedAccount;
use lot_ledger::calendar::Date;
use lot_ledger::ident::{Address, Signature};
use lot_ledger::lot::{Lot, LotAcquistion, LotAcquistionKind, Price};

fn date(year: i32, month: u32, day: u32) -> Date {
    Date { year, month, day }
}

fn bought(when: Date, price: f64, kind: LotAcquistionKind) -> LotAcquistion {
    LotAcquistion { when, price: Price { bits: price.to_bits() }, kind }
}

fn plain(lot_number: usize, when: Date, price: f64, amount: u64) -> Lot {
    Lot { lot_number, acquisition: bought(when, price, LotAcquistionKind::NotAvailable), amount }
}

fn holder(lots: Vec<Lot>) -> TrackedAccount {
    TrackedAccount {
        address: Address { bytes: [1; 32] },
        description: "holder".to_string(),
        last_update_epoch: 3,
        last_update_balance: lots.iter().map(|lot| lot.amount).sum(),
        lots,
    }
}

#[test]
fn merging_a_lot_with_a_known_acquisition_adds_onto_the_existing_lot() {
    let mut a = holder(vec![
        plain(0, date(2020, 1, 1), 1., 10),
        plain(1, date(2021, 1, 1), 10., 500),
    ]);

    a.merge_lots(vec![plain(7, date(2021, 1, 1), 10., 250)]);

    assert_eq!(
        a.lots,
        vec![plain(0, date(2020, 1, 1), 1., 10), plain(1, date(2021, 1, 1), 10., 750)]
    );
    assert_eq!(a.last_update_balance, 760);
    assert!(a.is_balanced());
}

#[test]
fn merging_a_lot_with_a_novel_acquisition_appends_it_as_it_is() {
    let mut a = holder(vec![plain(0, date(2020, 1, 1), 1., 10)]);

    a.merge_lots(vec![plain(7, date(2019, 1, 1), 10., 250)]);

    assert_eq!(
        a.lots,
        vec![plain(0, date(2020, 1, 1), 1., 10), plain(7, date(2019, 1, 1), 10., 250)]
    );
    assert_eq!(a.last_update_balance, 260);
}

#[test]
fn merging_goes_onto_the_first_of_several_matching_lots() {
    let mut a = holder(vec![
        plain(0, date(2020, 1, 1), 1., 10),
        plain(1, date(2020, 1, 1), 1., 20),
    ]);

    a.merge_lots(vec![plain(9, date(2020, 1, 1), 1., 5)]);

    assert_eq!(
        a.lots,
        vec![plain(0, date(2020, 1, 1), 1., 15), plain(1, date(2020, 1, 1), 1., 20)]
    );
    assert_eq!(a.last_update_balance, 35);
}

#[test]
fn merging_several_lots_coalesces_those_that_come_in_together() {
    let mut a = holder(vec![]);

    a.merge_lots(vec![
        plain(3, date(2022, 2, 2), 4., 1),
        plain(4, date(2022, 2, 2), 4., 2),
        plain(5, date(2022, 2, 3), 4., 4),
    ]);

    assert_eq!(
        a.lots,
        vec![plain(3, date(2022, 2, 2), 4., 3), plain(5, date(2022, 2, 3), 4., 4)]
    );
    assert_eq!(a.last_update_balance, 7);
}

#[test]
fn merging_nothing_changes_nothing() {
    let mut a = holder(vec![plain(0, date(2020, 1, 1), 1., 10)]);
    let before = a.clone();
    a.merge_lots(vec![]);
    assert_eq!(a, before);
}

#[test]
fn acquisitions_differ_by_date_price_or_kind() {
    let signature = Signature { bytes: [8; 64] };
    let reward = LotAcquistionKind::EpochReward { epoch: 200, slot: 5 };
    let base = bought(date(2021, 5, 5), 30., reward);
    assert!(base == bought(date(2021, 5, 5), 30., reward));
    assert!(base != bought(date(2021, 5, 6), 30., reward));
    assert!(base != bought(date(2021, 5, 5), 30.5, reward));
    assert!(base != bought(date(2021, 5, 5), 30., LotAcquistionKind::NotAvailable));
    assert!(
        base != bought(
            date(2021, 5, 5),
            30.,
            LotAcquistionKind::EpochReward { epoch: 200, slot: 6 }
        )
    );
    assert!(
        base != bought(
            date(2021, 5, 5),
            30.,
            LotAcquistionKind::EpochReward { epoch: 201, slot: 5 }
        )
    );
    let sent = LotAcquistionKind::Transaction { slot: 5, signature };
    assert!(sent == LotAcquistionKind::Transaction { slot: 5, signature });
    assert!(sent != LotAcquistionKind::Transaction { slot: 6, signature });
    assert!(
        sent != LotAcquistionKind::Transaction { slot: 5, signature: Signature { bytes: [9; 64] } }
    );
    assert!(sent != reward);
}

#[test]
fn lots_that_differ_in_kind_alone_are_not_coalesced() {
    let mut a = holder(vec![Lot {
        lot_number: 0,
        acquisition: bought(
            date(2021, 1, 1),
            10.,
            LotAcquistionKind::EpochReward { epoch: 1, slot: 2 },
        ),
        amount: 5,
    }]);

    a.merge_lots(vec![plain(1, date(2021, 1, 1), 10., 6)]);

    assert_eq!(a.lots.len(), 2);
    assert_eq!(a.lots[0].amount, 5);
    assert_eq!(a.lots[1], plain(1, date(2021, 1, 1), 10., 6));
    assert_eq!(a.last_update_balance, 11);
}

#[test]
fn whether_lots_fit_is_told_before_they_are_merged() {
    let a = holder(vec![plain(0, date(2020, 1, 1), 1., u64::MAX - 10)]);
    assert!(a.can_merge(&vec![plain(1, date(2020, 1, 1), 1., 10)]));
    assert!(!a.can_merge(&vec![plain(1, date(2020, 1, 1), 1., 11)]));
    assert!(!a.can_merge(&vec![
        plain(1, date(2020, 1, 1), 1., 6),
        plain(2, date(2020, 1, 1), 1., 5)
    ]));
    assert!(a.can_merge(&vec![]));
}
