//! Lot arithmetic: what a collection of lots holds, how lots are drawn from it
//! and how lots are put back.
//!
//! Everything here is a statement about sequences of lots. The executable
//! code that follows these statements is in [`crate::account`].

use vstd::prelude::*;
use crate::calendar::Date;
use crate::lot::{Lot, LotAcquistion};
use crate::search::{
    first_index_of, is_first_index, lemma_first_index_absent, lemma_first_index_found,
    lemma_first_index_of,
};

verus! {

/// Whether `lot` is counted when quantities are summed `of` one acquisition
/// (`Some`) or of all of them (`None`).
pub open spec fn counted(lot: Lot, of: Option<LotAcquistion>) -> bool {
    of matches Some(acquisition) ==> lot.acquisition == acquisition
}

/// What `lot` adds to a sum `of` one acquisition or of all of them.
pub open spec fn weight(lot: Lot, of: Option<LotAcquistion>) -> nat {
    if counted(lot, of) {
        lot.amount as nat
    } else {
        0
    }
}

/// The sum of the amounts of those `lots` that are counted.
pub open spec fn quantity(lots: Seq<Lot>, of: Option<LotAcquistion>) -> nat
    decreases lots.len(),
{
    if lots.len() == 0 {
        0
    } else {
        quantity(lots.drop_last(), of) + weight(lots.last(), of)
    }
}

/// The sum of the amounts of all `lots`.
pub open spec fn total_amount(lots: Seq<Lot>) -> nat {
    quantity(lots, None)
}

/// The sum of the amounts of those `lots` that were acquired as `acquisition` says.
pub open spec fn amount_acquired(lots: Seq<Lot>, acquisition: LotAcquistion) -> nat {
    quantity(lots, Some(acquisition))
}

/// A lot put behind the others adds its weight.
pub proof fn lemma_quantity_push(lots: Seq<Lot>, lot: Lot, of: Option<LotAcquistion>)
    ensures
        quantity(lots.push(lot), of) == quantity(lots, of) + weight(lot, of),
{
    assert(lots.push(lot).drop_last() =~= lots);
}

/// The quantity of two collections put together is the sum of their quantities.
pub proof fn lemma_quantity_concat(a: Seq<Lot>, b: Seq<Lot>, of: Option<LotAcquistion>)
    ensures
        quantity(a + b, of) == quantity(a, of) + quantity(b, of),
    decreases b.len(),
{
    if b.len() == 0 {
        assert(a + b =~= a);
    } else {
        lemma_quantity_concat(a, b.drop_last(), of);
        assert((a + b).drop_last() =~= a + b.drop_last());
    }
}

/// A single lot holds its weight.
pub proof fn lemma_quantity_single(lot: Lot, of: Option<LotAcquistion>)
    ensures
        quantity(seq![lot], of) == weight(lot, of),
{
    assert(seq![lot] =~= Seq::<Lot>::empty().push(lot));
    lemma_quantity_push(Seq::<Lot>::empty(), lot, of);
}

/// Splitting a sequence at `i` splits its quantity.
pub proof fn lemma_quantity_split(lots: Seq<Lot>, i: int, of: Option<LotAcquistion>)
    requires
        0 <= i < lots.len(),
    ensures
        quantity(lots, of) == quantity(lots.take(i), of) + weight(lots[i], of) + quantity(
            lots.skip(i + 1),
            of,
        ),
{
    assert(lots =~= lots.take(i).push(lots[i]) + lots.skip(i + 1));
    lemma_quantity_concat(lots.take(i).push(lots[i]), lots.skip(i + 1), of);
    lemma_quantity_push(lots.take(i), lots[i], of);
}

/// A lot put in anywhere adds its weight.
pub proof fn lemma_quantity_insert(lots: Seq<Lot>, i: int, lot: Lot, of: Option<LotAcquistion>)
    requires
        0 <= i <= lots.len(),
    ensures
        quantity(lots.insert(i, lot), of) == quantity(lots, of) + weight(lot, of),
{
    let r = lots.insert(i, lot);
    lemma_quantity_split(r, i, of);
    assert(r.take(i) =~= lots.take(i));
    assert(r.skip(i + 1) =~= lots.skip(i));
    assert(lots =~= lots.take(i) + lots.skip(i));
    lemma_quantity_concat(lots.take(i), lots.skip(i), of);
}

/// A lot taken out takes its weight along.
pub proof fn lemma_quantity_remove(lots: Seq<Lot>, i: int, of: Option<LotAcquistion>)
    requires
        0 <= i < lots.len(),
    ensures
        quantity(lots.remove(i), of) + weight(lots[i], of) == quantity(lots, of),
{
    assert(lots.remove(i).insert(i, lots[i]) =~= lots);
    lemma_quantity_insert(lots.remove(i), i, lots[i], of);
}

/// A lot put in the place of another changes the quantity by the difference
/// of their weights.
pub proof fn lemma_quantity_update(lots: Seq<Lot>, i: int, lot: Lot, of: Option<LotAcquistion>)
    requires
        0 <= i < lots.len(),
    ensures
        quantity(lots.update(i, lot), of) + weight(lots[i], of) == quantity(lots, of) + weight(
            lot,
            of,
        ),
{
    assert(lots.update(i, lot) =~= lots.remove(i).insert(i, lot));
    lemma_quantity_remove(lots, i, of);
    lemma_quantity_insert(lots.remove(i), i, lot, of);
}

/// No lot holds more than the whole collection does.
pub proof fn lemma_amount_within_total(lots: Seq<Lot>, i: int)
    requires
        0 <= i < lots.len(),
    ensures
        lots[i].amount <= total_amount(lots),
{
    lemma_quantity_split(lots, i, None);
}

/// The lots are in the order of their acquisition dates, earliest first.
pub open spec fn sorted_by_date(lots: Seq<Lot>) -> bool {
    forall|i: int, j: int|
        0 <= i <= j < lots.len() ==> (#[trigger] lots[i]).acquisition.when.not_after(
            (#[trigger] lots[j]).acquisition.when,
        )
}

/// Where `lot` goes in `sorted`: behind every lot that is not dated later.
pub open spec fn insertion_point(sorted: Seq<Lot>, lot: Lot) -> int
    decreases sorted.len(),
{
    if sorted.len() == 0 || sorted.last().acquisition.when.not_after(lot.acquisition.when) {
        sorted.len() as int
    } else {
        insertion_point(sorted.drop_last(), lot)
    }
}

/// `sorted` with `lot` put in behind every lot that is not dated later.
pub open spec fn insert_by_date(sorted: Seq<Lot>, lot: Lot) -> Seq<Lot> {
    sorted.insert(insertion_point(sorted, lot), lot)
}

/// The lots ordered by acquisition date, earliest first; lots of one date keep
/// the order in which they stood.
pub open spec fn sort_by_date(lots: Seq<Lot>) -> Seq<Lot>
    decreases lots.len(),
{
    if lots.len() == 0 {
        lots
    } else {
        insert_by_date(sort_by_date(lots.drop_last()), lots.last())
    }
}

/// The insertion point splits `sorted` into the lots that are not dated later
/// than `lot` and those that are.
pub proof fn lemma_insertion_point(sorted: Seq<Lot>, lot: Lot)
    ensures
        0 <= insertion_point(sorted, lot) <= sorted.len(),
        forall|k: int|
            insertion_point(sorted, lot) <= k < sorted.len()
                ==> lot.acquisition.when.earlier_than((#[trigger] sorted[k]).acquisition.when),
        insertion_point(sorted, lot) > 0 ==> sorted[insertion_point(sorted, lot)
            - 1].acquisition.when.not_after(lot.acquisition.when),
    decreases sorted.len(),
{
    if !(sorted.len() == 0 || sorted.last().acquisition.when.not_after(lot.acquisition.when)) {
        let front = sorted.drop_last();
        lemma_insertion_point(front, lot);
        assert forall|k: int| insertion_point(sorted, lot) <= k < sorted.len() implies lot
            .acquisition.when.earlier_than((#[trigger] sorted[k]).acquisition.when) by {
            if k < front.len() {
                assert(sorted[k] == front[k]);
            }
        }
    }
}

/// A lot put into sorted lots at its insertion point leaves them sorted.
pub proof fn lemma_insert_by_date_sorted(sorted: Seq<Lot>, lot: Lot)
    requires
        sorted_by_date(sorted),
    ensures
        sorted_by_date(insert_by_date(sorted, lot)),
        insert_by_date(sorted, lot).len() == sorted.len() + 1,
{
    lemma_insertion_point(sorted, lot);
    let p = insertion_point(sorted, lot);
    let r = insert_by_date(sorted, lot);
    assert forall|i: int, j: int| 0 <= i <= j < r.len() implies (#[trigger] r[i])
        .acquisition.when.not_after((#[trigger] r[j]).acquisition.when) by {
        if i < p {
            assert(r[i] == sorted[i]);
            assert(sorted[i].acquisition.when.not_after(sorted[p - 1].acquisition.when));
        }
        if j > p {
            assert(r[j] == sorted[j - 1]);
        }
    }
}

/// Sorting by date orders the lots and keeps their number.
pub proof fn lemma_sort_by_date_sorted(lots: Seq<Lot>)
    ensures
        sorted_by_date(sort_by_date(lots)),
        sort_by_date(lots).len() == lots.len(),
    decreases lots.len(),
{
    if lots.len() > 0 {
        lemma_sort_by_date_sorted(lots.drop_last());
        lemma_insert_by_date_sorted(sort_by_date(lots.drop_last()), lots.last());
    }
}

/// Sorting by date rearranges the lots: none is added, lost or changed.
pub proof fn lemma_sort_by_date_permutes(lots: Seq<Lot>)
    ensures
        sort_by_date(lots).to_multiset() == lots.to_multiset(),
    decreases lots.len(),
{
    broadcast use vstd::seq_lib::group_to_multiset_ensures;

    if lots.len() > 0 {
        let front = lots.drop_last();
        lemma_sort_by_date_permutes(front);
        lemma_insertion_point(sort_by_date(front), lots.last());
        assert(lots =~= front.push(lots.last()));
        assert(sort_by_date(lots).to_multiset() =~= sort_by_date(front).to_multiset().insert(
            lots.last(),
        ));
        assert(lots.to_multiset() =~= front.to_multiset().insert(lots.last()));
    }
}

/// The test for a lot to be acquired on `date`.
pub open spec fn acquired_on(date: Date) -> spec_fn(Lot) -> bool {
    |lot: Lot| lot.acquisition.when == date
}

/// The lots that were acquired on `date`, in their order.
pub open spec fn lots_of_date(lots: Seq<Lot>, date: Date) -> Seq<Lot> {
    lots.filter(acquired_on(date))
}

/// Lots none of which was acquired on `date` have no lots of that date.
pub proof fn lemma_no_lots_of_date(lots: Seq<Lot>, date: Date)
    requires
        forall|k: int| 0 <= k < lots.len() ==> (#[trigger] lots[k]).acquisition.when != date,
    ensures
        lots_of_date(lots, date) == Seq::<Lot>::empty(),
    decreases lots.len(),
{
    reveal(Seq::filter);
    if lots.len() > 0 {
        lemma_no_lots_of_date(lots.drop_last(), date);
    }
    assert(lots_of_date(lots, date) =~= Seq::<Lot>::empty());
}

/// Sorting by date is stable: the lots of one date stand after sorting in the
/// order in which they stood before. Together with the order of the dates
/// this says where every lot stands.
pub proof fn law_sort_by_date_stable(lots: Seq<Lot>, date: Date)
    ensures
        lots_of_date(sort_by_date(lots), date) == lots_of_date(lots, date),
    decreases lots.len(),
{
    if lots.len() > 0 {
        let front = lots.drop_last();
        let last = lots.last();
        let sorted = sort_by_date(front);
        let p = insertion_point(sorted, last);
        let on = acquired_on(date);
        law_sort_by_date_stable(front, date);
        lemma_insertion_point(sorted, last);
        assert(lots =~= front.push(last));
        front.lemma_filter_push(last, on);
        assert(sorted.insert(p, last) =~= sorted.take(p).push(last) + sorted.skip(p));
        assert(sorted =~= sorted.take(p) + sorted.skip(p));
        Seq::filter_distributes_over_add(sorted.take(p).push(last), sorted.skip(p), on);
        Seq::filter_distributes_over_add(sorted.take(p), sorted.skip(p), on);
        sorted.take(p).lemma_filter_push(last, on);
        if last.acquisition.when == date {
            lemma_no_lots_of_date(sorted.skip(p), date);
            assert(sorted.take(p).filter(on) + Seq::<Lot>::empty() =~= sorted.take(p).filter(on));
            assert(sorted.take(p).filter(on).push(last) + Seq::<Lot>::empty()
                =~= sorted.take(p).filter(on).push(last));
        }
    }
}

/// Sorting by date changes no quantity.
pub proof fn lemma_sort_by_date_quantity(lots: Seq<Lot>, of: Option<LotAcquistion>)
    ensures
        quantity(sort_by_date(lots), of) == quantity(lots, of),
    decreases lots.len(),
{
    if lots.len() > 0 {
        let front = lots.drop_last();
        lemma_sort_by_date_quantity(front, of);
        lemma_insertion_point(sort_by_date(front), lots.last());
        lemma_quantity_insert(
            sort_by_date(front),
            insertion_point(sort_by_date(front), lots.last()),
            lots.last(),
            of,
        );
    }
}

/// Orders `lots` by acquisition date, earliest first, keeping lots of one date
/// in the order in which they stood.
pub fn sort_lots(lots: &Vec<Lot>) -> (sorted: Vec<Lot>)
    ensures
        sorted@ == sort_by_date(lots@),
{
    let mut sorted: Vec<Lot> = Vec::new();
    let mut i: usize = 0;
    while i < lots.len()
        invariant
            i <= lots.len(),
            sorted@ == sort_by_date(lots@.take(i as int)),
        decreases lots.len() - i,
    {
        let lot = lots[i];
        let mut j: usize = sorted.len();
        assert(sorted@.take(j as int) =~= sorted@);
        while j > 0 && lot.acquisition.when.is_before(&sorted[j - 1].acquisition.when)
            invariant
                j <= sorted.len(),
                insertion_point(sorted@, lot) == insertion_point(sorted@.take(j as int), lot),
            decreases j,
        {
            assert(sorted@.take(j as int).drop_last() =~= sorted@.take(j - 1));
            j -= 1;
        }
        assert(lots@.take(i + 1).drop_last() =~= lots@.take(i as int));
        sorted.insert(j, lot);
        i += 1;
    }
    assert(lots@.take(lots.len() as int) =~= lots@);
    sorted
}

/// The order in which lots are drawn from: by date, but with the earliest lot
/// moved to the end. The earliest lot is taken to be a reserve and is drawn
/// from only when nothing else is left.
pub open spec fn reserve_last(lots: Seq<Lot>) -> Seq<Lot> {
    if lots.len() == 0 {
        lots
    } else {
        lots.skip(1).push(lots[0])
    }
}

/// The outcome of drawing a quantity from a collection of lots.
pub struct Drawn {
    /// The lots that stay.
    pub kept: Seq<Lot>,
    /// The lots that leave.
    pub taken: Seq<Lot>,
    /// Whether a lot was split, so that a new lot number was issued.
    pub minted: bool,
}

/// Draws `amount` from the front of `order`.
///
/// Lots are taken whole as long as the amount still wanted covers them. When
/// the next lot holds more than is still wanted, it is split: a new lot with
/// the number `fresh` and the same acquisition takes what is wanted, and the
/// lot itself stays with the rest. Once nothing more is wanted, every further
/// lot stays.
pub open spec fn draw(order: Seq<Lot>, amount: nat, fresh: usize) -> Drawn
    decreases order.len(),
{
    if order.len() == 0 || amount == 0 {
        Drawn { kept: order, taken: Seq::empty(), minted: false }
    } else if order[0].amount <= amount {
        let rest = draw(order.skip(1), (amount - order[0].amount) as nat, fresh);
        Drawn { kept: rest.kept, taken: seq![order[0]] + rest.taken, minted: rest.minted }
    } else {
        Drawn {
            kept: seq![Lot { amount: (order[0].amount - amount) as u64, ..order[0] }] + order.skip(
                1,
            ),
            taken: seq![
                Lot { lot_number: fresh, acquisition: order[0].acquisition, amount: amount as u64 },
            ],
            minted: true,
        }
    }
}

/// Extracts `amount` from `lots`: the lots are drawn from in date order with
/// the earliest lot last, and both what stays and what leaves is put back into
/// date order.
pub open spec fn extraction(lots: Seq<Lot>, amount: nat, fresh: usize) -> Drawn {
    let drawn = draw(reserve_last(sort_by_date(lots)), amount, fresh);
    Drawn {
        kept: sort_by_date(drawn.kept),
        taken: sort_by_date(drawn.taken),
        minted: drawn.minted,
    }
}

/// The acquisitions of `lots`, lot by lot.
pub open spec fn acquisitions(lots: Seq<Lot>) -> Seq<LotAcquistion> {
    lots.map_values(|lot: Lot| lot.acquisition)
}

/// Puts `lot` into `lots`: onto the first lot with the same acquisition if
/// there is one, else behind the others as a lot of its own.
pub open spec fn merge_lot(lots: Seq<Lot>, lot: Lot) -> Seq<Lot> {
    match first_index_of(acquisitions(lots), lot.acquisition) {
        Some(i) => lots.update(i, Lot { amount: (lots[i].amount + lot.amount) as u64, ..lots[i] }),
        None => lots.push(lot),
    }
}

/// Puts the `incoming` lots into `lots`, one after the other.
pub open spec fn merge(lots: Seq<Lot>, incoming: Seq<Lot>) -> Seq<Lot>
    decreases incoming.len(),
{
    if incoming.len() == 0 {
        lots
    } else {
        merge_lot(merge(lots, incoming.drop_last()), incoming.last())
    }
}

/// A lot put before the others adds its weight.
pub proof fn lemma_quantity_prepend(lot: Lot, lots: Seq<Lot>, of: Option<LotAcquistion>)
    ensures
        quantity(seq![lot] + lots, of) == weight(lot, of) + quantity(lots, of),
{
    lemma_quantity_concat(seq![lot], lots, of);
    lemma_quantity_single(lot, of);
}

/// Moving the earliest lot to the end changes no quantity.
pub proof fn lemma_reserve_last_quantity(lots: Seq<Lot>, of: Option<LotAcquistion>)
    ensures
        quantity(reserve_last(lots), of) == quantity(lots, of),
{
    if lots.len() > 0 {
        assert(lots =~= seq![lots[0]] + lots.skip(1));
        lemma_quantity_prepend(lots[0], lots.skip(1), of);
        lemma_quantity_push(lots.skip(1), lots[0], of);
    }
}

/// Drawing creates and destroys nothing: what stays and what leaves together
/// hold what was there, of every acquisition.
pub proof fn lemma_draw_quantity(
    order: Seq<Lot>,
    amount: nat,
    fresh: usize,
    of: Option<LotAcquistion>,
)
    ensures
        quantity(draw(order, amount, fresh).kept, of) + quantity(
            draw(order, amount, fresh).taken,
            of,
        ) == quantity(order, of),
    decreases order.len(),
{
    if order.len() == 0 || amount == 0 {
    } else {
        assert(order =~= seq![order[0]] + order.skip(1));
        lemma_quantity_prepend(order[0], order.skip(1), of);
        if order[0].amount <= amount {
            let less = (amount - order[0].amount) as nat;
            lemma_draw_quantity(order.skip(1), less, fresh, of);
            lemma_quantity_prepend(order[0], draw(order.skip(1), less, fresh).taken, of);
        } else {
            let stays = Lot { amount: (order[0].amount - amount) as u64, ..order[0] };
            let leaves = Lot {
                lot_number: fresh,
                acquisition: order[0].acquisition,
                amount: amount as u64,
            };
            lemma_quantity_prepend(stays, order.skip(1), of);
            lemma_quantity_single(leaves, of);
        }
    }
}

/// Drawing takes exactly what is asked for, if that much is there.
pub proof fn lemma_draw_exact(order: Seq<Lot>, amount: nat, fresh: usize)
    requires
        amount <= total_amount(order),
    ensures
        total_amount(draw(order, amount, fresh).taken) == amount,
    decreases order.len(),
{
    if order.len() == 0 || amount == 0 {
    } else {
        assert(order =~= seq![order[0]] + order.skip(1));
        lemma_quantity_prepend(order[0], order.skip(1), None);
        if order[0].amount <= amount {
            let less = (amount - order[0].amount) as nat;
            lemma_draw_exact(order.skip(1), less, fresh);
            lemma_quantity_prepend(order[0], draw(order.skip(1), less, fresh).taken, None);
        } else {
            let leaves = Lot {
                lot_number: fresh,
                acquisition: order[0].acquisition,
                amount: amount as u64,
            };
            lemma_quantity_single(leaves, None);
        }
    }
}

/// Extraction creates and destroys nothing, of any acquisition.
pub proof fn lemma_extraction_quantity(
    lots: Seq<Lot>,
    amount: nat,
    fresh: usize,
    of: Option<LotAcquistion>,
)
    ensures
        quantity(extraction(lots, amount, fresh).kept, of) + quantity(
            extraction(lots, amount, fresh).taken,
            of,
        ) == quantity(lots, of),
{
    let order = reserve_last(sort_by_date(lots));
    let drawn = draw(order, amount, fresh);
    lemma_sort_by_date_quantity(lots, of);
    lemma_reserve_last_quantity(sort_by_date(lots), of);
    lemma_draw_quantity(order, amount, fresh, of);
    lemma_sort_by_date_quantity(drawn.kept, of);
    lemma_sort_by_date_quantity(drawn.taken, of);
}

/// Extraction is exact: the lots that leave sum to `amount`, and the lots that
/// stay sum to the rest.
pub proof fn lemma_extraction_exact(lots: Seq<Lot>, amount: nat, fresh: usize)
    requires
        amount <= total_amount(lots),
    ensures
        total_amount(extraction(lots, amount, fresh).taken) == amount,
        total_amount(extraction(lots, amount, fresh).kept) == total_amount(lots) - amount,
{
    let order = reserve_last(sort_by_date(lots));
    let drawn = draw(order, amount, fresh);
    lemma_sort_by_date_quantity(lots, None);
    lemma_reserve_last_quantity(sort_by_date(lots), None);
    lemma_draw_exact(order, amount, fresh);
    lemma_sort_by_date_quantity(drawn.taken, None);
    lemma_extraction_quantity(lots, amount, fresh, None);
}

/// Putting a lot in adds its amount, to the total and to the sum of its own
/// acquisition, and to no other.
pub proof fn lemma_merge_lot_quantity(lots: Seq<Lot>, lot: Lot, of: Option<LotAcquistion>)
    requires
        total_amount(lots) + lot.amount <= u64::MAX,
    ensures
        quantity(merge_lot(lots, lot), of) == quantity(lots, of) + weight(lot, of),
{
    lemma_first_index_of(acquisitions(lots), lot.acquisition);
    match first_index_of(acquisitions(lots), lot.acquisition) {
        Some(i) => {
            lemma_amount_within_total(lots, i);
            let grown = Lot { amount: (lots[i].amount + lot.amount) as u64, ..lots[i] };
            lemma_quantity_update(lots, i, grown, of);
        },
        None => {
            lemma_quantity_push(lots, lot, of);
        },
    }
}

/// Merging adds what comes in, to the total and to the sum of every
/// acquisition.
pub proof fn lemma_merge_quantity(lots: Seq<Lot>, incoming: Seq<Lot>, of: Option<LotAcquistion>)
    requires
        total_amount(lots) + total_amount(incoming) <= u64::MAX,
    ensures
        quantity(merge(lots, incoming), of) == quantity(lots, of) + quantity(incoming, of),
    decreases incoming.len(),
{
    if incoming.len() > 0 {
        let front = incoming.drop_last();
        lemma_merge_quantity(lots, front, of);
        lemma_merge_quantity(lots, front, None);
        lemma_merge_lot_quantity(merge(lots, front), incoming.last(), of);
    }
}

/// Merge coalescing, first half: a lot whose acquisition some lot of the
/// collection has is added onto the first such lot, and no lot is added.
pub proof fn law_merge_adds_onto_matching_lot(lots: Seq<Lot>, lot: Lot, i: int)
    requires
        is_first_index(acquisitions(lots), lot.acquisition, i),
        lots[i].amount + lot.amount <= u64::MAX,
    ensures
        merge_lot(lots, lot).len() == lots.len(),
        merge_lot(lots, lot)[i].amount == lots[i].amount + lot.amount,
        merge_lot(lots, lot)[i].lot_number == lots[i].lot_number,
        merge_lot(lots, lot)[i].acquisition == lots[i].acquisition,
        forall|j: int| 0 <= j < lots.len() && j != i ==> merge_lot(lots, lot)[j] == lots[j],
{
    lemma_first_index_found(acquisitions(lots), lot.acquisition, i);
}

/// Merge coalescing, second half: a lot whose acquisition no lot of the
/// collection has is put behind the others, as it is.
pub proof fn law_merge_appends_novel_lot(lots: Seq<Lot>, lot: Lot)
    requires
        forall|j: int| 0 <= j < lots.len() ==> lots[j].acquisition != lot.acquisition,
    ensures
        merge_lot(lots, lot) == lots.push(lot),
{
    lemma_first_index_absent(acquisitions(lots), lot.acquisition);
}

/// No two lots have the same acquisition date.
pub open spec fn dates_differ(lots: Seq<Lot>) -> bool {
    forall|i: int, j: int|
        0 <= i < j < lots.len() ==> (#[trigger] lots[i]).acquisition.when != (
        #[trigger] lots[j]).acquisition.when
}

/// Sorting by date keeps every lot and brings in none.
pub proof fn lemma_sort_by_date_contains(lots: Seq<Lot>, lot: Lot)
    ensures
        sort_by_date(lots).contains(lot) == lots.contains(lot),
{
    lemma_sort_by_date_permutes(lots);
    vstd::seq_lib::to_multiset_contains(sort_by_date(lots), lot);
    vstd::seq_lib::to_multiset_contains(lots, lot);
}

/// Sorting lots of different dates gives lots of different dates.
pub proof fn lemma_sort_by_date_dates_differ(lots: Seq<Lot>)
    requires
        dates_differ(lots),
    ensures
        dates_differ(sort_by_date(lots)),
    decreases lots.len(),
{
    if lots.len() > 0 {
        let front = lots.drop_last();
        let last = lots.last();
        let sorted = sort_by_date(front);
        assert(dates_differ(front)) by {
            assert forall|i: int, j: int| 0 <= i < j < front.len() implies (#[trigger] front[i])
                .acquisition.when != (#[trigger] front[j]).acquisition.when by {
                assert(front[i] == lots[i] && front[j] == lots[j]);
            }
        }
        lemma_sort_by_date_dates_differ(front);
        lemma_insertion_point(sorted, last);
        let p = insertion_point(sorted, last);
        let r = sort_by_date(lots);
        assert forall|k: int| 0 <= k < sorted.len() implies sorted[k].acquisition.when
            != last.acquisition.when by {
            lemma_sort_by_date_contains(front, sorted[k]);
            assert(sorted.contains(sorted[k]));
            let m = choose|m: int| 0 <= m < front.len() && front[m] == sorted[k];
            assert(lots[m] == sorted[k]);
            assert(lots[lots.len() - 1] == last);
        }
        assert forall|i: int, j: int| 0 <= i < j < r.len() implies (#[trigger] r[i])
            .acquisition.when != (#[trigger] r[j]).acquisition.when by {
            let ii = if i < p {
                i
            } else {
                i - 1
            };
            let jj = if j < p {
                j
            } else {
                j - 1
            };
            if i != p {
                assert(r[i] == sorted[ii]);
            }
            if j != p {
                assert(r[j] == sorted[jj]);
            }
        }
    }
}

/// Where the lots at the front of the order hold what is asked for, the lots
/// behind them stay as they are.
pub proof fn lemma_draw_front(front: Seq<Lot>, back: Seq<Lot>, amount: nat, fresh: usize)
    requires
        amount <= total_amount(front),
    ensures
        draw(front + back, amount, fresh).kept == draw(front, amount, fresh).kept + back,
        draw(front + back, amount, fresh).taken == draw(front, amount, fresh).taken,
        draw(front + back, amount, fresh).minted == draw(front, amount, fresh).minted,
    decreases front.len(),
{
    if front.len() == 0 || amount == 0 {
        assert(draw(front, amount, fresh).kept + back =~= front + back);
    } else {
        assert(front =~= seq![front[0]] + front.skip(1));
        lemma_quantity_prepend(front[0], front.skip(1), None);
        assert((front + back).skip(1) =~= front.skip(1) + back);
        if front[0].amount <= amount {
            lemma_draw_front(front.skip(1), back, (amount - front[0].amount) as nat, fresh);
        } else {
            let stays = Lot { amount: (front[0].amount - amount) as u64, ..front[0] };
            assert(seq![stays] + (front.skip(1) + back) =~= (seq![stays] + front.skip(1)) + back);
        }
    }
}

/// Every lot that is drawn has the acquisition of a lot that was there.
pub proof fn lemma_draw_taken_acquisitions(order: Seq<Lot>, amount: nat, fresh: usize, k: int)
    requires
        0 <= k < draw(order, amount, fresh).taken.len(),
    ensures
        exists|j: int|
            0 <= j < order.len() && (#[trigger] order[j]).acquisition == draw(
                order,
                amount,
                fresh,
            ).taken[k].acquisition,
    decreases order.len(),
{
    if order.len() == 0 || amount == 0 {
    } else if order[0].amount <= amount {
        if k == 0 {
            assert(order[0].acquisition == draw(order, amount, fresh).taken[k].acquisition);
        } else {
            let less = (amount - order[0].amount) as nat;
            lemma_draw_taken_acquisitions(order.skip(1), less, fresh, k - 1);
            let j = choose|j: int|
                0 <= j < order.skip(1).len() && (#[trigger] order.skip(1)[j]).acquisition == draw(
                    order.skip(1),
                    less,
                    fresh,
                ).taken[k - 1].acquisition;
            assert(order[j + 1] == order.skip(1)[j]);
        }
    } else {
        assert(order[0].acquisition == draw(order, amount, fresh).taken[k].acquisition);
    }
}

/// Among lots of different dates, the earliest is the first after sorting
/// and so the last that is drawn from; the lots before it hold what the
/// others hold.
pub proof fn lemma_earliest_is_drawn_last(lots: Seq<Lot>, earliest: int)
    requires
        dates_differ(lots),
        0 <= earliest < lots.len(),
        forall|j: int|
            0 <= j < lots.len() ==> lots[earliest].acquisition.when.not_after(
                (#[trigger] lots[j]).acquisition.when,
            ),
    ensures
        sort_by_date(lots).len() == lots.len(),
        sort_by_date(lots)[0] == lots[earliest],
        reserve_last(sort_by_date(lots)) == sort_by_date(lots).skip(1) + seq![lots[earliest]],
        total_amount(sort_by_date(lots).skip(1)) + lots[earliest].amount == total_amount(lots),
{
    let reserve = lots[earliest];
    let sorted = sort_by_date(lots);
    lemma_sort_by_date_sorted(lots);
    lemma_sort_by_date_dates_differ(lots);
    lemma_sort_by_date_quantity(lots, None);
    assert(sorted[0] == reserve) by {
        lemma_sort_by_date_contains(lots, reserve);
        assert(lots.contains(reserve));
        let p = choose|p: int| 0 <= p < sorted.len() && sorted[p] == reserve;
        lemma_sort_by_date_contains(lots, sorted[0]);
        assert(sorted.contains(sorted[0]));
        let m = choose|m: int| 0 <= m < lots.len() && lots[m] == sorted[0];
        assert(sorted[0].acquisition.when.not_after(sorted[p].acquisition.when));
        assert(reserve.acquisition.when.not_after(lots[m].acquisition.when));
        assert(sorted[0].acquisition.when == sorted[p].acquisition.when);
        if p != 0 {
            assert(sorted[0].acquisition.when != sorted[p].acquisition.when);
        }
    }
    let others = sorted.skip(1);
    assert(sorted =~= seq![sorted[0]] + others);
    lemma_quantity_prepend(sorted[0], others, None);
    assert(reserve_last(sorted) =~= others + seq![reserve]);
}

/// Where more is asked for than the lots at the front of the order hold, all
/// of them leave whole, and the rest is drawn from the lots behind them.
pub proof fn lemma_draw_past_front(front: Seq<Lot>, back: Seq<Lot>, amount: nat, fresh: usize)
    requires
        amount > total_amount(front),
    ensures
        draw(front + back, amount, fresh).kept == draw(
            back,
            (amount - total_amount(front)) as nat,
            fresh,
        ).kept,
        draw(front + back, amount, fresh).taken == front + draw(
            back,
            (amount - total_amount(front)) as nat,
            fresh,
        ).taken,
        draw(front + back, amount, fresh).minted == draw(
            back,
            (amount - total_amount(front)) as nat,
            fresh,
        ).minted,
    decreases front.len(),
{
    if front.len() == 0 {
        assert(front + back =~= back);
        assert(front + draw(back, amount, fresh).taken =~= draw(back, amount, fresh).taken);
    } else {
        assert(front =~= seq![front[0]] + front.skip(1));
        lemma_quantity_prepend(front[0], front.skip(1), None);
        assert((front + back).skip(1) =~= front.skip(1) + back);
        let less = (amount - front[0].amount) as nat;
        lemma_draw_past_front(front.skip(1), back, less, fresh);
        let rest = draw(back, (amount - total_amount(front)) as nat, fresh);
        assert(seq![front[0]] + (front.skip(1) + rest.taken) =~= front + rest.taken);
    }
}

/// Reserve lot last, the other half: where the lots have different dates and
/// the others do not hold what is asked for, all the others leave whole, and
/// the earliest lot is split: it stays with what is not asked for, and a lot
/// with the new number and its acquisition leaves with the rest.
pub proof fn law_reserve_lot_is_split_last(
    lots: Seq<Lot>,
    amount: nat,
    fresh: usize,
    earliest: int,
)
    requires
        dates_differ(lots),
        0 <= earliest < lots.len(),
        forall|j: int|
            0 <= j < lots.len() ==> lots[earliest].acquisition.when.not_after(
                (#[trigger] lots[j]).acquisition.when,
            ),
        total_amount(lots) - lots[earliest].amount < amount < total_amount(lots),
    ensures
        extraction(lots, amount, fresh).minted,
        extraction(lots, amount, fresh).kept == seq![
            Lot { amount: (total_amount(lots) - amount) as u64, ..lots[earliest] },
        ],
        extraction(lots, amount, fresh).taken.len() == lots.len(),
        forall|j: int|
            0 <= j < lots.len() && j != earliest ==> extraction(lots, amount, fresh).taken.contains(
                #[trigger] lots[j],
            ),
        extraction(lots, amount, fresh).taken.contains(
            Lot {
                lot_number: fresh,
                acquisition: lots[earliest].acquisition,
                amount: (amount - (total_amount(lots) - lots[earliest].amount)) as u64,
            },
        ),
{
    let reserve = lots[earliest];
    let sorted = sort_by_date(lots);
    let others = sorted.skip(1);
    lemma_earliest_is_drawn_last(lots, earliest);
    lemma_sort_by_date_dates_differ(lots);
    let rest = (amount - total_amount(others)) as nat;
    lemma_draw_past_front(others, seq![reserve], amount, fresh);
    let stays = Lot { amount: (reserve.amount - rest) as u64, ..reserve };
    let leaves = Lot { lot_number: fresh, acquisition: reserve.acquisition, amount: rest as u64 };
    let drawn = draw(reserve_last(sorted), amount, fresh);
    assert(seq![reserve].skip(1) =~= Seq::<Lot>::empty());
    assert(drawn.kept =~= seq![stays]);
    assert(drawn.taken =~= others + seq![leaves]);
    assert(sort_by_date(seq![stays]) == seq![stays]) by {
        let none = Seq::<Lot>::empty();
        assert(seq![stays].drop_last() =~= none);
        assert(sort_by_date(none) == none);
        assert(insertion_point(none, stays) == 0);
        assert(none.insert(0, stays) =~= seq![stays]);
    }
    lemma_sort_by_date_sorted(drawn.taken);
    let taken = sort_by_date(drawn.taken);
    assert(drawn.taken[others.len() as int] == leaves);
    assert(drawn.taken.contains(leaves));
    lemma_sort_by_date_contains(drawn.taken, leaves);
    assert forall|j: int| 0 <= j < lots.len() && j != earliest implies taken.contains(
        #[trigger] lots[j],
    ) by {
        lemma_sort_by_date_contains(lots, lots[j]);
        assert(lots.contains(lots[j]));
        let p = choose|p: int| 0 <= p < sorted.len() && sorted[p] == lots[j];
        assert(p != 0);
        assert(drawn.taken[p - 1] == lots[j]);
        assert(drawn.taken.contains(lots[j]));
        lemma_sort_by_date_contains(drawn.taken, lots[j]);
    }
}

/// Reserve lot last: where the lots have different dates and the others hold
/// what is asked for, the earliest lot stays as it is, and no lot that leaves
/// has its date.
pub proof fn law_reserve_lot_last(lots: Seq<Lot>, amount: nat, fresh: usize, earliest: int)
    requires
        dates_differ(lots),
        0 <= earliest < lots.len(),
        forall|j: int|
            0 <= j < lots.len() ==> lots[earliest].acquisition.when.not_after(
                (#[trigger] lots[j]).acquisition.when,
            ),
        amount + lots[earliest].amount <= total_amount(lots),
    ensures
        extraction(lots, amount, fresh).kept.contains(lots[earliest]),
        forall|k: int|
            0 <= k < extraction(lots, amount, fresh).taken.len() ==> (#[trigger] extraction(
                lots,
                amount,
                fresh,
            ).taken[k]).acquisition.when != lots[earliest].acquisition.when,
{
    let reserve = lots[earliest];
    let sorted = sort_by_date(lots);
    lemma_earliest_is_drawn_last(lots, earliest);
    lemma_sort_by_date_dates_differ(lots);
    let others = sorted.skip(1);
    lemma_draw_front(others, seq![reserve], amount, fresh);
    let drawn = draw(reserve_last(sorted), amount, fresh);
    let last = drawn.kept.len() - 1;
    assert(drawn.kept[last] == reserve);
    assert(drawn.kept.contains(reserve));
    lemma_sort_by_date_contains(drawn.kept, reserve);
    let taken = extraction(lots, amount, fresh).taken;
    assert forall|k: int| 0 <= k < taken.len() implies (#[trigger] taken[k]).acquisition.when
        != reserve.acquisition.when by {
        lemma_sort_by_date_contains(drawn.taken, taken[k]);
        assert(taken.contains(taken[k]));
        let d = choose|d: int| 0 <= d < drawn.taken.len() && drawn.taken[d] == taken[k];
        lemma_draw_taken_acquisitions(others, amount, fresh, d);
        let j = choose|j: int|
            0 <= j < others.len() && (#[trigger] others[j]).acquisition == draw(
                others,
                amount,
                fresh,
            ).taken[d].acquisition;
        assert(others[j] == sorted[j + 1]);
        assert(sorted[0].acquisition.when != sorted[j + 1].acquisition.when);
    }
}

/// `lot` is one of `lots` but for its amount: it has the number and the
/// acquisition of one of them.
pub open spec fn known_in(lot: Lot, lots: Seq<Lot>) -> bool {
    exists|j: int|
        0 <= j < lots.len() && (#[trigger] lots[j]).lot_number == lot.lot_number
            && lots[j].acquisition == lot.acquisition
}

/// Merging keeps every lot in its place, with its number and acquisition.
pub proof fn lemma_merge_keeps_lots(lots: Seq<Lot>, incoming: Seq<Lot>)
    ensures
        merge(lots, incoming).len() >= lots.len(),
        forall|i: int|
            0 <= i < lots.len() ==> (#[trigger] merge(lots, incoming)[i]).lot_number
                == lots[i].lot_number && merge(lots, incoming)[i].acquisition
                == lots[i].acquisition,
    decreases incoming.len(),
{
    if incoming.len() > 0 {
        let merged = merge(lots, incoming.drop_last());
        lemma_merge_keeps_lots(lots, incoming.drop_last());
        lemma_first_index_of(acquisitions(merged), incoming.last().acquisition);
    }
}

/// Every lot of merged lots is, but for its amount, one of the lots that were
/// there or one of the incoming lots whose acquisition none of the lots had.
pub proof fn lemma_merge_brings_novel_lots(lots: Seq<Lot>, incoming: Seq<Lot>, k: int)
    requires
        0 <= k < merge(lots, incoming).len(),
    ensures
        known_in(merge(lots, incoming)[k], lots) || exists|z: int|
            0 <= z < incoming.len() && (#[trigger] incoming[z]).lot_number == merge(
                lots,
                incoming,
            )[k].lot_number && incoming[z].acquisition == merge(lots, incoming)[k].acquisition
                && forall|j: int|
                0 <= j < lots.len() ==> (#[trigger] lots[j]).acquisition
                    != incoming[z].acquisition,
    decreases incoming.len(),
{
    if incoming.len() == 0 {
        assert(lots[k].lot_number == merge(lots, incoming)[k].lot_number);
    } else {
        let front = incoming.drop_last();
        let last = incoming.last();
        let merged = merge(lots, front);
        let lot = merge(lots, incoming)[k];
        lemma_first_index_of(acquisitions(merged), last.acquisition);
        lemma_merge_keeps_lots(lots, front);
        if k < merged.len() {
            lemma_merge_brings_novel_lots(lots, front, k);
            assert(lot.lot_number == merged[k].lot_number);
            assert(lot.acquisition == merged[k].acquisition);
            if known_in(merged[k], lots) {
                let j = choose|j: int|
                    0 <= j < lots.len() && (#[trigger] lots[j]).lot_number
                        == merged[k].lot_number && lots[j].acquisition == merged[k].acquisition;
                assert(lots[j].lot_number == lot.lot_number);
            } else {
                let z = choose|z: int|
                    0 <= z < front.len() && (#[trigger] front[z]).lot_number
                        == merged[k].lot_number && front[z].acquisition == merged[k].acquisition
                        && forall|j: int|
                        0 <= j < lots.len() ==> (#[trigger] lots[j]).acquisition
                            != front[z].acquisition;
                assert(incoming[z] == front[z]);
            }
        } else {
            assert(lot == last);
            assert(incoming[incoming.len() - 1] == last);
            assert forall|j: int| 0 <= j < lots.len() implies (#[trigger] lots[j]).acquisition
                != last.acquisition by {
                assert(acquisitions(merged)[j] == merged[j].acquisition);
            }
        }
    }
}

/// Every lot that stays after a draw is, but for its amount, one of the lots
/// that were there. Every lot that leaves is one of the lots that were there,
/// or it has the new number and the acquisition of a lot that stays.
pub proof fn lemma_draw_lots(order: Seq<Lot>, amount: nat, fresh: usize)
    ensures
        forall|i: int|
            0 <= i < draw(order, amount, fresh).kept.len() ==> known_in(
                #[trigger] draw(order, amount, fresh).kept[i],
                order,
            ),
        forall|i: int|
            0 <= i < draw(order, amount, fresh).taken.len() ==> order.contains(
                #[trigger] draw(order, amount, fresh).taken[i],
            ) || split_off(
                draw(order, amount, fresh).taken[i],
                draw(order, amount, fresh).kept,
                fresh,
            ),
    decreases order.len(),
{
    let drawn = draw(order, amount, fresh);
    if order.len() == 0 || amount == 0 {
        assert forall|i: int| 0 <= i < drawn.kept.len() implies known_in(
            #[trigger] drawn.kept[i],
            order,
        ) by {
            assert(order[i].lot_number == drawn.kept[i].lot_number);
        }
    } else if order[0].amount <= amount {
        let rest = draw(order.skip(1), (amount - order[0].amount) as nat, fresh);
        lemma_draw_lots(order.skip(1), (amount - order[0].amount) as nat, fresh);
        assert forall|i: int| 0 <= i < drawn.kept.len() implies known_in(
            #[trigger] drawn.kept[i],
            order,
        ) by {
            assert(known_in(rest.kept[i], order.skip(1)));
            let j = choose|j: int|
                0 <= j < order.skip(1).len() && (#[trigger] order.skip(1)[j]).lot_number
                    == rest.kept[i].lot_number && order.skip(1)[j].acquisition
                    == rest.kept[i].acquisition;
            assert(order[j + 1].lot_number == drawn.kept[i].lot_number);
        }
        assert forall|i: int| 0 <= i < drawn.taken.len() implies order.contains(
            #[trigger] drawn.taken[i],
        ) || split_off(drawn.taken[i], drawn.kept, fresh) by {
            if i == 0 {
                assert(order[0] == drawn.taken[i]);
            } else {
                assert(drawn.taken[i] == rest.taken[i - 1]);
                if order.skip(1).contains(rest.taken[i - 1]) {
                    let j = choose|j: int|
                        0 <= j < order.skip(1).len() && order.skip(1)[j] == rest.taken[i - 1];
                    assert(order[j + 1] == drawn.taken[i]);
                }
            }
        }
    } else {
        assert forall|i: int| 0 <= i < drawn.kept.len() implies known_in(
            #[trigger] drawn.kept[i],
            order,
        ) by {
            assert(order[i].lot_number == drawn.kept[i].lot_number);
        }
        assert(drawn.kept[0].acquisition == drawn.taken[0].acquisition);
    }
}

/// `lot` was split off a lot that is among `kept`: it has the number
/// `fresh` and the acquisition of one of them.
pub open spec fn split_off(lot: Lot, kept: Seq<Lot>, fresh: usize) -> bool {
    lot.lot_number == fresh && exists|j: int|
        0 <= j < kept.len() && (#[trigger] kept[j]).acquisition == lot.acquisition
}

/// No trace of a split: after lots were extracted and merged back, every lot
/// is one of the lots from before, but for its amount. The lot that was split
/// off is gone, and with it the number that it was given.
pub proof fn law_merged_back_lots_are_known(lots: Seq<Lot>, amount: nat, fresh: usize, k: int)
    requires
        0 <= k < merge(
            extraction(lots, amount, fresh).kept,
            extraction(lots, amount, fresh).taken,
        ).len(),
    ensures
        known_in(
            merge(extraction(lots, amount, fresh).kept, extraction(lots, amount, fresh).taken)[k],
            lots,
        ),
{
    let sorted = sort_by_date(lots);
    let order = reserve_last(sorted);
    let drawn = draw(order, amount, fresh);
    let kept = sort_by_date(drawn.kept);
    let taken = sort_by_date(drawn.taken);
    let lot = merge(kept, taken)[k];
    lemma_draw_lots(order, amount, fresh);
    lemma_merge_brings_novel_lots(kept, taken, k);
    // A lot of the order is a lot from before.
    assert forall|x: Lot| order.contains(x) implies lots.contains(x) by {
        let j = choose|j: int| 0 <= j < order.len() && order[j] == x;
        if j < order.len() - 1 {
            assert(sorted[j + 1] == x);
        } else {
            assert(sorted[0] == x);
        }
        assert(sorted.contains(x));
        lemma_sort_by_date_contains(lots, x);
    }
    // A lot that is known in the order is known from before.
    assert forall|x: Lot| known_in(x, order) implies known_in(x, lots) by {
        let j = choose|j: int|
            0 <= j < order.len() && (#[trigger] order[j]).lot_number == x.lot_number
                && order[j].acquisition == x.acquisition;
        assert(order.contains(order[j]));
        let m = choose|m: int| 0 <= m < lots.len() && lots[m] == order[j];
        assert(lots[m].lot_number == x.lot_number);
    }
    if known_in(lot, kept) {
        let j = choose|j: int|
            0 <= j < kept.len() && (#[trigger] kept[j]).lot_number == lot.lot_number
                && kept[j].acquisition == lot.acquisition;
        assert(kept.contains(kept[j]));
        lemma_sort_by_date_contains(drawn.kept, kept[j]);
        let i = choose|i: int| 0 <= i < drawn.kept.len() && drawn.kept[i] == kept[j];
        assert(known_in(drawn.kept[i], order));
        let m = choose|m: int|
            0 <= m < lots.len() && (#[trigger] lots[m]).lot_number == drawn.kept[i].lot_number
                && lots[m].acquisition == drawn.kept[i].acquisition;
        assert(lots[m].lot_number == lot.lot_number);
    } else {
        let z = choose|z: int|
            0 <= z < taken.len() && (#[trigger] taken[z]).lot_number == lot.lot_number
                && taken[z].acquisition == lot.acquisition && forall|j: int|
                0 <= j < kept.len() ==> (#[trigger] kept[j]).acquisition != taken[z].acquisition;
        assert(taken.contains(taken[z]));
        lemma_sort_by_date_contains(drawn.taken, taken[z]);
        let i = choose|i: int| 0 <= i < drawn.taken.len() && drawn.taken[i] == taken[z];
        if split_off(drawn.taken[i], drawn.kept, fresh) {
            let j = choose|j: int|
                0 <= j < drawn.kept.len() && (#[trigger] drawn.kept[j]).acquisition
                    == drawn.taken[i].acquisition;
            assert(drawn.kept.contains(drawn.kept[j]));
            lemma_sort_by_date_contains(drawn.kept, drawn.kept[j]);
            let jj = choose|jj: int| 0 <= jj < kept.len() && kept[jj] == drawn.kept[j];
            assert(kept[jj].acquisition == taken[z].acquisition);
        } else {
            assert(order.contains(drawn.taken[i]));
            assert(lots.contains(taken[z]));
            let m = choose|m: int| 0 <= m < lots.len() && lots[m] == taken[z];
            assert(lots[m].lot_number == lot.lot_number);
        }
    }
}

/// The sum of `start` and the amounts of `lots`, if the machine's integers
/// reach that far.
pub fn checked_total(lots: &Vec<Lot>, start: u64) -> (total: Option<u64>)
    ensures
        match total {
            Some(total) => total == start + total_amount(lots@),
            None => start + total_amount(lots@) > u64::MAX,
        },
{
    let mut total: u64 = start;
    let mut i: usize = 0;
    assert(lots@.take(0) =~= Seq::<Lot>::empty());
    while i < lots.len()
        invariant
            i <= lots.len(),
            total == start + total_amount(lots@.take(i as int)),
        decreases lots.len() - i,
    {
        proof {
            assert(lots@.take(i + 1) =~= lots@.take(i as int).push(lots@[i as int]));
            lemma_quantity_push(lots@.take(i as int), lots@[i as int], None);
            assert(lots@ =~= lots@.take(i + 1) + lots@.skip(i + 1));
            lemma_quantity_concat(lots@.take(i + 1), lots@.skip(i + 1), None);
        }
        if lots[i].amount > u64::MAX - total {
            return None;
        }
        total = total + lots[i].amount;
        i += 1;
    }
    assert(lots@.take(lots.len() as int) =~= lots@);
    Some(total)
}

/// Extracts `amount` from `lots`: what stays, what leaves, and whether a lot
/// was split, in which case the part that leaves has the number `fresh`.
/// There is no extraction of more than the lots hold.
///
/// Extraction is exact: the lots that leave sum to `amount`, and the lots that
/// stay sum to the rest.
pub fn extract(lots: &Vec<Lot>, amount: u64, fresh: usize) -> (extracted: Option<
    (Vec<Lot>, Vec<Lot>, bool),
>)
    ensures
        extracted is Some <==> amount <= total_amount(lots@),
        extracted matches Some((kept, taken, minted)) ==> {
            &&& kept@ == extraction(lots@, amount as nat, fresh).kept
            &&& taken@ == extraction(lots@, amount as nat, fresh).taken
            &&& minted == extraction(lots@, amount as nat, fresh).minted
            &&& total_amount(taken@) == amount
            &&& total_amount(kept@) == total_amount(lots@) - amount
        },
{
    let mut order = sort_lots(lots);
    if order.len() > 0 {
        // The earliest lot is taken to be a reserve: it is drawn from last.
        let first = order.remove(0);
        order.push(first);
    }
    assert(order@ =~= reserve_last(sort_by_date(lots@)));
    proof {
        lemma_sort_by_date_quantity(lots@, None);
        lemma_reserve_last_quantity(sort_by_date(lots@), None);
    }
    let mut kept: Vec<Lot> = Vec::new();
    let mut taken: Vec<Lot> = Vec::new();
    let mut remaining: u64 = amount;
    let mut i: usize = 0;
    assert(order@.skip(0) =~= order@);
    assert(order@.take(0) =~= Seq::<Lot>::empty());
    assert(order@.take(0) + draw(order@, amount as nat, fresh).taken =~= draw(
        order@,
        amount as nat,
        fresh,
    ).taken);
    while i < order.len() && remaining > 0 && order[i].amount <= remaining
        invariant
            i <= order.len(),
            taken@ == order@.take(i as int),
            remaining + total_amount(order@.take(i as int)) == amount,
            draw(order@, amount as nat, fresh) == (Drawn {
                taken: order@.take(i as int) + draw(
                    order@.skip(i as int),
                    remaining as nat,
                    fresh,
                ).taken,
                ..draw(order@.skip(i as int), remaining as nat, fresh)
            }),
        decreases order.len() - i,
    {
        proof {
            let rest = draw(
                order@.skip(i + 1),
                (remaining - order@[i as int].amount) as nat,
                fresh,
            );
            assert(order@.skip(i as int).skip(1) =~= order@.skip(i + 1));
            assert(order@.take(i as int) + (seq![order@[i as int]] + rest.taken)
                =~= order@.take(i + 1) + rest.taken);
            assert(order@.take(i + 1) =~= order@.take(i as int).push(order@[i as int]));
            lemma_quantity_push(order@.take(i as int), order@[i as int], None);
        }
        taken.push(order[i]);
        remaining = remaining - order[i].amount;
        i += 1;
    }
    proof {
        assert(order@ =~= order@.take(i as int) + order@.skip(i as int));
        lemma_quantity_concat(order@.take(i as int), order@.skip(i as int), None);
        if i < order.len() {
            assert(order@.skip(i as int) =~= seq![order@[i as int]] + order@.skip(i + 1));
            lemma_quantity_prepend(order@[i as int], order@.skip(i + 1), None);
        } else {
            assert(order@.take(i as int) =~= order@);
        }
    }
    if i == order.len() && remaining > 0 {
        return None;
    }
    let ghost drawn = draw(order@, amount as nat, fresh);
    let mut minted = false;
    if i < order.len() && remaining > 0 {
        let lot = order[i];
        taken.push(Lot { lot_number: fresh, acquisition: lot.acquisition, amount: remaining });
        kept.push(Lot { amount: lot.amount - remaining, ..lot });
        minted = true;
        i += 1;
        assert(taken@ =~= drawn.taken);
        assert(drawn.kept =~= kept@ + order@.skip(i as int)) by {
            assert(order@.skip(i - 1).skip(1) =~= order@.skip(i as int));
        }
    } else {
        assert(taken@ =~= drawn.taken);
        assert(drawn.kept =~= kept@ + order@.skip(i as int));
    }
    let ghost stays = kept@;
    let ghost from = i;
    while i < order.len()
        invariant
            from <= i <= order.len(),
            kept@ == stays + order@.subrange(from as int, i as int),
        decreases order.len() - i,
    {
        kept.push(order[i]);
        assert(order@.subrange(from as int, i + 1) =~= order@.subrange(
            from as int,
            i as int,
        ).push(order@[i as int]));
        i += 1;
    }
    assert(order@.subrange(from as int, order@.len() as int) =~= order@.skip(from as int));
    assert(kept@ == drawn.kept);
    proof {
        lemma_extraction_exact(lots@, amount as nat, fresh);
    }
    Some((sort_lots(&kept), sort_lots(&taken), minted))
}

} // verus!
