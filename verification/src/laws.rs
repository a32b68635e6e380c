//! Laws of the ledger: what holds of every state that satisfies the
//! invariant, and how the operations relate to one another. Each law is
//! proved from the contracts of the operations it speaks of.

use crate::clock::{
    day_number, days_before, lemma_days_before_descend, lemma_period_before_descend, month_index,
    period_before, Date, Moment,
};
use crate::error::ErrorView;
use crate::kinds::{Location, PaymentMethod};
use crate::ledger::{refunded, Ledger};
use crate::refunds::{
    credit_of, refund_committed, CreateReturnResult, exchange_committed, exchange_diff, settles,
    CreateExchangeResult, GivenItem, ReturnedGoods,
};
use crate::report::{
    daily_row, daily_series, measured, monthly_row, monthly_series, quiet_day, quiet_month, Bucket,
    MonthlyDashboardRow,
};
use crate::sale::{
    covered, in_group, is_last_undoable, last_group, lemma_group_step, none_undoable, sale_group_id,
    sale_undo_refused, sale_undone, sold_from, undo_sale_moves, undoable, units, without_group,
    UndoLastSaleResult, amounts_in_range, first_line_refusal, line_refusal, lines_accepted, requested,
    requested_anywhere, sale_committed, sale_refused, CreateSaleResult, SaleItem,
};
use crate::stock::{
    all_accepted, first_refusal, has_barcode, lemma_gives_monotone, lemma_net_step, lemma_position,
    adjusted, moved, moved_all, net, net_mirror, only_gives, position, refusal,
    Product, StockMove,
};
use crate::ledger::{text_of, SaleRecord, TransferRecord};
use crate::transfer::{
    transfer_undo_refused, group_reversible, none_reversible, group_size, in_transfer_group, is_last_reversible,
    last_transfer_group, lemma_outgoing_step, lemma_undo_transfer_step, outgoing, reversible,
    source_refusal, sources_accepted, transfer_group_id, transfer_line, transfer_undone,
    undo_transfer_moves, with_group_voided, UndoLastTransferResult, transfer_moves,
    has_same_location, transfer_committed, transfer_refused, CreateTransferResult, TransferItem,
};
use vstd::prelude::*;

verus! {

/// In a ledger that satisfies the invariant, no product has a negative count
/// at the store or at the warehouse. Every operation preserves the invariant,
/// so this holds after every committed operation.
pub proof fn law_stock_never_negative(l: &Ledger)
    requires
        l.wf(),
    ensures
        forall|i: int|
            0 <= i < l.products@.len() ==> (#[trigger] l.products@[i]).magaza_stok >= 0
                && l.products@[i].depo_stok >= 0,
{
}

/// In a ledger that satisfies the invariant, the units refunded against a
/// sale line never exceed the units it sold.
pub proof fn law_refunds_never_exceed_sale(l: &Ledger)
    requires
        l.wf(),
    ensures
        forall|i: int|
            0 <= i < l.sales@.len() ==> refunded(
                l.return_items@,
                (#[trigger] l.sales@[i]).id as int,
            ) <= l.sales@[i].qty,
{
}

/// A basket asks nothing of a counter that none of its lines names.
pub proof fn lemma_requested_needs_line(items: Seq<SaleItem>, barcode: Seq<char>, loc: Location)
    ensures
        0 <= requested(items, barcode, loc) <= requested_anywhere(items, barcode),
        requested(items, barcode, loc) > 0 ==> exists|i: int|
            0 <= i < items.len() && (#[trigger] items[i]).barcode@ == barcode && items[i].location
                == loc,
        requested_anywhere(items, barcode) > 0 ==> exists|i: int|
            0 <= i < items.len() && (#[trigger] items[i]).barcode@ == barcode,
    decreases items.len(),
{
    if items.len() > 0 {
        let front = items.drop_last();
        lemma_requested_needs_line(front, barcode, loc);
        let last = items.len() - 1;
        if requested(items, barcode, loc) > 0 {
            if requested(front, barcode, loc) > 0 {
                let i = choose|i: int|
                    0 <= i < front.len() && (#[trigger] front[i]).barcode@ == barcode
                        && front[i].location == loc;
                assert(items[i] == front[i]);
            } else {
                assert(items[last].barcode@ == barcode && items[last].location == loc);
            }
        }
        if requested_anywhere(items, barcode) > 0 {
            if requested_anywhere(front, barcode) > 0 {
                let i = choose|i: int| 0 <= i < front.len() && (#[trigger] front[i]).barcode@
                    == barcode;
                assert(items[i] == front[i]);
            } else {
                assert(items[last].barcode@ == barcode);
            }
        }
    }
}

/// A sale that commits lowers each location counter of each product by
/// exactly the units that the basket asks of that location, and the mirror
/// counter by the units it asks of both; nothing else of a product changes.
pub proof fn law_sale_takes_requested(
    pre: &Ledger,
    post: &Ledger,
    items: Seq<SaleItem>,
    payment: PaymentMethod,
    now: &Moment,
    res: &CreateSaleResult,
)
    requires
        pre.wf(),
        sale_committed(pre, post, items, payment, now, res),
    ensures
        post.products@.len() == pre.products@.len(),
        forall|j: int|
            0 <= j < pre.products@.len() ==> {
                let p = #[trigger] pre.products@[j];
                let q = post.products@[j];
                &&& q.magaza_stok == p.magaza_stok - requested(items, p.barcode@, Location::Store)
                &&& q.depo_stok == p.depo_stok - requested(
                    items,
                    p.barcode@,
                    Location::Warehouse,
                )
                &&& q.stock == p.stock - requested_anywhere(items, p.barcode@)
                &&& q == (crate::stock::Product {
                    magaza_stok: q.magaza_stok,
                    depo_stok: q.depo_stok,
                    stock: q.stock,
                    ..p
                })
            },
{
    assert forall|j: int| 0 <= j < pre.products@.len() implies {
        let p = #[trigger] pre.products@[j];
        let q = post.products@[j];
        &&& q.magaza_stok == p.magaza_stok - requested(items, p.barcode@, Location::Store)
        &&& q.depo_stok == p.depo_stok - requested(items, p.barcode@, Location::Warehouse)
        &&& q.stock == p.stock - requested_anywhere(items, p.barcode@)
        &&& q == (crate::stock::Product {
            magaza_stok: q.magaza_stok,
            depo_stok: q.depo_stok,
            stock: q.stock,
            ..p
        })
    } by {
        let p = pre.products@[j];
        assert(post.products@[j] == crate::sale::sold_from(p, items));
        lemma_position(pre.products@, j);
        lemma_requested_needs_line(items, p.barcode@, Location::Store);
        lemma_requested_needs_line(items, p.barcode@, Location::Warehouse);
        if requested(items, p.barcode@, Location::Store) > 0 {
            let i = choose|i: int|
                0 <= i < items.len() && (#[trigger] items[i]).barcode@ == p.barcode@
                    && items[i].location == Location::Store;
            assert(line_refusal(pre.products@, items, i) is None);
        }
        if requested(items, p.barcode@, Location::Warehouse) > 0 {
            let i = choose|i: int|
                0 <= i < items.len() && (#[trigger] items[i]).barcode@ == p.barcode@
                    && items[i].location == Location::Warehouse;
            assert(line_refusal(pre.products@, items, i) is None);
        }
        if requested_anywhere(items, p.barcode@) > 0 {
            let i = choose|i: int| 0 <= i < items.len() && (#[trigger] items[i]).barcode@
                == p.barcode@;
            assert(line_refusal(pre.products@, items, i) is None);
        }
    }
}

/// A basket that is not empty, whose every line passes the stock check and
/// whose amounts fit in 64 bits is never refused.
pub proof fn law_stocked_sale_is_owed(pre: &Ledger, items: Seq<SaleItem>, e: ErrorView)
    requires
        items.len() > 0,
        lines_accepted(pre.products@, items),
        amounts_in_range(items, pre.next_sale_id as int),
    ensures
        !sale_refused(pre.products@, pre.next_sale_id as int, items, e),
{
    if sale_refused(pre.products@, pre.next_sale_id as int, items, e) {
        let i = choose|i: int| first_line_refusal(pre.products@, items, i, e);
        assert(line_refusal(pre.products@, items, i) is None);
    }
}

/// A basket with a line whose location holds less than the basket asks of it
/// never commits, and the error it ends in is the refusal of that line or of
/// a line before it. (That a refused sale changes nothing is part of the
/// contract of the sale itself.)
pub proof fn law_understocked_sale_is_refused(pre: &Ledger, items: Seq<SaleItem>, i: int)
    requires
        0 <= i < items.len(),
        has_barcode(pre.products@, items[i].barcode@),
        pre.products@[position(pre.products@, items[i].barcode@)].at(items[i].location)
            < requested(items, items[i].barcode@, items[i].location),
    ensures
        !lines_accepted(pre.products@, items),
        line_refusal(pre.products@, items, i) is Some,
        forall|post: &Ledger, payment: PaymentMethod, now: &Moment, res: &CreateSaleResult|
            !sale_committed(pre, post, items, payment, now, res),
        forall|e: ErrorView| #[trigger]
            sale_refused(pre.products@, pre.next_sale_id as int, items, e) ==> exists|k: int|
                0 <= k <= i && line_refusal(pre.products@, items, k) == Some(e),
{
    assert(line_refusal(pre.products@, items, i) is Some);
    assert forall|e: ErrorView| #[trigger]
        sale_refused(pre.products@, pre.next_sale_id as int, items, e) implies exists|k: int|
        0 <= k <= i && line_refusal(pre.products@, items, k) == Some(e) by {
        let k = choose|k: int| first_line_refusal(pre.products@, items, k, e);
        if k > i {
            assert(line_refusal(pre.products@, items, i) is None);
        }
    }
}

/// An exchange that commits reports the difference between what was handed
/// out and what came back; where that difference is positive, the payment
/// method is card or cash and is recorded; where it is not, no payment method
/// is recorded.
pub proof fn law_exchange_difference(
    pre: &Ledger,
    post: &Ledger,
    goods: &ReturnedGoods,
    given: Seq<GivenItem>,
    method: Option<PaymentMethod>,
    now: &Moment,
    res: &CreateExchangeResult,
)
    requires
        exchange_committed(pre, post, goods, given, method, now, res),
    ensures
        res.diff == res.given_total - res.returned_total,
        res.diff > 0 ==> settles(method) && post.return_groups@.last().diff_payment_method
            == method,
        res.diff <= 0 ==> post.return_groups@.last().diff_payment_method is None,
{
}

/// An exchange in which the customer owes a difference and the payment
/// method is neither card nor cash never commits.
pub proof fn law_unsettled_exchange_is_refused(
    pre: &Ledger,
    goods: &ReturnedGoods,
    given: Seq<GivenItem>,
    method: Option<PaymentMethod>,
)
    requires
        exchange_diff(*goods, given) > 0,
        !settles(method),
    ensures
        forall|post: &Ledger, now: &Moment, res: &CreateExchangeResult|
            !exchange_committed(pre, post, goods, given, method, now, res),
{
}

/// A transfer with a line that names one place as source and destination
/// never commits, and the error it ends in says so. (That a refused transfer
/// changes no product is part of the contract of the transfer itself.)
pub proof fn law_same_location_transfer_is_refused(
    pre: &Ledger,
    items: Seq<TransferItem>,
    i: int,
)
    requires
        0 <= i < items.len(),
        items[i].from_loc == items[i].to_loc,
    ensures
        forall|post: &Ledger, note: Option<Seq<char>>, now: &Moment, res: &CreateTransferResult|
            !transfer_committed(pre, post, items, note, now, res),
        forall|e: ErrorView| #[trigger]
            transfer_refused(pre, items, e) ==> e == ErrorView::SameLocation,
{
    assert(has_same_location(items));
}

/// The row is that of a day of the window of the last `k` days that is not
/// quiet.
pub open spec fn is_row_of_busy_day(
    l: &Ledger,
    today: Date,
    k: nat,
    row: crate::report::DailyDashboardRow,
) -> bool {
    exists|j: int|
        0 <= j < k && !quiet_day(
            measured(l, Bucket::Day(#[trigger] days_before(today, j as nat))),
        ) && row == daily_row(l, days_before(today, j as nat))
}

/// Every row of the daily series is the row of a day of the window that is
/// not quiet: a day without net quantity, net revenue and gross profit has
/// no row. (The headline figures are fields of the summary and so are always
/// reported.)
pub proof fn law_quiet_days_have_no_row(l: &Ledger, today: Date, k: nat)
    ensures
        forall|i: int|
            0 <= i < daily_series(l, today, k).len() ==> is_row_of_busy_day(
                l,
                today,
                k,
                #[trigger] daily_series(l, today, k)[i],
            ),
        (forall|j: int|
            0 <= j < k ==> quiet_day(
                measured(l, Bucket::Day(#[trigger] days_before(today, j as nat))),
            )) ==> daily_series(l, today, k).len() == 0,
    decreases k,
{
    if k > 0 {
        law_quiet_days_have_no_row(l, today, (k - 1) as nat);
        let rest = daily_series(l, today, (k - 1) as nat);
        let s = daily_series(l, today, k);
        let day = days_before(today, (k - 1) as nat);
        assert forall|i: int| 0 <= i < s.len() implies is_row_of_busy_day(
            l,
            today,
            k,
            #[trigger] s[i],
        ) by {
            if quiet_day(measured(l, Bucket::Day(day))) {
                assert(is_row_of_busy_day(l, today, (k - 1) as nat, rest[i]));
            } else if i == 0 {
                assert(s[0] == daily_row(l, days_before(today, (k - 1) as nat)));
            } else {
                assert(s[i] == rest[i - 1]);
                assert(is_row_of_busy_day(l, today, (k - 1) as nat, rest[i - 1]));
            }
        }
        if forall|j: int|
            0 <= j < k ==> quiet_day(
                measured(l, Bucket::Day(#[trigger] days_before(today, j as nat))),
            ) {
            assert(quiet_day(measured(l, Bucket::Day(days_before(today, (k - 1) as nat)))));
        }
    }
}

/// No sale line carries the group identifier `g`.
pub open spec fn group_unused(sales: Seq<SaleRecord>, g: Seq<char>) -> bool {
    forall|i: int| 0 <= i < sales.len() ==> text_of((#[trigger] sales[i]).sale_group_id) != Some(g)
}

/// The movements give back, line by line, what the basket took.
pub open spec fn gives_back(moves: Seq<StockMove>, items: Seq<SaleItem>) -> bool {
    &&& moves.len() == items.len()
    &&& forall|i: int|
        0 <= i < items.len() ==> {
            let m = #[trigger] moves[i];
            &&& m.barcode@ == items[i].barcode@
            &&& m.location == items[i].location
            &&& m.delta == units(items[i].qty as int)
            &&& m.mirrored
        }
}

/// Where no line belongs to a group, undoing it moves nothing and removes
/// nothing.
pub proof fn lemma_unused_group(sales: Seq<SaleRecord>, g: Seq<char>)
    requires
        group_unused(sales, g),
    ensures
        undo_sale_moves(sales, g) == Seq::<StockMove>::empty(),
        without_group(sales, g) == sales,
    decreases sales.len(),
{
    if sales.len() > 0 {
        let front = sales.drop_last();
        assert forall|i: int| 0 <= i < front.len() implies text_of(
            (#[trigger] front[i]).sale_group_id,
        ) != Some(g) by {
            assert(front[i] == sales[i]);
        }
        lemma_unused_group(front, g);
        assert(sales.last() == sales[sales.len() - 1]);
        assert(!in_group(sales.last(), g));
        assert(front.push(sales.last()) =~= sales);
    } else {
        assert(without_group(sales, g) =~= sales);
    }
}

/// Movements that give back a basket add to each counter what the basket
/// asked of it.
pub proof fn lemma_gives_back_requested(
    moves: Seq<StockMove>,
    items: Seq<SaleItem>,
    barcode: Seq<char>,
    loc: Location,
)
    requires
        gives_back(moves, items),
    ensures
        net(moves, barcode, loc) == requested(items, barcode, loc),
        net_mirror(moves, barcode) == requested_anywhere(items, barcode),
    decreases items.len(),
{
    if items.len() > 0 {
        let m2 = moves.drop_last();
        let i2 = items.drop_last();
        assert forall|i: int| 0 <= i < i2.len() implies {
            let m = #[trigger] m2[i];
            &&& m.barcode@ == i2[i].barcode@
            &&& m.location == i2[i].location
            &&& m.delta == units(i2[i].qty as int)
            &&& m.mirrored
        } by {
            assert(m2[i] == moves[i]);
            assert(i2[i] == items[i]);
        }
        lemma_gives_back_requested(m2, i2, barcode, loc);
        assert(moves.last() == moves[moves.len() - 1]);
        assert(items.last() == items[items.len() - 1]);
    }
}

/// After a sale under an unused group identifier, the lines of that group are
/// exactly the new lines: undoing the group gives back the basket and leaves
/// the earlier lines.
pub proof fn lemma_new_group(
    pre: &Ledger,
    mid: &Ledger,
    items: Seq<SaleItem>,
    payment: PaymentMethod,
    now: &Moment,
    res: &CreateSaleResult,
    m: int,
)
    requires
        sale_committed(pre, mid, items, payment, now, res),
        group_unused(pre.sales@, sale_group_id(now.millis)),
        0 <= m <= items.len(),
    ensures
        gives_back(
            undo_sale_moves(mid.sales@.take(pre.sales@.len() + m), sale_group_id(now.millis)),
            items.take(m),
        ),
        without_group(mid.sales@.take(pre.sales@.len() + m), sale_group_id(now.millis))
            == pre.sales@,
    decreases m,
{
    let g = sale_group_id(now.millis);
    let b = pre.sales@.len() as int;
    if m == 0 {
        lemma_unused_group(pre.sales@, g);
        assert(items.take(0) =~= Seq::<SaleItem>::empty());
    } else {
        lemma_new_group(pre, mid, items, payment, now, res, m - 1);
        lemma_group_step(mid.sales@, b + m - 1, g);
        let rec = mid.sales@[b + (m - 1)];
        assert(rec@ == crate::sale::sale_line(
            items[m - 1],
            pre.next_sale_id + (m - 1),
            g,
            payment,
            now.at,
        ));
        assert(in_group(rec, g));
        let before = undo_sale_moves(mid.sales@.take(b + m - 1), g);
        let after = undo_sale_moves(mid.sales@.take(b + m), g);
        assert forall|i: int| 0 <= i < m implies {
            let mv = #[trigger] after[i];
            &&& mv.barcode@ == items.take(m)[i].barcode@
            &&& mv.location == items.take(m)[i].location
            &&& mv.delta == units(items.take(m)[i].qty as int)
            &&& mv.mirrored
        } by {
            if i < m - 1 {
                assert(after[i] == before[i]);
                assert(items.take(m - 1)[i] == items[i]);
            }
        }
    }
}

/// Undoing a sale right after it was committed restores the ledger: if a
/// sale commits under a group identifier that no earlier line carries, the
/// undo that follows is owed, gives every product its counters back, removes
/// exactly the lines of that sale and reports their number. If nothing could
/// be undone before the sale, nothing can be undone after the undo: a further
/// undo ends in `NoSaleToUndo`.
pub proof fn law_undo_restores_sale(
    pre: &Ledger,
    mid: &Ledger,
    items: Seq<SaleItem>,
    payment: PaymentMethod,
    now: &Moment,
    res: &CreateSaleResult,
)
    requires
        pre.wf(),
        mid.wf(),
        sale_committed(pre, mid, items, payment, now, res),
        group_unused(pre.sales@, sale_group_id(now.millis)),
    ensures
        forall|e: ErrorView| !sale_undo_refused(mid, e),
        forall|post: &Ledger, undone: &UndoLastSaleResult| #[trigger]
            sale_undone(mid, post, undone) ==> {
                &&& post.products@ == pre.products@
                &&& post.sales@ == pre.sales@
                &&& undone.restored_lines == items.len()
                &&& undone.sale_group_id@ == res.sale_group_id@
                &&& (none_undoable(pre.sales@) ==> forall|e: ErrorView| #[trigger]
                    sale_undo_refused(post, e) ==> e == ErrorView::NoSaleToUndo)
            },
{
    let g = sale_group_id(now.millis);
    let b = pre.sales@.len() as int;
    let n = items.len() as int;
    let ms = mid.sales@;
    // The group that an undo picks is the new one.
    let last = b + n - 1;
    assert(ms[b + (n - 1)]@ == crate::sale::sale_line(
        items[n - 1],
        pre.next_sale_id + (n - 1),
        g,
        payment,
        now.at,
    ));
    assert(undoable(ms[last]));
    assert(is_last_undoable(ms, last));
    let c = choose|i: int| is_last_undoable(ms, i);
    if c < last {
        assert(!undoable(ms[last]));
    }
    assert(last_group(ms) == g);
    // Its movements give back the basket; the earlier lines stay.
    lemma_new_group(pre, mid, items, payment, now, res, n);
    assert(ms.take(b + n) =~= ms);
    assert(items.take(n) =~= items);
    let moves = undo_sale_moves(ms, g);
    assert(gives_back(moves, items));
    assert(only_gives(moves));
    law_sale_takes_requested(pre, mid, items, payment, now, res);
    // Every movement is accepted.
    assert forall|k: int| 0 <= k < moves.len() implies #[trigger] refusal(
        mid.products@,
        moves,
        k,
    ) is None by {
        let it = items[k];
        let mv = moves[k];
        assert(line_refusal(pre.products@, items, k) is None);
        let j = position(pre.products@, it.barcode@);
        assert(mid.products@[j] == sold_from(pre.products@[j], items));
        lemma_position(mid.products@, j);
        lemma_gives_back_requested(moves, items, it.barcode@, it.location);
        lemma_gives_monotone(moves, k, it.barcode@, it.location);
        lemma_gives_monotone(moves, k + 1, it.barcode@, it.location);
        lemma_net_step(moves, k, it.barcode@, it.location);
        lemma_requested_needs_line(items, it.barcode@, it.location);
    }
    assert(all_accepted(mid.products@, moves));
    // Applying them restores every product.
    assert(moved_all(mid.products@, moves) =~= pre.products@) by {
        assert forall|j: int| 0 <= j < pre.products@.len() implies moved(
            #[trigger] mid.products@[j],
            moves,
        ) == pre.products@[j] by {
            let p = pre.products@[j];
            lemma_gives_back_requested(moves, items, p.barcode@, Location::Store);
            lemma_gives_back_requested(moves, items, p.barcode@, Location::Warehouse);
        }
    }
    assert forall|e: ErrorView| !sale_undo_refused(mid, e) by {
        assert(!none_undoable(ms));
        if sale_undo_refused(mid, e) {
            let k = choose|k: int| first_refusal(mid.products@, moves, k, e);
            assert(refusal(mid.products@, moves, k) is None);
        }
    }
}

/// A refund that commits puts the returned units back: the product's counter
/// at the chosen location and its mirror counter grow by the returned
/// quantity, and no other product changes.
pub proof fn law_refund_returns_units(
    pre: &Ledger,
    post: &Ledger,
    goods: &ReturnedGoods,
    now: &Moment,
    res: &CreateReturnResult,
)
    requires
        pre.wf(),
        refund_committed(pre, post, goods, now, res),
    ensures
        has_barcode(pre.products@, goods.barcode@),
        post.products@.len() == pre.products@.len(),
        post.products@[position(pre.products@, goods.barcode@)] == adjusted(
            pre.products@[position(pre.products@, goods.barcode@)],
            goods.return_to,
            goods.qty as int,
        ),
        forall|j: int|
            0 <= j < pre.products@.len() && j != position(pre.products@, goods.barcode@)
                ==> #[trigger] post.products@[j] == pre.products@[j],
{
    let moves = seq![credit_of(*goods)];
    assert(refusal(pre.products@, moves, 0) is None);
    let i = position(pre.products@, goods.barcode@);
    assert(moves.drop_last() =~= Seq::<StockMove>::empty());
    assert(moves.last() == credit_of(*goods));
    assert forall|j: int| 0 <= j < pre.products@.len() implies #[trigger] post.products@[j] == (if j
        == i {
        adjusted(pre.products@[j], goods.return_to, goods.qty as int)
    } else {
        pre.products@[j]
    }) by {
        let p = pre.products@[j];
        assert(post.products@[j] == moved(p, moves));
        lemma_position(pre.products@, j);
        assert(net(moves.drop_last(), p.barcode@, Location::Store) == 0);
        assert(net(moves.drop_last(), p.barcode@, Location::Warehouse) == 0);
        assert(net_mirror(moves.drop_last(), p.barcode@) == 0);
    }
}

/// The movements of a transfer without a line that names one place twice
/// take from one location of a product exactly what they give to the other,
/// and leave the mirror counter alone.
pub proof fn lemma_transfer_balances(items: Seq<TransferItem>, barcode: Seq<char>)
    requires
        !has_same_location(items),
    ensures
        net(transfer_moves(items), barcode, Location::Store) + net(
            transfer_moves(items),
            barcode,
            Location::Warehouse,
        ) == 0,
        net_mirror(transfer_moves(items), barcode) == 0,
    decreases items.len(),
{
    let t = transfer_moves(items);
    if items.len() > 0 {
        let front = items.drop_last();
        assert(!has_same_location(front)) by {
            if has_same_location(front) {
                let i = choose|i: int|
                    0 <= i < front.len() && (#[trigger] front[i]).from_loc == front[i].to_loc;
                assert(items[i] == front[i]);
            }
        }
        lemma_transfer_balances(front, barcode);
        let n = items.len() as int;
        let it = items[n - 1];
        assert(it.from_loc != it.to_loc);
        assert(t.drop_last().drop_last() =~= transfer_moves(front));
        assert(t.last() == t[2 * n - 1]);
        assert(t.drop_last().last() == t[2 * n - 2]);
        assert((2 * n - 1) / 2 == n - 1 && (2 * n - 1) % 2 == 1);
        assert((2 * n - 2) / 2 == n - 1 && (2 * n - 2) % 2 == 0);
        let d = t.drop_last();
        let credit = t.last();
        let debit = d.last();
        assert(credit.barcode == it.barcode && credit.location == it.to_loc && !credit.mirrored);
        assert(debit.barcode == it.barcode && debit.location == it.from_loc && !debit.mirrored);
        assert(debit.delta == -credit.delta);
        assert(net(d, barcode, Location::Store) == net(d.drop_last(), barcode, Location::Store)
            + if debit.barcode@ == barcode && debit.location == Location::Store {
            debit.delta as int
        } else {
            0
        });
        assert(net(d, barcode, Location::Warehouse) == net(
            d.drop_last(),
            barcode,
            Location::Warehouse,
        ) + if debit.barcode@ == barcode && debit.location == Location::Warehouse {
            debit.delta as int
        } else {
            0
        });
        assert(net_mirror(d, barcode) == net_mirror(d.drop_last(), barcode));
    } else {
        assert(t =~= Seq::<StockMove>::empty());
    }
}

/// A transfer that commits moves units between the two locations of each
/// product and neither adds nor removes any: the sum of the two counters of
/// every product stays what it was, and so does its mirror counter.
pub proof fn law_transfer_keeps_totals(
    pre: &Ledger,
    post: &Ledger,
    items: Seq<TransferItem>,
    note: Option<Seq<char>>,
    now: &Moment,
    res: &CreateTransferResult,
)
    requires
        pre.wf(),
        transfer_committed(pre, post, items, note, now, res),
    ensures
        post.products@.len() == pre.products@.len(),
        forall|j: int|
            0 <= j < pre.products@.len() ==> {
                let p = #[trigger] pre.products@[j];
                let q = post.products@[j];
                &&& q.magaza_stok + q.depo_stok == p.magaza_stok + p.depo_stok
                &&& q.stock == p.stock
                &&& q.barcode == p.barcode
            },
{
    assert forall|j: int| 0 <= j < pre.products@.len() implies {
        let p = #[trigger] pre.products@[j];
        let q = post.products@[j];
        &&& q.magaza_stok + q.depo_stok == p.magaza_stok + p.depo_stok
        &&& q.stock == p.stock
        &&& q.barcode == p.barcode
    } by {
        let p = pre.products@[j];
        assert(post.products@[j] == moved(p, transfer_moves(items)));
        lemma_transfer_balances(items, p.barcode@);
    }
}

/// The row is that of a month of the window of the last `k` months that is
/// not quiet.
pub open spec fn is_row_of_busy_month(
    l: &Ledger,
    today: Date,
    k: nat,
    row: MonthlyDashboardRow,
) -> bool {
    exists|j: int|
        0 <= j < k && !quiet_month(
            measured(l, Bucket::Month(#[trigger] period_before(today, j as nat))),
        ) && row == monthly_row(l, period_before(today, j as nat))
}

/// Every row of the monthly series is the row of a month of the window that
/// is not quiet, and the series has no more rows than the window has months.
pub proof fn law_quiet_months_have_no_row(l: &Ledger, today: Date, k: nat)
    ensures
        monthly_series(l, today, k).len() <= k,
        forall|i: int|
            0 <= i < monthly_series(l, today, k).len() ==> is_row_of_busy_month(
                l,
                today,
                k,
                #[trigger] monthly_series(l, today, k)[i],
            ),
    decreases k,
{
    if k > 0 {
        law_quiet_months_have_no_row(l, today, (k - 1) as nat);
        let rest = monthly_series(l, today, (k - 1) as nat);
        let s = monthly_series(l, today, k);
        let period = period_before(today, (k - 1) as nat);
        assert forall|i: int| 0 <= i < s.len() implies is_row_of_busy_month(
            l,
            today,
            k,
            #[trigger] s[i],
        ) by {
            if quiet_month(measured(l, Bucket::Month(period))) {
                assert(is_row_of_busy_month(l, today, (k - 1) as nat, rest[i]));
            } else if i == 0 {
                assert(s[0] == monthly_row(l, period_before(today, (k - 1) as nat)));
            } else {
                assert(s[i] == rest[i - 1]);
                assert(is_row_of_busy_month(l, today, (k - 1) as nat, rest[i - 1]));
            }
        }
    }
}

/// The daily series is in calendar order, oldest day first, without a day
/// twice, and has no more rows than the window has days. This holds of every
/// window that does not reach back beyond the first day of the calendar.
pub proof fn law_daily_series_ascends(l: &Ledger, today: Date, k: nat)
    requires
        today.valid(),
        k <= day_number(today),
    ensures
        daily_series(l, today, k).len() <= k,
        forall|i: int, j: int|
            0 <= i < j < daily_series(l, today, k).len() ==> (#[trigger] daily_series(
                l,
                today,
                k,
            )[i]).day.key() < (#[trigger] daily_series(l, today, k)[j]).day.key(),
    decreases k,
{
    if k > 0 {
        law_daily_series_ascends(l, today, (k - 1) as nat);
        law_quiet_days_have_no_row(l, today, (k - 1) as nat);
        let rest = daily_series(l, today, (k - 1) as nat);
        let s = daily_series(l, today, k);
        let day = days_before(today, (k - 1) as nat);
        if !quiet_day(measured(l, Bucket::Day(day))) {
            assert forall|i: int, j: int| 0 <= i < j < s.len() implies (#[trigger] s[i]).day.key()
                < (#[trigger] s[j]).day.key() by {
                assert(s[j] == rest[j - 1]);
                if i == 0 {
                    assert(s[0] == daily_row(l, day));
                    assert(is_row_of_busy_day(l, today, (k - 1) as nat, rest[j - 1]));
                    let a = choose|a: int|
                        0 <= a < k - 1 && !quiet_day(
                            measured(l, Bucket::Day(#[trigger] days_before(today, a as nat))),
                        ) && rest[j - 1] == daily_row(l, days_before(today, a as nat));
                    lemma_days_before_descend(today, a as nat, (k - 1) as nat);
                } else {
                    assert(s[i] == rest[i - 1]);
                }
            }
        }
    }
}

/// The monthly series is in calendar order, oldest month first, without a
/// month twice. This holds of every window that does not reach back beyond
/// the first month of the calendar.
pub proof fn law_monthly_series_ascends(l: &Ledger, today: Date, k: nat)
    requires
        today.valid(),
        k <= month_index(today.year as int, today.month as int) + 1,
    ensures
        forall|i: int, j: int|
            0 <= i < j < monthly_series(l, today, k).len() ==> (#[trigger] monthly_series(
                l,
                today,
                k,
            )[i]).period.key() < (#[trigger] monthly_series(l, today, k)[j]).period.key(),
    decreases k,
{
    if k > 0 {
        law_monthly_series_ascends(l, today, (k - 1) as nat);
        law_quiet_months_have_no_row(l, today, (k - 1) as nat);
        let rest = monthly_series(l, today, (k - 1) as nat);
        let s = monthly_series(l, today, k);
        let period = period_before(today, (k - 1) as nat);
        if !quiet_month(measured(l, Bucket::Month(period))) {
            assert forall|i: int, j: int| 0 <= i < j < s.len() implies (
            #[trigger] s[i]).period.key() < (#[trigger] s[j]).period.key() by {
                assert(s[j] == rest[j - 1]);
                if i == 0 {
                    assert(s[0] == monthly_row(l, period));
                    assert(is_row_of_busy_month(l, today, (k - 1) as nat, rest[j - 1]));
                    let a = choose|a: int|
                        0 <= a < k - 1 && !quiet_month(
                            measured(l, Bucket::Month(#[trigger] period_before(today, a as nat))),
                        ) && rest[j - 1] == monthly_row(l, period_before(today, a as nat));
                    lemma_period_before_descend(today, a as nat, (k - 1) as nat);
                } else {
                    assert(s[i] == rest[i - 1]);
                }
            }
        }
    }
}

/// Neither series has more rows than its window has days or months.
pub proof fn law_series_lengths(l: &Ledger, today: Date, days: nat, months: nat)
    ensures
        daily_series(l, today, days).len() <= days,
        monthly_series(l, today, months).len() <= months,
    decreases days + months,
{
    if days > 0 {
        law_series_lengths(l, today, (days - 1) as nat, months);
    } else if months > 0 {
        law_series_lengths(l, today, days, (months - 1) as nat);
    }
}

/// A basket that is not empty and that the stock covers is refused only where
/// a number leaves the 64-bit range: a line total, the basket total, an
/// identifier or the mirror counter. Within that range such a sale is owed.
pub proof fn law_covered_sale_fails_only_on_limits(pre: &Ledger, items: Seq<SaleItem>, e: ErrorView)
    requires
        items.len() > 0,
        covered(pre.products@, items),
        sale_refused(pre.products@, pre.next_sale_id as int, items, e),
    ensures
        e == ErrorView::OutOfRange,
{
    if !lines_accepted(pre.products@, items) {
        let i = choose|i: int| first_line_refusal(pre.products@, items, i, e);
        assert(has_barcode(pre.products@, items[i].barcode@));
    }
}

/// Every movement of an undo gives back the units of a sale line.
pub proof fn lemma_undo_moves_give(sales: Seq<SaleRecord>, g: Seq<char>, products: Seq<Product>)
    requires
        crate::ledger::sales_sound(sales, products),
    ensures
        only_gives(undo_sale_moves(sales, g)),
        forall|k: int|
            0 <= k < undo_sale_moves(sales, g).len() ==> has_barcode(
                products,
                (#[trigger] undo_sale_moves(sales, g)[k]).barcode@,
            ),
    decreases sales.len(),
{
    if sales.len() > 0 {
        let front = sales.drop_last();
        assert forall|i: int| 0 <= i < front.len() implies (#[trigger] front[i]).qty >= 1
            && has_barcode(products, front[i].product_barcode@) by {
            assert(front[i] == sales[i]);
        }
        lemma_undo_moves_give(front, g, products);
        let rec = sales[sales.len() - 1];
        assert(rec == sales.last());
        let rest = undo_sale_moves(front, g);
        let u = undo_sale_moves(sales, g);
        assert forall|k: int| 0 <= k < u.len() implies (#[trigger] u[k]).delta >= 0 && has_barcode(
            products,
            u[k].barcode@,
        ) by {
            if k < rest.len() {
                assert(u[k] == rest[k]);
            }
        }
    }
}

/// The undo of the last sale is refused only where nothing can be undone or
/// where a counter would leave the 64-bit range: the products of the lines
/// exist, and giving units back takes no counter below zero.
pub proof fn law_sale_undo_fails_only_on_limits(pre: &Ledger, e: ErrorView)
    requires
        pre.wf(),
        sale_undo_refused(pre, e),
    ensures
        e == ErrorView::NoSaleToUndo || e == ErrorView::OutOfRange,
        e == ErrorView::NoSaleToUndo <==> none_undoable(pre.sales@),
{
    if !none_undoable(pre.sales@) {
        let g = last_group(pre.sales@);
        let moves = undo_sale_moves(pre.sales@, g);
        lemma_undo_moves_give(pre.sales@, g, pre.products@);
        if moves.len() <= i64::MAX {
            let k = choose|k: int| first_refusal(pre.products@, moves, k, e);
            let m = moves[k];
            crate::stock::lemma_gives_nonnegative(moves, k, m.barcode@, m.location);
        }
    }
}

/// An undo that commits removes the whole receipt and nothing else: no live
/// line of the group remains, every remaining line was there before, and
/// every line that does not belong to the group is still there.
pub proof fn law_undo_removes_the_group(sales: Seq<SaleRecord>, g: Seq<char>)
    ensures
        forall|i: int|
            0 <= i < without_group(sales, g).len() ==> !in_group(
                #[trigger] without_group(sales, g)[i],
                g,
            ),
        forall|i: int|
            0 <= i < without_group(sales, g).len() ==> exists|j: int|
                0 <= j < sales.len() && sales[j] == #[trigger] without_group(sales, g)[i],
        forall|j: int|
            0 <= j < sales.len() && !in_group(#[trigger] sales[j], g) ==> exists|i: int|
                0 <= i < without_group(sales, g).len() && without_group(sales, g)[i] == sales[j],
    decreases sales.len(),
{
    if sales.len() > 0 {
        let front = sales.drop_last();
        law_undo_removes_the_group(front, g);
        let rest = without_group(front, g);
        let w = without_group(sales, g);
        let last = sales[sales.len() - 1];
        assert(last == sales.last());
        assert forall|i: int| 0 <= i < w.len() implies !in_group(#[trigger] w[i], g) && exists|
            j: int,
        |
            0 <= j < sales.len() && sales[j] == w[i] by {
            if i < rest.len() {
                assert(w[i] == rest[i]);
                let j = choose|j: int| 0 <= j < front.len() && front[j] == rest[i];
                assert(sales[j] == w[i]);
            } else {
                assert(sales[sales.len() - 1] == w[i]);
            }
        }
        assert forall|j: int| 0 <= j < sales.len() && !in_group(#[trigger] sales[j], g) implies exists|
            i: int,
        |
            0 <= i < w.len() && w[i] == sales[j] by {
            if j < front.len() {
                assert(front[j] == sales[j]);
                let i = choose|i: int| 0 <= i < rest.len() && rest[i] == front[j];
                assert(w[i] == sales[j]);
            } else {
                assert(w[w.len() - 1] == sales[j]);
            }
        }
    }
}

/// A transfer takes nothing out of a source that none of its lines names, and
/// never a negative number of units.
pub proof fn lemma_outgoing_needs_line(items: Seq<TransferItem>, barcode: Seq<char>, loc: Location)
    ensures
        0 <= outgoing(items, barcode, loc),
        outgoing(items, barcode, loc) > 0 ==> exists|i: int|
            0 <= i < items.len() && (#[trigger] items[i]).barcode@ == barcode && items[i].from_loc
                == loc,
    decreases items.len(),
{
    if items.len() > 0 {
        let front = items.drop_last();
        lemma_outgoing_needs_line(front, barcode, loc);
        if outgoing(items, barcode, loc) > 0 {
            if outgoing(front, barcode, loc) > 0 {
                let i = choose|i: int|
                    0 <= i < front.len() && (#[trigger] front[i]).barcode@ == barcode
                        && front[i].from_loc == loc;
                assert(items[i] == front[i]);
            } else {
                assert(items[items.len() - 1] == items.last());
            }
        }
    }
}

/// The first lines of a transfer take no more out of a source than all of
/// them.
pub proof fn lemma_outgoing_grows(items: Seq<TransferItem>, i: int, barcode: Seq<char>, loc: Location)
    requires
        0 <= i <= items.len(),
    ensures
        0 <= outgoing(items.take(i), barcode, loc) <= outgoing(items, barcode, loc),
    decreases items.len() - i,
{
    lemma_outgoing_needs_line(items.take(i), barcode, loc);
    if i == items.len() {
        assert(items.take(i) =~= items);
    } else {
        lemma_outgoing_grows(items, i + 1, barcode, loc);
        lemma_outgoing_step(items, i, barcode, loc);
    }
}

/// After the first `m` movements of a transfer, a counter has lost no more
/// than the lines begun so far take out of it.
pub proof fn lemma_transfer_prefix(items: Seq<TransferItem>, m: int, barcode: Seq<char>, loc: Location)
    requires
        0 <= m <= 2 * items.len(),
    ensures
        net(transfer_moves(items).take(m), barcode, loc) + outgoing(
            items.take((m + 1) / 2),
            barcode,
            loc,
        ) >= 0,
    decreases m,
{
    let t = transfer_moves(items);
    if m == 0 {
        assert(t.take(0) =~= Seq::<StockMove>::empty());
        assert(items.take(0) =~= Seq::<TransferItem>::empty());
    } else {
        let k = m - 1;
        lemma_transfer_prefix(items, k, barcode, loc);
        lemma_net_step(t, k, barcode, loc);
        let i = k / 2;
        if k % 2 == 0 {
            assert((m + 1) / 2 == i + 1 && (k + 1) / 2 == i);
            lemma_outgoing_step(items, i, barcode, loc);
        } else {
            assert((m + 1) / 2 == i + 1 && (k + 1) / 2 == i + 1);
        }
    }
}

/// A transfer that is not empty, names no place twice in a line and whose
/// sources hold what it takes out of them is refused only where a number
/// leaves the 64-bit range. Within that range such a transfer is owed.
pub proof fn law_covered_transfer_fails_only_on_limits(
    pre: &Ledger,
    items: Seq<TransferItem>,
    e: ErrorView,
)
    requires
        pre.wf(),
        items.len() > 0,
        !has_same_location(items),
        sources_accepted(pre.products@, items),
        transfer_refused(pre, items, e),
    ensures
        e == ErrorView::OutOfRange,
{
    if items.len() <= i64::MAX {
        let t = transfer_moves(items);
        let k = choose|k: int| first_refusal(pre.products@, t, k, e);
        let i = k / 2;
        let m = t[k];
        let bc = m.barcode@;
        let loc = m.location;
        assert(m.barcode == items[i].barcode);
        assert(source_refusal(pre.products@, items, i) is None);
        let j = position(pre.products@, bc);
        let p = pre.products@[j];
        lemma_transfer_prefix(items, k + 1, bc, loc);
        lemma_net_step(t, k, bc, loc);
        lemma_outgoing_grows(items, (k + 2) / 2, bc, loc);
        lemma_outgoing_needs_line(items, bc, loc);
        if outgoing(items, bc, loc) > 0 {
            let a = choose|a: int|
                0 <= a < items.len() && (#[trigger] items[a]).barcode@ == bc && items[a].from_loc
                    == loc;
            assert(source_refusal(pre.products@, items, a) is None);
        }
        assert(p.at(loc) >= outgoing(items, bc, loc));
    }
}

/// No transfer line carries the group identifier `g`.
pub open spec fn transfer_group_unused(transfers: Seq<TransferRecord>, g: Seq<char>) -> bool {
    forall|i: int|
        0 <= i < transfers.len() ==> text_of((#[trigger] transfers[i]).transfer_group_id) != Some(g)
}

/// The movements reverse, line by line, what the transfer moved: each line
/// leaves its destination and enters its source again.
pub open spec fn reverses(moves: Seq<StockMove>, items: Seq<TransferItem>) -> bool {
    &&& moves.len() == 2 * items.len()
    &&& forall|i: int|
        0 <= i < items.len() ==> {
            let it = #[trigger] items[i];
            let out = moves[2 * i];
            let back = moves[2 * i + 1];
            &&& out.barcode@ == it.barcode@
            &&& out.location == it.to_loc
            &&& out.delta == -units(it.qty as int)
            &&& !out.mirrored
            &&& back.barcode@ == it.barcode@
            &&& back.location == it.from_loc
            &&& back.delta == units(it.qty as int)
            &&& !back.mirrored
        }
}

/// Movements that reverse a transfer give every counter back what the
/// transfer took from it, and take what it gave.
pub proof fn lemma_reverse_cancels(
    moves: Seq<StockMove>,
    items: Seq<TransferItem>,
    barcode: Seq<char>,
    loc: Location,
)
    requires
        reverses(moves, items),
    ensures
        net(moves, barcode, loc) + net(transfer_moves(items), barcode, loc) == 0,
        net_mirror(moves, barcode) == 0,
        net_mirror(transfer_moves(items), barcode) == 0,
    decreases items.len(),
{
    let t = transfer_moves(items);
    if items.len() == 0 {
        assert(t =~= Seq::<StockMove>::empty());
        assert(moves =~= Seq::<StockMove>::empty());
    } else {
        let n = items.len() as int;
        let it = items[n - 1];
        let front = items.drop_last();
        let m1 = moves.drop_last();
        let m2 = m1.drop_last();
        let t1 = t.drop_last();
        let t2 = t1.drop_last();
        assert(t2 =~= transfer_moves(front));
        assert forall|i: int| 0 <= i < front.len() implies {
            let x = #[trigger] front[i];
            let out = m2[2 * i];
            let back = m2[2 * i + 1];
            &&& out.barcode@ == x.barcode@
            &&& out.location == x.to_loc
            &&& out.delta == -units(x.qty as int)
            &&& !out.mirrored
            &&& back.barcode@ == x.barcode@
            &&& back.location == x.from_loc
            &&& back.delta == units(x.qty as int)
            &&& !back.mirrored
        } by {
            assert(front[i] == items[i]);
            assert(m2[2 * i] == moves[2 * i]);
            assert(m2[2 * i + 1] == moves[2 * i + 1]);
        }
        lemma_reverse_cancels(m2, front, barcode, loc);
        assert(items[n - 1] == it);
        assert(moves.last() == moves[2 * (n - 1) + 1]);
        assert(m1.last() == moves[2 * (n - 1)]);
        assert(t.last() == t[2 * n - 1]);
        assert(t1.last() == t[2 * n - 2]);
        assert((2 * n - 1) / 2 == n - 1 && (2 * n - 1) % 2 == 1);
        assert((2 * n - 2) / 2 == n - 1 && (2 * n - 2) % 2 == 0);
        assert(net(m1, barcode, loc) == net(m2, barcode, loc) + if m1.last().barcode@ == barcode
            && m1.last().location == loc {
            m1.last().delta as int
        } else {
            0
        });
        assert(net(t1, barcode, loc) == net(t2, barcode, loc) + if t1.last().barcode@ == barcode
            && t1.last().location == loc {
            t1.last().delta as int
        } else {
            0
        });
        assert(net_mirror(m1, barcode) == net_mirror(m2, barcode));
        assert(net_mirror(t1, barcode) == net_mirror(t2, barcode));
    }
}

/// Where no line belongs to a group, undoing it moves nothing.
pub proof fn lemma_unused_transfer_group(transfers: Seq<TransferRecord>, g: Seq<char>)
    requires
        transfer_group_unused(transfers, g),
    ensures
        undo_transfer_moves(transfers, g) == Seq::<StockMove>::empty(),
        group_size(transfers, g) == 0,
    decreases transfers.len(),
{
    if transfers.len() > 0 {
        let front = transfers.drop_last();
        assert forall|i: int| 0 <= i < front.len() implies text_of(
            (#[trigger] front[i]).transfer_group_id,
        ) != Some(g) by {
            assert(front[i] == transfers[i]);
        }
        lemma_unused_transfer_group(front, g);
        assert(transfers.last() == transfers[transfers.len() - 1]);
    }
}

/// After a transfer under an unused group identifier, the lines of that group
/// are exactly the new lines: undoing the group reverses the transfer.
pub proof fn lemma_new_transfer_group(
    pre: &Ledger,
    mid: &Ledger,
    items: Seq<TransferItem>,
    note: Option<Seq<char>>,
    now: &Moment,
    res: &CreateTransferResult,
    m: int,
)
    requires
        transfer_committed(pre, mid, items, note, now, res),
        transfer_group_unused(pre.transfers@, transfer_group_id(now.millis)),
        0 <= m <= items.len(),
    ensures
        reverses(
            undo_transfer_moves(
                mid.transfers@.take(pre.transfers@.len() + m),
                transfer_group_id(now.millis),
            ),
            items.take(m),
        ),
        group_size(mid.transfers@.take(pre.transfers@.len() + m), transfer_group_id(now.millis))
            == m,
    decreases m,
{
    let g = transfer_group_id(now.millis);
    let b = pre.transfers@.len() as int;
    if m == 0 {
        lemma_unused_transfer_group(pre.transfers@, g);
        assert(items.take(0) =~= Seq::<TransferItem>::empty());
    } else {
        lemma_new_transfer_group(pre, mid, items, note, now, res, m - 1);
        lemma_undo_transfer_step(mid.transfers@, b + m - 1, g);
        let rec = mid.transfers@[b + (m - 1)];
        assert(rec@ == transfer_line(items[m - 1], g, note, now.at));
        assert(in_transfer_group(rec, g));
        let before = undo_transfer_moves(mid.transfers@.take(b + m - 1), g);
        let after = undo_transfer_moves(mid.transfers@.take(b + m), g);
        assert(after.len() == 2 * m);
        assert forall|i: int| 0 <= i < m implies {
            let it = #[trigger] items.take(m)[i];
            let out = after[2 * i];
            let back = after[2 * i + 1];
            &&& out.barcode@ == it.barcode@
            &&& out.location == it.to_loc
            &&& out.delta == -units(it.qty as int)
            &&& !out.mirrored
            &&& back.barcode@ == it.barcode@
            &&& back.location == it.from_loc
            &&& back.delta == units(it.qty as int)
            &&& !back.mirrored
        } by {
            if i < m - 1 {
                assert(after[2 * i] == before[2 * i]);
                assert(after[2 * i + 1] == before[2 * i + 1]);
                assert(items.take(m - 1)[i] == items[i]);
            }
        }
    }
}

/// Undoing a transfer right after it was committed restores the stock: if a
/// transfer commits under a group identifier that no earlier line carries,
/// the undo that follows, where it commits, gives every product its counters
/// back, marks exactly the lines of that transfer as voided, leaves the
/// earlier lines as they were, and reports their number.
pub proof fn law_undo_restores_transfer(
    pre: &Ledger,
    mid: &Ledger,
    items: Seq<TransferItem>,
    note: Option<Seq<char>>,
    now: &Moment,
    res: &CreateTransferResult,
)
    requires
        pre.wf(),
        mid.wf(),
        transfer_committed(pre, mid, items, note, now, res),
        transfer_group_unused(pre.transfers@, transfer_group_id(now.millis)),
    ensures
        forall|post: &Ledger, undone: &UndoLastTransferResult| #[trigger]
            transfer_undone(mid, post, undone) ==> {
                &&& post.products@ == pre.products@
                &&& undone.restored_lines == items.len()
                &&& undone.transfer_group_id@ == res.transfer_group_id@
                &&& post.transfers@.len() == pre.transfers@.len() + items.len()
                &&& post.transfers@.take(pre.transfers@.len() as int) == pre.transfers@
                &&& forall|i: int|
                    0 <= i < items.len() ==> (#[trigger] post.transfers@[pre.transfers@.len()
                        + i]).voided
            },
{
    let g = transfer_group_id(now.millis);
    let b = pre.transfers@.len() as int;
    let n = items.len() as int;
    let ms = mid.transfers@;
    let last = b + n - 1;
    assert(ms[b + (n - 1)]@ == transfer_line(items[n - 1], g, note, now.at));
    assert(reversible(ms[last]));
    assert(is_last_reversible(ms, last));
    let c = choose|i: int| is_last_reversible(ms, i);
    if c < last {
        assert(!reversible(ms[last]));
    }
    assert(last_transfer_group(ms) == g);
    lemma_new_transfer_group(pre, mid, items, note, now, res, n);
    assert(ms.take(b + n) =~= ms);
    assert(items.take(n) =~= items);
    let moves = undo_transfer_moves(ms, g);
    let t = transfer_moves(items);
    assert(reverses(moves, items));
    assert forall|post: &Ledger, undone: &UndoLastTransferResult| #[trigger]
        transfer_undone(mid, post, undone) implies {
        &&& post.products@ == pre.products@
        &&& undone.restored_lines == items.len()
        &&& undone.transfer_group_id@ == res.transfer_group_id@
        &&& post.transfers@.len() == pre.transfers@.len() + items.len()
        &&& post.transfers@.take(pre.transfers@.len() as int) == pre.transfers@
        &&& forall|i: int|
            0 <= i < items.len() ==> (#[trigger] post.transfers@[pre.transfers@.len() + i]).voided
    } by {
        assert(post.products@ =~= pre.products@) by {
            assert forall|j: int| 0 <= j < pre.products@.len() implies post.products@[j]
                == pre.products@[j] by {
                let p = pre.products@[j];
                assert(mid.products@[j] == moved(p, t));
                assert(post.products@[j] == moved(mid.products@[j], moves));
                lemma_reverse_cancels(moves, items, p.barcode@, Location::Store);
                lemma_reverse_cancels(moves, items, p.barcode@, Location::Warehouse);
            }
        }
        let w = with_group_voided(ms, g);
        assert(post.transfers@.take(b) =~= pre.transfers@) by {
            assert forall|i: int| 0 <= i < b implies post.transfers@.take(b)[i]
                == pre.transfers@[i] by {
                assert(ms.take(b)[i] == pre.transfers@[i]);
                assert(ms[i] == ms.take(b)[i]);
                assert(!in_transfer_group(pre.transfers@[i], g));
            }
        }
        assert forall|i: int| 0 <= i < n implies (#[trigger] post.transfers@[b + i]).voided by {
            assert(ms[b + i]@ == transfer_line(items[i], g, note, now.at));
            assert(in_transfer_group(ms[b + i], g));
        }
    }
}

/// From its first `m` movements on, a transfer takes no more out of a counter
/// than the lines not yet begun take out of it.
pub proof fn lemma_transfer_suffix(items: Seq<TransferItem>, m: int, barcode: Seq<char>, loc: Location)
    requires
        0 <= m <= 2 * items.len(),
    ensures
        net(transfer_moves(items), barcode, loc) - net(transfer_moves(items).take(m), barcode, loc)
            + outgoing(items, barcode, loc) - outgoing(items.take((m + 1) / 2), barcode, loc)
            >= 0,
    decreases 2 * items.len() - m,
{
    let t = transfer_moves(items);
    if m == 2 * items.len() {
        assert(t.take(m) =~= t);
        assert(items.take((m + 1) / 2) =~= items);
    } else {
        lemma_transfer_suffix(items, m + 1, barcode, loc);
        lemma_net_step(t, m, barcode, loc);
        let i = m / 2;
        if m % 2 == 0 {
            assert((m + 1) / 2 == i && (m + 2) / 2 == i + 1);
            lemma_outgoing_step(items, i, barcode, loc);
        } else {
            assert((m + 1) / 2 == i + 1 && (m + 2) / 2 == i + 1);
        }
    }
}

/// Right after a transfer, no movement of its undo finds less in a counter
/// than it takes: after the first `k + 1` movements of the undo the counter
/// that movement `k` names is not below zero.
pub proof fn lemma_fresh_undo_is_covered(
    products: Seq<Product>,
    items: Seq<TransferItem>,
    moves: Seq<StockMove>,
    k: int,
)
    requires
        crate::stock::unique_barcodes(products),
        crate::stock::stocks_nonnegative(products),
        !has_same_location(items),
        sources_accepted(products, items),
        reverses(moves, items),
        0 <= k < moves.len(),
    ensures
        has_barcode(products, moves[k].barcode@),
        products[position(products, moves[k].barcode@)].at(moves[k].location) + net(
            transfer_moves(items),
            moves[k].barcode@,
            moves[k].location,
        ) + net(moves.take(k + 1), moves[k].barcode@, moves[k].location) >= 0,
{
    let t = transfer_moves(items);
    let i = k / 2;
    let it = items[i];
    let bc = moves[k].barcode@;
    let loc = moves[k].location;
    let u = units(it.qty as int);
    assert(moves[2 * i].barcode@ == it.barcode@ && moves[2 * i + 1].barcode@ == it.barcode@);
    assert(bc == it.barcode@);
    assert(it.from_loc != it.to_loc);
    assert(source_refusal(products, items, i) is None);
    let p = products[position(products, bc)];
    // The counter holds what the whole transfer takes out of it.
    let out = outgoing(items, bc, loc);
    lemma_outgoing_needs_line(items, bc, loc);
    if out > 0 {
        let a = choose|a: int|
            0 <= a < items.len() && (#[trigger] items[a]).barcode@ == bc && items[a].from_loc == loc;
        assert(source_refusal(products, items, a) is None);
    }
    assert(p.at(loc) >= out);
    // What the lines already undone had moved is given back exactly.
    let done = moves.take(2 * i);
    let begun = items.take(i);
    assert(transfer_moves(begun) =~= t.take(2 * i));
    assert(reverses(done, begun)) by {
        assert forall|a: int| 0 <= a < begun.len() implies {
            let x = #[trigger] begun[a];
            let out = done[2 * a];
            let back = done[2 * a + 1];
            &&& out.barcode@ == x.barcode@
            &&& out.location == x.to_loc
            &&& out.delta == -units(x.qty as int)
            &&& !out.mirrored
            &&& back.barcode@ == x.barcode@
            &&& back.location == x.from_loc
            &&& back.delta == units(x.qty as int)
            &&& !back.mirrored
        } by {
            assert(begun[a] == items[a]);
        }
    }
    lemma_reverse_cancels(done, begun, bc, loc);
    let whole = net(t, bc, loc);
    let so_far = net(t.take(2 * i), bc, loc);
    assert(net(done, bc, loc) == -so_far);
    lemma_net_step(moves, 2 * i, bc, loc);
    lemma_net_step(t, 2 * i, bc, loc);
    lemma_net_step(t, 2 * i + 1, bc, loc);
    assert(t[2 * i].barcode@ == it.barcode@ && t[2 * i].location == it.from_loc && t[2
        * i].delta == -u);
    assert(t[2 * i + 1].barcode@ == it.barcode@ && t[2 * i + 1].location == it.to_loc && t[2 * i
        + 1].delta == u);
    if k % 2 == 0 {
        assert(k == 2 * i && loc == it.to_loc);
        assert(net(moves.take(k + 1), bc, loc) == -so_far - u);
        assert(net(t.take(2 * i + 2), bc, loc) == so_far + u);
        lemma_transfer_suffix(items, 2 * i + 2, bc, loc);
        assert((2 * i + 3) / 2 == i + 1);
        lemma_outgoing_grows(items, i + 1, bc, loc);
        assert(whole - so_far - u >= -out);
    } else {
        assert(k == 2 * i + 1 && loc == it.from_loc);
        lemma_net_step(moves, 2 * i + 1, bc, loc);
        assert(net(moves.take(2 * i + 1), bc, loc) == -so_far);
        assert(net(moves.take(k + 1), bc, loc) == -so_far + u);
        lemma_transfer_suffix(items, 2 * i, bc, loc);
        assert((2 * i + 1) / 2 == i);
        lemma_outgoing_grows(items, i, bc, loc);
        assert(whole - so_far >= -out);
    }
}

/// An undo right after a transfer is refused only where a counter would leave
/// the 64-bit range on the way back: the products exist, and no destination
/// is asked for more than it holds.
pub proof fn law_fresh_transfer_undo_fails_only_on_limits(
    pre: &Ledger,
    mid: &Ledger,
    items: Seq<TransferItem>,
    note: Option<Seq<char>>,
    now: &Moment,
    res: &CreateTransferResult,
    e: ErrorView,
)
    requires
        pre.wf(),
        mid.wf(),
        transfer_committed(pre, mid, items, note, now, res),
        transfer_group_unused(pre.transfers@, transfer_group_id(now.millis)),
        transfer_undo_refused(mid, e),
    ensures
        e == ErrorView::OutOfRange,
{
    let g = transfer_group_id(now.millis);
    let b = pre.transfers@.len() as int;
    let n = items.len() as int;
    let ms = mid.transfers@;
    let last = b + n - 1;
    assert(ms[b + (n - 1)]@ == transfer_line(items[n - 1], g, note, now.at));
    assert(reversible(ms[last]));
    assert(is_last_reversible(ms, last));
    let c = choose|i: int| is_last_reversible(ms, i);
    if c < last {
        assert(!reversible(ms[last]));
    }
    assert(last_transfer_group(ms) == g);
    lemma_new_transfer_group(pre, mid, items, note, now, res, n);
    assert(ms.take(b + n) =~= ms);
    assert(items.take(n) =~= items);
    let moves = undo_transfer_moves(ms, g);
    let t = transfer_moves(items);
    assert(reverses(moves, items));
    assert(!none_reversible(ms));
    assert(group_reversible(ms, g)) by {
        assert forall|i: int| 0 <= i < ms.len() && in_transfer_group(#[trigger] ms[i], g) implies ms[i].qty
            > i64::MIN by {
            assert(ms[i].qty >= 1);
        }
    }
    assert(group_size(ms, g) <= i64::MAX);
    let k = choose|k: int| first_refusal(mid.products@, moves, k, e);
    assert(first_refusal(mid.products@, moves, k, e));
    let mv = moves[k];
    lemma_fresh_undo_is_covered(pre.products@, items, moves, k);
    let j = position(pre.products@, mv.barcode@);
    assert(mid.products@[j] == moved(pre.products@[j], t));
    lemma_position(mid.products@, j);
    lemma_net_step(moves, k, mv.barcode@, mv.location);
    assert(mid.products@[j].at(mv.location) == pre.products@[j].at(mv.location) + net(
        t,
        mv.barcode@,
        mv.location,
    ));
    assert(refusal(mid.products@, moves, k) == Some(e));
}

/// What a basket asks of a product is what it asks of its two locations
/// together.
pub proof fn lemma_requested_splits(items: Seq<SaleItem>, barcode: Seq<char>)
    ensures
        requested_anywhere(items, barcode) == requested(items, barcode, Location::Store)
            + requested(items, barcode, Location::Warehouse),
    decreases items.len(),
{
    if items.len() > 0 {
        lemma_requested_splits(items.drop_last(), barcode);
    }
}

/// A sale that commits takes from the mirror counter of every product exactly
/// what it takes from its two location counters together, and leaves every
/// location counter alone that no line of the basket names.
pub proof fn law_sale_mirror_follows(
    pre: &Ledger,
    post: &Ledger,
    items: Seq<SaleItem>,
    payment: PaymentMethod,
    now: &Moment,
    res: &CreateSaleResult,
)
    requires
        pre.wf(),
        sale_committed(pre, post, items, payment, now, res),
    ensures
        forall|j: int|
            0 <= j < pre.products@.len() ==> {
                let p = #[trigger] pre.products@[j];
                let q = post.products@[j];
                p.stock - q.stock == (p.magaza_stok - q.magaza_stok) + (p.depo_stok - q.depo_stok)
            },
        forall|j: int, loc: Location|
            0 <= j < pre.products@.len() && (forall|i: int|
                0 <= i < items.len() ==> !((#[trigger] items[i]).barcode@ == pre.products@[j].barcode@
                    && items[i].location == loc)) ==> #[trigger] post.products@[j].at(loc)
                == pre.products@[j].at(loc),
{
    law_sale_takes_requested(pre, post, items, payment, now, res);
    assert forall|j: int| 0 <= j < pre.products@.len() implies {
        let p = #[trigger] pre.products@[j];
        let q = post.products@[j];
        p.stock - q.stock == (p.magaza_stok - q.magaza_stok) + (p.depo_stok - q.depo_stok)
    } by {
        lemma_requested_splits(items, pre.products@[j].barcode@);
    }
    assert forall|j: int, loc: Location|
        0 <= j < pre.products@.len() && (forall|i: int|
            0 <= i < items.len() ==> !((#[trigger] items[i]).barcode@ == pre.products@[j].barcode@
                && items[i].location == loc)) implies #[trigger] post.products@[j].at(loc)
        == pre.products@[j].at(loc) by {
        lemma_requested_needs_line(items, pre.products@[j].barcode@, loc);
    }
}

/// An undo that commits reports the group of the most recently recorded live
/// sale line, leaves no live line of that group, and keeps every other line.
pub proof fn law_undo_removes_the_last_group(
    pre: &Ledger,
    post: &Ledger,
    undone: &UndoLastSaleResult,
)
    requires
        sale_undone(pre, post, undone),
    ensures
        undone.sale_group_id@ == last_group(pre.sales@),
        forall|i: int|
            0 <= i < post.sales@.len() ==> !in_group(
                #[trigger] post.sales@[i],
                undone.sale_group_id@,
            ),
        forall|j: int|
            0 <= j < pre.sales@.len() && !in_group(#[trigger] pre.sales@[j], undone.sale_group_id@)
                ==> exists|i: int| 0 <= i < post.sales@.len() && post.sales@[i] == pre.sales@[j],
{
    law_undo_removes_the_group(pre.sales@, last_group(pre.sales@));
}

} // verus!
