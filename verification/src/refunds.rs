//! The return and exchange processor: refunds against earlier sale lines,
//! with the accounting of what a sale line can still give back, and swaps of
//! returned goods for other goods.

use crate::clock::{parse_timestamp, timestamp_spelled, Moment, Timestamp};
use crate::error::{ErrorView, LedgerError};
use crate::kinds::{diff_method_of, location_of, Location, PaymentMethod, ReturnMode};
use crate::ledger::{
    refs_issued, returns_positive, sale_ids_ordered, lemma_refunded_nonnegative, lemma_refunded_push, refunded, refunded_units,
    refunds_bounded, text_of, ExchangeItem, ExchangeItemView, Ledger, ReturnItem, ReturnItemView,
    ReturnRecord, ReturnRecordView, SaleRecord,
};
use crate::sale::priced;
use crate::stock::{
    counters_in_range, all_accepted, apply_moves, find_product, first_refusal, has_barcode, moved_all, position,
    Product, StockMove,
};
use crate::text::{decimal, gen_group_id, same_text, trim, trimmed};
use vstd::prelude::*;

verus! {

/// The goods a customer brings back, and the sale they say it came from.
#[derive(Debug)]
pub struct ReturnedGoods {
    pub barcode: String,
    pub qty: i64,
    /// Where the units re-enter the stock.
    pub return_to: Location,
    /// When the goods were sold, if the customer can say.
    pub sold_at: Option<Timestamp>,
    /// Where the goods were sold, as told; recorded, not interpreted.
    pub sold_from: Option<String>,
    pub unit_price: i64,
}

/// What a committed refund reports.
#[derive(Debug)]
pub struct CreateReturnResult {
    pub return_group_id: String,
    pub lines: i64,
    pub returned_total: i64,
}

/// A live sale line of this product made at this time. Barcodes are compared
/// without the white space at their ends.
pub open spec fn is_sale_of(rec: SaleRecord, barcode: Seq<char>, at: Timestamp) -> bool {
    !rec.voided && trimmed(rec.product_barcode@) == trimmed(barcode) && rec.sold_at == at
}

/// Line `i` is the most recently recorded live sale line of this product made
/// at this time.
pub open spec fn is_matched_sale(
    sales: Seq<SaleRecord>,
    i: int,
    barcode: Seq<char>,
    at: Timestamp,
) -> bool {
    &&& 0 <= i < sales.len()
    &&& is_sale_of(sales[i], barcode, at)
    &&& forall|j: int| i < j < sales.len() ==> !is_sale_of(#[trigger] sales[j], barcode, at)
}

/// The index of the sale line that returned goods are matched to. Goods
/// without a sale time, or with one that no live sale line of the product
/// carries, are matched to none.
pub open spec fn matched_sale(sales: Seq<SaleRecord>, goods: ReturnedGoods) -> Option<int> {
    match goods.sold_at {
        None => None,
        Some(at) => if exists|i: int| is_matched_sale(sales, i, goods.barcode@, at) {
            Some(choose|i: int| is_matched_sale(sales, i, goods.barcode@, at))
        } else {
            None
        },
    }
}

/// The units of a sale line that can still be refunded.
pub open spec fn remaining(sales: Seq<SaleRecord>, items: Seq<ReturnItem>, i: int) -> int {
    sales[i].qty - refunded(items, sales[i].id as int)
}

/// Why the refund accounting stops a return: the matched sale line has
/// nothing left, or less than is brought back.
pub open spec fn refund_block(
    sales: Seq<SaleRecord>,
    items: Seq<ReturnItem>,
    goods: ReturnedGoods,
) -> Option<ErrorView> {
    match matched_sale(sales, goods) {
        None => None,
        Some(i) => {
            let sold = sales[i].qty as int;
            let done = refunded(items, sales[i].id as int);
            if sold - done <= 0 {
                Some(ErrorView::FullyRefunded { sold, refunded: done, exchange: false })
            } else if goods.qty > sold - done {
                Some(
                    ErrorView::RefundExceedsRemaining {
                        sold,
                        refunded: done,
                        remaining: sold - done,
                        exchange: false,
                    },
                )
            } else {
                None
            }
        },
    }
}

/// The identifier of the sale line that returned goods are matched to.
pub open spec fn matched_sale_id(sales: Seq<SaleRecord>, goods: ReturnedGoods) -> Option<i64> {
    match matched_sale(sales, goods) {
        None => None,
        Some(i) => Some(sales[i].id),
    }
}

/// The movement that puts returned goods back into stock.
pub open spec fn credit_of(goods: ReturnedGoods) -> StockMove {
    StockMove {
        barcode: goods.barcode,
        location: goods.return_to,
        delta: goods.qty,
        mirrored: true,
    }
}

/// The return line recorded for returned goods.
pub open spec fn return_line(
    goods: ReturnedGoods,
    group: Seq<char>,
    ref_sale_id: Option<i64>,
) -> ReturnItemView {
    ReturnItemView {
        return_group_id: group,
        product_barcode: goods.barcode@,
        qty: goods.qty as int,
        unit_price: goods.unit_price as int,
        total: goods.unit_price * goods.qty,
        return_to: goods.return_to,
        ref_sale_id,
        ref_sold_at: goods.sold_at,
        ref_sold_from: text_of(goods.sold_from),
    }
}

/// The identifier of the refund committed at `millis`.
pub open spec fn refund_group_id(millis: u64) -> Seq<char> {
    seq!['R'] + decimal(millis as nat)
}

/// The identifier of the exchange committed at `millis`.
pub open spec fn exchange_group_id(millis: u64) -> Seq<char> {
    seq!['E'] + decimal(millis as nat)
}

/// The refunded value and its negation fit in 64 bits.
pub open spec fn refund_in_range(goods: ReturnedGoods) -> bool {
    i64::MIN < goods.unit_price * goods.qty <= i64::MAX
}

/// What a committed refund leaves behind.
pub open spec fn refund_committed(
    pre: &Ledger,
    post: &Ledger,
    goods: &ReturnedGoods,
    now: &Moment,
    res: &CreateReturnResult,
) -> bool {
    let moves = seq![credit_of(*goods)];
    let total = goods.unit_price * goods.qty;
    &&& goods.qty > 0
    &&& refund_block(pre.sales@, pre.return_items@, *goods) is None
    &&& refund_in_range(*goods)
    &&& all_accepted(pre.products@, moves)
    &&& counters_in_range(pre.products@, moves)
    &&& res.return_group_id@ == refund_group_id(now.millis)
    &&& res.lines == 1
    &&& res.returned_total == total
    &&& post.products@ == moved_all(pre.products@, moves)
    &&& post.return_groups@.len() == pre.return_groups@.len() + 1
    &&& post.return_groups@.drop_last() == pre.return_groups@
    &&& post.return_groups@.last()@ == (ReturnRecordView {
        return_group_id: refund_group_id(now.millis),
        mode: ReturnMode::Refund,
        returned_total: total,
        given_total: 0,
        diff: -total,
        diff_payment_method: None,
        created_at: now.at,
    })
    &&& post.return_items@.len() == pre.return_items@.len() + 1
    &&& post.return_items@.drop_last() == pre.return_items@
    &&& post.return_items@.last()@ == return_line(
        *goods,
        refund_group_id(now.millis),
        matched_sale_id(pre.sales@, *goods),
    )
    &&& post.exchange_items == pre.exchange_items
    &&& post.next_exchange_item_id == pre.next_exchange_item_id
    &&& post.same_sales(pre)
    &&& post.same_transfers(pre)
    &&& post.same_expenses(pre)
}

/// Why a refund is refused: the quantity is not positive; or the matched sale
/// line cannot give that much back; or the refunded value leaves the 64-bit
/// range; or putting the units back is refused.
pub open spec fn refund_refused(pre: &Ledger, goods: &ReturnedGoods, e: ErrorView) -> bool {
    if goods.qty <= 0 {
        e == ErrorView::QuantityNotPositive
    } else if refund_block(pre.sales@, pre.return_items@, *goods) is Some {
        refund_block(pre.sales@, pre.return_items@, *goods) == Some(e)
    } else if !refund_in_range(*goods) {
        e == ErrorView::OutOfRange
    } else {
        exists|k: int| first_refusal(pre.products@, seq![credit_of(*goods)], k, e)
    }
}

/// Finds the sale line that returned goods are matched to.
pub fn find_matched_sale(sales: &Vec<SaleRecord>, goods: &ReturnedGoods) -> (r: Option<usize>)
    ensures
        match r {
            Some(i) => matched_sale(sales@, *goods) == Some(i as int) && i < sales.len(),
            None => matched_sale(sales@, *goods) is None,
        },
{
    let at = match goods.sold_at {
        Some(at) => at,
        None => {
            return None;
        },
    };
    let want = trim(goods.barcode.as_str());
    let mut i: usize = sales.len();
    while i > 0
        invariant
            i <= sales.len(),
            want@ == trimmed(goods.barcode@),
            goods.sold_at == Some(at),
            forall|j: int|
                i <= j < sales.len() ==> !is_sale_of(#[trigger] sales@[j], goods.barcode@, at),
        decreases i,
    {
        i -= 1;
        let rec = &sales[i];
        if !rec.voided && rec.sold_at == at && same_text(trim(rec.product_barcode.as_str()), want) {
            proof {
                assert(is_sale_of(sales@[i as int], goods.barcode@, at));
                assert(is_matched_sale(sales@, i as int, goods.barcode@, at));
                assert(goods.sold_at == Some(at));
                let c = choose|c: int| is_matched_sale(sales@, c, goods.barcode@, at);
                assert(is_matched_sale(sales@, c, goods.barcode@, at));
                if c < i {
                    assert(!is_sale_of(sales@[i as int], goods.barcode@, at));
                } else if i < c {
                    assert(!is_sale_of(sales@[c], goods.barcode@, at));
                }
            }
            return Some(i);
        }
    }
    proof {
        if exists|c: int| is_matched_sale(sales@, c, goods.barcode@, at) {
            let c = choose|c: int| is_matched_sale(sales@, c, goods.barcode@, at);
            assert(!is_sale_of(sales@[c], goods.barcode@, at));
        }
    }
    None
}

/// Applies the refund accounting to returned goods: finds the sale line they
/// are matched to and checks what it can still give back.
pub fn check_refund(ledger: &Ledger, goods: &ReturnedGoods) -> (r: Result<
    Option<i64>,
    LedgerError,
>)
    requires
        ledger.wf(),
    ensures
        match r {
            Ok(id) => refund_block(ledger.sales@, ledger.return_items@, *goods) is None && id
                == matched_sale_id(ledger.sales@, *goods),
            Err(e) => refund_block(ledger.sales@, ledger.return_items@, *goods) == Some(e@),
        },
{
    match find_matched_sale(&ledger.sales, goods) {
        None => Ok(None),
        Some(i) => {
            let rec = &ledger.sales[i];
            let sold = rec.qty;
            let done = refunded_units(&ledger.return_items, rec.id);
            proof {
                lemma_refunded_nonnegative(ledger.return_items@, rec.id as int);
                assert(refunded(ledger.return_items@, ledger.sales@[i as int].id as int)
                    <= ledger.sales@[i as int].qty);
            }
            let left: i128 = sold as i128 - done;
            if left <= 0 {
                return Err(
                    LedgerError::FullyRefunded { sold, refunded: done as i64, exchange: false },
                );
            }
            if goods.qty as i128 > left {
                return Err(
                    LedgerError::RefundExceedsRemaining {
                        sold,
                        refunded: done as i64,
                        remaining: left as i64,
                        exchange: false,
                    },
                );
            }
            Ok(Some(rec.id))
        },
    }
}

/// Re-establishes the refund bound after one return line was appended.
pub proof fn lemma_refund_keeps_bound(
    sales: Seq<SaleRecord>,
    next: int,
    items: Seq<ReturnItem>,
    item: ReturnItem,
    goods: ReturnedGoods,
)
    requires
        crate::ledger::sale_ids_ordered(sales, next),
        refunds_bounded(sales, items),
        refund_block(sales, items, goods) is None,
        item.ref_sale_id == matched_sale_id(sales, goods),
        item.qty == goods.qty,
    ensures
        refunds_bounded(sales, items.push(item)),
{
    assert forall|a: int| 0 <= a < sales.len() implies refunded(
        items.push(item),
        (#[trigger] sales[a]).id as int,
    ) <= sales[a].qty by {
        lemma_refunded_push(items, item, sales[a].id as int);
        match matched_sale(sales, goods) {
            None => {},
            Some(i) => {
                let at = goods.sold_at->Some_0;
                assert(is_matched_sale(sales, i, goods.barcode@, at));
                if a < i {
                    assert(sales[a].id < sales[i].id);
                } else if i < a {
                    assert(sales[i].id < sales[a].id);
                }
            },
        }
    }
}

/// Refunds returned goods: checks them against the sale line they are matched
/// to, puts the units back at the chosen location, and records one return
/// group in refund mode with one return line.
pub fn refund(ledger: &mut Ledger, goods: &ReturnedGoods, now: &Moment) -> (r: Result<
    CreateReturnResult,
    LedgerError,
>)
    requires
        old(ledger).wf(),
    ensures
        final(ledger).wf(),
        match r {
            Ok(res) => refund_committed(old(ledger), final(ledger), goods, now, &res),
            Err(e) => *final(ledger) == *old(ledger) && refund_refused(old(ledger), goods, e@),
        },
{
    if goods.qty <= 0 {
        return Err(LedgerError::QuantityNotPositive);
    }
    let ref_sale_id = match check_refund(ledger, goods) {
        Ok(id) => id,
        Err(e) => {
            return Err(e);
        },
    };
    let total = match priced(goods.unit_price, goods.qty) {
        Some(t) => t,
        None => {
            return Err(LedgerError::OutOfRange);
        },
    };
    if total == i64::MIN {
        return Err(LedgerError::OutOfRange);
    }
    let mut moves: Vec<StockMove> = Vec::new();
    moves.push(
        StockMove {
            barcode: goods.barcode.clone(),
            location: goods.return_to,
            delta: goods.qty,
            mirrored: true,
        },
    );
    assert(moves@ =~= seq![credit_of(*goods)]);
    match apply_moves(&mut ledger.products, &moves) {
        Err(e) => {
            return Err(e);
        },
        Ok(()) => {},
    }
    let group = gen_group_id("R", now.millis);
    proof {
        reveal_strlit("R");
        assert(group@ =~= refund_group_id(now.millis));
    }
    let item = ReturnItem {
        return_group_id: group.clone(),
        product_barcode: goods.barcode.clone(),
        qty: goods.qty,
        unit_price: goods.unit_price,
        total,
        return_to: goods.return_to,
        ref_sale_id,
        ref_sold_at: goods.sold_at,
        ref_sold_from: goods.sold_from.clone(),
    };
    proof {
        lemma_refund_keeps_bound(
            ledger.sales@,
            ledger.next_sale_id as int,
            ledger.return_items@,
            item,
            *goods,
        );
    }
    ledger.return_items.push(item);
    ledger.return_groups.push(
        ReturnRecord {
            return_group_id: group.clone(),
            mode: ReturnMode::Refund,
            returned_total: total,
            given_total: 0,
            diff: -total,
            diff_payment_method: None,
            created_at: now.at,
        },
    );
    proof {
        assert(ledger.return_groups@.drop_last() =~= old(ledger).return_groups@);
        assert(ledger.return_items@.drop_last() =~= old(ledger).return_items@);
    }
    Ok(CreateReturnResult { return_group_id: group, lines: 1, returned_total: total })
}

/// One line of the goods handed out in an exchange.
#[derive(Debug)]
pub struct GivenItem {
    pub barcode: String,
    /// Units handed out; a line without a positive quantity is passed over.
    pub qty: i64,
    /// Where the units are taken from.
    pub location: Location,
    pub unit_price: i64,
}

/// What a committed exchange reports.
#[derive(Debug)]
pub struct CreateExchangeResult {
    pub exchange_group_id: String,
    pub lines: i64,
    pub returned_total: i64,
    pub given_total: i64,
    pub diff: i64,
}

/// The movement that takes the units of one given line.
pub open spec fn debit_of(g: GivenItem) -> StockMove {
    StockMove { barcode: g.barcode, location: g.location, delta: (-g.qty) as i64, mirrored: true }
}

/// The movements of the given lines that hand out at least one unit.
pub open spec fn given_moves(given: Seq<GivenItem>) -> Seq<StockMove>
    decreases given.len(),
{
    if given.len() == 0 {
        Seq::empty()
    } else {
        let rest = given_moves(given.drop_last());
        if given.last().qty > 0 {
            rest.push(debit_of(given.last()))
        } else {
            rest
        }
    }
}

/// The movements of an exchange: the returned goods come in, then each given
/// line goes out.
pub open spec fn exchange_moves(goods: ReturnedGoods, given: Seq<GivenItem>) -> Seq<StockMove> {
    seq![credit_of(goods)] + given_moves(given)
}

/// The value handed out: the summed line totals of the given lines that hand
/// out at least one unit.
pub open spec fn given_total(given: Seq<GivenItem>) -> int
    decreases given.len(),
{
    if given.len() == 0 {
        0
    } else {
        given_total(given.drop_last()) + if given.last().qty > 0 {
            given.last().unit_price * given.last().qty
        } else {
            0
        }
    }
}

/// The exchange lines recorded for the given lines, numbered from `first_id`.
pub open spec fn given_lines(given: Seq<GivenItem>, group: Seq<char>, first_id: int) -> Seq<
    ExchangeItemView,
>
    decreases given.len(),
{
    if given.len() == 0 {
        Seq::empty()
    } else {
        let rest = given_lines(given.drop_last(), group, first_id);
        let g = given.last();
        if g.qty > 0 {
            rest.push(
                ExchangeItemView {
                    id: first_id + rest.len(),
                    exchange_group_id: group,
                    product_barcode: g.barcode@,
                    qty: g.qty as int,
                    unit_price: g.unit_price as int,
                    total: g.unit_price * g.qty,
                    sold_from: g.location,
                },
            )
        } else {
            rest
        }
    }
}

/// Why given line `i` stops the exchange, judged on its own against the
/// stock as it stands: its product is unknown or its location holds less than
/// the line hands out. A line without a positive quantity stops nothing.
pub open spec fn given_refusal(products: Seq<Product>, given: Seq<GivenItem>, i: int) -> Option<
    ErrorView,
> {
    let g = given[i];
    if g.qty <= 0 {
        None
    } else if !has_barcode(products, g.barcode@) {
        Some(ErrorView::ProductNotFound { barcode: g.barcode@ })
    } else {
        let p = products[position(products, g.barcode@)];
        if p.at(g.location) < g.qty {
            Some(
                ErrorView::InsufficientStock {
                    barcode: g.barcode@,
                    location: g.location,
                    available: p.at(g.location),
                    requested: g.qty as int,
                },
            )
        } else {
            None
        }
    }
}

/// No given line stops the exchange.
pub open spec fn given_accepted(products: Seq<Product>, given: Seq<GivenItem>) -> bool {
    forall|i: int| 0 <= i < given.len() ==> #[trigger] given_refusal(products, given, i) is None
}

/// Given line `i` is the first that stops the exchange, and `e` says why.
pub open spec fn first_given_refusal(
    products: Seq<Product>,
    given: Seq<GivenItem>,
    i: int,
    e: ErrorView,
) -> bool {
    &&& 0 <= i < given.len()
    &&& forall|j: int| 0 <= j < i ==> #[trigger] given_refusal(products, given, j) is None
    &&& given_refusal(products, given, i) == Some(e)
}

/// The price difference of an exchange: what is handed out minus what comes
/// back. A positive difference is owed by the customer.
pub open spec fn exchange_diff(goods: ReturnedGoods, given: Seq<GivenItem>) -> int {
    given_total(given) - goods.unit_price * goods.qty
}

/// Every amount and identifier of the exchange fits in 64 bits.
pub open spec fn exchange_in_range(
    goods: ReturnedGoods,
    given: Seq<GivenItem>,
    next_exchange_item_id: int,
) -> bool {
    &&& i64::MIN <= goods.unit_price * goods.qty <= i64::MAX
    &&& forall|i: int|
        0 <= i < given.len() && (#[trigger] given[i]).qty > 0 ==> i64::MIN <= given[i].unit_price
            * given[i].qty <= i64::MAX
    &&& i64::MIN <= given_total(given) <= i64::MAX
    &&& i64::MIN <= exchange_diff(goods, given) <= i64::MAX
    &&& next_exchange_item_id + given_moves(given).len() <= i64::MAX
    &&& given_moves(given).len() <= i64::MAX
}

/// A payment method that can settle the difference of an exchange.
pub open spec fn settles(method: Option<PaymentMethod>) -> bool {
    method == Some(PaymentMethod::Card) || method == Some(PaymentMethod::Cash)
}

/// The payment method recorded with an exchange: the one given where the
/// customer owes a difference, none otherwise.
pub open spec fn recorded_method(diff: int, method: Option<PaymentMethod>) -> Option<
    PaymentMethod,
> {
    if diff > 0 {
        method
    } else {
        None
    }
}

/// What a committed exchange leaves behind.
pub open spec fn exchange_committed(
    pre: &Ledger,
    post: &Ledger,
    goods: &ReturnedGoods,
    given: Seq<GivenItem>,
    method: Option<PaymentMethod>,
    now: &Moment,
    res: &CreateExchangeResult,
) -> bool {
    let moves = exchange_moves(*goods, given);
    let group = exchange_group_id(now.millis);
    let back = goods.unit_price * goods.qty;
    let diff = exchange_diff(*goods, given);
    let n = given_moves(given).len() as int;
    let before = pre.exchange_items@.len() as int;
    &&& goods.qty > 0
    &&& given.len() > 0
    &&& given_accepted(pre.products@, given)
    &&& refund_block(pre.sales@, pre.return_items@, *goods) is None
    &&& exchange_in_range(*goods, given, pre.next_exchange_item_id as int)
    &&& diff > 0 ==> settles(method)
    &&& all_accepted(pre.products@, moves)
    &&& counters_in_range(pre.products@, moves)
    &&& res.exchange_group_id@ == group
    &&& res.lines == n
    &&& res.returned_total == back
    &&& res.given_total == given_total(given)
    &&& res.diff == diff
    &&& post.products@ == moved_all(pre.products@, moves)
    &&& post.return_groups@.len() == pre.return_groups@.len() + 1
    &&& post.return_groups@.drop_last() == pre.return_groups@
    &&& post.return_groups@.last()@ == (ReturnRecordView {
        return_group_id: group,
        mode: ReturnMode::Exchange,
        returned_total: back,
        given_total: given_total(given),
        diff,
        diff_payment_method: recorded_method(diff, method),
        created_at: now.at,
    })
    &&& post.return_items@.len() == pre.return_items@.len() + 1
    &&& post.return_items@.drop_last() == pre.return_items@
    &&& post.return_items@.last()@ == return_line(*goods, group, matched_sale_id(pre.sales@, *goods))
    &&& post.exchange_items@.len() == before + n
    &&& post.exchange_items@.take(before) == pre.exchange_items@
    &&& forall|i: int|
        0 <= i < n ==> (#[trigger] post.exchange_items@[before + i])@ == given_lines(
            given,
            group,
            pre.next_exchange_item_id as int,
        )[i]
    &&& post.next_exchange_item_id == pre.next_exchange_item_id + n
    &&& post.same_sales(pre)
    &&& post.same_transfers(pre)
    &&& post.same_expenses(pre)
}

/// The error of the refund accounting as an exchange reports it.
pub open spec fn said_of_exchange(e: ErrorView) -> ErrorView {
    match e {
        ErrorView::FullyRefunded { sold, refunded, .. } => ErrorView::FullyRefunded {
            sold,
            refunded,
            exchange: true,
        },
        ErrorView::RefundExceedsRemaining {
            sold,
            refunded,
            remaining,
            ..
        } => ErrorView::RefundExceedsRemaining { sold, refunded, remaining, exchange: true },
        other => other,
    }
}

/// The error of the refund accounting as an exchange reports it.
fn say_of_exchange(e: LedgerError) -> (r: LedgerError)
    ensures
        r@ == said_of_exchange(e@),
{
    match e {
        LedgerError::FullyRefunded { sold, refunded, .. } => LedgerError::FullyRefunded {
            sold,
            refunded,
            exchange: true,
        },
        LedgerError::RefundExceedsRemaining {
            sold,
            refunded,
            remaining,
            ..
        } => LedgerError::RefundExceedsRemaining { sold, refunded, remaining, exchange: true },
        other => other,
    }
}

/// Why an exchange is refused. The checks are made in this order: the
/// returned quantity; the given basket; each given line against the stock;
/// the refund accounting; the ranges of the amounts; the payment method for a
/// positive difference; and last the stock movements themselves.
pub open spec fn exchange_refused(
    pre: &Ledger,
    goods: &ReturnedGoods,
    given: Seq<GivenItem>,
    method: Option<PaymentMethod>,
    e: ErrorView,
) -> bool {
    if goods.qty <= 0 {
        e == ErrorView::QuantityNotPositive
    } else if given.len() == 0 {
        e == ErrorView::NothingGiven
    } else if !given_accepted(pre.products@, given) {
        exists|i: int| first_given_refusal(pre.products@, given, i, e)
    } else if refund_block(pre.sales@, pre.return_items@, *goods) is Some {
        e == said_of_exchange(refund_block(pre.sales@, pre.return_items@, *goods)->Some_0)
    } else if !exchange_in_range(*goods, given, pre.next_exchange_item_id as int) {
        e == ErrorView::OutOfRange
    } else if exchange_diff(*goods, given) > 0 && !settles(method) {
        e == ErrorView::PaymentMethodRejected
    } else {
        exists|k: int| first_refusal(pre.products@, exchange_moves(*goods, given), k, e)
    }
}

/// One more given line adds its movement, its value and its exchange line
/// where it hands out at least one unit, and nothing otherwise.
pub proof fn lemma_given_step(given: Seq<GivenItem>, k: int, group: Seq<char>, first_id: int)
    requires
        0 <= k < given.len(),
    ensures
        given_moves(given.take(k + 1)) == if given[k].qty > 0 {
            given_moves(given.take(k)).push(debit_of(given[k]))
        } else {
            given_moves(given.take(k))
        },
        given_total(given.take(k + 1)) == given_total(given.take(k)) + if given[k].qty > 0 {
            given[k].unit_price * given[k].qty
        } else {
            0
        },
        given_lines(given.take(k + 1), group, first_id) == if given[k].qty > 0 {
            given_lines(given.take(k), group, first_id).push(
                ExchangeItemView {
                    id: first_id + given_lines(given.take(k), group, first_id).len(),
                    exchange_group_id: group,
                    product_barcode: given[k].barcode@,
                    qty: given[k].qty as int,
                    unit_price: given[k].unit_price as int,
                    total: given[k].unit_price * given[k].qty,
                    sold_from: given[k].location,
                },
            )
        } else {
            given_lines(given.take(k), group, first_id)
        },
        given_lines(given.take(k), group, first_id).len() == given_moves(given.take(k)).len(),
        given_moves(given.take(k)).len() <= k,
{
    let t = given.take(k + 1);
    assert(t.drop_last() =~= given.take(k));
    assert(t.last() == given[k]);
    lemma_given_lengths(given.take(k), group, first_id);
}

/// The given lines yield as many exchange lines as movements, and no more
/// than there are lines.
pub proof fn lemma_given_lengths(given: Seq<GivenItem>, group: Seq<char>, first_id: int)
    ensures
        given_lines(given, group, first_id).len() == given_moves(given).len(),
        given_moves(given).len() <= given.len(),
    decreases given.len(),
{
    if given.len() > 0 {
        lemma_given_lengths(given.drop_last(), group, first_id);
    }
}

/// Judges one given line against the stock as it stands.
fn check_given(products: &Vec<Product>, given: &Vec<GivenItem>, i: usize) -> (r: Option<
    LedgerError,
>)
    requires
        i < given.len(),
        crate::stock::unique_barcodes(products@),
    ensures
        match r {
            Some(e) => given_refusal(products@, given@, i as int) == Some(e@),
            None => given_refusal(products@, given@, i as int) is None,
        },
{
    let g = &given[i];
    if g.qty <= 0 {
        return None;
    }
    match find_product(products, &g.barcode) {
        None => Some(LedgerError::ProductNotFound { barcode: g.barcode.clone() }),
        Some(idx) => {
            let have = products[idx].count_at(g.location);
            if have < g.qty {
                Some(
                    LedgerError::InsufficientStock {
                        barcode: g.barcode.clone(),
                        location: g.location,
                        available: have,
                        requested: g.qty,
                    },
                )
            } else {
                None
            }
        },
    }
}

/// The value handed out, where every line total and the sum fit in 64 bits.
fn given_amount(given: &Vec<GivenItem>) -> (r: Option<i64>)
    ensures
        match r {
            Some(t) => t == given_total(given@) && forall|i: int|
                0 <= i < given.len() && (#[trigger] given@[i]).qty > 0 ==> i64::MIN
                    <= given@[i].unit_price * given@[i].qty <= i64::MAX,
            None => !(forall|i: int|
                0 <= i < given.len() && (#[trigger] given@[i]).qty > 0 ==> i64::MIN
                    <= given@[i].unit_price * given@[i].qty <= i64::MAX) || !(i64::MIN
                <= given_total(given@) <= i64::MAX),
        },
{
    let mut acc: i128 = 0;
    let mut t: usize = 0;
    assert(given@.take(0) =~= Seq::<GivenItem>::empty());
    while t < given.len()
        invariant
            t <= given.len(),
            acc == given_total(given@.take(t as int)),
            -t * 0x8000_0000_0000_0000 <= acc <= t * 0x8000_0000_0000_0000,
            forall|i: int|
                0 <= i < t && (#[trigger] given@[i]).qty > 0 ==> i64::MIN <= given@[i].unit_price
                    * given@[i].qty <= i64::MAX,
        decreases given.len() - t,
    {
        proof {
            lemma_given_step(given@, t as int, Seq::empty(), 0);
        }
        if given[t].qty > 0 {
            match priced(given[t].unit_price, given[t].qty) {
                None => {
                    return None;
                },
                Some(lt) => {
                    acc = acc + lt as i128;
                },
            }
        }
        t += 1;
    }
    assert(given@.take(given.len() as int) =~= given@);
    if acc < i64::MIN as i128 || acc > i64::MAX as i128 {
        None
    } else {
        Some(acc as i64)
    }
}

/// Counts the given lines that hand out at least one unit.
fn count_given(given: &Vec<GivenItem>) -> (n: usize)
    ensures
        n == given_moves(given@).len(),
{
    let mut n: usize = 0;
    let mut t: usize = 0;
    assert(given@.take(0) =~= Seq::<GivenItem>::empty());
    while t < given.len()
        invariant
            t <= given.len(),
            n == given_moves(given@.take(t as int)).len(),
            n <= t,
        decreases given.len() - t,
    {
        proof {
            lemma_given_step(given@, t as int, Seq::empty(), 0);
        }
        if given[t].qty > 0 {
            n += 1;
        }
        t += 1;
    }
    assert(given@.take(given.len() as int) =~= given@);
    n
}

/// Builds the movements and the exchange lines of the given lines.
fn build_given(given: &Vec<GivenItem>, goods: &ReturnedGoods, group: &String, first_id: i64) -> (r:
    (Vec<StockMove>, Vec<ExchangeItem>))
    requires
        exchange_in_range(*goods, given@, first_id as int),
    ensures
        r.0@ == exchange_moves(*goods, given@),
        r.1@.len() == given_moves(given@).len(),
        forall|i: int|
            0 <= i < r.1@.len() ==> (#[trigger] r.1@[i])@ == given_lines(
                given@,
                group@,
                first_id as int,
            )[i],
{
    let mut moves: Vec<StockMove> = Vec::new();
    moves.push(
        StockMove {
            barcode: goods.barcode.clone(),
            location: goods.return_to,
            delta: goods.qty,
            mirrored: true,
        },
    );
    let mut lines: Vec<ExchangeItem> = Vec::new();
    let mut t: usize = 0;
    proof {
        assert(given@.take(0) =~= Seq::<GivenItem>::empty());
        assert(moves@ =~= seq![credit_of(*goods)] + given_moves(given@.take(0)));
        lemma_given_lengths(given@, group@, first_id as int);
    }
    while t < given.len()
        invariant
            t <= given.len(),
            exchange_in_range(*goods, given@, first_id as int),
            given_moves(given@).len() <= given.len(),
            moves@ == seq![credit_of(*goods)] + given_moves(given@.take(t as int)),
            lines@.len() == given_moves(given@.take(t as int)).len(),
            lines@.len() <= given_moves(given@).len(),
            forall|i: int|
                0 <= i < lines@.len() ==> (#[trigger] lines@[i])@ == given_lines(
                    given@.take(t as int),
                    group@,
                    first_id as int,
                )[i],
        decreases given.len() - t,
    {
        proof {
            lemma_given_step(given@, t as int, group@, first_id as int);
            lemma_given_suffix(given@, t as int + 1);
        }
        let g = &given[t];
        if g.qty > 0 {
            let total = match priced(g.unit_price, g.qty) {
                Some(v) => v,
                None => 0,
            };
            moves.push(
                StockMove {
                    barcode: g.barcode.clone(),
                    location: g.location,
                    delta: -g.qty,
                    mirrored: true,
                },
            );
            lines.push(
                ExchangeItem {
                    id: first_id + lines.len() as i64,
                    exchange_group_id: group.clone(),
                    product_barcode: g.barcode.clone(),
                    qty: g.qty,
                    unit_price: g.unit_price,
                    total,
                    sold_from: g.location,
                },
            );
            assert(moves@ =~= seq![credit_of(*goods)] + given_moves(given@.take(t as int + 1)));
        }
        t += 1;
    }
    assert(given@.take(given.len() as int) =~= given@);
    (moves, lines)
}

/// A prefix of the given lines yields no more movements than the whole.
pub proof fn lemma_given_suffix(given: Seq<GivenItem>, k: int)
    requires
        0 <= k <= given.len(),
    ensures
        given_moves(given.take(k)).len() <= given_moves(given).len(),
    decreases given.len() - k,
{
    if k == given.len() {
        assert(given.take(k) =~= given);
    } else {
        lemma_given_suffix(given, k + 1);
        lemma_given_step(given, k, Seq::empty(), 0);
    }
}

/// Swaps returned goods for other goods.
///
/// Every given line that hands out at least one unit is checked against the
/// stock, and the returned goods against the sale line they are matched to.
/// Then the returned units come in, each given line goes out, and one return
/// group in exchange mode is recorded with one return line and one exchange
/// line per given line. Where the customer owes a difference, `method` must
/// be card or cash and is recorded; otherwise no method is recorded.
pub fn exchange(
    ledger: &mut Ledger,
    goods: &ReturnedGoods,
    given: &Vec<GivenItem>,
    method: Option<PaymentMethod>,
    now: &Moment,
) -> (r: Result<CreateExchangeResult, LedgerError>)
    requires
        old(ledger).wf(),
    ensures
        final(ledger).wf(),
        match r {
            Ok(res) => exchange_committed(
                old(ledger),
                final(ledger),
                goods,
                given@,
                method,
                now,
                &res,
            ),
            Err(e) => *final(ledger) == *old(ledger) && exchange_refused(
                old(ledger),
                goods,
                given@,
                method,
                e@,
            ),
        },
{
    if goods.qty <= 0 {
        return Err(LedgerError::QuantityNotPositive);
    }
    if given.len() == 0 {
        return Err(LedgerError::NothingGiven);
    }
    let mut i: usize = 0;
    while i < given.len()
        invariant
            i <= given.len(),
            goods.qty > 0,
            *ledger == *old(ledger),
            ledger.wf(),
            forall|j: int|
                0 <= j < i ==> #[trigger] given_refusal(ledger.products@, given@, j) is None,
        decreases given.len() - i,
    {
        match check_given(&ledger.products, given, i) {
            Some(e) => {
                assert(first_given_refusal(ledger.products@, given@, i as int, e@));
                return Err(e);
            },
            None => {},
        }
        i += 1;
    }
    assert(given_accepted(ledger.products@, given@));
    let ref_sale_id = match check_refund(ledger, goods) {
        Ok(id) => id,
        Err(e) => {
            return Err(say_of_exchange(e));
        },
    };
    let back = match priced(goods.unit_price, goods.qty) {
        Some(t) => t,
        None => {
            return Err(LedgerError::OutOfRange);
        },
    };
    let out = match given_amount(given) {
        Some(t) => t,
        None => {
            return Err(LedgerError::OutOfRange);
        },
    };
    let wide: i128 = out as i128 - back as i128;
    if wide < i64::MIN as i128 || wide > i64::MAX as i128 {
        return Err(LedgerError::OutOfRange);
    }
    let diff = wide as i64;
    let n = count_given(given);
    if n as u64 > i64::MAX as u64 {
        return Err(LedgerError::OutOfRange);
    }
    let count = n as i64;
    if ledger.next_exchange_item_id > i64::MAX - count {
        return Err(LedgerError::OutOfRange);
    }
    assert(exchange_in_range(*goods, given@, ledger.next_exchange_item_id as int));
    let recorded: Option<PaymentMethod> = if diff > 0 {
        match method {
            Some(PaymentMethod::Card) => Some(PaymentMethod::Card),
            Some(PaymentMethod::Cash) => Some(PaymentMethod::Cash),
            _ => {
                return Err(LedgerError::PaymentMethodRejected);
            },
        }
    } else {
        None
    };
    let group = gen_group_id("E", now.millis);
    proof {
        reveal_strlit("E");
        assert(group@ =~= exchange_group_id(now.millis));
    }
    let first_id = ledger.next_exchange_item_id;
    let (moves, mut lines) = build_given(given, goods, &group, first_id);
    match apply_moves(&mut ledger.products, &moves) {
        Err(e) => {
            return Err(e);
        },
        Ok(()) => {},
    }
    let item = ReturnItem {
        return_group_id: group.clone(),
        product_barcode: goods.barcode.clone(),
        qty: goods.qty,
        unit_price: goods.unit_price,
        total: back,
        return_to: goods.return_to,
        ref_sale_id,
        ref_sold_at: goods.sold_at,
        ref_sold_from: goods.sold_from.clone(),
    };
    proof {
        lemma_refund_keeps_bound(
            ledger.sales@,
            ledger.next_sale_id as int,
            ledger.return_items@,
            item,
            *goods,
        );
    }
    let ghost fresh = lines@;
    ledger.return_items.push(item);
    ledger.exchange_items.append(&mut lines);
    ledger.next_exchange_item_id = first_id + count;
    ledger.return_groups.push(
        ReturnRecord {
            return_group_id: group.clone(),
            mode: ReturnMode::Exchange,
            returned_total: back,
            given_total: out,
            diff,
            diff_payment_method: recorded,
            created_at: now.at,
        },
    );
    proof {
        let before = old(ledger).exchange_items@.len() as int;
        assert(ledger.return_groups@.drop_last() =~= old(ledger).return_groups@);
        assert(ledger.return_items@.drop_last() =~= old(ledger).return_items@);
        assert(ledger.exchange_items@.take(before) =~= old(ledger).exchange_items@);
        lemma_given_lengths(given@, group@, first_id as int);
        assert forall|a: int| 0 <= a < n implies (#[trigger] ledger.exchange_items@[before + a])@
            == given_lines(given@, group@, first_id as int)[a] by {
            assert(ledger.exchange_items@[before + a] == fresh[a]);
        }
    }
    let res = CreateExchangeResult {
        exchange_group_id: group,
        lines: count,
        returned_total: back,
        given_total: out,
        diff,
    };
    Ok(res)
}

/// Returned goods as the caller sends them.
#[derive(Debug)]
pub struct CreateReturnPayload {
    pub barcode: String,
    pub qty: i64,
    /// The code of the location the units re-enter.
    pub return_to: String,
    /// When the goods were sold, as `YYYY-MM-DD HH:MM:SS`.
    pub sold_at: Option<String>,
    pub sold_from: Option<String>,
    pub unit_price: i64,
}

/// The returned goods of an exchange as the caller sends them.
#[derive(Debug)]
pub struct CreateExchangeReturnedPayload {
    pub barcode: String,
    pub qty: i64,
    pub return_to: String,
    pub sold_at: Option<String>,
    pub sold_from: Option<String>,
    pub unit_price: i64,
}

/// One given line of an exchange as the caller sends it.
#[derive(Debug)]
pub struct CreateExchangeGivenItemPayload {
    pub barcode: String,
    pub qty: i64,
    /// The code of the location the units are taken from.
    pub sold_from: String,
    pub unit_price: i64,
}

/// How the difference of an exchange is settled, as the caller sends it.
#[derive(Debug)]
pub struct CreateExchangeSummaryPayload {
    pub diff_payment_method: Option<String>,
}

/// An exchange as the caller sends it.
#[derive(Debug)]
pub struct CreateExchangePayload {
    pub returned: CreateExchangeReturnedPayload,
    pub given: Vec<CreateExchangeGivenItemPayload>,
    pub summary: CreateExchangeSummaryPayload,
}

/// The sale time that an optional text spells; none for a missing text and
/// for one that spells no timestamp.
pub open spec fn sale_time_of(text: Option<String>) -> Option<Timestamp> {
    match text {
        Some(s) => timestamp_spelled(s@),
        None => None,
    }
}

/// The returned goods that a payload stands for.
pub open spec fn goods_of(payload: &CreateReturnPayload) -> ReturnedGoods {
    ReturnedGoods {
        barcode: payload.barcode,
        qty: payload.qty,
        return_to: location_of(payload.return_to@),
        sold_at: sale_time_of(payload.sold_at),
        sold_from: payload.sold_from,
        unit_price: payload.unit_price,
    }
}

/// The returned goods that the payload of an exchange stands for.
pub open spec fn exchanged_goods_of(payload: &CreateExchangeReturnedPayload) -> ReturnedGoods {
    ReturnedGoods {
        barcode: payload.barcode,
        qty: payload.qty,
        return_to: location_of(payload.return_to@),
        sold_at: sale_time_of(payload.sold_at),
        sold_from: payload.sold_from,
        unit_price: payload.unit_price,
    }
}

/// The given lines that the payload of an exchange stands for.
pub open spec fn given_of(given: Seq<CreateExchangeGivenItemPayload>) -> Seq<GivenItem> {
    Seq::new(
        given.len(),
        |i: int|
            GivenItem {
                barcode: given[i].barcode,
                qty: given[i].qty,
                location: location_of(given[i].sold_from@),
                unit_price: given[i].unit_price,
            },
    )
}

/// Reads an optional sale time.
fn read_sale_time(text: &Option<String>) -> (r: Option<Timestamp>)
    ensures
        r == sale_time_of(*text),
{
    match text {
        Some(s) => parse_timestamp(s.as_str()),
        None => None,
    }
}

/// The text of an optional code.
pub open spec fn code_of(code: Option<String>) -> Option<Seq<char>> {
    match code {
        Some(c) => Some(c@),
        None => None,
    }
}

/// Refunds returned goods as the caller sends them: resolves the location
/// from its code and reads the sale time, then refunds the goods.
pub fn create_return(ledger: &mut Ledger, payload: CreateReturnPayload, now: &Moment) -> (r:
    Result<CreateReturnResult, LedgerError>)
    requires
        old(ledger).wf(),
    ensures
        final(ledger).wf(),
        match r {
            Ok(res) => refund_committed(old(ledger), final(ledger), &goods_of(&payload), now, &res),
            Err(e) => *final(ledger) == *old(ledger) && refund_refused(
                old(ledger),
                &goods_of(&payload),
                e@,
            ),
        },
{
    let goods = ReturnedGoods {
        barcode: payload.barcode.clone(),
        qty: payload.qty,
        return_to: Location::parse(payload.return_to.as_str()),
        sold_at: read_sale_time(&payload.sold_at),
        sold_from: payload.sold_from.clone(),
        unit_price: payload.unit_price,
    };
    assert(goods == goods_of(&payload));
    refund(ledger, &goods, now)
}

/// Swaps goods as the caller sends them: resolves the locations and the
/// payment method from their codes and reads the sale time, then makes the
/// exchange.
pub fn create_exchange(ledger: &mut Ledger, payload: CreateExchangePayload, now: &Moment) -> (r:
    Result<CreateExchangeResult, LedgerError>)
    requires
        old(ledger).wf(),
    ensures
        final(ledger).wf(),
        match r {
            Ok(res) => exchange_committed(
                old(ledger),
                final(ledger),
                &exchanged_goods_of(&payload.returned),
                given_of(payload.given@),
                diff_method_of(code_of(payload.summary.diff_payment_method)),
                now,
                &res,
            ),
            Err(e) => *final(ledger) == *old(ledger) && exchange_refused(
                old(ledger),
                &exchanged_goods_of(&payload.returned),
                given_of(payload.given@),
                diff_method_of(code_of(payload.summary.diff_payment_method)),
                e@,
            ),
        },
{
    let goods = ReturnedGoods {
        barcode: payload.returned.barcode.clone(),
        qty: payload.returned.qty,
        return_to: Location::parse(payload.returned.return_to.as_str()),
        sold_at: read_sale_time(&payload.returned.sold_at),
        sold_from: payload.returned.sold_from.clone(),
        unit_price: payload.returned.unit_price,
    };
    assert(goods == exchanged_goods_of(&payload.returned));
    let method = PaymentMethod::parse_for_diff(&payload.summary.diff_payment_method);
    let mut given: Vec<GivenItem> = Vec::new();
    let mut t: usize = 0;
    while t < payload.given.len()
        invariant
            t <= payload.given.len(),
            given@.len() == t,
            forall|i: int| 0 <= i < t ==> #[trigger] given@[i] == given_of(payload.given@)[i],
        decreases payload.given.len() - t,
    {
        let g = &payload.given[t];
        given.push(
            GivenItem {
                barcode: g.barcode.clone(),
                qty: g.qty,
                location: Location::parse(g.sold_from.as_str()),
                unit_price: g.unit_price,
            },
        );
        t += 1;
    }
    assert(given@ =~= given_of(payload.given@));
    exchange(ledger, &goods, &given, method, now)
}

/// The return groups among the first `n` that do not carry the identifier.
pub open spec fn groups_without(groups: Seq<ReturnRecord>, group: Seq<char>, n: nat) -> Seq<
    ReturnRecord,
>
    decreases n,
{
    if n == 0 {
        Seq::empty()
    } else {
        let rest = groups_without(groups, group, (n - 1) as nat);
        if groups[n - 1].return_group_id@ == group {
            rest
        } else {
            rest.push(groups[n - 1])
        }
    }
}

/// The return lines among the first `n` that do not belong to the group.
pub open spec fn return_lines_without(items: Seq<ReturnItem>, group: Seq<char>, n: nat) -> Seq<
    ReturnItem,
>
    decreases n,
{
    if n == 0 {
        Seq::empty()
    } else {
        let rest = return_lines_without(items, group, (n - 1) as nat);
        if items[n - 1].return_group_id@ == group {
            rest
        } else {
            rest.push(items[n - 1])
        }
    }
}

/// The exchange lines among the first `n` that do not belong to the group.
pub open spec fn exchange_lines_without(items: Seq<ExchangeItem>, group: Seq<char>, n: nat) -> Seq<
    ExchangeItem,
>
    decreases n,
{
    if n == 0 {
        Seq::empty()
    } else {
        let rest = exchange_lines_without(items, group, (n - 1) as nat);
        if items[n - 1].exchange_group_id@ == group {
            rest
        } else {
            rest.push(items[n - 1])
        }
    }
}

/// Some return group carries the identifier.
pub open spec fn has_return_group(groups: Seq<ReturnRecord>, group: Seq<char>) -> bool {
    exists|i: int| 0 <= i < groups.len() && (#[trigger] groups[i]).return_group_id@ == group
}

/// Taking return lines away leaves the remaining lines sound and takes
/// nothing from what a sale line can still give back.
pub proof fn lemma_lines_removed(items: Seq<ReturnItem>, group: Seq<char>, n: nat, sale_id: int)
    requires
        n <= items.len(),
        returns_positive(items),
    ensures
        returns_positive(return_lines_without(items, group, n)),
        refunded(return_lines_without(items, group, n), sale_id) <= refunded(
            items.take(n as int),
            sale_id,
        ),
        forall|i: int|
            0 <= i < return_lines_without(items, group, n).len() ==> exists|j: int|
                0 <= j < n && items[j] == #[trigger] return_lines_without(items, group, n)[i],
    decreases n,
{
    let kept = return_lines_without(items, group, n);
    if n == 0 {
        assert(items.take(0) =~= Seq::<ReturnItem>::empty());
    } else {
        lemma_lines_removed(items, group, (n - 1) as nat, sale_id);
        let rest = return_lines_without(items, group, (n - 1) as nat);
        crate::ledger::lemma_refunded_step(items, n - 1, sale_id);
        if items[n - 1].return_group_id@ != group {
            lemma_refunded_push(rest, items[n - 1], sale_id);
        }
        assert forall|i: int| 0 <= i < kept.len() implies exists|j: int|
            0 <= j < n && items[j] == #[trigger] kept[i] by {
            if i < rest.len() {
                let j = choose|j: int| 0 <= j < n - 1 && items[j] == rest[i];
                assert(items[j] == kept[i]);
            } else {
                assert(items[n - 1] == kept[i]);
            }
        }
        assert forall|i: int| 0 <= i < kept.len() implies (#[trigger] kept[i]).qty > 0 by {
            let j = choose|j: int| 0 <= j < n && items[j] == kept[i];
            assert(items[j].qty > 0);
        }
    }
}

/// What the removal of a return group leaves behind: the return groups with
/// the identifier are gone, and with them their return lines and their
/// exchange lines. The stock is not touched.
pub open spec fn return_group_deleted(pre: &Ledger, post: &Ledger, group: Seq<char>) -> bool {
    &&& has_return_group(pre.return_groups@, group)
    &&& post.return_groups@ == groups_without(
        pre.return_groups@,
        group,
        pre.return_groups@.len(),
    )
    &&& post.return_items@ == return_lines_without(
        pre.return_items@,
        group,
        pre.return_items@.len(),
    )
    &&& post.exchange_items@ == exchange_lines_without(
        pre.exchange_items@,
        group,
        pre.exchange_items@.len(),
    )
    &&& post.next_exchange_item_id == pre.next_exchange_item_id
    &&& post.products == pre.products
    &&& post.same_sales(pre)
    &&& post.same_transfers(pre)
    &&& post.same_expenses(pre)
}

/// Removes a return group together with its return lines and its exchange
/// lines. Reports the number of return groups removed.
pub fn delete_return_group(ledger: &mut Ledger, group: &String) -> (r: Result<usize, LedgerError>)
    requires
        old(ledger).wf(),
    ensures
        final(ledger).wf(),
        match r {
            Ok(n) => return_group_deleted(old(ledger), final(ledger), group@) && n == old(
                ledger,
            ).return_groups@.len() - final(ledger).return_groups@.len(),
            Err(e) => *final(ledger) == *old(ledger) && e@ == ErrorView::ReturnGroupNotFound
                && !has_return_group(old(ledger).return_groups@, group@),
        },
{
    let mut groups: Vec<ReturnRecord> = Vec::new();
    let mut i: usize = 0;
    while i < ledger.return_groups.len()
        invariant
            i <= ledger.return_groups.len(),
            *ledger == *old(ledger),
            groups@ == groups_without(ledger.return_groups@, group@, i as nat),
            groups@.len() <= i,
            groups@.len() == i <==> forall|j: int|
                0 <= j < i ==> (#[trigger] ledger.return_groups@[j]).return_group_id@ != group@,
        decreases ledger.return_groups.len() - i,
    {
        if ledger.return_groups[i].return_group_id == *group {
        } else {
            groups.push(ledger.return_groups[i].duplicate());
        }
        i += 1;
    }
    if groups.len() == ledger.return_groups.len() {
        return Err(LedgerError::ReturnGroupNotFound);
    }
    let removed = ledger.return_groups.len() - groups.len();
    let mut lines: Vec<ReturnItem> = Vec::new();
    let mut i: usize = 0;
    while i < ledger.return_items.len()
        invariant
            i <= ledger.return_items.len(),
            *ledger == *old(ledger),
            lines@ == return_lines_without(ledger.return_items@, group@, i as nat),
        decreases ledger.return_items.len() - i,
    {
        if ledger.return_items[i].return_group_id == *group {
        } else {
            lines.push(ledger.return_items[i].duplicate());
        }
        i += 1;
    }
    let mut given: Vec<ExchangeItem> = Vec::new();
    let mut i: usize = 0;
    while i < ledger.exchange_items.len()
        invariant
            i <= ledger.exchange_items.len(),
            *ledger == *old(ledger),
            given@ == exchange_lines_without(ledger.exchange_items@, group@, i as nat),
        decreases ledger.exchange_items.len() - i,
    {
        if ledger.exchange_items[i].exchange_group_id == *group {
        } else {
            given.push(ledger.exchange_items[i].duplicate());
        }
        i += 1;
    }
    proof {
        let items = ledger.return_items@;
        let n = items.len();
        assert(items.take(n as int) =~= items);
        lemma_lines_removed(items, group@, n, 0);
        assert(refs_issued(lines@, ledger.next_sale_id as int)) by {
            assert forall|a: int| 0 <= a < lines@.len() && (#[trigger] lines@[a]).ref_sale_id
                is Some implies lines@[a].ref_sale_id->Some_0 < ledger.next_sale_id by {
                let j = choose|j: int| 0 <= j < n && items[j] == lines@[a];
                assert(items[j].ref_sale_id is Some);
            }
        }
        assert(refunds_bounded(ledger.sales@, lines@)) by {
            assert forall|a: int| 0 <= a < ledger.sales@.len() implies refunded(
                lines@,
                (#[trigger] ledger.sales@[a]).id as int,
            ) <= ledger.sales@[a].qty by {
                lemma_lines_removed(items, group@, n, ledger.sales@[a].id as int);
            }
        }
    }
    ledger.return_groups = groups;
    ledger.return_items = lines;
    ledger.exchange_items = given;
    Ok(removed)
}

} // verus!
