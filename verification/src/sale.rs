//! The sale processor: committing a basket as one receipt, and undoing the
//! most recent receipt.

use crate::clock::{Moment, Timestamp};
use crate::error::{ErrorView, LedgerError};
use crate::kinds::{location_resolved, sale_method_of, Location, PaymentMethod};
use crate::ledger::{
    lemma_lines_stay_sound, sales_sound, text_of, lemma_refunded_none, refunded, refunds_bounded, sale_ids_ordered, Ledger,
    SaleRecord, SaleRecordView,
};
use crate::stock::{
    all_accepted, apply_moves, lemma_barcode_kept, counters_in_range, find_product, first_refusal, has_barcode, lemma_net_step, lemma_takes_monotone, lemma_takes_nonpositive, moved_all, net, net_mirror, only_takes,
    position, refusal, unique_barcodes, Product, StockMove,
};
use crate::text::{decimal, gen_group_id};
use vstd::prelude::*;

verus! {

/// One line of a basket, its location already resolved.
#[derive(Debug)]
pub struct SaleItem {
    pub barcode: String,
    /// Units asked for; anything below one counts as one.
    pub qty: i64,
    pub list_price: i64,
    pub discount_amount: i64,
    pub unit_price: i64,
    pub location: Location,
}

/// What a committed sale reports.
#[derive(Debug)]
pub struct CreateSaleResult {
    pub sale_group_id: String,
    pub total: i64,
    pub lines: i64,
}

/// The units a line sells: its quantity, or one where that is not positive.
pub open spec fn units(qty: int) -> int {
    if qty <= 0 {
        1
    } else {
        qty
    }
}

/// The units that the basket asks of one location of one product.
pub open spec fn requested(items: Seq<SaleItem>, barcode: Seq<char>, loc: Location) -> int
    decreases items.len(),
{
    if items.len() == 0 {
        0
    } else {
        let it = items.last();
        requested(items.drop_last(), barcode, loc) + if it.barcode@ == barcode && it.location
            == loc {
            units(it.qty as int)
        } else {
            0
        }
    }
}

/// The units that the basket asks of one product, both locations together.
pub open spec fn requested_anywhere(items: Seq<SaleItem>, barcode: Seq<char>) -> int
    decreases items.len(),
{
    if items.len() == 0 {
        0
    } else {
        let it = items.last();
        requested_anywhere(items.drop_last(), barcode) + if it.barcode@ == barcode {
            units(it.qty as int)
        } else {
            0
        }
    }
}

/// The price of one line: unit price times units.
pub open spec fn line_total(it: SaleItem) -> int {
    it.unit_price * units(it.qty as int)
}

/// The price of the basket: the sum of its line totals.
pub open spec fn basket_total(items: Seq<SaleItem>) -> int
    decreases items.len(),
{
    if items.len() == 0 {
        0
    } else {
        basket_total(items.drop_last()) + line_total(items.last())
    }
}

/// The stock movements of a basket: each line takes its units from its
/// location, and the mirror counter follows.
pub open spec fn sale_moves(items: Seq<SaleItem>) -> Seq<StockMove> {
    Seq::new(
        items.len(),
        |i: int|
            StockMove {
                barcode: items[i].barcode,
                location: items[i].location,
                delta: (-units(items[i].qty as int)) as i64,
                mirrored: true,
            },
    )
}

/// A number reported in an error, capped at the largest `i64`.
pub open spec fn capped(n: int) -> int {
    if n > i64::MAX {
        i64::MAX as int
    } else {
        n
    }
}

/// Why line `i` stops the sale, judged against the whole basket: its product
/// is unknown, or its location holds less than the basket asks of it in
/// total, or the mirror counter would leave the 64-bit range.
pub open spec fn line_refusal(products: Seq<Product>, items: Seq<SaleItem>, i: int) -> Option<
    ErrorView,
> {
    let it = items[i];
    if !has_barcode(products, it.barcode@) {
        Some(ErrorView::ProductNotFound { barcode: it.barcode@ })
    } else {
        let p = products[position(products, it.barcode@)];
        let want = requested(items, it.barcode@, it.location);
        if p.at(it.location) < want {
            Some(
                ErrorView::InsufficientStock {
                    barcode: it.barcode@,
                    location: it.location,
                    available: p.at(it.location),
                    requested: capped(want),
                },
            )
        } else if p.stock - requested_anywhere(items, it.barcode@) < i64::MIN {
            Some(ErrorView::OutOfRange)
        } else {
            None
        }
    }
}

/// The stock covers the basket: the product of every line exists, and its
/// location holds what the basket asks of it in total.
pub open spec fn covered(products: Seq<Product>, items: Seq<SaleItem>) -> bool {
    forall|i: int|
        0 <= i < items.len() ==> has_barcode(products, (#[trigger] items[i]).barcode@)
            && products[position(products, items[i].barcode@)].at(items[i].location) >= requested(
            items,
            items[i].barcode@,
            items[i].location,
        )
}

/// No line of the basket stops the sale.
pub open spec fn lines_accepted(products: Seq<Product>, items: Seq<SaleItem>) -> bool {
    forall|i: int| 0 <= i < items.len() ==> #[trigger] line_refusal(products, items, i) is None
}

/// Line `i` is the first that stops the sale, and `e` says why.
pub open spec fn first_line_refusal(
    products: Seq<Product>,
    items: Seq<SaleItem>,
    i: int,
    e: ErrorView,
) -> bool {
    &&& 0 <= i < items.len()
    &&& forall|j: int| 0 <= j < i ==> #[trigger] line_refusal(products, items, j) is None
    &&& line_refusal(products, items, i) == Some(e)
}

/// Every line total, the basket total and the identifiers of the new lines
/// fit in 64 bits.
pub open spec fn amounts_in_range(items: Seq<SaleItem>, next_sale_id: int) -> bool {
    &&& forall|i: int|
        0 <= i < items.len() ==> i64::MIN <= #[trigger] line_total(items[i]) <= i64::MAX
    &&& i64::MIN <= basket_total(items) <= i64::MAX
    &&& items.len() <= i64::MAX
    &&& next_sale_id + items.len() <= i64::MAX
}

/// The sale line recorded for a basket line.
pub open spec fn sale_line(
    it: SaleItem,
    id: int,
    group: Seq<char>,
    payment: PaymentMethod,
    at: Timestamp,
) -> SaleRecordView {
    SaleRecordView {
        id,
        product_barcode: it.barcode@,
        qty: units(it.qty as int),
        list_price: it.list_price as int,
        discount_amount: it.discount_amount as int,
        unit_price: it.unit_price as int,
        total: line_total(it),
        sale_group_id: Some(group),
        sold_from: it.location,
        voided: false,
        payment_method: payment,
        sold_at: at,
    }
}

/// The identifier of the receipt committed at `millis`.
pub open spec fn sale_group_id(millis: u64) -> Seq<char> {
    seq!['S'] + decimal(millis as nat)
}

/// One more basket line adds its units to what the basket asks of the
/// counter it names, and its total to the basket total.
pub proof fn lemma_requested_step(items: Seq<SaleItem>, k: int, barcode: Seq<char>, loc: Location)
    requires
        0 <= k < items.len(),
    ensures
        requested(items.take(k + 1), barcode, loc) == requested(items.take(k), barcode, loc)
            + if items[k].barcode@ == barcode && items[k].location == loc {
            units(items[k].qty as int)
        } else {
            0
        },
        requested_anywhere(items.take(k + 1), barcode) == requested_anywhere(
            items.take(k),
            barcode,
        ) + if items[k].barcode@ == barcode {
            units(items[k].qty as int)
        } else {
            0
        },
        basket_total(items.take(k + 1)) == basket_total(items.take(k)) + line_total(items[k]),
{
    let t = items.take(k + 1);
    assert(t.drop_last() =~= items.take(k));
    assert(t.last() == items[k]);
}

/// What a basket asks of a counter is what its movements take from it.
pub proof fn lemma_requested_is_net(items: Seq<SaleItem>, barcode: Seq<char>, loc: Location)
    ensures
        requested(items, barcode, loc) == -net(sale_moves(items), barcode, loc),
        requested_anywhere(items, barcode) == -net_mirror(sale_moves(items), barcode),
    decreases items.len(),
{
    if items.len() > 0 {
        lemma_requested_is_net(items.drop_last(), barcode, loc);
        assert(sale_moves(items).drop_last() =~= sale_moves(items.drop_last()));
    }
}

/// A basket whose every line passes the stock check is applied without a
/// refusal: the checks on the whole basket imply the check of each movement.
pub proof fn lemma_sale_moves_accepted(products: Seq<Product>, items: Seq<SaleItem>)
    requires
        unique_barcodes(products),
        lines_accepted(products, items),
    ensures
        only_takes(sale_moves(items)),
        all_accepted(products, sale_moves(items)),
{
    let moves = sale_moves(items);
    assert(only_takes(moves));
    assert forall|k: int| 0 <= k < moves.len() implies #[trigger] refusal(products, moves, k)
        is None by {
        let it = items[k];
        assert(line_refusal(products, items, k) is None);
        lemma_requested_is_net(items, it.barcode@, it.location);
        lemma_takes_monotone(moves, k + 1, it.barcode@, it.location);
        lemma_takes_nonpositive(moves, k, it.barcode@, it.location);
        lemma_net_step(moves, k, it.barcode@, it.location);
    }
}

/// The units a line sells.
pub fn units_of(qty: i64) -> (u: i64)
    ensures
        u == units(qty as int),
        1 <= u,
{
    if qty <= 0 {
        1
    } else {
        qty
    }
}

/// Sums what the basket asks of one location of one product.
fn sum_requested(items: &Vec<SaleItem>, barcode: &String, loc: Location) -> (r: i128)
    ensures
        r == requested(items@, barcode@, loc),
        0 <= r,
{
    let mut acc: i128 = 0;
    let mut t: usize = 0;
    assert(items@.take(0) =~= Seq::<SaleItem>::empty());
    while t < items.len()
        invariant
            t <= items.len(),
            acc == requested(items@.take(t as int), barcode@, loc),
            0 <= acc <= t * 0x7fff_ffff_ffff_ffff,
        decreases items.len() - t,
    {
        proof {
            lemma_requested_step(items@, t as int, barcode@, loc);
        }
        if items[t].barcode == *barcode && items[t].location == loc {
            acc = acc + units_of(items[t].qty) as i128;
        }
        t += 1;
    }
    assert(items@.take(items.len() as int) =~= items@);
    acc
}

/// Sums what the basket asks of one product, both locations together.
fn sum_requested_anywhere(items: &Vec<SaleItem>, barcode: &String) -> (r: i128)
    ensures
        r == requested_anywhere(items@, barcode@),
        0 <= r,
{
    let mut acc: i128 = 0;
    let mut t: usize = 0;
    assert(items@.take(0) =~= Seq::<SaleItem>::empty());
    while t < items.len()
        invariant
            t <= items.len(),
            acc == requested_anywhere(items@.take(t as int), barcode@),
            0 <= acc <= t * 0x7fff_ffff_ffff_ffff,
        decreases items.len() - t,
    {
        proof {
            lemma_requested_step(items@, t as int, barcode@, Location::Store);
        }
        if items[t].barcode == *barcode {
            acc = acc + units_of(items[t].qty) as i128;
        }
        t += 1;
    }
    assert(items@.take(items.len() as int) =~= items@);
    acc
}

/// Judges one line of the basket against the stock.
fn check_line(products: &Vec<Product>, items: &Vec<SaleItem>, i: usize) -> (r: Option<
    LedgerError,
>)
    requires
        i < items.len(),
        unique_barcodes(products@),
    ensures
        match r {
            Some(e) => line_refusal(products@, items@, i as int) == Some(e@),
            None => line_refusal(products@, items@, i as int) is None,
        },
{
    let it = &items[i];
    match find_product(products, &it.barcode) {
        None => Some(LedgerError::ProductNotFound { barcode: it.barcode.clone() }),
        Some(idx) => {
            let p = &products[idx];
            let have = p.count_at(it.location);
            let want = sum_requested(items, &it.barcode, it.location);
            if (have as i128) < want {
                let shown: i64 = if want > i64::MAX as i128 {
                    i64::MAX
                } else {
                    want as i64
                };
                return Some(
                    LedgerError::InsufficientStock {
                        barcode: it.barcode.clone(),
                        location: it.location,
                        available: have,
                        requested: shown,
                    },
                );
            }
            let both = sum_requested_anywhere(items, &it.barcode);
            if both > (p.stock as i128) - (i64::MIN as i128) {
                return Some(LedgerError::OutOfRange);
            }
            None
        },
    }
}

/// The product of a price and a number of units, where it fits in 64 bits.
pub fn priced(unit_price: i64, count: i64) -> (r: Option<i64>)
    ensures
        match r {
            Some(t) => t == unit_price * count,
            None => !(i64::MIN <= unit_price * count <= i64::MAX),
        },
{
    let a: i128 = unit_price as i128;
    let b: i128 = count as i128;
    assert(-0x4000_0000_0000_0000_0000_0000_0000_0000 <= a * b
        <= 0x4000_0000_0000_0000_0000_0000_0000_0000) by (nonlinear_arith)
        requires
            -0x8000_0000_0000_0000 <= a < 0x8000_0000_0000_0000,
            -0x8000_0000_0000_0000 <= b < 0x8000_0000_0000_0000,
    ;
    let wide: i128 = a * b;
    if wide < i64::MIN as i128 || wide > i64::MAX as i128 {
        None
    } else {
        Some(wide as i64)
    }
}

/// The basket total, where every line total and the sum fit in 64 bits.
fn basket_amount(items: &Vec<SaleItem>) -> (r: Option<i64>)
    ensures
        match r {
            Some(t) => t == basket_total(items@) && forall|i: int|
                0 <= i < items.len() ==> i64::MIN <= #[trigger] line_total(items@[i])
                    <= i64::MAX,
            None => !(forall|i: int|
                0 <= i < items.len() ==> i64::MIN <= #[trigger] line_total(items@[i])
                    <= i64::MAX) || !(i64::MIN <= basket_total(items@) <= i64::MAX),
        },
{
    let mut acc: i128 = 0;
    let mut t: usize = 0;
    assert(items@.take(0) =~= Seq::<SaleItem>::empty());
    while t < items.len()
        invariant
            t <= items.len(),
            acc == basket_total(items@.take(t as int)),
            -t * 0x8000_0000_0000_0000 <= acc <= t * 0x8000_0000_0000_0000,
            forall|i: int|
                0 <= i < t ==> i64::MIN <= #[trigger] line_total(items@[i]) <= i64::MAX,
        decreases items.len() - t,
    {
        proof {
            lemma_requested_step(items@, t as int, items@[t as int].barcode@, Location::Store);
        }
        match priced(items[t].unit_price, units_of(items[t].qty)) {
            None => {
                assert(!(i64::MIN <= line_total(items@[t as int]) <= i64::MAX));
                return None;
            },
            Some(lt) => {
                acc = acc + lt as i128;
            },
        }
        t += 1;
    }
    assert(items@.take(items.len() as int) =~= items@);
    if acc < i64::MIN as i128 || acc > i64::MAX as i128 {
        None
    } else {
        Some(acc as i64)
    }
}

/// Builds the stock movements of a basket.
fn build_sale_moves(items: &Vec<SaleItem>) -> (moves: Vec<StockMove>)
    ensures
        moves@ == sale_moves(items@),
{
    let mut moves: Vec<StockMove> = Vec::new();
    let mut t: usize = 0;
    while t < items.len()
        invariant
            t <= items.len(),
            moves@.len() == t,
            forall|i: int| 0 <= i < t ==> #[trigger] moves@[i] == sale_moves(items@)[i],
        decreases items.len() - t,
    {
        let it = &items[t];
        moves.push(
            StockMove {
                barcode: it.barcode.clone(),
                location: it.location,
                delta: -units_of(it.qty),
                mirrored: true,
            },
        );
        t += 1;
    }
    assert(moves@ =~= sale_moves(items@));
    moves
}

/// Builds the sale lines of a basket, numbered from `first_id`.
fn build_sale_lines(
    items: &Vec<SaleItem>,
    first_id: i64,
    group: &String,
    payment: PaymentMethod,
    at: Timestamp,
) -> (lines: Vec<SaleRecord>)
    requires
        amounts_in_range(items@, first_id as int),
    ensures
        lines@.len() == items@.len(),
        forall|i: int|
            0 <= i < items.len() ==> (#[trigger] lines@[i])@ == sale_line(
                items@[i],
                first_id + i,
                group@,
                payment,
                at,
            ),
{
    let mut lines: Vec<SaleRecord> = Vec::new();
    let mut t: usize = 0;
    while t < items.len()
        invariant
            t <= items.len(),
            amounts_in_range(items@, first_id as int),
            lines@.len() == t,
            forall|i: int|
                0 <= i < t ==> (#[trigger] lines@[i])@ == sale_line(
                    items@[i],
                    first_id + i,
                    group@,
                    payment,
                    at,
                ),
        decreases items.len() - t,
    {
        let it = &items[t];
        let count = units_of(it.qty);
        assert(i64::MIN <= line_total(items@[t as int]) <= i64::MAX);
        let total = match priced(it.unit_price, count) {
            Some(v) => v,
            None => 0,
        };
        lines.push(
            SaleRecord {
                id: first_id + t as i64,
                product_barcode: it.barcode.clone(),
                qty: count,
                list_price: it.list_price,
                discount_amount: it.discount_amount,
                unit_price: it.unit_price,
                total,
                sale_group_id: Some(group.clone()),
                sold_from: it.location,
                voided: false,
                payment_method: payment,
                sold_at: at,
            },
        );
        t += 1;
    }
    lines
}

/// Why a basket is refused: it is empty; or a line fails the stock check, and
/// the first such line decides; or an amount leaves the 64-bit range.
pub open spec fn sale_refused(
    products: Seq<Product>,
    next_sale_id: int,
    items: Seq<SaleItem>,
    e: ErrorView,
) -> bool {
    if items.len() == 0 {
        e == ErrorView::EmptyBasket
    } else if !lines_accepted(products, items) {
        exists|i: int| first_line_refusal(products, items, i, e)
    } else {
        !amounts_in_range(items, next_sale_id) && e == ErrorView::OutOfRange
    }
}

/// A product row after a basket was sold: each location counter is lower by
/// what the basket asked of it, the mirror counter by what it asked of both.
pub open spec fn sold_from(p: Product, items: Seq<SaleItem>) -> Product {
    p.with_counters(
        p.magaza_stok - requested(items, p.barcode@, Location::Store),
        p.depo_stok - requested(items, p.barcode@, Location::Warehouse),
        p.stock - requested_anywhere(items, p.barcode@),
    )
}

/// What a committed sale leaves behind: `post` is `pre` with the units taken and
/// one sale line appended per basket line, and `res` reports the receipt.
pub open spec fn sale_committed(
    pre: &Ledger,
    post: &Ledger,
    items: Seq<SaleItem>,
    payment: PaymentMethod,
    now: &Moment,
    res: &CreateSaleResult,
) -> bool {
    let before = pre.sales@.len() as int;
    &&& items.len() > 0
    &&& lines_accepted(pre.products@, items)
    &&& amounts_in_range(items, pre.next_sale_id as int)
    &&& res.sale_group_id@ == sale_group_id(now.millis)
    &&& res.total == basket_total(items)
    &&& res.lines == items.len()
    &&& post.products@ == moved_all(pre.products@, sale_moves(items))
    &&& post.products@.len() == pre.products@.len()
    &&& forall|j: int|
        0 <= j < pre.products@.len() ==> #[trigger] post.products@[j] == sold_from(
            pre.products@[j],
            items,
        )
    &&& post.sales@.len() == before + items.len()
    &&& post.sales@.take(before) == pre.sales@
    &&& forall|i: int|
        0 <= i < items.len() ==> (#[trigger] post.sales@[before + i])@ == sale_line(
            items[i],
            pre.next_sale_id + i,
            sale_group_id(now.millis),
            payment,
            now.at,
        )
    &&& post.next_sale_id == pre.next_sale_id + items.len()
    &&& post.same_returns(pre)
    &&& post.same_transfers(pre)
    &&& post.same_expenses(pre)
}

/// Commits a basket as one receipt.
///
/// The whole basket is checked before anything changes: every product must
/// exist, and every location must hold what the basket asks of it in total.
/// Then each line takes its units from its location (and from the mirror
/// counter) and is recorded as one sale line under one new group identifier.
/// On any error the ledger is left as it was.
pub fn sell(
    ledger: &mut Ledger,
    items: &Vec<SaleItem>,
    payment: PaymentMethod,
    now: &Moment,
) -> (r: Result<CreateSaleResult, LedgerError>)
    requires
        old(ledger).wf(),
    ensures
        final(ledger).wf(),
        match r {
            Ok(res) => sale_committed(old(ledger), final(ledger), items@, payment, now, &res),
            Err(e) => {
                &&& *final(ledger) == *old(ledger)
                &&& sale_refused(
                    old(ledger).products@,
                    old(ledger).next_sale_id as int,
                    items@,
                    e@,
                )
            },
        },
{
    if items.len() == 0 {
        return Err(LedgerError::EmptyBasket);
    }
    let mut i: usize = 0;
    while i < items.len()
        invariant
            i <= items.len(),
            *ledger == *old(ledger),
            ledger.wf(),
            forall|j: int|
                0 <= j < i ==> #[trigger] line_refusal(ledger.products@, items@, j) is None,
        decreases items.len() - i,
    {
        match check_line(&ledger.products, items, i) {
            Some(e) => {
                assert(first_line_refusal(ledger.products@, items@, i as int, e@));
                return Err(e);
            },
            None => {},
        }
        i += 1;
    }
    assert(lines_accepted(ledger.products@, items@));
    let total = match basket_amount(items) {
        Some(t) => t,
        None => {
            return Err(LedgerError::OutOfRange);
        },
    };
    if items.len() as u64 > i64::MAX as u64 {
        return Err(LedgerError::OutOfRange);
    }
    let count = items.len() as i64;
    if ledger.next_sale_id > i64::MAX - count {
        return Err(LedgerError::OutOfRange);
    }
    assert(amounts_in_range(items@, ledger.next_sale_id as int));
    let moves = build_sale_moves(items);
    proof {
        lemma_sale_moves_accepted(ledger.products@, items@);
    }
    match apply_moves(&mut ledger.products, &moves) {
        Err(e) => {
            proof {
                let k = choose|k: int|
                    crate::stock::first_refusal(old(ledger).products@, moves@, k, e@);
                assert(refusal(old(ledger).products@, moves@, k) is None);
                assert(false);
            }
            return Err(e);
        },
        Ok(()) => {},
    }
    let group = gen_group_id("S", now.millis);
    proof {
        reveal_strlit("S");
        assert(group@ =~= sale_group_id(now.millis));
    }
    let first_id = ledger.next_sale_id;
    let mut lines = build_sale_lines(items, first_id, &group, payment, now.at);
    let ghost fresh = lines@;
    ledger.sales.append(&mut lines);
    ledger.next_sale_id = first_id + count;
    proof {
        let before = old(ledger).sales@.len() as int;
        let sales = ledger.sales@;
        assert(sales.take(before) =~= old(ledger).sales@);
        assert forall|a: int| 0 <= a < items@.len() implies (#[trigger] sales[before + a])@
            == sale_line(items@[a], first_id + a, sale_group_id(now.millis), payment, now.at) by {
            assert(sales[before + a] == fresh[a]);
        }
        assert(sale_ids_ordered(sales, ledger.next_sale_id as int)) by {
            assert forall|a: int, b: int| 0 <= a < b < sales.len() implies (#[trigger] sales[a]).id
                < (#[trigger] sales[b]).id by {
                if a >= before {
                    assert(sales[a] == fresh[a - before]);
                    assert(sales[before + (a - before)]@.id == first_id + (a - before));
                } else {
                    assert(sales[a] == old(ledger).sales@[a]);
                }
                assert(sales[b] == if b >= before {
                    fresh[b - before]
                } else {
                    old(ledger).sales@[b]
                });
                if b >= before {
                    assert(sales[before + (b - before)]@.id == first_id + (b - before));
                }
            }
            assert forall|a: int| 0 <= a < sales.len() implies (#[trigger] sales[a]).id
                < ledger.next_sale_id by {
                if a >= before {
                    assert(sales[before + (a - before)]@.id == first_id + (a - before));
                } else {
                    assert(sales[a] == old(ledger).sales@[a]);
                }
            }
        }
        assert(refunds_bounded(sales, ledger.return_items@)) by {
            assert forall|a: int| 0 <= a < sales.len() implies refunded(
                ledger.return_items@,
                (#[trigger] sales[a]).id as int,
            ) <= sales[a].qty by {
                if a >= before {
                    assert(sales[before + (a - before)]@.id == first_id + (a - before));
                    assert(sales[before + (a - before)]@.qty == units(
                        items@[a - before].qty as int,
                    ));
                    lemma_refunded_none(ledger.return_items@, sales[a].id as int);
                } else {
                    assert(sales[a] == old(ledger).sales@[a]);
                }
            }
        }
        lemma_lines_stay_sound(
            old(ledger).sales@,
            ledger.transfers@,
            old(ledger).products@,
            ledger.products@,
        );
        assert(sales_sound(sales, ledger.products@)) by {
            assert forall|a: int| 0 <= a < sales.len() implies (#[trigger] sales[a]).qty >= 1
                && has_barcode(ledger.products@, sales[a].product_barcode@) by {
                if a >= before {
                    let it = items@[a - before];
                    assert(sales[before + (a - before)]@.qty == units(it.qty as int));
                    assert(sales[before + (a - before)]@.product_barcode == it.barcode@);
                    assert(line_refusal(old(ledger).products@, items@, a - before) is None);
                    lemma_barcode_kept(old(ledger).products@, ledger.products@, it.barcode@);
                } else {
                    assert(sales[a] == old(ledger).sales@[a]);
                }
            }
        }
    }
    let res = CreateSaleResult { sale_group_id: group, total, lines: count };
    proof {
        assert forall|j: int| 0 <= j < old(ledger).products@.len() implies #[trigger] ledger.products@[j]
            == sold_from(old(ledger).products@[j], items@) by {
            let p = old(ledger).products@[j];
            lemma_requested_is_net(items@, p.barcode@, Location::Store);
            lemma_requested_is_net(items@, p.barcode@, Location::Warehouse);
        }
    }
    assert(sale_committed(old(ledger), ledger, items@, payment, now, &res));
    Ok(res)
}

/// What an undone sale reports.
#[derive(Debug)]
pub struct UndoLastSaleResult {
    pub sale_group_id: String,
    pub restored_lines: i64,
}

/// A sale line that can still be undone: it is not voided and belongs to a
/// group.
pub open spec fn undoable(rec: SaleRecord) -> bool {
    !rec.voided && rec.sale_group_id is Some
}

/// A sale line that is not voided and belongs to the group `g`.
pub open spec fn in_group(rec: SaleRecord, g: Seq<char>) -> bool {
    !rec.voided && text_of(rec.sale_group_id) == Some(g)
}

/// Line `i` is the most recently recorded line that can be undone.
pub open spec fn is_last_undoable(sales: Seq<SaleRecord>, i: int) -> bool {
    &&& 0 <= i < sales.len()
    &&& undoable(sales[i])
    &&& forall|j: int| i < j < sales.len() ==> !undoable(#[trigger] sales[j])
}

/// No line can be undone.
pub open spec fn none_undoable(sales: Seq<SaleRecord>) -> bool {
    forall|j: int| 0 <= j < sales.len() ==> !undoable(#[trigger] sales[j])
}

/// The group of the most recently recorded line that can be undone.
pub open spec fn last_group(sales: Seq<SaleRecord>) -> Seq<char> {
    let i = choose|i: int| is_last_undoable(sales, i);
    sales[i].sale_group_id->Some_0@
}

/// The movements that give back what the lines of group `g` took.
pub open spec fn undo_sale_moves(sales: Seq<SaleRecord>, g: Seq<char>) -> Seq<StockMove>
    decreases sales.len(),
{
    if sales.len() == 0 {
        Seq::empty()
    } else {
        let rec = sales.last();
        let rest = undo_sale_moves(sales.drop_last(), g);
        if in_group(rec, g) {
            rest.push(
                StockMove {
                    barcode: rec.product_barcode,
                    location: rec.sold_from,
                    delta: rec.qty,
                    mirrored: true,
                },
            )
        } else {
            rest
        }
    }
}

/// The sale lines that remain when those of group `g` are removed.
pub open spec fn without_group(sales: Seq<SaleRecord>, g: Seq<char>) -> Seq<SaleRecord>
    decreases sales.len(),
{
    if sales.len() == 0 {
        Seq::empty()
    } else {
        let rest = without_group(sales.drop_last(), g);
        if in_group(sales.last(), g) {
            rest
        } else {
            rest.push(sales.last())
        }
    }
}

/// What an undone sale leaves behind: the lines of the most recent group are
/// gone and their units are back where they were taken.
pub open spec fn sale_undone(pre: &Ledger, post: &Ledger, res: &UndoLastSaleResult) -> bool {
    let g = last_group(pre.sales@);
    let moves = undo_sale_moves(pre.sales@, g);
    &&& !none_undoable(pre.sales@)
    &&& moves.len() <= i64::MAX
    &&& all_accepted(pre.products@, moves)
    &&& counters_in_range(pre.products@, moves)
    &&& res.sale_group_id@ == g
    &&& res.restored_lines == moves.len()
    &&& post.products@ == moved_all(pre.products@, moves)
    &&& post.sales@ == without_group(pre.sales@, g)
    &&& post.next_sale_id == pre.next_sale_id
    &&& post.same_returns(pre)
    &&& post.same_transfers(pre)
    &&& post.same_expenses(pre)
}

/// Why an undo is refused: nothing can be undone; or giving the units back is
/// refused, and the first refused movement decides.
pub open spec fn sale_undo_refused(pre: &Ledger, e: ErrorView) -> bool {
    if none_undoable(pre.sales@) {
        e == ErrorView::NoSaleToUndo
    } else {
        let moves = undo_sale_moves(pre.sales@, last_group(pre.sales@));
        if moves.len() > i64::MAX {
            e == ErrorView::OutOfRange
        } else {
            exists|k: int| first_refusal(pre.products@, moves, k, e)
        }
    }
}

/// One more sale line adds its movement where it belongs to the group, and
/// stays in the history where it does not.
pub proof fn lemma_group_step(sales: Seq<SaleRecord>, k: int, g: Seq<char>)
    requires
        0 <= k < sales.len(),
    ensures
        undo_sale_moves(sales.take(k + 1), g) == if in_group(sales[k], g) {
            undo_sale_moves(sales.take(k), g).push(
                StockMove {
                    barcode: sales[k].product_barcode,
                    location: sales[k].sold_from,
                    delta: sales[k].qty,
                    mirrored: true,
                },
            )
        } else {
            undo_sale_moves(sales.take(k), g)
        },
        without_group(sales.take(k + 1), g) == if in_group(sales[k], g) {
            without_group(sales.take(k), g)
        } else {
            without_group(sales.take(k), g).push(sales[k])
        },
{
    let t = sales.take(k + 1);
    assert(t.drop_last() =~= sales.take(k));
    assert(t.last() == sales[k]);
}

/// Removing a group keeps the remaining lines in their order: each is a line
/// of the list it was taken from, and later lines come from later positions.
pub proof fn lemma_without_group_kept(sales: Seq<SaleRecord>, g: Seq<char>, next: int)
    requires
        sale_ids_ordered(sales, next),
    ensures
        sale_ids_ordered(without_group(sales, g), next),
        forall|i: int|
            0 <= i < without_group(sales, g).len() ==> exists|j: int|
                0 <= j < sales.len() && sales[j] == #[trigger] without_group(sales, g)[i],
    decreases sales.len(),
{
    if sales.len() > 0 {
        let front = sales.drop_last();
        assert forall|a: int, b: int| 0 <= a < b < front.len() implies (#[trigger] front[a]).id
            < (#[trigger] front[b]).id by {
            assert(front[a] == sales[a] && front[b] == sales[b]);
        }
        assert forall|a: int| 0 <= a < front.len() implies (#[trigger] front[a]).id < next by {
            assert(front[a] == sales[a]);
        }
        lemma_without_group_kept(front, g, next);
        let rest = without_group(front, g);
        let w = without_group(sales, g);
        assert forall|i: int| 0 <= i < w.len() implies exists|j: int|
            0 <= j < sales.len() && sales[j] == #[trigger] w[i] by {
            if i < rest.len() {
                let j = choose|j: int| 0 <= j < front.len() && front[j] == rest[i];
                assert(sales[j] == w[i]);
            } else {
                assert(sales[sales.len() - 1] == w[i]);
            }
        }
        assert forall|a: int, b: int| 0 <= a < b < w.len() implies (#[trigger] w[a]).id < (
        #[trigger] w[b]).id by {
            if b < rest.len() {
                assert(w[a] == rest[a] && w[b] == rest[b]);
            } else {
                let j = choose|j: int| 0 <= j < front.len() && front[j] == rest[a];
                assert(sales[j] == w[a]);
                assert(w[b] == sales[sales.len() - 1]);
            }
        }
        assert forall|a: int| 0 <= a < w.len() implies (#[trigger] w[a]).id < next by {
            let j = choose|j: int| 0 <= j < sales.len() && sales[j] == w[a];
            assert(sales[j].id < next);
        }
    }
}

/// Finds the most recently recorded line that can be undone.
fn find_last_undoable(sales: &Vec<SaleRecord>) -> (r: Option<usize>)
    ensures
        match r {
            Some(i) => is_last_undoable(sales@, i as int),
            None => none_undoable(sales@),
        },
{
    let mut i: usize = sales.len();
    while i > 0
        invariant
            i <= sales.len(),
            forall|j: int| i <= j < sales.len() ==> !undoable(#[trigger] sales@[j]),
        decreases i,
    {
        i -= 1;
        if !sales[i].voided && sales[i].sale_group_id.is_some() {
            return Some(i);
        }
    }
    None
}

/// Whether a sale line is a live line of the group.
fn line_in_group(rec: &SaleRecord, group: &String) -> (b: bool)
    ensures
        b == in_group(*rec, group@),
{
    if rec.voided {
        return false;
    }
    match &rec.sale_group_id {
        Some(g) => *g == *group,
        None => false,
    }
}

/// Undoes the most recent receipt: every line of the group of the most
/// recently recorded live sale line gives its units back to the location it
/// took them from, and the lines are removed from the history.
pub fn undo_last_sale(ledger: &mut Ledger) -> (r: Result<UndoLastSaleResult, LedgerError>)
    requires
        old(ledger).wf(),
    ensures
        final(ledger).wf(),
        match r {
            Ok(res) => sale_undone(old(ledger), final(ledger), &res),
            Err(e) => *final(ledger) == *old(ledger) && sale_undo_refused(old(ledger), e@),
        },
{
    let last = match find_last_undoable(&ledger.sales) {
        Some(i) => i,
        None => {
            return Err(LedgerError::NoSaleToUndo);
        },
    };
    let group: String = match &ledger.sales[last].sale_group_id {
        Some(g) => g.clone(),
        None => {
            return Err(LedgerError::NoSaleToUndo);
        },
    };
    proof {
        let c = choose|i: int| is_last_undoable(ledger.sales@, i);
        assert(is_last_undoable(ledger.sales@, last as int));
        if c < last {
            assert(!undoable(ledger.sales@[last as int]));
        } else if last < c {
            assert(!undoable(ledger.sales@[c]));
        }
        assert(group@ == last_group(ledger.sales@));
        assert(undoable(ledger.sales@[last as int]));
    }
    let mut moves: Vec<StockMove> = Vec::new();
    let mut kept: Vec<SaleRecord> = Vec::new();
    let mut t: usize = 0;
    assert(ledger.sales@.take(0) =~= Seq::<SaleRecord>::empty());
    while t < ledger.sales.len()
        invariant
            t <= ledger.sales.len(),
            *ledger == *old(ledger),
            moves@ == undo_sale_moves(ledger.sales@.take(t as int), group@),
            kept@ == without_group(ledger.sales@.take(t as int), group@),
        decreases ledger.sales.len() - t,
    {
        proof {
            lemma_group_step(ledger.sales@, t as int, group@);
        }
        let rec = &ledger.sales[t];
        if line_in_group(rec, &group) {
            moves.push(
                StockMove {
                    barcode: rec.product_barcode.clone(),
                    location: rec.sold_from,
                    delta: rec.qty,
                    mirrored: true,
                },
            );
        } else {
            kept.push(rec.duplicate());
        }
        t += 1;
    }
    assert(ledger.sales@.take(ledger.sales.len() as int) =~= ledger.sales@);
    if moves.len() as u64 > i64::MAX as u64 {
        return Err(LedgerError::OutOfRange);
    }
    let restored = moves.len() as i64;
    match apply_moves(&mut ledger.products, &moves) {
        Err(e) => {
            return Err(e);
        },
        Ok(()) => {},
    }
    proof {
        lemma_without_group_kept(old(ledger).sales@, group@, ledger.next_sale_id as int);
        assert(refunds_bounded(kept@, ledger.return_items@)) by {
            assert forall|a: int| 0 <= a < kept@.len() implies refunded(
                ledger.return_items@,
                (#[trigger] kept@[a]).id as int,
            ) <= kept@[a].qty by {
                let j = choose|j: int|
                    0 <= j < old(ledger).sales@.len() && old(ledger).sales@[j] == kept@[a];
                assert(refunded(ledger.return_items@, old(ledger).sales@[j].id as int) <= old(
                    ledger,
                ).sales@[j].qty);
            }
        }
    }
    ledger.sales = kept;
    let res = UndoLastSaleResult { sale_group_id: group, restored_lines: restored };
    Ok(res)
}

/// One line of a basket as the caller sends it.
#[derive(Debug)]
pub struct CreateSaleItemPayload {
    pub barcode: String,
    pub qty: i64,
    pub list_price: i64,
    pub discount_amount: i64,
    pub unit_price: i64,
    /// The code of the location the line is sold from; blank for the
    /// basket's default.
    pub sold_from: String,
}

/// A basket as the caller sends it.
#[derive(Debug)]
pub struct CreateSalePayload {
    pub items: Vec<CreateSaleItemPayload>,
    /// The code of the location that lines without one are sold from.
    pub sold_from_default: String,
    /// The code of the payment method of the receipt.
    pub payment_method: String,
}

/// The basket line that a payload line stands for.
pub open spec fn basket_line(it: CreateSaleItemPayload, default_code: Seq<char>) -> SaleItem {
    SaleItem {
        barcode: it.barcode,
        qty: it.qty,
        list_price: it.list_price,
        discount_amount: it.discount_amount,
        unit_price: it.unit_price,
        location: location_resolved(it.sold_from@, default_code),
    }
}

/// The basket that a payload stands for: each line with its location
/// resolved against the default.
pub open spec fn basket_of(payload: &CreateSalePayload) -> Seq<SaleItem> {
    Seq::new(
        payload.items@.len(),
        |i: int| basket_line(payload.items@[i], payload.sold_from_default@),
    )
}

/// Commits a basket as the caller sends it: resolves the location of each
/// line and the payment method of the receipt from their codes, then sells
/// the basket.
pub fn create_sale(ledger: &mut Ledger, payload: CreateSalePayload, now: &Moment) -> (r: Result<
    CreateSaleResult,
    LedgerError,
>)
    requires
        old(ledger).wf(),
    ensures
        final(ledger).wf(),
        match r {
            Ok(res) => sale_committed(
                old(ledger),
                final(ledger),
                basket_of(&payload),
                sale_method_of(payload.payment_method@),
                now,
                &res,
            ),
            Err(e) => {
                &&& *final(ledger) == *old(ledger)
                &&& sale_refused(
                    old(ledger).products@,
                    old(ledger).next_sale_id as int,
                    basket_of(&payload),
                    e@,
                )
            },
        },
{
    let payment = PaymentMethod::parse_for_sale(payload.payment_method.as_str());
    let mut items: Vec<SaleItem> = Vec::new();
    let mut t: usize = 0;
    while t < payload.items.len()
        invariant
            t <= payload.items.len(),
            items@.len() == t,
            forall|i: int| 0 <= i < t ==> #[trigger] items@[i] == basket_of(&payload)[i],
        decreases payload.items.len() - t,
    {
        let it = &payload.items[t];
        items.push(
            SaleItem {
                barcode: it.barcode.clone(),
                qty: it.qty,
                list_price: it.list_price,
                discount_amount: it.discount_amount,
                unit_price: it.unit_price,
                location: Location::resolve(
                    it.sold_from.as_str(),
                    payload.sold_from_default.as_str(),
                ),
            },
        );
        t += 1;
    }
    assert(items@ =~= basket_of(&payload));
    sell(ledger, &items, payment, now)
}

} // verus!
