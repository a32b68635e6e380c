//! The aggregation engine: the figures of a day or a month, computed from the
//! history of the ledger and the current product rows. Nothing here changes
//! the ledger.

use crate::clock::{
    day_number, days_before, month_index, period_back, period_before, prev_day, Date, Period,
    Timestamp,
};
use crate::error::{ErrorView, LedgerError};
use crate::kinds::ReturnMode;
use crate::ledger::{
    refers_to, ExchangeItem, Expense, Ledger, ReturnItem, ReturnRecord, SaleRecord, text_of,
};
use crate::stock::{find_product, has_barcode, position, unique_barcodes, Product};
use vstd::prelude::*;

verus! {

/// A span of time that events are gathered in.
#[derive(Clone, Copy, Debug, PartialEq, Eq, Structural)]
pub enum Bucket {
    Day(Date),
    Month(Period),
    /// All of time.
    Always,
}

/// Whether a moment lies in a bucket.
pub open spec fn in_bucket(t: Timestamp, b: Bucket) -> bool {
    match b {
        Bucket::Day(d) => t.date == d,
        Bucket::Month(p) => t.date.year == p.year && t.date.month == p.month,
        Bucket::Always => true,
    }
}

/// Whether a moment lies in a bucket.
pub fn falls_in(t: Timestamp, b: Bucket) -> (r: bool)
    ensures
        r == in_bucket(t, b),
{
    match b {
        Bucket::Day(d) => t.date == d,
        Bucket::Month(p) => t.date.year == p.year && t.date.month == p.month,
        Bucket::Always => true,
    }
}

/// Whether a number fits in 64 bits.
pub open spec fn fits(x: int) -> bool {
    i64::MIN <= x <= i64::MAX
}

/// A return group with this identifier and mode was recorded within the
/// bucket.
pub open spec fn group_recorded(
    return_groups: Seq<ReturnRecord>,
    group: Seq<char>,
    mode: ReturnMode,
    b: Bucket,
) -> bool {
    exists|i: int|
        0 <= i < return_groups.len() && (#[trigger] return_groups[i]).return_group_id@ == group
            && return_groups[i].mode == mode && in_bucket(return_groups[i].created_at, b)
}

/// Whether a return group with this identifier and mode was recorded within
/// the bucket.
pub fn is_group_recorded(
    return_groups: &Vec<ReturnRecord>,
    group: &String,
    mode: ReturnMode,
    b: Bucket,
) -> (r: bool)
    ensures
        r == group_recorded(return_groups@, group@, mode, b),
{
    let mut i: usize = 0;
    while i < return_groups.len()
        invariant
            i <= return_groups.len(),
            forall|j: int|
                0 <= j < i ==> !((#[trigger] return_groups@[j]).return_group_id@ == group@
                    && return_groups@[j].mode == mode && in_bucket(return_groups@[j].created_at, b)),
        decreases return_groups.len() - i,
    {
        let rec = &return_groups[i];
        if rec.return_group_id == *group && rec.mode == mode && falls_in(rec.created_at, b) {
            return true;
        }
        i += 1;
    }
    false
}

/// The units of the first `n` sale lines that are live and were sold within
/// the bucket.
pub open spec fn sold_units(sales: Seq<SaleRecord>, b: Bucket, n: nat) -> int
    decreases n,
{
    if n == 0 {
        0
    } else {
        let s = sales[n - 1];
        sold_units(sales, b, (n - 1) as nat) + if !s.voided && in_bucket(s.sold_at, b) {
            s.qty as int
        } else {
            0
        }
    }
}

/// The units of the first `n` exchange lines whose exchange was recorded
/// within the bucket.
pub open spec fn given_units(
    items: Seq<ExchangeItem>,
    return_groups: Seq<ReturnRecord>,
    b: Bucket,
    n: nat,
) -> int
    decreases n,
{
    if n == 0 {
        0
    } else {
        let it = items[n - 1];
        given_units(items, return_groups, b, (n - 1) as nat) + if group_recorded(
            return_groups,
            it.exchange_group_id@,
            ReturnMode::Exchange,
            b,
        ) {
            it.qty as int
        } else {
            0
        }
    }
}

/// The units of the first `n` return lines whose refund was recorded within
/// the bucket.
pub open spec fn returned_units(
    items: Seq<ReturnItem>,
    return_groups: Seq<ReturnRecord>,
    b: Bucket,
    n: nat,
) -> int
    decreases n,
{
    if n == 0 {
        0
    } else {
        let it = items[n - 1];
        returned_units(items, return_groups, b, (n - 1) as nat) + if group_recorded(
            return_groups,
            it.return_group_id@,
            ReturnMode::Refund,
            b,
        ) {
            it.qty as int
        } else {
            0
        }
    }
}

/// A sale line that an exchange took back.
pub open spec fn absorbed(sale_id: int, items: Seq<ReturnItem>, return_groups: Seq<ReturnRecord>) -> bool {
    exists|i: int|
        0 <= i < items.len() && refers_to(#[trigger] items[i], sale_id) && group_recorded(
            return_groups,
            items[i].return_group_id@,
            ReturnMode::Exchange,
            Bucket::Always,
        )
}

/// A sale line whose total counts as revenue: it is live, or an exchange took
/// it back.
pub open spec fn earns(s: SaleRecord, items: Seq<ReturnItem>, return_groups: Seq<ReturnRecord>) -> bool {
    !s.voided || absorbed(s.id as int, items, return_groups)
}

/// The totals of the first `n` sale lines that count as revenue and were sold
/// within the bucket.
pub open spec fn sales_revenue(
    sales: Seq<SaleRecord>,
    items: Seq<ReturnItem>,
    return_groups: Seq<ReturnRecord>,
    b: Bucket,
    n: nat,
) -> int
    decreases n,
{
    if n == 0 {
        0
    } else {
        let s = sales[n - 1];
        sales_revenue(sales, items, return_groups, b, (n - 1) as nat) + if earns(s, items, return_groups)
            && in_bucket(s.sold_at, b) {
            s.total as int
        } else {
            0
        }
    }
}

/// The price differences of the first `n` return groups recorded within the
/// bucket.
pub open spec fn diff_sum(return_groups: Seq<ReturnRecord>, b: Bucket, n: nat) -> int
    decreases n,
{
    if n == 0 {
        0
    } else {
        let r = return_groups[n - 1];
        diff_sum(return_groups, b, (n - 1) as nat) + if in_bucket(r.created_at, b) {
            r.diff as int
        } else {
            0
        }
    }
}

/// The amounts of the first `n` expenses spent within the bucket.
pub open spec fn expense_sum(expenses: Seq<Expense>, b: Bucket, n: nat) -> int
    decreases n,
{
    if n == 0 {
        0
    } else {
        let x = expenses[n - 1];
        expense_sum(expenses, b, (n - 1) as nat) + if in_bucket(x.spent_at, b) {
            x.amount as int
        } else {
            0
        }
    }
}

/// The current purchase price of a product; zero for a product that does not
/// exist.
pub open spec fn buy_price_of(products: Seq<Product>, barcode: Seq<char>) -> int {
    if has_barcode(products, barcode) {
        products[position(products, barcode)].buy_price as int
    } else {
        0
    }
}

/// What a line earns over the purchase price of its goods.
pub open spec fn margin(unit_price: int, buy_price: int, qty: int) -> int {
    (unit_price - buy_price) * qty
}

/// The margin of a sale line at current purchase prices.
pub open spec fn sale_margin(s: SaleRecord, products: Seq<Product>) -> int {
    margin(s.unit_price as int, buy_price_of(products, s.product_barcode@), s.qty as int)
}

/// The margin of an exchange line at current purchase prices.
pub open spec fn exchange_margin(it: ExchangeItem, products: Seq<Product>) -> int {
    margin(it.unit_price as int, buy_price_of(products, it.product_barcode@), it.qty as int)
}

/// The margin of a return line at current purchase prices.
pub open spec fn return_margin(it: ReturnItem, products: Seq<Product>) -> int {
    margin(it.unit_price as int, buy_price_of(products, it.product_barcode@), it.qty as int)
}

/// The margins of the first `n` sale lines that are live and were sold within
/// the bucket.
pub open spec fn sales_margin(
    sales: Seq<SaleRecord>,
    products: Seq<Product>,
    b: Bucket,
    n: nat,
) -> int
    decreases n,
{
    if n == 0 {
        0
    } else {
        let s = sales[n - 1];
        sales_margin(sales, products, b, (n - 1) as nat) + if !s.voided && in_bucket(
            s.sold_at,
            b,
        ) {
            sale_margin(s, products)
        } else {
            0
        }
    }
}

/// The margins of the first `n` exchange lines whose exchange was recorded
/// within the bucket.
pub open spec fn given_margin(
    items: Seq<ExchangeItem>,
    return_groups: Seq<ReturnRecord>,
    products: Seq<Product>,
    b: Bucket,
    n: nat,
) -> int
    decreases n,
{
    if n == 0 {
        0
    } else {
        let it = items[n - 1];
        given_margin(items, return_groups, products, b, (n - 1) as nat) + if group_recorded(
            return_groups,
            it.exchange_group_id@,
            ReturnMode::Exchange,
            b,
        ) {
            exchange_margin(it, products)
        } else {
            0
        }
    }
}

/// The margins of the first `n` return lines whose refund was recorded
/// within the bucket.
pub open spec fn returned_margin(
    items: Seq<ReturnItem>,
    return_groups: Seq<ReturnRecord>,
    products: Seq<Product>,
    b: Bucket,
    n: nat,
) -> int
    decreases n,
{
    if n == 0 {
        0
    } else {
        let it = items[n - 1];
        returned_margin(items, return_groups, products, b, (n - 1) as nat) + if group_recorded(
            return_groups,
            it.return_group_id@,
            ReturnMode::Refund,
            b,
        ) {
            return_margin(it, products)
        } else {
            0
        }
    }
}

/// Every margin that the bucket gathers fits in 64 bits.
pub open spec fn margins_fit(l: &Ledger, b: Bucket) -> bool {
    &&& forall|i: int|
        0 <= i < l.sales@.len() && !(#[trigger] l.sales@[i]).voided && in_bucket(
            l.sales@[i].sold_at,
            b,
        ) ==> fits(sale_margin(l.sales@[i], l.products@))
    &&& forall|i: int|
        0 <= i < l.exchange_items@.len() && group_recorded(
            l.return_groups@,
            (#[trigger] l.exchange_items@[i]).exchange_group_id@,
            ReturnMode::Exchange,
            b,
        ) ==> fits(exchange_margin(l.exchange_items@[i], l.products@))
    &&& forall|i: int|
        0 <= i < l.return_items@.len() && group_recorded(
            l.return_groups@,
            (#[trigger] l.return_items@[i]).return_group_id@,
            ReturnMode::Refund,
            b,
        ) ==> fits(return_margin(l.return_items@[i], l.products@))
}

/// Sale line `i` counts as revenue within the bucket and belongs to a receipt.
pub open spec fn on_receipt(
    sales: Seq<SaleRecord>,
    items: Seq<ReturnItem>,
    return_groups: Seq<ReturnRecord>,
    b: Bucket,
    i: int,
) -> bool {
    &&& earns(sales[i], items, return_groups)
    &&& in_bucket(sales[i].sold_at, b)
    &&& sales[i].sale_group_id is Some
}

/// Sale line `i` is the first line of its receipt within the bucket.
pub open spec fn opens_receipt(
    sales: Seq<SaleRecord>,
    items: Seq<ReturnItem>,
    return_groups: Seq<ReturnRecord>,
    b: Bucket,
    i: int,
) -> bool {
    &&& on_receipt(sales, items, return_groups, b, i)
    &&& forall|j: int|
        0 <= j < i ==> !(#[trigger] on_receipt(sales, items, return_groups, b, j) && text_of(
            sales[j].sale_group_id,
        ) == text_of(sales[i].sale_group_id))
}

/// The number of distinct receipts among the first `n` sale lines that count
/// as revenue within the bucket.
pub open spec fn receipts(
    sales: Seq<SaleRecord>,
    items: Seq<ReturnItem>,
    return_groups: Seq<ReturnRecord>,
    b: Bucket,
    n: nat,
) -> int
    decreases n,
{
    if n == 0 {
        0
    } else {
        receipts(sales, items, return_groups, b, (n - 1) as nat) + if opens_receipt(
            sales,
            items,
            return_groups,
            b,
            n - 1,
        ) {
            1int
        } else {
            0int
        }
    }
}

/// Whether a return line references a sale line.
fn refers(item: &ReturnItem, sale_id: i64) -> (r: bool)
    ensures
        r == refers_to(*item, sale_id as int),
{
    match item.ref_sale_id {
        Some(x) => x == sale_id,
        None => false,
    }
}

/// Whether an exchange took a sale line back.
fn is_absorbed(sale_id: i64, items: &Vec<ReturnItem>, groups: &Vec<ReturnRecord>) -> (r: bool)
    ensures
        r == absorbed(sale_id as int, items@, groups@),
{
    let mut i: usize = 0;
    while i < items.len()
        invariant
            i <= items.len(),
            forall|j: int|
                0 <= j < i ==> !(refers_to(#[trigger] items@[j], sale_id as int)
                    && group_recorded(
                    groups@,
                    items@[j].return_group_id@,
                    ReturnMode::Exchange,
                    Bucket::Always,
                )),
        decreases items.len() - i,
    {
        if refers(&items[i], sale_id) && is_group_recorded(
            groups,
            &items[i].return_group_id,
            ReturnMode::Exchange,
            Bucket::Always,
        ) {
            return true;
        }
        i += 1;
    }
    false
}

/// For every sale line, whether its total counts as revenue.
pub fn earning_flags(l: &Ledger) -> (flags: Vec<bool>)
    ensures
        flags@.len() == l.sales@.len(),
        forall|i: int|
            0 <= i < l.sales@.len() ==> #[trigger] flags@[i] == earns(
                l.sales@[i],
                l.return_items@,
                l.return_groups@,
            ),
{
    let mut flags: Vec<bool> = Vec::new();
    let mut i: usize = 0;
    while i < l.sales.len()
        invariant
            i <= l.sales.len(),
            flags@.len() == i,
            forall|j: int|
                0 <= j < i ==> #[trigger] flags@[j] == earns(
                    l.sales@[j],
                    l.return_items@,
                    l.return_groups@,
                ),
        decreases l.sales.len() - i,
    {
        let s = &l.sales[i];
        let f = !s.voided || is_absorbed(s.id, &l.return_items, &l.return_groups);
        flags.push(f);
        i += 1;
    }
    flags
}

/// The flags say of every sale line whether its total counts as revenue.
pub open spec fn flags_match(flags: Seq<bool>, l: &Ledger) -> bool {
    &&& flags.len() == l.sales@.len()
    &&& forall|i: int|
        0 <= i < l.sales@.len() ==> #[trigger] flags[i] == earns(
            l.sales@[i],
            l.return_items@,
            l.return_groups@,
        )
}

fn total_sold_units(sales: &Vec<SaleRecord>, b: Bucket) -> (r: i128)
    ensures
        r == sold_units(sales@, b, sales@.len()),
{
    let mut acc: i128 = 0;
    let mut t: usize = 0;
    while t < sales.len()
        invariant
            t <= sales.len(),
            acc == sold_units(sales@, b, t as nat),
            -t * 0x8000_0000_0000_0000 <= acc <= t * 0x8000_0000_0000_0000,
        decreases sales.len() - t,
    {
        if !sales[t].voided && falls_in(sales[t].sold_at, b) {
            acc = acc + sales[t].qty as i128;
        }
        t += 1;
    }
    acc
}

fn total_given_units(items: &Vec<ExchangeItem>, groups: &Vec<ReturnRecord>, b: Bucket) -> (r: i128)
    ensures
        r == given_units(items@, groups@, b, items@.len()),
{
    let mut acc: i128 = 0;
    let mut t: usize = 0;
    while t < items.len()
        invariant
            t <= items.len(),
            acc == given_units(items@, groups@, b, t as nat),
            -t * 0x8000_0000_0000_0000 <= acc <= t * 0x8000_0000_0000_0000,
        decreases items.len() - t,
    {
        if is_group_recorded(groups, &items[t].exchange_group_id, ReturnMode::Exchange, b) {
            acc = acc + items[t].qty as i128;
        }
        t += 1;
    }
    acc
}

fn total_returned_units(items: &Vec<ReturnItem>, groups: &Vec<ReturnRecord>, b: Bucket) -> (r:
    i128)
    ensures
        r == returned_units(items@, groups@, b, items@.len()),
{
    let mut acc: i128 = 0;
    let mut t: usize = 0;
    while t < items.len()
        invariant
            t <= items.len(),
            acc == returned_units(items@, groups@, b, t as nat),
            -t * 0x8000_0000_0000_0000 <= acc <= t * 0x8000_0000_0000_0000,
        decreases items.len() - t,
    {
        if is_group_recorded(groups, &items[t].return_group_id, ReturnMode::Refund, b) {
            acc = acc + items[t].qty as i128;
        }
        t += 1;
    }
    acc
}

fn total_sales_revenue(l: &Ledger, flags: &Vec<bool>, b: Bucket) -> (r: i128)
    requires
        flags_match(flags@, l),
    ensures
        r == sales_revenue(l.sales@, l.return_items@, l.return_groups@, b, l.sales@.len()),
{
    let mut acc: i128 = 0;
    let mut t: usize = 0;
    while t < l.sales.len()
        invariant
            t <= l.sales.len(),
            flags_match(flags@, l),
            acc == sales_revenue(l.sales@, l.return_items@, l.return_groups@, b, t as nat),
            -t * 0x8000_0000_0000_0000 <= acc <= t * 0x8000_0000_0000_0000,
        decreases l.sales.len() - t,
    {
        if flags[t] && falls_in(l.sales[t].sold_at, b) {
            acc = acc + l.sales[t].total as i128;
        }
        t += 1;
    }
    acc
}

fn total_diff(groups: &Vec<ReturnRecord>, b: Bucket) -> (r: i128)
    ensures
        r == diff_sum(groups@, b, groups@.len()),
{
    let mut acc: i128 = 0;
    let mut t: usize = 0;
    while t < groups.len()
        invariant
            t <= groups.len(),
            acc == diff_sum(groups@, b, t as nat),
            -t * 0x8000_0000_0000_0000 <= acc <= t * 0x8000_0000_0000_0000,
        decreases groups.len() - t,
    {
        if falls_in(groups[t].created_at, b) {
            acc = acc + groups[t].diff as i128;
        }
        t += 1;
    }
    acc
}

fn total_expense(expenses: &Vec<Expense>, b: Bucket) -> (r: i128)
    ensures
        r == expense_sum(expenses@, b, expenses@.len()),
{
    let mut acc: i128 = 0;
    let mut t: usize = 0;
    while t < expenses.len()
        invariant
            t <= expenses.len(),
            acc == expense_sum(expenses@, b, t as nat),
            -t * 0x8000_0000_0000_0000 <= acc <= t * 0x8000_0000_0000_0000,
        decreases expenses.len() - t,
    {
        if falls_in(expenses[t].spent_at, b) {
            acc = acc + expenses[t].amount as i128;
        }
        t += 1;
    }
    acc
}

/// The current purchase price of a product; zero for a product that does not
/// exist.
pub fn buy_price(products: &Vec<Product>, barcode: &String) -> (r: i64)
    requires
        unique_barcodes(products@),
    ensures
        r == buy_price_of(products@, barcode@),
{
    match find_product(products, barcode) {
        Some(i) => products[i].buy_price,
        None => 0,
    }
}

/// What a line earns over the purchase price of its goods, where that fits
/// in 64 bits.
pub fn margin_of(unit_price: i64, buy: i64, qty: i64) -> (r: Option<i64>)
    ensures
        match r {
            Some(v) => v == margin(unit_price as int, buy as int, qty as int),
            None => !fits(margin(unit_price as int, buy as int, qty as int)),
        },
{
    let d: i128 = unit_price as i128 - buy as i128;
    let q: i128 = qty as i128;
    assert(-0x7fff_ffff_ffff_ffff_8000_0000_0000_0000 <= d * q
        <= 0x7fff_ffff_ffff_ffff_8000_0000_0000_0000) by (nonlinear_arith)
        requires
            -0xffff_ffff_ffff_ffff <= d <= 0xffff_ffff_ffff_ffff,
            -0x8000_0000_0000_0000 <= q <= 0x8000_0000_0000_0000,
    ;
    let wide: i128 = d * q;
    if wide < i64::MIN as i128 || wide > i64::MAX as i128 {
        None
    } else {
        Some(wide as i64)
    }
}

fn total_sales_margin(l: &Ledger, b: Bucket) -> (r: Option<i128>)
    requires
        unique_barcodes(l.products@),
    ensures
        match r {
            Some(v) => v == sales_margin(l.sales@, l.products@, b, l.sales@.len()) && forall|
                i: int,
            |
                0 <= i < l.sales@.len() && !(#[trigger] l.sales@[i]).voided && in_bucket(
                    l.sales@[i].sold_at,
                    b,
                ) ==> fits(sale_margin(l.sales@[i], l.products@)),
            None => !margins_fit(l, b),
        },
{
    let mut acc: i128 = 0;
    let mut t: usize = 0;
    while t < l.sales.len()
        invariant
            t <= l.sales.len(),
            unique_barcodes(l.products@),
            acc == sales_margin(l.sales@, l.products@, b, t as nat),
            -t * 0x8000_0000_0000_0000 <= acc <= t * 0x8000_0000_0000_0000,
            forall|i: int|
                0 <= i < t && !(#[trigger] l.sales@[i]).voided && in_bucket(
                    l.sales@[i].sold_at,
                    b,
                ) ==> fits(sale_margin(l.sales@[i], l.products@)),
        decreases l.sales.len() - t,
    {
        let s = &l.sales[t];
        if !s.voided && falls_in(s.sold_at, b) {
            let buy = buy_price(&l.products, &s.product_barcode);
            match margin_of(s.unit_price, buy, s.qty) {
                None => {
                    assert(!fits(sale_margin(l.sales@[t as int], l.products@)));
                    return None;
                },
                Some(v) => {
                    acc = acc + v as i128;
                },
            }
        }
        t += 1;
    }
    Some(acc)
}

fn total_given_margin(l: &Ledger, b: Bucket) -> (r: Option<i128>)
    requires
        unique_barcodes(l.products@),
    ensures
        match r {
            Some(v) => v == given_margin(
                l.exchange_items@,
                l.return_groups@,
                l.products@,
                b,
                l.exchange_items@.len(),
            ) && forall|i: int|
                0 <= i < l.exchange_items@.len() && group_recorded(
                    l.return_groups@,
                    (#[trigger] l.exchange_items@[i]).exchange_group_id@,
                    ReturnMode::Exchange,
                    b,
                ) ==> fits(exchange_margin(l.exchange_items@[i], l.products@)),
            None => !margins_fit(l, b),
        },
{
    let mut acc: i128 = 0;
    let mut t: usize = 0;
    while t < l.exchange_items.len()
        invariant
            t <= l.exchange_items.len(),
            unique_barcodes(l.products@),
            acc == given_margin(l.exchange_items@, l.return_groups@, l.products@, b, t as nat),
            -t * 0x8000_0000_0000_0000 <= acc <= t * 0x8000_0000_0000_0000,
            forall|i: int|
                0 <= i < t && group_recorded(
                    l.return_groups@,
                    (#[trigger] l.exchange_items@[i]).exchange_group_id@,
                    ReturnMode::Exchange,
                    b,
                ) ==> fits(exchange_margin(l.exchange_items@[i], l.products@)),
        decreases l.exchange_items.len() - t,
    {
        let it = &l.exchange_items[t];
        if is_group_recorded(&l.return_groups, &it.exchange_group_id, ReturnMode::Exchange, b) {
            let buy = buy_price(&l.products, &it.product_barcode);
            match margin_of(it.unit_price, buy, it.qty) {
                None => {
                    assert(!fits(exchange_margin(l.exchange_items@[t as int], l.products@)));
                    return None;
                },
                Some(v) => {
                    acc = acc + v as i128;
                },
            }
        }
        t += 1;
    }
    Some(acc)
}

fn total_returned_margin(l: &Ledger, b: Bucket) -> (r: Option<i128>)
    requires
        unique_barcodes(l.products@),
    ensures
        match r {
            Some(v) => v == returned_margin(
                l.return_items@,
                l.return_groups@,
                l.products@,
                b,
                l.return_items@.len(),
            ) && forall|i: int|
                0 <= i < l.return_items@.len() && group_recorded(
                    l.return_groups@,
                    (#[trigger] l.return_items@[i]).return_group_id@,
                    ReturnMode::Refund,
                    b,
                ) ==> fits(return_margin(l.return_items@[i], l.products@)),
            None => !margins_fit(l, b),
        },
{
    let mut acc: i128 = 0;
    let mut t: usize = 0;
    while t < l.return_items.len()
        invariant
            t <= l.return_items.len(),
            unique_barcodes(l.products@),
            acc == returned_margin(l.return_items@, l.return_groups@, l.products@, b, t as nat),
            -t * 0x8000_0000_0000_0000 <= acc <= t * 0x8000_0000_0000_0000,
            forall|i: int|
                0 <= i < t && group_recorded(
                    l.return_groups@,
                    (#[trigger] l.return_items@[i]).return_group_id@,
                    ReturnMode::Refund,
                    b,
                ) ==> fits(return_margin(l.return_items@[i], l.products@)),
        decreases l.return_items.len() - t,
    {
        let it = &l.return_items[t];
        if is_group_recorded(&l.return_groups, &it.return_group_id, ReturnMode::Refund, b) {
            let buy = buy_price(&l.products, &it.product_barcode);
            match margin_of(it.unit_price, buy, it.qty) {
                None => {
                    assert(!fits(return_margin(l.return_items@[t as int], l.products@)));
                    return None;
                },
                Some(v) => {
                    acc = acc + v as i128;
                },
            }
        }
        t += 1;
    }
    Some(acc)
}

/// Whether two optional group identifiers are the same text.
pub fn same_group(a: &Option<String>, b: &Option<String>) -> (r: bool)
    ensures
        r == (text_of(*a) == text_of(*b)),
{
    match a {
        Some(x) => match b {
            Some(y) => *x == *y,
            None => false,
        },
        None => b.is_none(),
    }
}

fn count_receipts(l: &Ledger, flags: &Vec<bool>, b: Bucket) -> (r: usize)
    requires
        flags_match(flags@, l),
    ensures
        r == receipts(l.sales@, l.return_items@, l.return_groups@, b, l.sales@.len()),
{
    let mut n: usize = 0;
    let mut t: usize = 0;
    while t < l.sales.len()
        invariant
            t <= l.sales.len(),
            flags_match(flags@, l),
            n == receipts(l.sales@, l.return_items@, l.return_groups@, b, t as nat),
            n <= t,
        decreases l.sales.len() - t,
    {
        let s = &l.sales[t];
        if flags[t] && falls_in(s.sold_at, b) && s.sale_group_id.is_some() {
            let mut seen = false;
            let mut j: usize = 0;
            while j < t
                invariant
                    j <= t,
                    t < l.sales.len(),
                    *s == l.sales@[t as int],
                    flags_match(flags@, l),
                    seen ==> !opens_receipt(
                        l.sales@,
                        l.return_items@,
                        l.return_groups@,
                        b,
                        t as int,
                    ),
                    !seen ==> forall|k: int|
                        0 <= k < j ==> !(#[trigger] on_receipt(
                            l.sales@,
                            l.return_items@,
                            l.return_groups@,
                            b,
                            k,
                        ) && text_of(l.sales@[k].sale_group_id) == text_of(
                            l.sales@[t as int].sale_group_id,
                        )),
                decreases t - j,
            {
                let o = &l.sales[j];
                if flags[j] && falls_in(o.sold_at, b) && o.sale_group_id.is_some() && same_group(
                    &o.sale_group_id,
                    &s.sale_group_id,
                ) {
                    assert(on_receipt(l.sales@, l.return_items@, l.return_groups@, b, j as int));
                    seen = true;
                }
                j += 1;
            }
            if !seen {
                assert(on_receipt(l.sales@, l.return_items@, l.return_groups@, b, t as int));
                assert(opens_receipt(l.sales@, l.return_items@, l.return_groups@, b, t as int));
                n += 1;
            }
        } else {
            assert(!on_receipt(l.sales@, l.return_items@, l.return_groups@, b, t as int));
        }
        t += 1;
    }
    n
}

/// The figures of a bucket, as exact numbers.
pub struct Figures {
    /// Units sold plus units given in exchanges minus units refunded.
    pub units: int,
    /// Revenue of the sale lines plus the price differences of the return
    /// groups.
    pub revenue: int,
    /// Margin of the sale lines plus margin of the exchange lines minus
    /// margin of the refunded lines.
    pub profit: int,
    /// Distinct receipts.
    pub receipts: int,
    /// Recorded expenses.
    pub expense: int,
}

/// The figures of a bucket.
pub open spec fn figures(l: &Ledger, b: Bucket) -> Figures {
    Figures {
        units: sold_units(l.sales@, b, l.sales@.len()) + given_units(
            l.exchange_items@,
            l.return_groups@,
            b,
            l.exchange_items@.len(),
        ) - returned_units(l.return_items@, l.return_groups@, b, l.return_items@.len()),
        revenue: sales_revenue(l.sales@, l.return_items@, l.return_groups@, b, l.sales@.len())
            + diff_sum(l.return_groups@, b, l.return_groups@.len()),
        profit: sales_margin(l.sales@, l.products@, b, l.sales@.len()) + given_margin(
            l.exchange_items@,
            l.return_groups@,
            l.products@,
            b,
            l.exchange_items@.len(),
        ) - returned_margin(
            l.return_items@,
            l.return_groups@,
            l.products@,
            b,
            l.return_items@.len(),
        ),
        receipts: receipts(l.sales@, l.return_items@, l.return_groups@, b, l.sales@.len()),
        expense: expense_sum(l.expenses@, b, l.expenses@.len()),
    }
}

/// Every sum that the figures of a bucket are made of fits in 64 bits.
pub open spec fn bucket_fits(l: &Ledger, b: Bucket) -> bool {
    let f = figures(l, b);
    &&& fits(sold_units(l.sales@, b, l.sales@.len()))
    &&& fits(given_units(l.exchange_items@, l.return_groups@, b, l.exchange_items@.len()))
    &&& fits(returned_units(l.return_items@, l.return_groups@, b, l.return_items@.len()))
    &&& fits(f.units)
    &&& fits(sales_revenue(l.sales@, l.return_items@, l.return_groups@, b, l.sales@.len()))
    &&& fits(diff_sum(l.return_groups@, b, l.return_groups@.len()))
    &&& fits(f.revenue)
    &&& margins_fit(l, b)
    &&& fits(sales_margin(l.sales@, l.products@, b, l.sales@.len()))
    &&& fits(
        given_margin(
            l.exchange_items@,
            l.return_groups@,
            l.products@,
            b,
            l.exchange_items@.len(),
        ),
    )
    &&& fits(
        returned_margin(
            l.return_items@,
            l.return_groups@,
            l.products@,
            b,
            l.return_items@.len(),
        ),
    )
    &&& fits(f.profit)
    &&& fits(f.expense)
    &&& fits(f.profit - f.expense)
    &&& f.receipts <= i64::MAX
}

/// The quotient of an amount by a positive count, rounded toward zero.
pub open spec fn toward_zero(a: int, n: int) -> int {
    if a >= 0 {
        a / n
    } else {
        -((-a) / n)
    }
}

/// The average basket: revenue per receipt, zero where there is no receipt.
pub open spec fn average(revenue: int, receipts: int) -> int {
    if receipts > 0 {
        toward_zero(revenue, receipts)
    } else {
        0
    }
}

/// The figures of a bucket as they are reported.
#[derive(Clone, Copy, Debug, PartialEq, Eq, Structural)]
pub struct Measured {
    /// Net quantity, never below zero.
    pub net_qty: i64,
    pub net_revenue: i64,
    pub gross_profit: i64,
    pub expense: i64,
    /// Gross profit minus expenses.
    pub net_profit: i64,
    pub avg_basket: i64,
}

/// The reported figures of a bucket.
pub open spec fn measured(l: &Ledger, b: Bucket) -> Measured {
    let f = figures(l, b);
    Measured {
        net_qty: (if f.units < 0 {
            0
        } else {
            f.units
        }) as i64,
        net_revenue: f.revenue as i64,
        gross_profit: f.profit as i64,
        expense: f.expense as i64,
        net_profit: (f.profit - f.expense) as i64,
        avg_basket: average(f.revenue, f.receipts) as i64,
    }
}

/// Narrows a wide sum to 64 bits.
pub fn narrow(x: i128) -> (r: Option<i64>)
    ensures
        match r {
            Some(v) => v == x,
            None => !fits(x as int),
        },
{
    if x < i64::MIN as i128 || x > i64::MAX as i128 {
        None
    } else {
        Some(x as i64)
    }
}

/// The average basket.
fn average_of(revenue: i64, receipts: i64) -> (r: i64)
    requires
        receipts >= 0,
    ensures
        r == average(revenue as int, receipts as int),
{
    if receipts <= 0 {
        0
    } else if revenue >= 0 {
        revenue / receipts
    } else {
        let up: i128 = -(revenue as i128);
        let q: i128 = up / receipts as i128;
        assert(0 <= q <= up) by (nonlinear_arith)
            requires
                q == up / (receipts as i128),
                up >= 0,
                receipts >= 1,
        ;
        (-q) as i64
    }
}

/// Computes the reported figures of a bucket. There is no result where one of
/// the sums leaves the 64-bit range.
pub fn measure(l: &Ledger, flags: &Vec<bool>, b: Bucket) -> (r: Option<Measured>)
    requires
        unique_barcodes(l.products@),
        flags_match(flags@, l),
    ensures
        match r {
            Some(m) => bucket_fits(l, b) && m == measured(l, b),
            None => !bucket_fits(l, b),
        },
{
    let sold = match narrow(total_sold_units(&l.sales, b)) {
        Some(v) => v,
        None => {
            return None;
        },
    };
    let given = match narrow(total_given_units(&l.exchange_items, &l.return_groups, b)) {
        Some(v) => v,
        None => {
            return None;
        },
    };
    let back = match narrow(total_returned_units(&l.return_items, &l.return_groups, b)) {
        Some(v) => v,
        None => {
            return None;
        },
    };
    let units = match narrow(sold as i128 + given as i128 - back as i128) {
        Some(v) => v,
        None => {
            return None;
        },
    };
    let earned = match narrow(total_sales_revenue(l, flags, b)) {
        Some(v) => v,
        None => {
            return None;
        },
    };
    let diffs = match narrow(total_diff(&l.return_groups, b)) {
        Some(v) => v,
        None => {
            return None;
        },
    };
    let revenue = match narrow(earned as i128 + diffs as i128) {
        Some(v) => v,
        None => {
            return None;
        },
    };
    let m_sales = match total_sales_margin(l, b) {
        Some(w) => match narrow(w) {
            Some(v) => v,
            None => {
                return None;
            },
        },
        None => {
            return None;
        },
    };
    let m_given = match total_given_margin(l, b) {
        Some(w) => match narrow(w) {
            Some(v) => v,
            None => {
                return None;
            },
        },
        None => {
            return None;
        },
    };
    let m_back = match total_returned_margin(l, b) {
        Some(w) => match narrow(w) {
            Some(v) => v,
            None => {
                return None;
            },
        },
        None => {
            return None;
        },
    };
    assert(margins_fit(l, b));
    let profit = match narrow(m_sales as i128 + m_given as i128 - m_back as i128) {
        Some(v) => v,
        None => {
            return None;
        },
    };
    let expense = match narrow(total_expense(&l.expenses, b)) {
        Some(v) => v,
        None => {
            return None;
        },
    };
    let net_profit = match narrow(profit as i128 - expense as i128) {
        Some(v) => v,
        None => {
            return None;
        },
    };
    let n = count_receipts(l, flags, b);
    if n as u64 > i64::MAX as u64 {
        return None;
    }
    let avg = average_of(revenue, n as i64);
    Some(
        Measured {
            net_qty: if units < 0 {
                0
            } else {
                units
            },
            net_revenue: revenue,
            gross_profit: profit,
            expense,
            net_profit,
            avg_basket: avg,
        },
    )
}

/// The headline figures: today and the current month.
#[derive(Clone, Copy, Debug, PartialEq, Eq, Structural)]
pub struct DashboardKpi {
    pub today_qty: i64,
    pub today_net_revenue: i64,
    pub month_gross_profit: i64,
    pub month_net_profit: i64,
    pub month_avg_basket: i64,
    pub month_expense: i64,
}

/// The figures of one day.
#[derive(Clone, Copy, Debug, PartialEq, Eq, Structural)]
pub struct DailyDashboardRow {
    pub day: Date,
    pub net_qty: i64,
    pub net_revenue: i64,
    pub gross_profit: i64,
    pub avg_basket: i64,
}

/// The figures of one month.
#[derive(Clone, Copy, Debug, PartialEq, Eq, Structural)]
pub struct MonthlyDashboardRow {
    pub period: Period,
    pub net_qty: i64,
    pub net_revenue: i64,
    pub gross_profit: i64,
    pub expense: i64,
    pub net_profit: i64,
    pub avg_basket: i64,
}

/// The dashboard: headline figures and the two series, oldest bucket first.
#[derive(Debug)]
pub struct DashboardSummary {
    pub kpi: DashboardKpi,
    pub daily: Vec<DailyDashboardRow>,
    pub monthly: Vec<MonthlyDashboardRow>,
}

/// The month a day lies in.
pub open spec fn month_of(d: Date) -> Period {
    Period { year: d.year, month: d.month }
}

/// The headline figures on the day `today`.
pub open spec fn kpi_of(l: &Ledger, today: Date) -> DashboardKpi {
    let day = measured(l, Bucket::Day(today));
    let month = measured(l, Bucket::Month(month_of(today)));
    DashboardKpi {
        today_qty: day.net_qty,
        today_net_revenue: day.net_revenue,
        month_gross_profit: month.gross_profit,
        month_net_profit: month.net_profit,
        month_avg_basket: month.avg_basket,
        month_expense: month.expense,
    }
}

/// A day without net quantity, net revenue and gross profit.
pub open spec fn quiet_day(m: Measured) -> bool {
    m.net_qty == 0 && m.net_revenue == 0 && m.gross_profit == 0
}

/// A month without net quantity, net revenue, gross profit and expenses.
pub open spec fn quiet_month(m: Measured) -> bool {
    m.net_qty == 0 && m.net_revenue == 0 && m.gross_profit == 0 && m.expense == 0
}

/// The row of one day.
pub open spec fn daily_row(l: &Ledger, day: Date) -> DailyDashboardRow {
    let m = measured(l, Bucket::Day(day));
    DailyDashboardRow {
        day,
        net_qty: m.net_qty,
        net_revenue: m.net_revenue,
        gross_profit: m.gross_profit,
        avg_basket: m.avg_basket,
    }
}

/// The row of one month.
pub open spec fn monthly_row(l: &Ledger, period: Period) -> MonthlyDashboardRow {
    let m = measured(l, Bucket::Month(period));
    MonthlyDashboardRow {
        period,
        net_qty: m.net_qty,
        net_revenue: m.net_revenue,
        gross_profit: m.gross_profit,
        expense: m.expense,
        net_profit: m.net_profit,
        avg_basket: m.avg_basket,
    }
}

/// The rows of the last `k` days up to `today`, oldest first, without the
/// quiet days.
pub open spec fn daily_series(l: &Ledger, today: Date, k: nat) -> Seq<DailyDashboardRow>
    decreases k,
{
    if k == 0 {
        Seq::empty()
    } else {
        let day = days_before(today, (k - 1) as nat);
        let rest = daily_series(l, today, (k - 1) as nat);
        if quiet_day(measured(l, Bucket::Day(day))) {
            rest
        } else {
            seq![daily_row(l, day)] + rest
        }
    }
}

/// The rows of the last `k` months up to that of `today`, oldest first,
/// without the quiet months.
pub open spec fn monthly_series(l: &Ledger, today: Date, k: nat) -> Seq<MonthlyDashboardRow>
    decreases k,
{
    if k == 0 {
        Seq::empty()
    } else {
        let period = period_before(today, (k - 1) as nat);
        let rest = monthly_series(l, today, (k - 1) as nat);
        if quiet_month(measured(l, Bucket::Month(period))) {
            rest
        } else {
            seq![monthly_row(l, period)] + rest
        }
    }
}

/// A window length held to its bounds.
pub open spec fn held(x: int, lo: int, hi: int) -> int {
    if x < lo {
        lo
    } else if x > hi {
        hi
    } else {
        x
    }
}

/// Every bucket that the dashboard looks at can be measured.
pub open spec fn dashboard_fits(l: &Ledger, today: Date, days: nat, months: nat) -> bool {
    &&& bucket_fits(l, Bucket::Day(today))
    &&& bucket_fits(l, Bucket::Month(month_of(today)))
    &&& forall|i: int|
        0 <= i < days ==> bucket_fits(l, Bucket::Day(#[trigger] days_before(today, i as nat)))
    &&& forall|j: int|
        0 <= j < months ==> bucket_fits(
            l,
            Bucket::Month(#[trigger] period_before(today, j as nat)),
        )
}

/// What the dashboard shows on the day `today`, with `days` held to 1..=90
/// and `months` to 1..=24.
pub open spec fn dashboard_shown(
    l: &Ledger,
    days: i64,
    months: i64,
    today: Date,
    s: &DashboardSummary,
) -> bool {
    let d = held(days as int, 1, 90) as nat;
    let m = held(months as int, 1, 24) as nat;
    &&& dashboard_fits(l, today, d, m)
    &&& s.kpi == kpi_of(l, today)
    &&& s.daily@ == daily_series(l, today, d)
    &&& s.monthly@ == monthly_series(l, today, m)
}

/// The rows are in calendar order, oldest day first, without a day twice.
pub open spec fn days_ascend(rows: Seq<DailyDashboardRow>) -> bool {
    forall|i: int, j: int|
        0 <= i < j < rows.len() ==> (#[trigger] rows[i]).day.key() < (#[trigger] rows[j]).day.key()
}

/// The rows are in calendar order, oldest month first, without a month twice.
pub open spec fn months_ascend(rows: Seq<MonthlyDashboardRow>) -> bool {
    forall|i: int, j: int|
        0 <= i < j < rows.len() ==> (#[trigger] rows[i]).period.key() < (
        #[trigger] rows[j]).period.key()
}

/// Computes the dashboard: the headline figures of today and of the current
/// month, one row for each of the last `days` days and one for each of the
/// last `months` months, oldest first. Quiet days and months get no row; the
/// headline figures are always there. Each series has at most one row for
/// each day or month of its window, in calendar order, as long as the window
/// does not reach back beyond the first day of the calendar. The only error is
/// a sum that leaves the 64-bit range.
pub fn get_dashboard_summary(l: &Ledger, days: i64, months: i64, today: Date) -> (r: Result<
    DashboardSummary,
    LedgerError,
>)
    requires
        l.readable(),
        today.valid(),
    ensures
        match r {
            Ok(s) => {
                &&& dashboard_shown(l, days, months, today, &s)
                &&& s.daily@.len() <= held(days as int, 1, 90)
                &&& s.monthly@.len() <= held(months as int, 1, 24)
                &&& held(days as int, 1, 90) <= day_number(today) ==> days_ascend(s.daily@)
                &&& held(months as int, 1, 24) <= month_index(
                    today.year as int,
                    today.month as int,
                ) + 1 ==> months_ascend(s.monthly@)
            },
            Err(e) => e@ == ErrorView::OutOfRange && !dashboard_fits(
                l,
                today,
                held(days as int, 1, 90) as nat,
                held(months as int, 1, 24) as nat,
            ),
        },
{
    let d: usize = if days < 1 {
        1
    } else if days > 90 {
        90
    } else {
        days as usize
    };
    let m: u8 = if months < 1 {
        1
    } else if months > 24 {
        24
    } else {
        months as u8
    };
    let flags = earning_flags(l);
    let day_m = match measure(l, &flags, Bucket::Day(today)) {
        Some(v) => v,
        None => {
            return Err(LedgerError::OutOfRange);
        },
    };
    let month_m = match measure(
        l,
        &flags,
        Bucket::Month(Period { year: today.year, month: today.month }),
    ) {
        Some(v) => v,
        None => {
            return Err(LedgerError::OutOfRange);
        },
    };
    // The days of the window, most recent first.
    let mut dates: Vec<Date> = Vec::new();
    let mut cur = today;
    let mut i: usize = 0;
    while i < d
        invariant
            i <= d,
            dates@.len() == i,
            cur == days_before(today, i as nat),
            forall|k: int| 0 <= k < i ==> #[trigger] dates@[k] == days_before(today, k as nat),
        decreases d - i,
    {
        dates.push(cur);
        cur = prev_day(cur);
        i += 1;
    }
    let mut daily: Vec<DailyDashboardRow> = Vec::new();
    let mut a: usize = d;
    assert(daily@ + daily_series(l, today, a as nat) =~= daily_series(l, today, d as nat));
    while a > 0
        invariant
            a <= d,
            d == held(days as int, 1, 90),
            dates@.len() == d,
            unique_barcodes(l.products@),
            flags_match(flags@, l),
            forall|k: int| 0 <= k < d ==> #[trigger] dates@[k] == days_before(today, k as nat),
            daily@ + daily_series(l, today, a as nat) == daily_series(l, today, d as nat),
            forall|k: int|
                a <= k < d ==> bucket_fits(l, Bucket::Day(#[trigger] days_before(today, k as nat))),
        decreases a,
    {
        a -= 1;
        let day = dates[a];
        let ghost before = daily@;
        match measure(l, &flags, Bucket::Day(day)) {
            None => {
                assert(!bucket_fits(l, Bucket::Day(days_before(today, a as nat))));
                return Err(LedgerError::OutOfRange);
            },
            Some(v) => {
                if !(v.net_qty == 0 && v.net_revenue == 0 && v.gross_profit == 0) {
                    daily.push(
                        DailyDashboardRow {
                            day,
                            net_qty: v.net_qty,
                            net_revenue: v.net_revenue,
                            gross_profit: v.gross_profit,
                            avg_basket: v.avg_basket,
                        },
                    );
                }
            },
        }
        assert(daily@ + daily_series(l, today, a as nat) =~= before + daily_series(
            l,
            today,
            (a + 1) as nat,
        ));
    }
    assert(daily@ + daily_series(l, today, 0) =~= daily@);
    let mut monthly: Vec<MonthlyDashboardRow> = Vec::new();
    let mut c: u8 = m;
    assert(monthly@ + monthly_series(l, today, c as nat) =~= monthly_series(l, today, m as nat));
    while c > 0
        invariant
            c <= m,
            m == held(months as int, 1, 24),
            today.valid(),
            unique_barcodes(l.products@),
            flags_match(flags@, l),
            monthly@ + monthly_series(l, today, c as nat) == monthly_series(l, today, m as nat),
            forall|k: int|
                c <= k < m ==> bucket_fits(
                    l,
                    Bucket::Month(#[trigger] period_before(today, k as nat)),
                ),
        decreases c,
    {
        c -= 1;
        let period = period_back(today, c);
        let ghost before = monthly@;
        match measure(l, &flags, Bucket::Month(period)) {
            None => {
                assert(!bucket_fits(l, Bucket::Month(period_before(today, c as nat))));
                return Err(LedgerError::OutOfRange);
            },
            Some(v) => {
                if !(v.net_qty == 0 && v.net_revenue == 0 && v.gross_profit == 0 && v.expense
                    == 0) {
                    monthly.push(
                        MonthlyDashboardRow {
                            period,
                            net_qty: v.net_qty,
                            net_revenue: v.net_revenue,
                            gross_profit: v.gross_profit,
                            expense: v.expense,
                            net_profit: v.net_profit,
                            avg_basket: v.avg_basket,
                        },
                    );
                }
            },
        }
        assert(monthly@ + monthly_series(l, today, c as nat) =~= before + monthly_series(
            l,
            today,
            (c + 1) as nat,
        ));
    }
    assert(monthly@ + monthly_series(l, today, 0) =~= monthly@);
    proof {
        crate::laws::law_quiet_months_have_no_row(l, today, m as nat);
        if d <= day_number(today) {
            crate::laws::law_daily_series_ascends(l, today, d as nat);
        }
        if m <= month_index(today.year as int, today.month as int) + 1 {
            crate::laws::law_monthly_series_ascends(l, today, m as nat);
        }
        crate::laws::law_series_lengths(l, today, d as nat, m as nat);
    }
    let kpi = DashboardKpi {
        today_qty: day_m.net_qty,
        today_net_revenue: day_m.net_revenue,
        month_gross_profit: month_m.gross_profit,
        month_net_profit: month_m.net_profit,
        month_avg_basket: month_m.avg_basket,
        month_expense: month_m.expense,
    };
    Ok(DashboardSummary { kpi, daily, monthly })
}

} // verus!
