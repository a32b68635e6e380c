//! The ledger: current product rows plus the append-only history of sales,
//! returns, exchanges and transfers, with the invariants that every committed
//! operation preserves.

use crate::clock::Timestamp;
use crate::kinds::{Location, PaymentMethod, ReturnMode};
use crate::stock::{
    find_product, has_barcode, lemma_barcode_kept, same_barcodes, stocks_nonnegative,
    unique_barcodes, Product,
};
use vstd::prelude::*;

verus! {

/// The text of an optional string.
pub open spec fn text_of(o: Option<String>) -> Option<Seq<char>> {
    match o {
        Some(s) => Some(s@),
        None => None,
    }
}

/// One line of a receipt.
#[derive(Debug)]
pub struct SaleRecord {
    pub id: i64,
    pub product_barcode: String,
    pub qty: i64,
    pub list_price: i64,
    pub discount_amount: i64,
    pub unit_price: i64,
    pub total: i64,
    pub sale_group_id: Option<String>,
    pub sold_from: Location,
    pub voided: bool,
    pub payment_method: PaymentMethod,
    pub sold_at: Timestamp,
}

/// A sale line with its texts as sequences of characters.
pub struct SaleRecordView {
    pub id: int,
    pub product_barcode: Seq<char>,
    pub qty: int,
    pub list_price: int,
    pub discount_amount: int,
    pub unit_price: int,
    pub total: int,
    pub sale_group_id: Option<Seq<char>>,
    pub sold_from: Location,
    pub voided: bool,
    pub payment_method: PaymentMethod,
    pub sold_at: Timestamp,
}

impl View for SaleRecord {
    type V = SaleRecordView;

    open spec fn view(&self) -> SaleRecordView {
        SaleRecordView {
            id: self.id as int,
            product_barcode: self.product_barcode@,
            qty: self.qty as int,
            list_price: self.list_price as int,
            discount_amount: self.discount_amount as int,
            unit_price: self.unit_price as int,
            total: self.total as int,
            sale_group_id: text_of(self.sale_group_id),
            sold_from: self.sold_from,
            voided: self.voided,
            payment_method: self.payment_method,
            sold_at: self.sold_at,
        }
    }
}

impl SaleRecord {
    /// A copy of the sale line.
    pub fn duplicate(&self) -> (r: SaleRecord)
        ensures
            r == *self,
    {
        SaleRecord {
            id: self.id,
            product_barcode: self.product_barcode.clone(),
            qty: self.qty,
            list_price: self.list_price,
            discount_amount: self.discount_amount,
            unit_price: self.unit_price,
            total: self.total,
            sale_group_id: self.sale_group_id.clone(),
            sold_from: self.sold_from,
            voided: self.voided,
            payment_method: self.payment_method,
            sold_at: self.sold_at,
        }
    }
}

/// One refund or exchange transaction.
#[derive(Debug)]
pub struct ReturnRecord {
    pub return_group_id: String,
    pub mode: ReturnMode,
    pub returned_total: i64,
    pub given_total: i64,
    pub diff: i64,
    pub diff_payment_method: Option<PaymentMethod>,
    pub created_at: Timestamp,
}

/// A return group with its texts as sequences of characters.
pub struct ReturnRecordView {
    pub return_group_id: Seq<char>,
    pub mode: ReturnMode,
    pub returned_total: int,
    pub given_total: int,
    pub diff: int,
    pub diff_payment_method: Option<PaymentMethod>,
    pub created_at: Timestamp,
}

impl View for ReturnRecord {
    type V = ReturnRecordView;

    open spec fn view(&self) -> ReturnRecordView {
        ReturnRecordView {
            return_group_id: self.return_group_id@,
            mode: self.mode,
            returned_total: self.returned_total as int,
            given_total: self.given_total as int,
            diff: self.diff as int,
            diff_payment_method: self.diff_payment_method,
            created_at: self.created_at,
        }
    }
}

/// The goods that came back in a return group.
#[derive(Debug)]
pub struct ReturnItem {
    pub return_group_id: String,
    pub product_barcode: String,
    pub qty: i64,
    pub unit_price: i64,
    pub total: i64,
    pub return_to: Location,
    /// The sale line this refunds, where one was found.
    pub ref_sale_id: Option<i64>,
    pub ref_sold_at: Option<Timestamp>,
    pub ref_sold_from: Option<String>,
}

/// A return line with its texts as sequences of characters.
pub struct ReturnItemView {
    pub return_group_id: Seq<char>,
    pub product_barcode: Seq<char>,
    pub qty: int,
    pub unit_price: int,
    pub total: int,
    pub return_to: Location,
    pub ref_sale_id: Option<i64>,
    pub ref_sold_at: Option<Timestamp>,
    pub ref_sold_from: Option<Seq<char>>,
}

impl View for ReturnItem {
    type V = ReturnItemView;

    open spec fn view(&self) -> ReturnItemView {
        ReturnItemView {
            return_group_id: self.return_group_id@,
            product_barcode: self.product_barcode@,
            qty: self.qty as int,
            unit_price: self.unit_price as int,
            total: self.total as int,
            return_to: self.return_to,
            ref_sale_id: self.ref_sale_id,
            ref_sold_at: self.ref_sold_at,
            ref_sold_from: text_of(self.ref_sold_from),
        }
    }
}

/// The goods handed out in an exchange.
#[derive(Debug)]
pub struct ExchangeItem {
    pub id: i64,
    pub exchange_group_id: String,
    pub product_barcode: String,
    pub qty: i64,
    pub unit_price: i64,
    pub total: i64,
    pub sold_from: Location,
}

/// An exchange line with its texts as sequences of characters.
pub struct ExchangeItemView {
    pub id: int,
    pub exchange_group_id: Seq<char>,
    pub product_barcode: Seq<char>,
    pub qty: int,
    pub unit_price: int,
    pub total: int,
    pub sold_from: Location,
}

impl View for ExchangeItem {
    type V = ExchangeItemView;

    open spec fn view(&self) -> ExchangeItemView {
        ExchangeItemView {
            id: self.id as int,
            exchange_group_id: self.exchange_group_id@,
            product_barcode: self.product_barcode@,
            qty: self.qty as int,
            unit_price: self.unit_price as int,
            total: self.total as int,
            sold_from: self.sold_from,
        }
    }
}

/// One line of a stock transfer between the two locations.
#[derive(Debug)]
pub struct TransferRecord {
    pub product_barcode: String,
    pub qty: i64,
    pub from_loc: Location,
    pub to_loc: Location,
    pub transfer_group_id: Option<String>,
    pub note: Option<String>,
    pub transferred_at: Timestamp,
    pub voided: bool,
}

/// A transfer line with its texts as sequences of characters.
pub struct TransferRecordView {
    pub product_barcode: Seq<char>,
    pub qty: int,
    pub from_loc: Location,
    pub to_loc: Location,
    pub transfer_group_id: Option<Seq<char>>,
    pub note: Option<Seq<char>>,
    pub transferred_at: Timestamp,
    pub voided: bool,
}

impl View for TransferRecord {
    type V = TransferRecordView;

    open spec fn view(&self) -> TransferRecordView {
        TransferRecordView {
            product_barcode: self.product_barcode@,
            qty: self.qty as int,
            from_loc: self.from_loc,
            to_loc: self.to_loc,
            transfer_group_id: text_of(self.transfer_group_id),
            note: text_of(self.note),
            transferred_at: self.transferred_at,
            voided: self.voided,
        }
    }
}

/// A recorded expense.
#[derive(Debug)]
pub struct Expense {
    pub id: i64,
    pub spent_at: Timestamp,
    pub period: Option<String>,
    pub category: Option<String>,
    /// In minor units.
    pub amount: i64,
    pub note: Option<String>,
}

/// The whole state that the processors read and change.
#[derive(Debug)]
pub struct Ledger {
    pub products: Vec<Product>,
    /// Sale lines in the order they were recorded.
    pub sales: Vec<SaleRecord>,
    /// The identifier the next sale line gets.
    pub next_sale_id: i64,
    pub return_groups: Vec<ReturnRecord>,
    pub return_items: Vec<ReturnItem>,
    pub exchange_items: Vec<ExchangeItem>,
    pub next_exchange_item_id: i64,
    /// Transfer lines in the order they were recorded.
    pub transfers: Vec<TransferRecord>,
    pub expenses: Vec<Expense>,
    pub next_expense_id: i64,
}

/// Whether a return line references the sale line `sale_id`.
pub open spec fn refers_to(item: ReturnItem, sale_id: int) -> bool {
    match item.ref_sale_id {
        Some(r) => r as int == sale_id,
        None => false,
    }
}

/// The units already refunded against the sale line `sale_id`: the summed
/// quantity of the return lines that reference it.
pub open spec fn refunded(items: Seq<ReturnItem>, sale_id: int) -> int
    decreases items.len(),
{
    if items.len() == 0 {
        0
    } else {
        refunded(items.drop_last(), sale_id) + if refers_to(items.last(), sale_id) {
            items.last().qty as int
        } else {
            0
        }
    }
}

/// Sale lines are recorded with strictly increasing identifiers, all below
/// the next one to be given out.
pub open spec fn sale_ids_ordered(sales: Seq<SaleRecord>, next: int) -> bool {
    &&& forall|i: int, j: int|
        0 <= i < j < sales.len() ==> (#[trigger] sales[i]).id < (#[trigger] sales[j]).id
    &&& forall|i: int| 0 <= i < sales.len() ==> (#[trigger] sales[i]).id < next
}

/// Return lines reference only sale identifiers that were given out.
pub open spec fn refs_issued(items: Seq<ReturnItem>, next: int) -> bool {
    forall|i: int|
        0 <= i < items.len() && (#[trigger] items[i]).ref_sale_id is Some
            ==> items[i].ref_sale_id->Some_0 < next
}

/// Every sale line sold at least one unit of a product that exists.
pub open spec fn sales_sound(sales: Seq<SaleRecord>, products: Seq<Product>) -> bool {
    forall|i: int|
        0 <= i < sales.len() ==> (#[trigger] sales[i]).qty >= 1 && has_barcode(
            products,
            sales[i].product_barcode@,
        )
}

/// Every transfer line moved at least one unit of a product that exists.
pub open spec fn transfers_sound(transfers: Seq<TransferRecord>, products: Seq<Product>) -> bool {
    forall|i: int|
        0 <= i < transfers.len() ==> (#[trigger] transfers[i]).qty >= 1 && has_barcode(
            products,
            transfers[i].product_barcode@,
        )
}

/// Lines that name products that exist still do so among rows with the same
/// barcodes.
pub proof fn lemma_lines_stay_sound(
    sales: Seq<SaleRecord>,
    transfers: Seq<TransferRecord>,
    a: Seq<Product>,
    b: Seq<Product>,
)
    requires
        same_barcodes(a, b),
        sales_sound(sales, a),
        transfers_sound(transfers, a),
    ensures
        sales_sound(sales, b),
        transfers_sound(transfers, b),
{
    assert forall|i: int| 0 <= i < sales.len() implies (#[trigger] sales[i]).qty >= 1
        && has_barcode(b, sales[i].product_barcode@) by {
        lemma_barcode_kept(a, b, sales[i].product_barcode@);
    }
    assert forall|i: int| 0 <= i < transfers.len() implies (#[trigger] transfers[i]).qty >= 1
        && has_barcode(b, transfers[i].product_barcode@) by {
        lemma_barcode_kept(a, b, transfers[i].product_barcode@);
    }
}

/// Every return line brought back at least one unit.
pub open spec fn returns_positive(items: Seq<ReturnItem>) -> bool {
    forall|i: int| 0 <= i < items.len() ==> (#[trigger] items[i]).qty > 0
}

/// No sale line has more units refunded against it than it sold.
pub open spec fn refunds_bounded(sales: Seq<SaleRecord>, items: Seq<ReturnItem>) -> bool {
    forall|i: int|
        0 <= i < sales.len() ==> refunded(items, (#[trigger] sales[i]).id as int) <= sales[i].qty
}

impl Ledger {
    /// The invariant of the ledger: barcodes are unique, no location counter
    /// is negative, sale lines carry increasing identifiers, return lines
    /// reference only identifiers that were given out and bring back at least
    /// one unit each, no sale line is refunded beyond its quantity, and every
    /// sale line and transfer line moved at least one unit of a product that
    /// exists.
    pub open spec fn wf(&self) -> bool {
        &&& unique_barcodes(self.products@)
        &&& stocks_nonnegative(self.products@)
        &&& sale_ids_ordered(self.sales@, self.next_sale_id as int)
        &&& refs_issued(self.return_items@, self.next_sale_id as int)
        &&& returns_positive(self.return_items@)
        &&& refunds_bounded(self.sales@, self.return_items@)
        &&& sales_sound(self.sales@, self.products@)
        &&& transfers_sound(self.transfers@, self.products@)
    }

    /// What the reports and listings need of a ledger: barcodes are unique,
    /// return lines bring back at least one unit each, and no sale line is
    /// refunded beyond its quantity. Every ledger that satisfies the
    /// invariant is readable.
    pub open spec fn readable(&self) -> bool {
        &&& unique_barcodes(self.products@)
        &&& returns_positive(self.return_items@)
        &&& refunds_bounded(self.sales@, self.return_items@)
    }

    /// The sale lines and their counter are those of `o`.
    pub open spec fn same_sales(&self, o: &Ledger) -> bool {
        self.sales == o.sales && self.next_sale_id == o.next_sale_id
    }

    /// The return groups, return lines and exchange lines are those of `o`.
    pub open spec fn same_returns(&self, o: &Ledger) -> bool {
        &&& self.return_groups == o.return_groups
        &&& self.return_items == o.return_items
        &&& self.exchange_items == o.exchange_items
        &&& self.next_exchange_item_id == o.next_exchange_item_id
    }

    /// The transfer lines are those of `o`.
    pub open spec fn same_transfers(&self, o: &Ledger) -> bool {
        self.transfers == o.transfers
    }

    /// The expenses and their counter are those of `o`.
    pub open spec fn same_expenses(&self, o: &Ledger) -> bool {
        self.expenses == o.expenses && self.next_expense_id == o.next_expense_id
    }

    /// An empty ledger.
    pub fn new() -> (l: Ledger)
        ensures
            l.wf(),
            l.products@.len() == 0,
            l.sales@.len() == 0,
            l.return_groups@.len() == 0,
            l.return_items@.len() == 0,
            l.exchange_items@.len() == 0,
            l.transfers@.len() == 0,
            l.expenses@.len() == 0,
            l.next_sale_id == 1,
            l.next_exchange_item_id == 1,
            l.next_expense_id == 1,
    {
        Ledger {
            products: Vec::new(),
            sales: Vec::new(),
            next_sale_id: 1,
            return_groups: Vec::new(),
            return_items: Vec::new(),
            exchange_items: Vec::new(),
            next_exchange_item_id: 1,
            transfers: Vec::new(),
            expenses: Vec::new(),
            next_expense_id: 1,
        }
    }
}

/// A return line that references another sale adds nothing to this one's
/// refunded units; one that references it adds its quantity.
pub proof fn lemma_refunded_push(items: Seq<ReturnItem>, item: ReturnItem, sale_id: int)
    ensures
        refunded(items.push(item), sale_id) == refunded(items, sale_id) + if refers_to(
            item,
            sale_id,
        ) {
            item.qty as int
        } else {
            0
        },
{
    assert(items.push(item).drop_last() =~= items);
    assert(items.push(item).last() == item);
}

/// Against a sale identifier that no return line references, nothing is
/// refunded.
pub proof fn lemma_refunded_none(items: Seq<ReturnItem>, sale_id: int)
    requires
        forall|i: int| 0 <= i < items.len() ==> !refers_to(#[trigger] items[i], sale_id),
    ensures
        refunded(items, sale_id) == 0,
    decreases items.len(),
{
    if items.len() > 0 {
        assert(items.last() == items[items.len() - 1]);
        lemma_refunded_none(items.drop_last(), sale_id);
    }
}

/// Refunded units are never negative.
pub proof fn lemma_refunded_nonnegative(items: Seq<ReturnItem>, sale_id: int)
    requires
        returns_positive(items),
    ensures
        0 <= refunded(items, sale_id),
    decreases items.len(),
{
    if items.len() > 0 {
        assert(items.last() == items[items.len() - 1]);
        assert forall|i: int| 0 <= i < items.drop_last().len() implies (
        #[trigger] items.drop_last()[i]).qty > 0 by {
            assert(items.drop_last()[i] == items[i]);
        }
        lemma_refunded_nonnegative(items.drop_last(), sale_id);
    }
}

/// One more return line adds its quantity to the refunded units of the sale
/// line it references, and to no other.
pub proof fn lemma_refunded_step(items: Seq<ReturnItem>, k: int, sale_id: int)
    requires
        0 <= k < items.len(),
    ensures
        refunded(items.take(k + 1), sale_id) == refunded(items.take(k), sale_id) + if refers_to(
            items[k],
            sale_id,
        ) {
            items[k].qty as int
        } else {
            0
        },
{
    let t = items.take(k + 1);
    assert(t.drop_last() =~= items.take(k));
    assert(t.last() == items[k]);
}

impl ReturnRecord {
    /// A copy of the return group.
    pub fn duplicate(&self) -> (r: ReturnRecord)
        ensures
            r == *self,
    {
        ReturnRecord {
            return_group_id: self.return_group_id.clone(),
            mode: self.mode,
            returned_total: self.returned_total,
            given_total: self.given_total,
            diff: self.diff,
            diff_payment_method: self.diff_payment_method,
            created_at: self.created_at,
        }
    }
}

impl ReturnItem {
    /// A copy of the return line.
    pub fn duplicate(&self) -> (r: ReturnItem)
        ensures
            r == *self,
    {
        ReturnItem {
            return_group_id: self.return_group_id.clone(),
            product_barcode: self.product_barcode.clone(),
            qty: self.qty,
            unit_price: self.unit_price,
            total: self.total,
            return_to: self.return_to,
            ref_sale_id: self.ref_sale_id,
            ref_sold_at: self.ref_sold_at,
            ref_sold_from: self.ref_sold_from.clone(),
        }
    }
}

impl ExchangeItem {
    /// A copy of the exchange line.
    pub fn duplicate(&self) -> (r: ExchangeItem)
        ensures
            r == *self,
    {
        ExchangeItem {
            id: self.id,
            exchange_group_id: self.exchange_group_id.clone(),
            product_barcode: self.product_barcode.clone(),
            qty: self.qty,
            unit_price: self.unit_price,
            total: self.total,
            sold_from: self.sold_from,
        }
    }
}

/// Sums the units already refunded against one sale line.
pub fn refunded_units(items: &Vec<ReturnItem>, sale_id: i64) -> (r: i128)
    ensures
        r == refunded(items@, sale_id as int),
{
    let mut acc: i128 = 0;
    let mut t: usize = 0;
    assert(items@.take(0) =~= Seq::<ReturnItem>::empty());
    while t < items.len()
        invariant
            t <= items.len(),
            acc == refunded(items@.take(t as int), sale_id as int),
            -t * 0x8000_0000_0000_0000 <= acc <= t * 0x8000_0000_0000_0000,
        decreases items.len() - t,
    {
        proof {
            lemma_refunded_step(items@, t as int, sale_id as int);
        }
        let hit = match items[t].ref_sale_id {
            Some(r) => r == sale_id,
            None => false,
        };
        if hit {
            acc = acc + items[t].qty as i128;
        }
        t += 1;
    }
    assert(items@.take(items.len() as int) =~= items@);
    acc
}

fn barcodes_unique(products: &Vec<Product>) -> (r: bool)
    ensures
        r == unique_barcodes(products@),
{
    let mut j: usize = 0;
    while j < products.len()
        invariant
            j <= products.len(),
            forall|a: int, b: int|
                0 <= a < b < j ==> (#[trigger] products@[a]).barcode@ != (
                #[trigger] products@[b]).barcode@,
        decreases products.len() - j,
    {
        let mut i: usize = 0;
        while i < j
            invariant
                i <= j,
                j < products.len(),
                forall|a: int| 0 <= a < i ==> (#[trigger] products@[a]).barcode@ != products@[j as int].barcode@,
            decreases j - i,
        {
            if products[i].barcode == products[j].barcode {
                return false;
            }
            i += 1;
        }
        j += 1;
    }
    true
}

fn counters_nonnegative(products: &Vec<Product>) -> (r: bool)
    ensures
        r == stocks_nonnegative(products@),
{
    let mut i: usize = 0;
    while i < products.len()
        invariant
            i <= products.len(),
            forall|a: int|
                0 <= a < i ==> (#[trigger] products@[a]).magaza_stok >= 0 && products@[a].depo_stok
                    >= 0,
        decreases products.len() - i,
    {
        if products[i].magaza_stok < 0 || products[i].depo_stok < 0 {
            return false;
        }
        i += 1;
    }
    true
}

fn sale_ids_in_order(sales: &Vec<SaleRecord>, next: i64) -> (r: bool)
    ensures
        r == sale_ids_ordered(sales@, next as int),
{
    let mut i: usize = 0;
    while i < sales.len()
        invariant
            i <= sales.len(),
            forall|a: int, b: int|
                0 <= a < b < i ==> (#[trigger] sales@[a]).id < (#[trigger] sales@[b]).id,
            forall|a: int| 0 <= a < i ==> (#[trigger] sales@[a]).id < next,
        decreases sales.len() - i,
    {
        if sales[i].id >= next {
            return false;
        }
        if i > 0 && sales[i - 1].id >= sales[i].id {
            return false;
        }
        proof {
            assert forall|a: int, b: int| 0 <= a < b < i + 1 implies (#[trigger] sales@[a]).id < (
            #[trigger] sales@[b]).id by {
                if b == i && a < i - 1 {
                    assert(sales@[a].id < sales@[i - 1].id);
                }
            }
        }
        i += 1;
    }
    true
}

fn return_lines_sound(items: &Vec<ReturnItem>, next: i64) -> (r: bool)
    ensures
        r == (refs_issued(items@, next as int) && returns_positive(items@)),
{
    let mut i: usize = 0;
    while i < items.len()
        invariant
            i <= items.len(),
            forall|a: int|
                0 <= a < i && (#[trigger] items@[a]).ref_sale_id is Some
                    ==> items@[a].ref_sale_id->Some_0 < next,
            forall|a: int| 0 <= a < i ==> (#[trigger] items@[a]).qty > 0,
        decreases items.len() - i,
    {
        if items[i].qty <= 0 {
            return false;
        }
        match items[i].ref_sale_id {
            Some(r) => {
                if r >= next {
                    return false;
                }
            },
            None => {},
        }
        i += 1;
    }
    true
}

fn refunds_within_bounds(sales: &Vec<SaleRecord>, items: &Vec<ReturnItem>) -> (r: bool)
    ensures
        r == refunds_bounded(sales@, items@),
{
    let mut i: usize = 0;
    while i < sales.len()
        invariant
            i <= sales.len(),
            forall|a: int|
                0 <= a < i ==> refunded(items@, (#[trigger] sales@[a]).id as int) <= sales@[a].qty,
        decreases sales.len() - i,
    {
        if refunded_units(items, sales[i].id) > sales[i].qty as i128 {
            return false;
        }
        i += 1;
    }
    true
}

fn sales_are_sound(sales: &Vec<SaleRecord>, products: &Vec<Product>) -> (r: bool)
    ensures
        r == sales_sound(sales@, products@),
{
    let mut i: usize = 0;
    while i < sales.len()
        invariant
            i <= sales.len(),
            forall|a: int|
                0 <= a < i ==> (#[trigger] sales@[a]).qty >= 1 && has_barcode(
                    products@,
                    sales@[a].product_barcode@,
                ),
        decreases sales.len() - i,
    {
        if sales[i].qty < 1 || find_product(products, &sales[i].product_barcode).is_none() {
            return false;
        }
        i += 1;
    }
    true
}

fn transfers_are_sound(transfers: &Vec<TransferRecord>, products: &Vec<Product>) -> (r: bool)
    ensures
        r == transfers_sound(transfers@, products@),
{
    let mut i: usize = 0;
    while i < transfers.len()
        invariant
            i <= transfers.len(),
            forall|a: int|
                0 <= a < i ==> (#[trigger] transfers@[a]).qty >= 1 && has_barcode(
                    products@,
                    transfers@[a].product_barcode@,
                ),
        decreases transfers.len() - i,
    {
        if transfers[i].qty < 1 || find_product(products, &transfers[i].product_barcode).is_none() {
            return false;
        }
        i += 1;
    }
    true
}

fn return_lines_positive(items: &Vec<ReturnItem>) -> (r: bool)
    ensures
        r == returns_positive(items@),
{
    let mut i: usize = 0;
    while i < items.len()
        invariant
            i <= items.len(),
            forall|a: int| 0 <= a < i ==> (#[trigger] items@[a]).qty > 0,
        decreases items.len() - i,
    {
        if items[i].qty <= 0 {
            return false;
        }
        i += 1;
    }
    true
}

impl Ledger {
    /// Checks what the reports and listings need of a ledger.
    pub fn is_readable(&self) -> (r: bool)
        ensures
            r == self.readable(),
            self.wf() ==> r,
    {
        barcodes_unique(&self.products) && return_lines_positive(&self.return_items)
            && refunds_within_bounds(&self.sales, &self.return_items)
    }

    /// Checks the invariant of the ledger. A ledger that was put together
    /// from stored rows is fit for the operations where this holds.
    pub fn is_wf(&self) -> (r: bool)
        ensures
            r == self.wf(),
    {
        barcodes_unique(&self.products) && counters_nonnegative(&self.products)
            && sale_ids_in_order(&self.sales, self.next_sale_id) && return_lines_sound(
            &self.return_items,
            self.next_sale_id,
        ) && refunds_within_bounds(&self.sales, &self.return_items) && sales_are_sound(
            &self.sales,
            &self.products,
        ) && transfers_are_sound(&self.transfers, &self.products)
    }
}

} // verus!
