//! Listings of the history: the sale lines of a product, the lines of one
//! receipt, and the receipts of the last days.

use crate::clock::{day_number, day_number_of, Timestamp};
use crate::error::{ErrorView, LedgerError};
use crate::kinds::{Location, PaymentMethod, ReturnMode};
use crate::ledger::{
    lemma_refunded_nonnegative, refers_to, refunded, refunded_units, text_of, ExchangeItem,
    Ledger, ReturnItem, ReturnRecord, SaleRecord,
};
use crate::order::{orders, sorted_positions};
use crate::report::{fits, narrow, same_group};
use crate::stock::{find_product, has_barcode, position, unique_barcodes, Product};
use crate::catalog::{fold_char, folded, stored_text};
use crate::report::held;
use crate::text::{chars_of, norm_opt, same_text, trim, trimmed};
use vstd::prelude::*;
use vstd::string::*;

verus! {

/// The seconds of a timestamp, counted from the start of the day before the
/// first of January of year 0.
pub open spec fn stamp_number(t: Timestamp) -> int {
    day_number(t.date) * 86400 + t.hour * 3600 + t.minute * 60 + t.second
}

/// Whether a moment lies within the last `days` days before `now`.
pub open spec fn since(t: Timestamp, now: Timestamp, days: int) -> bool {
    stamp_number(t) >= stamp_number(now) - days * 86400
}

/// The seconds of a timestamp.
pub fn stamp_number_of(t: Timestamp) -> (n: i64)
    ensures
        n == stamp_number(t),
        0 <= n <= 4_000_000_000_000,
{
    day_number_of(t.date) * 86400 + t.hour as i64 * 3600 + t.minute as i64 * 60 + t.second as i64
}

/// Whether a moment lies within the last `days` days before `now`.
pub fn is_since(t: Timestamp, now: Timestamp, days: i64) -> (r: bool)
    ensures
        r == since(t, now, days as int),
{
    stamp_number_of(t) as i128 >= stamp_number_of(now) as i128 - days as i128 * 86400
}

/// One sale line of a product, as it is listed for a return.
#[derive(Clone, Copy, Debug, PartialEq, Eq, Structural)]
pub struct SaleLine {
    pub sold_at: Timestamp,
    pub qty: i64,
    pub unit_price: i64,
    pub total: i64,
    pub sold_from: Location,
    /// The units already refunded against the line.
    pub refunded_qty: i64,
}

/// A window of days, none of them negative.
pub open spec fn days_back(days: int) -> int {
    if days < 0 {
        0
    } else {
        days
    }
}

/// Whether a sale line is listed for a product: it is live, carries the
/// barcode (white space at the ends aside) and was sold within the window.
pub open spec fn line_listed(s: SaleRecord, barcode: Seq<char>, now: Timestamp, days: int) -> bool {
    &&& trimmed(s.product_barcode@) == trimmed(barcode)
    &&& !s.voided
    &&& since(s.sold_at, now, days_back(days))
}

/// A sale line as it is listed for a return.
pub open spec fn line_shown(s: SaleRecord, items: Seq<ReturnItem>) -> SaleLine {
    SaleLine {
        sold_at: s.sold_at,
        qty: s.qty,
        unit_price: s.unit_price,
        total: s.total,
        sold_from: s.sold_from,
        refunded_qty: refunded(items, s.id as int) as i64,
    }
}

/// The keys that order sale lines from the most recent to the oldest.
pub open spec fn recent_first(sales: Seq<SaleRecord>) -> Seq<i128> {
    Seq::new(sales.len(), |i: int| (-sales[i].sold_at.key()) as i128)
}

/// The listed lines among the first `n` positions of an order.
pub open spec fn lines_in(
    l: &Ledger,
    order: Seq<usize>,
    barcode: Seq<char>,
    now: Timestamp,
    days: int,
    n: nat,
) -> Seq<SaleLine>
    decreases n,
{
    if n == 0 {
        Seq::empty()
    } else {
        let rest = lines_in(l, order, barcode, now, days, (n - 1) as nat);
        let s = l.sales@[order[n - 1] as int];
        if line_listed(s, barcode, now, days) {
            rest.push(line_shown(s, l.return_items@))
        } else {
            rest
        }
    }
}

fn recent_first_keys(sales: &Vec<SaleRecord>) -> (keys: Vec<i128>)
    ensures
        keys@ == recent_first(sales@),
{
    let mut keys: Vec<i128> = Vec::new();
    let mut i: usize = 0;
    while i < sales.len()
        invariant
            i <= sales.len(),
            keys@.len() == i,
            forall|j: int| 0 <= j < i ==> #[trigger] keys@[j] == recent_first(sales@)[j],
        decreases sales.len() - i,
    {
        keys.push(-(sales[i].sold_at.rank() as i128));
        i += 1;
    }
    assert(keys@ =~= recent_first(sales@));
    keys
}

/// Lists the live sale lines of a product that were sold within the last
/// `days` days before `now`, the most recent first, each with the units
/// already refunded against it.
pub fn list_sales_by_barcode(l: &Ledger, barcode: &str, days: i64, now: Timestamp) -> (r: Vec<
    SaleLine,
>)
    requires
        l.readable(),
    ensures
        exists|order: Seq<usize>| #[trigger]
            orders(recent_first(l.sales@), order) && r@ == lines_in(
                l,
                order,
                barcode@,
                now,
                days as int,
                order.len(),
            ),
{
    let want = trim(barcode);
    let window: i64 = if days < 0 {
        0
    } else {
        days
    };
    let keys = recent_first_keys(&l.sales);
    let order = sorted_positions(&keys);
    let mut out: Vec<SaleLine> = Vec::new();
    let mut k: usize = 0;
    while k < order.len()
        invariant
            k <= order.len(),
            l.readable(),
            want@ == trimmed(barcode@),
            window == days_back(days as int),
            orders(recent_first(l.sales@), order@),
            out@ == lines_in(l, order@, barcode@, now, days as int, k as nat),
        decreases order.len() - k,
    {
        let s = &l.sales[order[k]];
        if !s.voided && same_text(trim(s.product_barcode.as_str()), want) && is_since(
            s.sold_at,
            now,
            window,
        ) {
            let done = refunded_units(&l.return_items, s.id);
            proof {
                lemma_refunded_nonnegative(l.return_items@, s.id as int);
                assert(refunded(l.return_items@, l.sales@[order@[k as int] as int].id as int)
                    <= l.sales@[order@[k as int] as int].qty);
            }
            out.push(
                SaleLine {
                    sold_at: s.sold_at,
                    qty: s.qty,
                    unit_price: s.unit_price,
                    total: s.total,
                    sold_from: s.sold_from,
                    refunded_qty: done as i64,
                },
            );
        }
        k += 1;
    }
    out
}

/// One line of a receipt, as it is listed.
#[derive(Debug)]
pub struct SaleLineRow {
    pub id: i64,
    pub sale_group_id: String,
    pub product_barcode: String,
    /// The name of the product; empty where the product is gone.
    pub name: String,
    pub qty: i64,
    pub list_price: i64,
    pub discount_amount: i64,
    pub unit_price: i64,
    pub total: i64,
    pub sold_at: Timestamp,
    pub sold_from: Location,
    pub payment_method: PaymentMethod,
    pub refunded_qty: i64,
    /// How units of the line came back, if any did.
    pub refund_kind: Option<ReturnMode>,
}

/// A line of a receipt with its texts as sequences of characters.
pub struct SaleLineRowView {
    pub id: int,
    pub sale_group_id: Seq<char>,
    pub product_barcode: Seq<char>,
    pub name: Seq<char>,
    pub qty: int,
    pub list_price: int,
    pub discount_amount: int,
    pub unit_price: int,
    pub total: int,
    pub sold_at: Timestamp,
    pub sold_from: Location,
    pub payment_method: PaymentMethod,
    pub refunded_qty: int,
    pub refund_kind: Option<ReturnMode>,
}

impl View for SaleLineRow {
    type V = SaleLineRowView;

    open spec fn view(&self) -> SaleLineRowView {
        SaleLineRowView {
            id: self.id as int,
            sale_group_id: self.sale_group_id@,
            product_barcode: self.product_barcode@,
            name: self.name@,
            qty: self.qty as int,
            list_price: self.list_price as int,
            discount_amount: self.discount_amount as int,
            unit_price: self.unit_price as int,
            total: self.total as int,
            sold_at: self.sold_at,
            sold_from: self.sold_from,
            payment_method: self.payment_method,
            refunded_qty: self.refunded_qty as int,
            refund_kind: self.refund_kind,
        }
    }
}

/// The name of the product with a barcode; empty where there is none.
pub open spec fn name_of(products: Seq<Product>, barcode: Seq<char>) -> Seq<char> {
    if has_barcode(products, barcode) {
        products[position(products, barcode)].name@
    } else {
        Seq::empty()
    }
}

/// Whether an identifier starts with a letter.
pub open spec fn starts_with(id: Seq<char>, c: char) -> bool {
    id.len() > 0 && id[0] == c
}

/// An exchange took units of the sale line back: a return line of an exchange
/// group references it.
pub open spec fn swapped(items: Seq<ReturnItem>, sale_id: int) -> bool {
    exists|i: int|
        0 <= i < items.len() && refers_to(#[trigger] items[i], sale_id) && starts_with(
            items[i].return_group_id@,
            'E',
        )
}

/// How units of a sale line came back: by an exchange, by a refund, or not
/// at all.
pub open spec fn refund_kind_of(items: Seq<ReturnItem>, sale_id: int) -> Option<ReturnMode> {
    if swapped(items, sale_id) {
        Some(ReturnMode::Exchange)
    } else if refunded(items, sale_id) > 0 {
        Some(ReturnMode::Refund)
    } else {
        None
    }
}

/// A sale line as it is listed on its receipt.
pub open spec fn receipt_line(l: &Ledger, s: SaleRecord, group: Seq<char>) -> SaleLineRowView {
    SaleLineRowView {
        id: s.id as int,
        sale_group_id: group,
        product_barcode: s.product_barcode@,
        name: name_of(l.products@, s.product_barcode@),
        qty: s.qty as int,
        list_price: s.list_price as int,
        discount_amount: s.discount_amount as int,
        unit_price: s.unit_price as int,
        total: s.total as int,
        sold_at: s.sold_at,
        sold_from: s.sold_from,
        payment_method: s.payment_method,
        refunded_qty: refunded(l.return_items@, s.id as int),
        refund_kind: refund_kind_of(l.return_items@, s.id as int),
    }
}

/// The lines of a receipt among the first `n` sale lines: the live lines of
/// the group, in the order they were recorded.
pub open spec fn receipt_lines(l: &Ledger, group: Seq<char>, n: nat) -> Seq<SaleLineRowView>
    decreases n,
{
    if n == 0 {
        Seq::empty()
    } else {
        let rest = receipt_lines(l, group, (n - 1) as nat);
        let s = l.sales@[n - 1];
        if !s.voided && text_of(s.sale_group_id) == Some(group) {
            rest.push(receipt_line(l, s, group))
        } else {
            rest
        }
    }
}

/// Some return group carries the identifier.
pub open spec fn group_exists(groups: Seq<ReturnRecord>, group: Seq<char>) -> bool {
    exists|i: int| 0 <= i < groups.len() && (#[trigger] groups[i]).return_group_id@ == group
}

/// Return group `i` is the first with the identifier.
pub open spec fn is_group(groups: Seq<ReturnRecord>, i: int, group: Seq<char>) -> bool {
    &&& 0 <= i < groups.len()
    &&& groups[i].return_group_id@ == group
    &&& forall|j: int| 0 <= j < i ==> (#[trigger] groups[j]).return_group_id@ != group
}

/// The first return group with the identifier.
pub open spec fn group_of(groups: Seq<ReturnRecord>, group: Seq<char>) -> ReturnRecord {
    groups[choose|i: int| is_group(groups, i, group)]
}

/// The payment method listed for an exchange: the one recorded, or card.
pub open spec fn method_listed(method: Option<PaymentMethod>) -> PaymentMethod {
    match method {
        Some(m) => m,
        None => PaymentMethod::Card,
    }
}

/// An exchange line as it is listed on its receipt.
pub open spec fn exchange_line(l: &Ledger, it: ExchangeItem, r: ReturnRecord) -> SaleLineRowView {
    SaleLineRowView {
        id: it.id as int,
        sale_group_id: it.exchange_group_id@,
        product_barcode: it.product_barcode@,
        name: name_of(l.products@, it.product_barcode@),
        qty: it.qty as int,
        list_price: 0,
        discount_amount: 0,
        unit_price: it.unit_price as int,
        total: it.total as int,
        sold_at: r.created_at,
        sold_from: it.sold_from,
        payment_method: method_listed(r.diff_payment_method),
        refunded_qty: 0,
        refund_kind: Some(ReturnMode::Exchange),
    }
}

/// The lines of an exchange among the first `n` exchange lines, in the order
/// they were recorded.
pub open spec fn exchange_lines(l: &Ledger, group: Seq<char>, n: nat) -> Seq<SaleLineRowView>
    decreases n,
{
    if n == 0 {
        Seq::empty()
    } else {
        let rest = exchange_lines(l, group, (n - 1) as nat);
        let it = l.exchange_items@[n - 1];
        if it.exchange_group_id@ == group {
            rest.push(exchange_line(l, it, group_of(l.return_groups@, group)))
        } else {
            rest
        }
    }
}

/// The lines of a receipt: those of a sale for an identifier that starts
/// with `S`; those of an exchange for one that starts with `E` and that a
/// return group carries; none otherwise.
pub open spec fn lines_of_group(l: &Ledger, group: Seq<char>) -> Seq<SaleLineRowView> {
    if starts_with(group, 'S') {
        receipt_lines(l, group, l.sales@.len())
    } else if starts_with(group, 'E') && group_exists(l.return_groups@, group) {
        exchange_lines(l, group, l.exchange_items@.len())
    } else {
        Seq::empty()
    }
}

/// The views of rows.
pub open spec fn row_views(rows: Seq<SaleLineRow>) -> Seq<SaleLineRowView> {
    Seq::new(rows.len(), |i: int| rows[i]@)
}

fn first_is(id: &str, c: char) -> (r: bool)
    ensures
        r == starts_with(id@, c),
{
    id.unicode_len() > 0 && id.get_char(0) == c
}

fn is_swapped(items: &Vec<ReturnItem>, sale_id: i64) -> (r: bool)
    ensures
        r == swapped(items@, sale_id as int),
{
    let mut i: usize = 0;
    while i < items.len()
        invariant
            i <= items.len(),
            forall|j: int|
                0 <= j < i ==> !(refers_to(#[trigger] items@[j], sale_id as int) && starts_with(
                    items@[j].return_group_id@,
                    'E',
                )),
        decreases items.len() - i,
    {
        let hit = match items[i].ref_sale_id {
            Some(x) => x == sale_id,
            None => false,
        };
        if hit && first_is(items[i].return_group_id.as_str(), 'E') {
            return true;
        }
        i += 1;
    }
    false
}

fn product_name(products: &Vec<Product>, barcode: &String) -> (r: String)
    requires
        unique_barcodes(products@),
    ensures
        r@ == name_of(products@, barcode@),
{
    match find_product(products, barcode) {
        Some(i) => products[i].name.clone(),
        None => String::new(),
    }
}

fn find_group(groups: &Vec<ReturnRecord>, group: &str) -> (r: Option<usize>)
    ensures
        match r {
            Some(i) => i < groups.len() && groups@[i as int] == group_of(groups@, group@)
                && group_exists(groups@, group@),
            None => !group_exists(groups@, group@),
        },
{
    let mut i: usize = 0;
    while i < groups.len()
        invariant
            i <= groups.len(),
            forall|j: int| 0 <= j < i ==> (#[trigger] groups@[j]).return_group_id@ != group@,
        decreases groups.len() - i,
    {
        if same_text(groups[i].return_group_id.as_str(), group) {
            proof {
                assert(is_group(groups@, i as int, group@));
                let c = choose|c: int| is_group(groups@, c, group@);
                if c < i {
                    assert(groups@[c].return_group_id@ != group@);
                } else if i < c {
                    assert(groups@[i as int].return_group_id@ != group@);
                }
            }
            return Some(i);
        }
        i += 1;
    }
    None
}

/// Lists the lines of one receipt, in the order they were recorded: the live
/// sale lines of a sale group, each with the units refunded against it and
/// how they came back, or the exchange lines of an exchange group.
pub fn list_sales_by_group(l: &Ledger, sale_group_id: &str) -> (r: Vec<SaleLineRow>)
    requires
        l.readable(),
    ensures
        row_views(r@) == lines_of_group(l, sale_group_id@),
{
    let mut out: Vec<SaleLineRow> = Vec::new();
    if first_is(sale_group_id, 'S') {
        let mut i: usize = 0;
        while i < l.sales.len()
            invariant
                i <= l.sales.len(),
                l.readable(),
                row_views(out@) == receipt_lines(l, sale_group_id@, i as nat),
            decreases l.sales.len() - i,
        {
            let s = &l.sales[i];
            let in_group = match &s.sale_group_id {
                Some(g) => same_text(g.as_str(), sale_group_id),
                None => false,
            };
            if !s.voided && in_group {
                let done = refunded_units(&l.return_items, s.id);
                proof {
                    lemma_refunded_nonnegative(l.return_items@, s.id as int);
                    assert(refunded(l.return_items@, l.sales@[i as int].id as int)
                        <= l.sales@[i as int].qty);
                }
                let kind = if is_swapped(&l.return_items, s.id) {
                    Some(ReturnMode::Exchange)
                } else if done > 0 {
                    Some(ReturnMode::Refund)
                } else {
                    None
                };
                let ghost before = out@;
                out.push(
                    SaleLineRow {
                        id: s.id,
                        sale_group_id: sale_group_id.to_owned(),
                        product_barcode: s.product_barcode.clone(),
                        name: product_name(&l.products, &s.product_barcode),
                        qty: s.qty,
                        list_price: s.list_price,
                        discount_amount: s.discount_amount,
                        unit_price: s.unit_price,
                        total: s.total,
                        sold_at: s.sold_at,
                        sold_from: s.sold_from,
                        payment_method: s.payment_method,
                        refunded_qty: done as i64,
                        refund_kind: kind,
                    },
                );
                assert(row_views(out@) =~= row_views(before).push(
                    receipt_line(l, l.sales@[i as int], sale_group_id@),
                ));
            }
            i += 1;
        }
        return out;
    }
    if first_is(sale_group_id, 'E') {
        let gi = match find_group(&l.return_groups, sale_group_id) {
            Some(gi) => gi,
            None => {
                assert(row_views(out@) =~= Seq::<SaleLineRowView>::empty());
                return out;
            },
        };
        let r = &l.return_groups[gi];
        let mut i: usize = 0;
        while i < l.exchange_items.len()
            invariant
                i <= l.exchange_items.len(),
                l.readable(),
                *r == group_of(l.return_groups@, sale_group_id@),
                row_views(out@) == exchange_lines(l, sale_group_id@, i as nat),
            decreases l.exchange_items.len() - i,
        {
            let it = &l.exchange_items[i];
            if same_text(it.exchange_group_id.as_str(), sale_group_id) {
                let ghost before = out@;
                out.push(
                    SaleLineRow {
                        id: it.id,
                        sale_group_id: it.exchange_group_id.clone(),
                        product_barcode: it.product_barcode.clone(),
                        name: product_name(&l.products, &it.product_barcode),
                        qty: it.qty,
                        list_price: 0,
                        discount_amount: 0,
                        unit_price: it.unit_price,
                        total: it.total,
                        sold_at: r.created_at,
                        sold_from: it.sold_from,
                        payment_method: match r.diff_payment_method {
                            Some(m) => m,
                            None => PaymentMethod::Card,
                        },
                        refunded_qty: 0,
                        refund_kind: Some(ReturnMode::Exchange),
                    },
                );
                assert(row_views(out@) =~= row_views(before).push(
                    exchange_line(l, l.exchange_items@[i as int], *r),
                ));
            }
            i += 1;
        }
        return out;
    }
    assert(row_views(out@) =~= Seq::<SaleLineRowView>::empty());
    out
}

/// Whether a receipt is a sale or an exchange.
#[derive(Clone, Copy, Debug, PartialEq, Eq, Structural)]
pub enum GroupKind {
    Sale,
    Exchange,
}

/// One receipt, as it is listed.
#[derive(Debug)]
pub struct SaleGroupRow {
    pub sale_group_id: String,
    pub sold_at: Timestamp,
    pub qty: i64,
    pub total: i64,
    pub payment_method: PaymentMethod,
    pub kind: GroupKind,
}

/// A receipt with its texts as sequences of characters.
pub struct SaleGroupRowView {
    pub sale_group_id: Seq<char>,
    pub sold_at: Timestamp,
    pub qty: int,
    pub total: int,
    pub payment_method: PaymentMethod,
    pub kind: GroupKind,
}

impl View for SaleGroupRow {
    type V = SaleGroupRowView;

    open spec fn view(&self) -> SaleGroupRowView {
        SaleGroupRowView {
            sale_group_id: self.sale_group_id@,
            sold_at: self.sold_at,
            qty: self.qty as int,
            total: self.total as int,
            payment_method: self.payment_method,
            kind: self.kind,
        }
    }
}

impl SaleGroupRow {
    /// A copy of the row.
    pub fn duplicate(&self) -> (r: SaleGroupRow)
        ensures
            r == *self,
    {
        SaleGroupRow {
            sale_group_id: self.sale_group_id.clone(),
            sold_at: self.sold_at,
            qty: self.qty,
            total: self.total,
            payment_method: self.payment_method,
            kind: self.kind,
        }
    }
}

/// Whether the needle stands in the text at position `k`, the case of ASCII
/// letters aside.
pub open spec fn found_at(hay: Seq<char>, needle: Seq<char>, k: int) -> bool {
    &&& 0 <= k
    &&& k + needle.len() <= hay.len()
    &&& forall|i: int| 0 <= i < needle.len() ==> folded(#[trigger] hay[k + i]) == folded(needle[i])
}

/// Whether the text holds the needle, the case of ASCII letters aside.
pub open spec fn holds_text(hay: Seq<char>, needle: Seq<char>) -> bool {
    exists|k: int| #[trigger] found_at(hay, needle, k)
}

/// Whether the goods of a line answer a search: their barcode, trimmed, or
/// the name of their product holds the needle.
pub open spec fn goods_answer(l: &Ledger, barcode: Seq<char>, needle: Seq<char>) -> bool {
    holds_text(trimmed(barcode), needle) || holds_text(name_of(l.products@, barcode), needle)
}

/// Whether a sale group answers a search: there is no needle, or one of its
/// lines does.
pub open spec fn sale_group_answers(
    l: &Ledger,
    group: Option<Seq<char>>,
    needle: Option<Seq<char>>,
) -> bool {
    needle is None || exists|j: int|
        0 <= j < l.sales@.len() && text_of((#[trigger] l.sales@[j]).sale_group_id) == group
            && goods_answer(l, l.sales@[j].product_barcode@, needle->Some_0)
}

/// Whether sale line `i` counts for the listing: it is live, belongs to a
/// group that answers the search, and was sold within the window.
pub open spec fn counts(
    l: &Ledger,
    i: int,
    needle: Option<Seq<char>>,
    now: Timestamp,
    days: int,
) -> bool {
    let s = l.sales@[i];
    &&& !s.voided
    &&& s.sale_group_id is Some
    &&& since(s.sold_at, now, days)
    &&& sale_group_answers(l, text_of(s.sale_group_id), needle)
}

/// Whether sale line `i` is the first line of its group that counts.
pub open spec fn leads(
    l: &Ledger,
    i: int,
    needle: Option<Seq<char>>,
    now: Timestamp,
    days: int,
) -> bool {
    &&& counts(l, i, needle, now, days)
    &&& forall|j: int|
        0 <= j < i ==> !(#[trigger] counts(l, j, needle, now, days) && text_of(
            l.sales@[j].sale_group_id,
        ) == text_of(l.sales@[i].sale_group_id))
}

/// Whether sale line `j` counts and belongs to the group.
pub open spec fn in_listed_group(
    l: &Ledger,
    j: int,
    group: Seq<char>,
    needle: Option<Seq<char>>,
    now: Timestamp,
    days: int,
) -> bool {
    counts(l, j, needle, now, days) && text_of(l.sales@[j].sale_group_id) == Some(group)
}

/// The units of a group among the first `n` sale lines.
pub open spec fn group_units(
    l: &Ledger,
    group: Seq<char>,
    needle: Option<Seq<char>>,
    now: Timestamp,
    days: int,
    n: nat,
) -> int
    decreases n,
{
    if n == 0 {
        0
    } else {
        group_units(l, group, needle, now, days, (n - 1) as nat) + if in_listed_group(
            l,
            n - 1,
            group,
            needle,
            now,
            days,
        ) {
            l.sales@[n - 1].qty as int
        } else {
            0
        }
    }
}

/// The value of a group among the first `n` sale lines.
pub open spec fn group_value(
    l: &Ledger,
    group: Seq<char>,
    needle: Option<Seq<char>>,
    now: Timestamp,
    days: int,
    n: nat,
) -> int
    decreases n,
{
    if n == 0 {
        0
    } else {
        group_value(l, group, needle, now, days, (n - 1) as nat) + if in_listed_group(
            l,
            n - 1,
            group,
            needle,
            now,
            days,
        ) {
            l.sales@[n - 1].total as int
        } else {
            0
        }
    }
}

/// The later of two moments.
pub open spec fn later(a: Timestamp, b: Timestamp) -> Timestamp {
    if b.key() > a.key() {
        b
    } else {
        a
    }
}

/// The latest moment of a group among the first `n` sale lines.
pub open spec fn group_latest(
    l: &Ledger,
    group: Seq<char>,
    needle: Option<Seq<char>>,
    now: Timestamp,
    days: int,
    n: nat,
) -> Option<Timestamp>
    decreases n,
{
    if n == 0 {
        None
    } else {
        let rest = group_latest(l, group, needle, now, days, (n - 1) as nat);
        if in_listed_group(l, n - 1, group, needle, now, days) {
            match rest {
                Some(t) => Some(later(t, l.sales@[n - 1].sold_at)),
                None => Some(l.sales@[n - 1].sold_at),
            }
        } else {
            rest
        }
    }
}

/// The place of a payment method in the order of their codes.
pub open spec fn method_rank(m: PaymentMethod) -> int {
    match m {
        PaymentMethod::Card => 0,
        PaymentMethod::Cash => 1,
        PaymentMethod::Transfer => 2,
    }
}

/// The payment method whose code comes last.
pub open spec fn greater_method(a: PaymentMethod, b: PaymentMethod) -> PaymentMethod {
    if method_rank(b) > method_rank(a) {
        b
    } else {
        a
    }
}

/// The payment method of a group among the first `n` sale lines: the one
/// whose code comes last.
pub open spec fn group_method(
    l: &Ledger,
    group: Seq<char>,
    needle: Option<Seq<char>>,
    now: Timestamp,
    days: int,
    n: nat,
) -> Option<PaymentMethod>
    decreases n,
{
    if n == 0 {
        None
    } else {
        let rest = group_method(l, group, needle, now, days, (n - 1) as nat);
        if in_listed_group(l, n - 1, group, needle, now, days) {
            match rest {
                Some(m) => Some(greater_method(m, l.sales@[n - 1].payment_method)),
                None => Some(l.sales@[n - 1].payment_method),
            }
        } else {
            rest
        }
    }
}

/// The row of the sale group that line `i` leads.
pub open spec fn sale_group_row(
    l: &Ledger,
    i: int,
    needle: Option<Seq<char>>,
    now: Timestamp,
    days: int,
) -> SaleGroupRowView {
    let g = l.sales@[i].sale_group_id->Some_0@;
    let n = l.sales@.len();
    SaleGroupRowView {
        sale_group_id: g,
        sold_at: group_latest(l, g, needle, now, days, n)->Some_0,
        qty: group_units(l, g, needle, now, days, n),
        total: group_value(l, g, needle, now, days, n),
        payment_method: group_method(l, g, needle, now, days, n)->Some_0,
        kind: GroupKind::Sale,
    }
}

/// The rows of the sale groups led by one of the first `n` sale lines.
pub open spec fn sale_group_rows(
    l: &Ledger,
    needle: Option<Seq<char>>,
    now: Timestamp,
    days: int,
    n: nat,
) -> Seq<SaleGroupRowView>
    decreases n,
{
    if n == 0 {
        Seq::empty()
    } else {
        let rest = sale_group_rows(l, needle, now, days, (n - 1) as nat);
        if leads(l, n - 1, needle, now, days) {
            rest.push(sale_group_row(l, n - 1, needle, now, days))
        } else {
            rest
        }
    }
}

/// The units of an exchange among the first `n` exchange lines.
pub open spec fn swap_units(items: Seq<ExchangeItem>, group: Seq<char>, n: nat) -> int
    decreases n,
{
    if n == 0 {
        0
    } else {
        swap_units(items, group, (n - 1) as nat) + if items[n - 1].exchange_group_id@ == group {
            items[n - 1].qty as int
        } else {
            0
        }
    }
}

/// The value of an exchange among the first `n` exchange lines.
pub open spec fn swap_value(items: Seq<ExchangeItem>, group: Seq<char>, n: nat) -> int
    decreases n,
{
    if n == 0 {
        0
    } else {
        swap_value(items, group, (n - 1) as nat) + if items[n - 1].exchange_group_id@ == group {
            items[n - 1].total as int
        } else {
            0
        }
    }
}

/// Whether an exchange has a line, and, where there is a needle, a line
/// that answers the search.
pub open spec fn swap_answers(l: &Ledger, group: Seq<char>, needle: Option<Seq<char>>) -> bool {
    exists|j: int|
        0 <= j < l.exchange_items@.len() && (#[trigger] l.exchange_items@[j]).exchange_group_id@
            == group && (needle is None || goods_answer(
            l,
            l.exchange_items@[j].product_barcode@,
            needle->Some_0,
        ))
}

/// Whether return group `i` counts for the listing: it is an exchange
/// recorded within the window that answers the search.
pub open spec fn swap_counts(
    l: &Ledger,
    i: int,
    needle: Option<Seq<char>>,
    now: Timestamp,
    days: int,
) -> bool {
    let r = l.return_groups@[i];
    &&& r.mode == ReturnMode::Exchange
    &&& since(r.created_at, now, days)
    &&& swap_answers(l, r.return_group_id@, needle)
}

/// The row of an exchange.
pub open spec fn swap_row(l: &Ledger, i: int) -> SaleGroupRowView {
    let r = l.return_groups@[i];
    let n = l.exchange_items@.len();
    SaleGroupRowView {
        sale_group_id: r.return_group_id@,
        sold_at: r.created_at,
        qty: swap_units(l.exchange_items@, r.return_group_id@, n),
        total: swap_value(l.exchange_items@, r.return_group_id@, n),
        payment_method: method_listed(r.diff_payment_method),
        kind: GroupKind::Exchange,
    }
}

/// The rows of the exchanges among the first `n` return groups.
pub open spec fn swap_rows(
    l: &Ledger,
    needle: Option<Seq<char>>,
    now: Timestamp,
    days: int,
    n: nat,
) -> Seq<SaleGroupRowView>
    decreases n,
{
    if n == 0 {
        Seq::empty()
    } else {
        let rest = swap_rows(l, needle, now, days, (n - 1) as nat);
        if swap_counts(l, n - 1, needle, now, days) {
            rest.push(swap_row(l, n - 1))
        } else {
            rest
        }
    }
}

/// The rows of all receipts, before they are put in order: the sale groups,
/// then the exchanges.
pub open spec fn group_rows(
    l: &Ledger,
    needle: Option<Seq<char>>,
    now: Timestamp,
    days: int,
) -> Seq<SaleGroupRowView> {
    sale_group_rows(l, needle, now, days, l.sales@.len()) + swap_rows(
        l,
        needle,
        now,
        days,
        l.return_groups@.len(),
    )
}

/// The units and the value of every receipt fit in 64 bits.
pub open spec fn groups_fit(
    l: &Ledger,
    needle: Option<Seq<char>>,
    now: Timestamp,
    days: int,
) -> bool {
    &&& forall|i: int|
        0 <= i < l.sales@.len() && #[trigger] leads(l, i, needle, now, days) ==> fits(
            sale_group_row(l, i, needle, now, days).qty,
        ) && fits(sale_group_row(l, i, needle, now, days).total)
    &&& forall|i: int|
        0 <= i < l.return_groups@.len() && #[trigger] swap_counts(l, i, needle, now, days)
            ==> fits(swap_row(l, i).qty) && fits(swap_row(l, i).total)
}

/// The keys that order receipts from the most recent to the oldest.
pub open spec fn newest_first(rows: Seq<SaleGroupRowView>) -> Seq<i128> {
    Seq::new(rows.len(), |i: int| (-rows[i].sold_at.key()) as i128)
}

/// The receipts as they are listed: the rows of all receipts, the most
/// recent first; receipts of the same moment keep their order.
pub open spec fn groups_listed(
    l: &Ledger,
    needle: Option<Seq<char>>,
    now: Timestamp,
    days: int,
    rows: Seq<SaleGroupRow>,
) -> bool {
    let all = group_rows(l, needle, now, days);
    exists|order: Seq<usize>| #[trigger]
        orders(newest_first(all), order) && rows.len() == all.len() && forall|k: int|
            0 <= k < rows.len() ==> (#[trigger] rows[k])@ == all[order[k] as int]
}

/// Whether a text holds a needle, the case of ASCII letters aside.
pub fn text_holds(hay: &Vec<char>, needle: &Vec<char>) -> (r: bool)
    ensures
        r == holds_text(hay@, needle@),
{
    if needle.len() > hay.len() {
        assert forall|k: int| !#[trigger] found_at(hay@, needle@, k) by {
        }
        return false;
    }
    let last = hay.len() - needle.len();
    let mut k: usize = 0;
    while k <= last
        invariant
            k <= last + 1,
            last == hay.len() - needle.len(),
            needle.len() <= hay.len(),
            forall|j: int| 0 <= j < k ==> !#[trigger] found_at(hay@, needle@, j),
        decreases last + 1 - k,
    {
        let mut i: usize = 0;
        let mut same = true;
        while i < needle.len() && same
            invariant
                i <= needle.len(),
                k <= last,
                last == hay.len() - needle.len(),
                needle.len() <= hay.len(),
                same ==> forall|j: int|
                    0 <= j < i ==> folded(#[trigger] hay@[k + j]) == folded(needle@[j]),
                !same ==> !found_at(hay@, needle@, k as int),
            decreases needle.len() - i + if same { 1int } else { 0int },
        {
            if fold_char(hay[k + i]) != fold_char(needle[i]) {
                same = false;
                assert(folded(hay@[k + i]) != folded(needle@[i as int]));
            } else {
                i += 1;
            }
        }
        if same {
            assert(found_at(hay@, needle@, k as int));
            return true;
        }
        k += 1;
    }
    assert forall|j: int| !#[trigger] found_at(hay@, needle@, j) by {
    }
    false
}

fn goods_hit(l: &Ledger, barcode: &String, needle: &Vec<char>) -> (r: bool)
    requires
        unique_barcodes(l.products@),
    ensures
        r == goods_answer(l, barcode@, needle@),
{
    let code = chars_of(trim(barcode.as_str()));
    if text_holds(&code, needle) {
        return true;
    }
    let name = product_name(&l.products, barcode);
    let name_chars = chars_of(name.as_str());
    text_holds(&name_chars, needle)
}

/// The view of an optional needle.
pub open spec fn needle_view(needle: Option<Vec<char>>) -> Option<Seq<char>> {
    match needle {
        Some(n) => Some(n@),
        None => None,
    }
}

fn sale_answers(l: &Ledger, hits: &Vec<bool>, group: &Option<String>, needle: &Option<Vec<char>>)
    -> (r: bool)
    requires
        hits@.len() == l.sales@.len(),
        *needle is Some ==> forall|j: int|
            0 <= j < l.sales@.len() ==> #[trigger] hits@[j] == goods_answer(
                l,
                l.sales@[j].product_barcode@,
                needle->Some_0@,
            ),
    ensures
        r == sale_group_answers(l, text_of(*group), needle_view(*needle)),
{
    if needle.is_none() {
        return true;
    }
    let mut j: usize = 0;
    while j < l.sales.len()
        invariant
            j <= l.sales.len(),
            *needle is Some,
            hits@.len() == l.sales@.len(),
            forall|k: int|
                0 <= k < l.sales@.len() ==> #[trigger] hits@[k] == goods_answer(
                    l,
                    l.sales@[k].product_barcode@,
                    needle->Some_0@,
                ),
            forall|k: int|
                0 <= k < j ==> !(text_of((#[trigger] l.sales@[k]).sale_group_id) == text_of(*group)
                    && goods_answer(l, l.sales@[k].product_barcode@, needle->Some_0@)),
        decreases l.sales.len() - j,
    {
        if hits[j] && same_group(&l.sales[j].sale_group_id, group) {
            return true;
        }
        j += 1;
    }
    false
}

/// The flags say of every sale line whether it counts for the listing.
pub open spec fn flags_count(
    flags: Seq<bool>,
    l: &Ledger,
    needle: Option<Seq<char>>,
    now: Timestamp,
    days: int,
) -> bool {
    &&& flags.len() == l.sales@.len()
    &&& forall|i: int|
        0 <= i < l.sales@.len() ==> #[trigger] flags[i] == counts(l, i, needle, now, days)
}

/// What a sale group adds up to.
struct GroupSums {
    units: i128,
    value: i128,
    latest: Timestamp,
    method: PaymentMethod,
}

fn method_place(m: PaymentMethod) -> (r: u8)
    ensures
        r == method_rank(m),
{
    match m {
        PaymentMethod::Card => 0,
        PaymentMethod::Cash => 1,
        PaymentMethod::Transfer => 2,
    }
}

fn sum_group(
    l: &Ledger,
    flags: &Vec<bool>,
    i: usize,
    Ghost(needle): Ghost<Option<Seq<char>>>,
    now: Timestamp,
    Ghost(days): Ghost<int>,
) -> (r: GroupSums)
    requires
        i < l.sales@.len(),
        flags_count(flags@, l, needle, now, days),
        counts(l, i as int, needle, now, days),
    ensures
        ({
            let g = l.sales@[i as int].sale_group_id->Some_0@;
            let n = l.sales@.len();
            &&& r.units == group_units(l, g, needle, now, days, n)
            &&& r.value == group_value(l, g, needle, now, days, n)
            &&& group_latest(l, g, needle, now, days, n) == Some(r.latest)
            &&& group_method(l, g, needle, now, days, n) == Some(r.method)
        }),
{
    let ghost g = l.sales@[i as int].sale_group_id->Some_0@;
    let group = &l.sales[i].sale_group_id;
    let mut units: i128 = 0;
    let mut value: i128 = 0;
    let mut latest: Option<Timestamp> = None;
    let mut method: Option<PaymentMethod> = None;
    let mut j: usize = 0;
    while j < l.sales.len()
        invariant
            j <= l.sales.len(),
            i < l.sales@.len(),
            flags_count(flags@, l, needle, now, days),
            counts(l, i as int, needle, now, days),
            *group == l.sales@[i as int].sale_group_id,
            g == l.sales@[i as int].sale_group_id->Some_0@,
            units == group_units(l, g, needle, now, days, j as nat),
            value == group_value(l, g, needle, now, days, j as nat),
            latest == group_latest(l, g, needle, now, days, j as nat),
            method == group_method(l, g, needle, now, days, j as nat),
            -j * 0x8000_0000_0000_0000 <= units <= j * 0x8000_0000_0000_0000,
            -j * 0x8000_0000_0000_0000 <= value <= j * 0x8000_0000_0000_0000,
            j > i ==> latest is Some && method is Some,
        decreases l.sales.len() - j,
    {
        let s = &l.sales[j];
        if flags[j] && same_group(&s.sale_group_id, group) {
            assert(in_listed_group(l, j as int, g, needle, now, days));
            units = units + s.qty as i128;
            value = value + s.total as i128;
            latest = match latest {
                Some(t) => if s.sold_at.rank() > t.rank() {
                    Some(s.sold_at)
                } else {
                    Some(t)
                },
                None => Some(s.sold_at),
            };
            method = match method {
                Some(m) => if method_place(s.payment_method) > method_place(m) {
                    Some(s.payment_method)
                } else {
                    Some(m)
                },
                None => Some(s.payment_method),
            };
        } else {
            assert(!in_listed_group(l, j as int, g, needle, now, days));
        }
        j += 1;
    }
    GroupSums {
        units,
        value,
        latest: match latest {
            Some(t) => t,
            None => l.sales[i].sold_at,
        },
        method: match method {
            Some(m) => m,
            None => PaymentMethod::Card,
        },
    }
}

fn sum_swap(items: &Vec<ExchangeItem>, group: &String) -> (r: (i128, i128))
    ensures
        r.0 == swap_units(items@, group@, items@.len()),
        r.1 == swap_value(items@, group@, items@.len()),
{
    let mut units: i128 = 0;
    let mut value: i128 = 0;
    let mut j: usize = 0;
    while j < items.len()
        invariant
            j <= items.len(),
            units == swap_units(items@, group@, j as nat),
            value == swap_value(items@, group@, j as nat),
            -j * 0x8000_0000_0000_0000 <= units <= j * 0x8000_0000_0000_0000,
            -j * 0x8000_0000_0000_0000 <= value <= j * 0x8000_0000_0000_0000,
        decreases items.len() - j,
    {
        if items[j].exchange_group_id == *group {
            units = units + items[j].qty as i128;
            value = value + items[j].total as i128;
        }
        j += 1;
    }
    (units, value)
}

fn swap_hit(l: &Ledger, group: &String, needle: &Option<Vec<char>>) -> (r: bool)
    requires
        unique_barcodes(l.products@),
    ensures
        r == swap_answers(l, group@, needle_view(*needle)),
{
    let mut j: usize = 0;
    while j < l.exchange_items.len()
        invariant
            j <= l.exchange_items.len(),
            unique_barcodes(l.products@),
            forall|k: int|
                0 <= k < j ==> !((#[trigger] l.exchange_items@[k]).exchange_group_id@ == group@
                    && (needle_view(*needle) is None || goods_answer(
                    l,
                    l.exchange_items@[k].product_barcode@,
                    needle_view(*needle)->Some_0,
                ))),
        decreases l.exchange_items.len() - j,
    {
        let it = &l.exchange_items[j];
        if it.exchange_group_id == *group {
            let hit = match needle {
                None => true,
                Some(n) => goods_hit(l, &it.product_barcode, n),
            };
            if hit {
                return true;
            }
        }
        j += 1;
    }
    false
}

/// The views of receipt rows.
pub open spec fn group_views(rows: Seq<SaleGroupRow>) -> Seq<SaleGroupRowView> {
    Seq::new(rows.len(), |i: int| rows[i]@)
}

/// Lists the receipts of the last `days` days before `now`, with `days` held
/// to 1..=365: one row for each sale group and one for each exchange, the
/// most recent first. A sale group is shown with the units and the value of
/// its live lines; an exchange with those of the goods it handed out. Where a
/// search text is given, only receipts are listed of which a line carries it
/// in its barcode or in the name of its product. The only error is a sum that
/// leaves the 64-bit range.
pub fn list_sale_groups(l: &Ledger, days: i64, q: Option<String>, now: Timestamp) -> (r: Result<
    Vec<SaleGroupRow>,
    LedgerError,
>)
    requires
        l.readable(),
    ensures
        match r {
            Ok(rows) => groups_fit(l, stored_text(q), now, held(days as int, 1, 365))
                && groups_listed(l, stored_text(q), now, held(days as int, 1, 365), rows@),
            Err(e) => e@ == ErrorView::OutOfRange && !groups_fit(
                l,
                stored_text(q),
                now,
                held(days as int, 1, 365),
            ),
        },
{
    let window: i64 = if days < 1 {
        1
    } else if days > 365 {
        365
    } else {
        days
    };
    let ghost d = held(days as int, 1, 365);
    let ghost nv = stored_text(q);
    let needle: Option<Vec<char>> = match norm_opt(q) {
        Some(t) => Some(chars_of(t.as_str())),
        None => None,
    };
    assert(needle_view(needle) == nv);
    // Which sale lines answer the search on their own.
    let mut hits: Vec<bool> = Vec::new();
    let mut i: usize = 0;
    while i < l.sales.len()
        invariant
            i <= l.sales.len(),
            l.readable(),
            needle_view(needle) == nv,
            hits@.len() == i,
            needle is Some ==> forall|j: int|
                0 <= j < i ==> #[trigger] hits@[j] == goods_answer(
                    l,
                    l.sales@[j].product_barcode@,
                    needle->Some_0@,
                ),
        decreases l.sales.len() - i,
    {
        let hit = match &needle {
            Some(n) => goods_hit(l, &l.sales[i].product_barcode, n),
            None => false,
        };
        hits.push(hit);
        i += 1;
    }
    // Which sale lines count.
    let mut flags: Vec<bool> = Vec::new();
    let mut i: usize = 0;
    while i < l.sales.len()
        invariant
            i <= l.sales.len(),
            needle_view(needle) == nv,
            window == d,
            hits@.len() == l.sales@.len(),
            needle is Some ==> forall|j: int|
                0 <= j < l.sales@.len() ==> #[trigger] hits@[j] == goods_answer(
                    l,
                    l.sales@[j].product_barcode@,
                    needle->Some_0@,
                ),
            flags@.len() == i,
            forall|j: int| 0 <= j < i ==> #[trigger] flags@[j] == counts(l, j, nv, now, d),
        decreases l.sales.len() - i,
    {
        let s = &l.sales[i];
        let f = !s.voided && s.sale_group_id.is_some() && is_since(s.sold_at, now, window)
            && sale_answers(l, &hits, &s.sale_group_id, &needle);
        flags.push(f);
        i += 1;
    }
    assert(flags_count(flags@, l, nv, now, d));
    let mut rows: Vec<SaleGroupRow> = Vec::new();
    let mut i: usize = 0;
    while i < l.sales.len()
        invariant
            i <= l.sales.len(),
            flags_count(flags@, l, nv, now, d),
            d == held(days as int, 1, 365),
            nv == stored_text(q),
            group_views(rows@) == sale_group_rows(l, nv, now, d, i as nat),
            forall|k: int|
                0 <= k < i && #[trigger] leads(l, k, nv, now, d) ==> fits(
                    sale_group_row(l, k, nv, now, d).qty,
                ) && fits(sale_group_row(l, k, nv, now, d).total),
        decreases l.sales.len() - i,
    {
        if flags[i] {
            let mut seen = false;
            let mut j: usize = 0;
            while j < i
                invariant
                    j <= i,
                    i < l.sales.len(),
                    flags_count(flags@, l, nv, now, d),
                    seen ==> !leads(l, i as int, nv, now, d),
                    !seen ==> forall|k: int|
                        0 <= k < j ==> !(#[trigger] counts(l, k, nv, now, d) && text_of(
                            l.sales@[k].sale_group_id,
                        ) == text_of(l.sales@[i as int].sale_group_id)),
                decreases i - j,
            {
                if flags[j] && same_group(&l.sales[j].sale_group_id, &l.sales[i].sale_group_id) {
                    assert(counts(l, j as int, nv, now, d));
                    seen = true;
                }
                j += 1;
            }
            if !seen {
                assert(leads(l, i as int, nv, now, d));
                let sums = sum_group(l, &flags, i, Ghost(nv), now, Ghost(d));
                let qty = match narrow(sums.units) {
                    Some(v) => v,
                    None => {
                        return Err(LedgerError::OutOfRange);
                    },
                };
                let total = match narrow(sums.value) {
                    Some(v) => v,
                    None => {
                        return Err(LedgerError::OutOfRange);
                    },
                };
                let id = match &l.sales[i].sale_group_id {
                    Some(g) => g.clone(),
                    None => String::new(),
                };
                let ghost before = rows@;
                rows.push(
                    SaleGroupRow {
                        sale_group_id: id,
                        sold_at: sums.latest,
                        qty,
                        total,
                        payment_method: sums.method,
                        kind: GroupKind::Sale,
                    },
                );
                assert(group_views(rows@) =~= group_views(before).push(
                    sale_group_row(l, i as int, nv, now, d),
                ));
            }
        } else {
            assert(!counts(l, i as int, nv, now, d));
        }
        i += 1;
    }
    let ghost sale_part = rows@;
    let mut i: usize = 0;
    assert(group_views(rows@) =~= group_views(sale_part) + swap_rows(l, nv, now, d, 0));
    while i < l.return_groups.len()
        invariant
            i <= l.return_groups.len(),
            l.readable(),
            needle_view(needle) == nv,
            window == d,
            d == held(days as int, 1, 365),
            nv == stored_text(q),
            group_views(sale_part) == sale_group_rows(l, nv, now, d, l.sales@.len()),
            forall|k: int|
                0 <= k < l.sales@.len() && #[trigger] leads(l, k, nv, now, d) ==> fits(
                    sale_group_row(l, k, nv, now, d).qty,
                ) && fits(sale_group_row(l, k, nv, now, d).total),
            group_views(rows@) == group_views(sale_part) + swap_rows(l, nv, now, d, i as nat),
            forall|k: int|
                0 <= k < i && #[trigger] swap_counts(l, k, nv, now, d) ==> fits(
                    swap_row(l, k).qty,
                ) && fits(swap_row(l, k).total),
        decreases l.return_groups.len() - i,
    {
        let r = &l.return_groups[i];
        if r.mode == ReturnMode::Exchange && is_since(r.created_at, now, window) && swap_hit(
            l,
            &r.return_group_id,
            &needle,
        ) {
            assert(swap_counts(l, i as int, nv, now, d));
            let (units, value) = sum_swap(&l.exchange_items, &r.return_group_id);
            let qty = match narrow(units) {
                Some(v) => v,
                None => {
                    return Err(LedgerError::OutOfRange);
                },
            };
            let total = match narrow(value) {
                Some(v) => v,
                None => {
                    return Err(LedgerError::OutOfRange);
                },
            };
            let ghost before = rows@;
            rows.push(
                SaleGroupRow {
                    sale_group_id: r.return_group_id.clone(),
                    sold_at: r.created_at,
                    qty,
                    total,
                    payment_method: match r.diff_payment_method {
                        Some(m) => m,
                        None => PaymentMethod::Card,
                    },
                    kind: GroupKind::Exchange,
                },
            );
            assert(rows@.last()@ == swap_row(l, i as int));
            assert(group_views(rows@) =~= group_views(before).push(swap_row(l, i as int)));
            assert(swap_rows(l, nv, now, d, (i + 1) as nat) == swap_rows(
                l,
                nv,
                now,
                d,
                i as nat,
            ).push(swap_row(l, i as int)));
            assert(group_views(rows@) =~= group_views(sale_part) + swap_rows(
                l,
                nv,
                now,
                d,
                (i + 1) as nat,
            ));
        } else {
            assert(!swap_counts(l, i as int, nv, now, d));
        }
        i += 1;
    }
    assert(group_views(rows@) == group_rows(l, nv, now, d));
    assert(groups_fit(l, nv, now, d));
    let mut keys: Vec<i128> = Vec::new();
    let mut i: usize = 0;
    while i < rows.len()
        invariant
            i <= rows.len(),
            keys@.len() == i,
            forall|j: int|
                0 <= j < i ==> #[trigger] keys@[j] == newest_first(group_views(rows@))[j],
        decreases rows.len() - i,
    {
        keys.push(-(rows[i].sold_at.rank() as i128));
        i += 1;
    }
    assert(keys@ =~= newest_first(group_views(rows@)));
    let order = sorted_positions(&keys);
    let mut out: Vec<SaleGroupRow> = Vec::new();
    let mut k: usize = 0;
    while k < order.len()
        invariant
            k <= order.len(),
            orders(newest_first(group_views(rows@)), order@),
            out@.len() == k,
            forall|j: int|
                0 <= j < k ==> (#[trigger] out@[j])@ == group_views(rows@)[order@[j] as int],
        decreases order.len() - k,
    {
        out.push(rows[order[k]].duplicate());
        k += 1;
    }
    assert(groups_listed(l, nv, now, d, out@));
    Ok(out)
}

} // verus!
