//! The cash report: for each day of a window, what came in and went out by
//! cash and by card.

use crate::clock::{day_number, day_number_of, Date};
use crate::daylist::{ascending, holds, note_day};
use crate::error::{ErrorView, LedgerError};
use crate::kinds::{PaymentMethod, ReturnMode};
use crate::ledger::{Ledger, ReturnItem, ReturnRecord, SaleRecord};
use crate::report::{earning_flags, earns, fits, flags_match, narrow};
use vstd::prelude::*;

verus! {

/// One day of the cash report.
#[derive(Clone, Copy, Debug, PartialEq, Eq, Structural)]
pub struct CashReportRow {
    pub day: Date,
    pub cash_sales: i64,
    pub card_sales: i64,
    pub cash_refunds: i64,
    pub card_refunds: i64,
    pub cash_net: i64,
    pub card_net: i64,
    pub net_total: i64,
}

/// Whether a day lies in the window of the last `days` days up to `today`. A
/// negative window holds no day.
pub open spec fn within(d: Date, today: Date, days: int) -> bool {
    days >= 0 && day_number(d) >= day_number(today) - days
}

/// Whether a payment falls into the cash column; every other method falls
/// into the card column.
pub open spec fn by_cash(method: PaymentMethod) -> bool {
    method == PaymentMethod::Cash
}

/// Whether the difference of an exchange was paid in cash; a difference
/// without a recorded method counts as paid by card.
pub open spec fn diff_by_cash(method: Option<PaymentMethod>) -> bool {
    method == Some(PaymentMethod::Cash)
}

/// The totals of the first `n` sale lines that count as revenue, were sold on
/// the day and fall into the given column.
pub open spec fn sales_on(
    sales: Seq<SaleRecord>,
    items: Seq<ReturnItem>,
    groups: Seq<ReturnRecord>,
    d: Date,
    cash: bool,
    n: nat,
) -> int
    decreases n,
{
    if n == 0 {
        0
    } else {
        let s = sales[n - 1];
        sales_on(sales, items, groups, d, cash, (n - 1) as nat) + if earns(s, items, groups)
            && s.sold_at.date == d && by_cash(s.payment_method) == cash {
            s.total as int
        } else {
            0
        }
    }
}

/// The positive differences of the first `n` return groups that are
/// exchanges of the day and fall into the given column.
pub open spec fn paid_differences(groups: Seq<ReturnRecord>, d: Date, cash: bool, n: nat) -> int
    decreases n,
{
    if n == 0 {
        0
    } else {
        let r = groups[n - 1];
        paid_differences(groups, d, cash, (n - 1) as nat) + if r.mode == ReturnMode::Exchange
            && r.diff > 0 && r.created_at.date == d && diff_by_cash(r.diff_payment_method)
            == cash {
            r.diff as int
        } else {
            0
        }
    }
}

/// What the first `n` return groups gave back on the day: the returned total
/// of each refund, and the negative difference of each exchange.
pub open spec fn given_back(groups: Seq<ReturnRecord>, d: Date, n: nat) -> int
    decreases n,
{
    if n == 0 {
        0
    } else {
        let r = groups[n - 1];
        given_back(groups, d, (n - 1) as nat) + if r.created_at.date != d {
            0
        } else if r.mode == ReturnMode::Refund {
            r.returned_total as int
        } else if r.diff < 0 {
            -(r.diff as int)
        } else {
            0
        }
    }
}

/// What came in by cash on a day.
pub open spec fn cash_in(l: &Ledger, d: Date) -> int {
    sales_on(l.sales@, l.return_items@, l.return_groups@, d, true, l.sales@.len())
        + paid_differences(l.return_groups@, d, true, l.return_groups@.len())
}

/// What came in by card on a day.
pub open spec fn card_in(l: &Ledger, d: Date) -> int {
    sales_on(l.sales@, l.return_items@, l.return_groups@, d, false, l.sales@.len())
        + paid_differences(l.return_groups@, d, false, l.return_groups@.len())
}

/// What went out on a day; all of it counts as cash.
pub open spec fn cash_out(l: &Ledger, d: Date) -> int {
    given_back(l.return_groups@, d, l.return_groups@.len())
}

/// Every amount of the row of a day fits in 64 bits.
pub open spec fn cash_row_fits(l: &Ledger, d: Date) -> bool {
    &&& fits(cash_in(l, d))
    &&& fits(card_in(l, d))
    &&& fits(cash_out(l, d))
    &&& fits(cash_in(l, d) - cash_out(l, d))
    &&& fits(cash_in(l, d) - cash_out(l, d) + card_in(l, d))
}

/// The row of a day: sales and refunds by column, the net of each column,
/// and the net of both.
pub open spec fn cash_row(l: &Ledger, d: Date) -> CashReportRow {
    CashReportRow {
        day: d,
        cash_sales: cash_in(l, d) as i64,
        card_sales: card_in(l, d) as i64,
        cash_refunds: cash_out(l, d) as i64,
        card_refunds: 0,
        cash_net: (cash_in(l, d) - cash_out(l, d)) as i64,
        card_net: card_in(l, d) as i64,
        net_total: (cash_in(l, d) - cash_out(l, d) + card_in(l, d)) as i64,
    }
}

/// Sale line `i` gives its day a row: it counts as revenue and lies in the
/// window.
pub open spec fn sale_shows(l: &Ledger, i: int, today: Date, days: int) -> bool {
    earns(l.sales@[i], l.return_items@, l.return_groups@) && within(
        l.sales@[i].sold_at.date,
        today,
        days,
    )
}

/// Return group `i` gives its day a row: it lies in the window and is a
/// refund or an exchange with a difference.
pub open spec fn group_shows(l: &Ledger, i: int, today: Date, days: int) -> bool {
    let r = l.return_groups@[i];
    within(r.created_at.date, today, days) && (r.mode == ReturnMode::Refund || r.diff != 0)
}

/// Among the first `n` sale lines, one gives the day a row.
pub open spec fn sales_show(l: &Ledger, d: Date, today: Date, days: int, n: int) -> bool {
    exists|i: int|
        0 <= i < n && #[trigger] sale_shows(l, i, today, days) && l.sales@[i].sold_at.date == d
}

/// Among the first `n` return groups, one gives the day a row.
pub open spec fn groups_show(l: &Ledger, d: Date, today: Date, days: int, n: int) -> bool {
    exists|i: int|
        0 <= i < n && #[trigger] group_shows(l, i, today, days)
            && l.return_groups@[i].created_at.date == d
}

/// The day has a row in the report.
pub open spec fn day_shows(l: &Ledger, d: Date, today: Date, days: int) -> bool {
    sales_show(l, d, today, days, l.sales@.len() as int) || groups_show(
        l,
        d,
        today,
        days,
        l.return_groups@.len() as int,
    )
}

/// The rows of the report: one for each day that shows, in calendar order.
pub open spec fn cash_reported(l: &Ledger, days: i64, today: Date, rows: Seq<CashReportRow>) -> bool {
    &&& forall|i: int, j: int|
        0 <= i < j < rows.len() ==> (#[trigger] rows[i]).day.key() < (#[trigger] rows[j]).day.key()
    &&& forall|i: int|
        0 <= i < rows.len() ==> day_shows(l, (#[trigger] rows[i]).day, today, days as int)
            && cash_row_fits(l, rows[i].day) && rows[i] == cash_row(l, rows[i].day)
    &&& forall|d: Date| #[trigger]
        day_shows(l, d, today, days as int) ==> exists|i: int|
            0 <= i < rows.len() && (#[trigger] rows[i]).day == d
}

/// Whether a day lies in the window.
fn in_window(d: Date, today_number: i64, days: i64) -> (r: bool)
    requires
        0 <= today_number <= 40_000_000,
    ensures
        r == (days >= 0 && day_number(d) >= today_number - days),
{
    if days < 0 {
        return false;
    }
    day_number_of(d) as i128 >= today_number as i128 - days as i128
}

fn total_sales_on(l: &Ledger, flags: &Vec<bool>, d: Date, cash: bool) -> (r: i128)
    requires
        flags_match(flags@, l),
    ensures
        r == sales_on(l.sales@, l.return_items@, l.return_groups@, d, cash, l.sales@.len()),
{
    let mut acc: i128 = 0;
    let mut t: usize = 0;
    while t < l.sales.len()
        invariant
            t <= l.sales.len(),
            flags_match(flags@, l),
            acc == sales_on(l.sales@, l.return_items@, l.return_groups@, d, cash, t as nat),
            -t * 0x8000_0000_0000_0000 <= acc <= t * 0x8000_0000_0000_0000,
        decreases l.sales.len() - t,
    {
        let s = &l.sales[t];
        let is_cash = match s.payment_method {
            PaymentMethod::Cash => true,
            _ => false,
        };
        if flags[t] && s.sold_at.date == d && is_cash == cash {
            acc = acc + s.total as i128;
        }
        t += 1;
    }
    acc
}

fn total_paid_differences(groups: &Vec<ReturnRecord>, d: Date, cash: bool) -> (r: i128)
    ensures
        r == paid_differences(groups@, d, cash, groups@.len()),
{
    let mut acc: i128 = 0;
    let mut t: usize = 0;
    while t < groups.len()
        invariant
            t <= groups.len(),
            acc == paid_differences(groups@, d, cash, t as nat),
            -t * 0x8000_0000_0000_0000 <= acc <= t * 0x8000_0000_0000_0000,
        decreases groups.len() - t,
    {
        let r = &groups[t];
        let is_cash = match r.diff_payment_method {
            Some(PaymentMethod::Cash) => true,
            _ => false,
        };
        if r.mode == ReturnMode::Exchange && r.diff > 0 && r.created_at.date == d && is_cash
            == cash {
            acc = acc + r.diff as i128;
        }
        t += 1;
    }
    acc
}

fn total_given_back(groups: &Vec<ReturnRecord>, d: Date) -> (r: i128)
    ensures
        r == given_back(groups@, d, groups@.len()),
{
    let mut acc: i128 = 0;
    let mut t: usize = 0;
    while t < groups.len()
        invariant
            t <= groups.len(),
            acc == given_back(groups@, d, t as nat),
            -t * 0x8000_0000_0000_0000 <= acc <= t * 0x8000_0000_0000_0000,
        decreases groups.len() - t,
    {
        let r = &groups[t];
        if r.created_at.date == d {
            if r.mode == ReturnMode::Refund {
                acc = acc + r.returned_total as i128;
            } else if r.diff < 0 {
                acc = acc - r.diff as i128;
            }
        }
        t += 1;
    }
    acc
}

/// Adds two wide sums and narrows the result to 64 bits.
fn added(x: i128, y: i128) -> (r: Option<i64>)
    ensures
        match r {
            Some(v) => v == x + y,
            None => !fits(x + y),
        },
{
    match x.checked_add(y) {
        Some(w) => narrow(w),
        None => None,
    }
}

/// Computes the row of a day.
fn row_of(l: &Ledger, flags: &Vec<bool>, d: Date) -> (r: Option<CashReportRow>)
    requires
        flags_match(flags@, l),
    ensures
        match r {
            Some(row) => cash_row_fits(l, d) && row == cash_row(l, d),
            None => !cash_row_fits(l, d),
        },
{
    let cash_sales = match added(
        total_sales_on(l, flags, d, true),
        total_paid_differences(&l.return_groups, d, true),
    ) {
        Some(v) => v,
        None => {
            return None;
        },
    };
    let card_sales = match added(
        total_sales_on(l, flags, d, false),
        total_paid_differences(&l.return_groups, d, false),
    ) {
        Some(v) => v,
        None => {
            return None;
        },
    };
    let cash_refunds = match narrow(total_given_back(&l.return_groups, d)) {
        Some(v) => v,
        None => {
            return None;
        },
    };
    let cash_net = match narrow(cash_sales as i128 - cash_refunds as i128) {
        Some(v) => v,
        None => {
            return None;
        },
    };
    let net_total = match narrow(cash_net as i128 + card_sales as i128) {
        Some(v) => v,
        None => {
            return None;
        },
    };
    Some(
        CashReportRow {
            day: d,
            cash_sales,
            card_sales,
            cash_refunds,
            card_refunds: 0,
            cash_net,
            card_net: card_sales,
            net_total,
        },
    )
}

/// Computes the cash report of the last `days` days up to `today`: one row
/// for each day on which a sale line that counts as revenue was sold, a
/// refund was recorded, or an exchange with a price difference was recorded,
/// in calendar order. Sales and positive exchange differences fall into the
/// column of their payment method; refunds and negative exchange differences
/// count as cash given back. The only error is an amount that leaves the
/// 64-bit range.
pub fn get_cash_report(l: &Ledger, days: i64, today: Date) -> (r: Result<
    Vec<CashReportRow>,
    LedgerError,
>)
    ensures
        match r {
            Ok(rows) => cash_reported(l, days, today, rows@),
            Err(e) => e@ == ErrorView::OutOfRange && exists|d: Date|
                day_shows(l, d, today, days as int) && !cash_row_fits(l, d),
        },
{
    let flags = earning_flags(l);
    let today_number = day_number_of(today);
    let mut shown: Vec<Date> = Vec::new();
    let mut t: usize = 0;
    while t < l.sales.len()
        invariant
            t <= l.sales.len(),
            flags_match(flags@, l),
            today_number == day_number(today),
            0 <= today_number <= 40_000_000,
            ascending(shown@),
            forall|d: Date|
                holds(shown@, d) <==> sales_show(l, d, today, days as int, t as int),
        decreases l.sales.len() - t,
    {
        let ghost before = shown@;
        let date = l.sales[t].sold_at.date;
        if flags[t] && in_window(date, today_number, days) {
            note_day(&mut shown, date);
            assert(sale_shows(l, t as int, today, days as int));
        } else {
            assert(!sale_shows(l, t as int, today, days as int));
        }
        proof {
            assert forall|d: Date| holds(shown@, d) <==> sales_show(
                l,
                d,
                today,
                days as int,
                t as int + 1,
            ) by {
                if sales_show(l, d, today, days as int, t as int + 1) {
                    let i = choose|i: int|
                        0 <= i < t + 1 && #[trigger] sale_shows(l, i, today, days as int)
                            && l.sales@[i].sold_at.date == d;
                    if i < t {
                        assert(sales_show(l, d, today, days as int, t as int));
                    }
                }
                if holds(before, d) {
                    assert(sales_show(l, d, today, days as int, t as int));
                    let i = choose|i: int|
                        0 <= i < t && #[trigger] sale_shows(l, i, today, days as int)
                            && l.sales@[i].sold_at.date == d;
                    assert(sale_shows(l, i, today, days as int));
                }
            }
        }
        t += 1;
    }
    let mut u: usize = 0;
    while u < l.return_groups.len()
        invariant
            u <= l.return_groups.len(),
            today_number == day_number(today),
            0 <= today_number <= 40_000_000,
            ascending(shown@),
            forall|d: Date|
                holds(shown@, d) <==> (sales_show(l, d, today, days as int, l.sales@.len() as int)
                    || groups_show(l, d, today, days as int, u as int)),
        decreases l.return_groups.len() - u,
    {
        let ghost before = shown@;
        let r = &l.return_groups[u];
        let date = r.created_at.date;
        if in_window(date, today_number, days) && (r.mode == ReturnMode::Refund || r.diff != 0) {
            note_day(&mut shown, date);
            assert(group_shows(l, u as int, today, days as int));
        } else {
            assert(!group_shows(l, u as int, today, days as int));
        }
        proof {
            assert forall|d: Date|
                holds(shown@, d) <==> (sales_show(l, d, today, days as int, l.sales@.len() as int)
                    || groups_show(l, d, today, days as int, u as int + 1)) by {
                if groups_show(l, d, today, days as int, u as int + 1) {
                    let i = choose|i: int|
                        0 <= i < u + 1 && #[trigger] group_shows(l, i, today, days as int)
                            && l.return_groups@[i].created_at.date == d;
                    if i < u {
                        assert(groups_show(l, d, today, days as int, u as int));
                    }
                }
                if groups_show(l, d, today, days as int, u as int) {
                    let i = choose|i: int|
                        0 <= i < u && #[trigger] group_shows(l, i, today, days as int)
                            && l.return_groups@[i].created_at.date == d;
                    assert(group_shows(l, i, today, days as int));
                }
            }
        }
        u += 1;
    }
    let mut rows: Vec<CashReportRow> = Vec::new();
    let mut k: usize = 0;
    while k < shown.len()
        invariant
            k <= shown.len(),
            flags_match(flags@, l),
            ascending(shown@),
            forall|d: Date| holds(shown@, d) <==> day_shows(l, d, today, days as int),
            rows@.len() == k,
            forall|i: int|
                0 <= i < k ==> (#[trigger] rows@[i]).day == shown@[i] && cash_row_fits(
                    l,
                    shown@[i],
                ) && rows@[i] == cash_row(l, shown@[i]),
        decreases shown.len() - k,
    {
        let d = shown[k];
        assert(holds(shown@, d));
        match row_of(l, &flags, d) {
            None => {
                return Err(LedgerError::OutOfRange);
            },
            Some(row) => {
                rows.push(row);
            },
        }
        k += 1;
    }
    proof {
        assert forall|i: int| 0 <= i < rows@.len() implies day_shows(
            l,
            (#[trigger] rows@[i]).day,
            today,
            days as int,
        ) by {
            assert(holds(shown@, shown@[i]));
        }
        assert forall|d: Date| #[trigger] day_shows(l, d, today, days as int) implies exists|
            i: int,
        |
            0 <= i < rows@.len() && (#[trigger] rows@[i]).day == d by {
            assert(holds(shown@, d));
            let i = choose|i: int| 0 <= i < shown@.len() && shown@[i] == d;
            assert(rows@[i].day == d);
        }
        assert forall|i: int, j: int| 0 <= i < j < rows@.len() implies (#[trigger] rows@[i]).day.key()
            < (#[trigger] rows@[j]).day.key() by {
            assert(shown@[i].key() < shown@[j].key());
        }
    }
    Ok(rows)
}

} // verus!
