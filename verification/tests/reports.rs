use ciel_pos::cash::get_cash_report;
use ciel_pos::clock::{Date, Moment, Period, Timestamp};
use ciel_pos::expense::{add_expense, delete_expense, list_expenses};
use ciel_pos::kinds::{Location, PaymentMethod, ReturnMode};
use ciel_pos::ledger::Ledger;
use ciel_pos::listing::{
    list_sale_groups, list_sales_by_barcode, list_sales_by_group, GroupKind,
};
use ciel_pos::refunds::{exchange, refund, GivenItem, ReturnedGoods};
use ciel_pos::report::get_dashboard_summary;
use ciel_pos::sale::{sell, SaleItem};
use ciel_pos::stock::Product;

fn day(d: u8) -> Date {
    Date { year: 2024, month: 5, day: d }
}

fn stamp(d: u8, hour: u8, millis: u64) -> Moment {
    Moment { at: Timestamp { date: day(d), hour, minute: 0, second: 0 }, millis }
}

fn product(barcode: &str, name: &str, buy: i64, store: i64, warehouse: i64) -> Product {
    Product {
        barcode: barcode.to_string(),
        product_code: None,
        category: None,
        name: name.to_string(),
        color: None,
        size: None,
        buy_price: buy,
        sell_price: buy * 2,
        created_at: None,
        stock: store + warehouse,
        magaza_baslangic: store,
        depo_baslangic: warehouse,
        magaza_stok: store,
        depo_stok: warehouse,
        is_active: true,
    }
}

fn item(barcode: &str, qty: i64, unit_price: i64) -> SaleItem {
    SaleItem {
        barcode: barcode.to_string(),
        qty,
        list_price: unit_price,
        discount_amount: 0,
        unit_price,
        location: Location::Store,
    }
}

fn busy_ledger() -> Ledger {
    let mut l = Ledger::new();
    l.products.push(product("100", "Blue Shirt", 60, 50, 50));
    l.products.push(product("200", "Red Scarf", 20, 50, 50));
    // 15 May: one cash receipt with two lines.
    sell(&mut l, &vec![item("100", 2, 100), item("200", 1, 50)], PaymentMethod::Cash, &stamp(15, 9, 1)).unwrap();
    // 16 May: one card receipt, then a refund of one unit of it.
    let sold = stamp(16, 10, 2);
    sell(&mut l, &vec![item("100", 3, 100)], PaymentMethod::Card, &sold).unwrap();
    refund(
        &mut l,
        &ReturnedGoods {
            barcode: "100".to_string(),
            qty: 1,
            return_to: Location::Store,
            sold_at: Some(sold.at),
            sold_from: None,
            unit_price: 100,
        },
        &stamp(16, 15, 3),
    )
    .unwrap();
    // 17 May: an exchange, one shirt back and three scarves out, paid in cash.
    exchange(
        &mut l,
        &ReturnedGoods {
            barcode: "100".to_string(),
            qty: 1,
            return_to: Location::Store,
            sold_at: Some(sold.at),
            sold_from: None,
            unit_price: 100,
        },
        &vec![GivenItem { barcode: "200".to_string(), qty: 3, location: Location::Store, unit_price: 50 }],
        Some(PaymentMethod::Cash),
        &stamp(17, 11, 4),
    )
    .unwrap();
    add_expense(&mut l, stamp(16, 8, 0).at, None, Some("rent".to_string()), 70, None).unwrap();
    l
}

#[test]
fn dashboard_counts_sales_exchanges_and_refunds() {
    let l = busy_ledger();
    let s = get_dashboard_summary(&l, 3, 1, day(17)).unwrap();
    // Today: three scarves given, difference 150 - 100 = 50.
    assert_eq!(s.kpi.today_qty, 3);
    assert_eq!(s.kpi.today_net_revenue, 50);
    // Month: sales margin (2*40 + 1*30 + 3*40) + exchange margin 3*30 - refund margin 1*40.
    assert_eq!(s.kpi.month_gross_profit, 230 + 90 - 40);
    assert_eq!(s.kpi.month_expense, 70);
    assert_eq!(s.kpi.month_net_profit, 280 - 70);
    // Month revenue: 250 + 300 - 100 + 50 = 500 over two receipts.
    assert_eq!(s.kpi.month_avg_basket, 250);
    assert_eq!(s.daily.len(), 3);
    assert_eq!(s.daily[0].day, day(15));
    assert_eq!(s.daily[0].net_qty, 3);
    assert_eq!(s.daily[0].net_revenue, 250);
    assert_eq!(s.daily[0].gross_profit, 110);
    assert_eq!(s.daily[0].avg_basket, 250);
    assert_eq!(s.daily[1].day, day(16));
    assert_eq!(s.daily[1].net_qty, 2);
    assert_eq!(s.daily[1].net_revenue, 200);
    assert_eq!(s.daily[1].gross_profit, 120 - 40);
    assert_eq!(s.daily[1].avg_basket, 200);
    assert_eq!(s.daily[2].day, day(17));
    assert_eq!(s.daily[2].avg_basket, 0);
    assert_eq!(s.monthly.len(), 1);
    assert_eq!(s.monthly[0].period, Period { year: 2024, month: 5 });
    assert_eq!(s.monthly[0].net_qty, 3 + 3 + 3 - 1);
    assert_eq!(s.monthly[0].net_revenue, 500);
    assert_eq!(s.monthly[0].expense, 70);
    assert_eq!(s.monthly[0].net_profit, 210);
}

#[test]
fn dashboard_omits_quiet_days_but_keeps_the_headline() {
    let l = busy_ledger();
    let s = get_dashboard_summary(&l, 200, 30, Date { year: 2024, month: 6, day: 20 }).unwrap();
    // 90 days back from 20 June reaches 15 May; June itself is quiet.
    assert_eq!(s.daily.len(), 3);
    assert_eq!(s.kpi.today_qty, 0);
    assert_eq!(s.kpi.today_net_revenue, 0);
    assert_eq!(s.kpi.month_gross_profit, 0);
    assert_eq!(s.kpi.month_avg_basket, 0);
    assert_eq!(s.monthly.len(), 1);
    let empty = get_dashboard_summary(&Ledger::new(), 0, 0, day(17)).unwrap();
    assert!(empty.daily.is_empty());
    assert!(empty.monthly.is_empty());
    assert_eq!(empty.kpi.today_qty, 0);
    assert_eq!(empty.kpi.month_expense, 0);
}

#[test]
fn dashboard_net_quantity_is_never_negative() {
    let mut l = Ledger::new();
    l.products.push(product("100", "Blue Shirt", 60, 0, 0));
    refund(
        &mut l,
        &ReturnedGoods {
            barcode: "100".to_string(),
            qty: 2,
            return_to: Location::Warehouse,
            sold_at: None,
            sold_from: None,
            unit_price: 100,
        },
        &stamp(17, 9, 1),
    )
    .unwrap();
    let s = get_dashboard_summary(&l, 1, 1, day(17)).unwrap();
    assert_eq!(s.kpi.today_qty, 0);
    assert_eq!(s.kpi.today_net_revenue, -200);
    assert_eq!(s.daily.len(), 1);
    assert_eq!(s.daily[0].gross_profit, -80);
}

#[test]
fn cash_report_splits_by_payment_method() {
    let l = busy_ledger();
    let rows = get_cash_report(&l, 30, day(17)).unwrap();
    assert_eq!(rows.len(), 3);
    assert_eq!(rows[0].day, day(15));
    assert_eq!((rows[0].cash_sales, rows[0].card_sales), (250, 0));
    assert_eq!((rows[0].cash_net, rows[0].card_net, rows[0].net_total), (250, 0, 250));
    assert_eq!(rows[1].day, day(16));
    assert_eq!((rows[1].cash_sales, rows[1].card_sales), (0, 300));
    assert_eq!((rows[1].cash_refunds, rows[1].card_refunds), (100, 0));
    assert_eq!((rows[1].cash_net, rows[1].card_net, rows[1].net_total), (-100, 300, 200));
    assert_eq!(rows[2].day, day(17));
    assert_eq!((rows[2].cash_sales, rows[2].cash_refunds, rows[2].net_total), (50, 0, 50));
    let recent = get_cash_report(&l, 1, day(17)).unwrap();
    assert_eq!(recent.len(), 2);
    assert_eq!(recent[0].day, day(16));
    assert!(get_cash_report(&l, -1, day(17)).unwrap().is_empty());
    assert!(get_cash_report(&l, 0, Date { year: 2024, month: 6, day: 1 }).unwrap().is_empty());
}

#[test]
fn cash_report_counts_a_negative_difference_as_cash_given_back() {
    let mut l = Ledger::new();
    l.products.push(product("100", "Blue Shirt", 60, 5, 0));
    l.products.push(product("200", "Red Scarf", 20, 5, 0));
    exchange(
        &mut l,
        &ReturnedGoods {
            barcode: "100".to_string(),
            qty: 1,
            return_to: Location::Store,
            sold_at: None,
            sold_from: None,
            unit_price: 100,
        },
        &vec![GivenItem { barcode: "200".to_string(), qty: 1, location: Location::Store, unit_price: 40 }],
        None,
        &stamp(17, 11, 4),
    )
    .unwrap();
    let rows = get_cash_report(&l, 0, day(17)).unwrap();
    assert_eq!(rows.len(), 1);
    assert_eq!(rows[0].cash_refunds, 60);
    assert_eq!(rows[0].cash_net, -60);
    assert_eq!(rows[0].net_total, -60);
    assert_eq!(l.return_groups[0].mode, ReturnMode::Exchange);
}

#[test]
fn sales_of_a_product_are_listed_most_recent_first() {
    let l = busy_ledger();
    let now = stamp(17, 12, 0).at;
    let lines = list_sales_by_barcode(&l, " 100 ", 30, now);
    assert_eq!(lines.len(), 2);
    assert_eq!(lines[0].sold_at.date, day(16));
    assert_eq!(lines[0].qty, 3);
    assert_eq!(lines[0].refunded_qty, 2);
    assert_eq!(lines[1].sold_at.date, day(15));
    assert_eq!(lines[1].refunded_qty, 0);
    let short = list_sales_by_barcode(&l, "100", 1, now);
    assert_eq!(short.len(), 0);
    let edge = list_sales_by_barcode(&l, "100", 1, stamp(17, 10, 0).at);
    assert_eq!(edge.len(), 1);
    assert!(list_sales_by_barcode(&l, "999", 30, now).is_empty());
}

#[test]
fn lines_of_a_receipt_show_how_units_came_back() {
    let l = busy_ledger();
    let sale = list_sales_by_group(&l, "S2");
    assert_eq!(sale.len(), 1);
    assert_eq!(sale[0].name, "Blue Shirt");
    assert_eq!(sale[0].refunded_qty, 2);
    assert_eq!(sale[0].refund_kind, Some(ReturnMode::Exchange));
    let first = list_sales_by_group(&l, "S1");
    assert_eq!(first.len(), 2);
    assert_eq!(first[1].product_barcode, "200");
    assert_eq!(first[1].refund_kind, None);
    let swap = list_sales_by_group(&l, "E4");
    assert_eq!(swap.len(), 1);
    assert_eq!(swap[0].qty, 3);
    assert_eq!(swap[0].total, 150);
    assert_eq!(swap[0].payment_method, PaymentMethod::Cash);
    assert_eq!(swap[0].sold_at.date, day(17));
    assert!(list_sales_by_group(&l, "R3").is_empty());
    assert!(list_sales_by_group(&l, "E9").is_empty());
    assert!(list_sales_by_group(&l, "").is_empty());
}

#[test]
fn receipts_are_listed_most_recent_first_and_searched() {
    let l = busy_ledger();
    let now = stamp(17, 12, 0).at;
    let all = list_sale_groups(&l, 30, None, now).unwrap();
    assert_eq!(all.len(), 3);
    assert_eq!(all[0].kind, GroupKind::Exchange);
    assert_eq!(all[0].sale_group_id, "E4");
    assert_eq!((all[0].qty, all[0].total), (3, 150));
    assert_eq!(all[1].sale_group_id, "S2");
    assert_eq!(all[2].sale_group_id, "S1");
    assert_eq!((all[2].qty, all[2].total), (3, 250));
    assert_eq!(all[2].payment_method, PaymentMethod::Cash);
    let scarf = list_sale_groups(&l, 30, Some(" scarf ".to_string()), now).unwrap();
    assert_eq!(scarf.len(), 2);
    assert_eq!(scarf[0].sale_group_id, "E4");
    assert_eq!(scarf[1].sale_group_id, "S1");
    assert_eq!(scarf[1].qty, 3);
    let by_code = list_sale_groups(&l, 30, Some("10".to_string()), now).unwrap();
    assert_eq!(by_code.len(), 2);
    let blank = list_sale_groups(&l, 30, Some("  ".to_string()), now).unwrap();
    assert_eq!(blank.len(), 3);
    let one_day = list_sale_groups(&l, 0, None, now).unwrap();
    assert_eq!(one_day.len(), 1);
}

#[test]
fn expenses_are_listed_latest_first() {
    let mut l = Ledger::new();
    let a = add_expense(&mut l, stamp(10, 9, 0).at, None, None, 100, None).unwrap();
    let b = add_expense(&mut l, stamp(12, 9, 0).at, Some("2024-05".to_string()), None, 200, None).unwrap();
    let c = add_expense(&mut l, stamp(10, 9, 0).at, None, None, 300, Some("late".to_string())).unwrap();
    assert_eq!((a, b, c), (1, 2, 3));
    let listed = list_expenses(&l);
    assert_eq!(listed.iter().map(|x| x.id).collect::<Vec<_>>(), vec![2, 3, 1]);
    assert!(matches!(
        add_expense(&mut l, stamp(10, 9, 0).at, None, None, 0, None),
        Err(ciel_pos::error::LedgerError::AmountNotPositive)
    ));
    assert_eq!(delete_expense(&mut l, 3), 1);
    assert_eq!(delete_expense(&mut l, 3), 0);
    assert_eq!(l.expenses.len(), 2);
}

#[test]
fn average_basket_rounds_toward_zero() {
    let mut l = Ledger::new();
    l.products.push(product("100", "Blue Shirt", 60, 50, 50));
    sell(&mut l, &vec![item("100", 1, 100)], PaymentMethod::Card, &stamp(17, 9, 1)).unwrap();
    sell(&mut l, &vec![item("100", 1, 101)], PaymentMethod::Card, &stamp(17, 10, 2)).unwrap();
    let s = get_dashboard_summary(&l, 1, 1, day(17)).unwrap();
    assert_eq!(s.daily[0].net_revenue, 201);
    assert_eq!(s.daily[0].avg_basket, 100);
    refund(
        &mut l,
        &ReturnedGoods {
            barcode: "100".to_string(),
            qty: 6,
            return_to: Location::Store,
            sold_at: None,
            sold_from: None,
            unit_price: 101,
        },
        &stamp(17, 11, 3),
    )
    .unwrap();
    let s = get_dashboard_summary(&l, 1, 1, day(17)).unwrap();
    assert_eq!(s.daily[0].net_revenue, 201 - 606);
    assert_eq!(s.daily[0].avg_basket, -202);
    assert_eq!(s.daily[0].net_qty, 0);
    assert_eq!(s.kpi.month_avg_basket, -202);
}

#[test]
fn a_voided_sale_that_an_exchange_took_back_still_counts_as_revenue() {
    let mut l = busy_ledger();
    l.sales[2].voided = true;
    let s = get_dashboard_summary(&l, 3, 1, day(17)).unwrap();
    // The line of 16 May no longer counts for quantity and margin, but its
    // total still counts, because the exchange of 17 May references it.
    assert_eq!(s.daily[1].day, day(16));
    assert_eq!(s.daily[1].net_qty, 0);
    assert_eq!(s.daily[1].net_revenue, 200);
    assert_eq!(s.daily[1].gross_profit, -40);
    assert_eq!(s.daily[1].avg_basket, 200);
    let rows = get_cash_report(&l, 30, day(17)).unwrap();
    assert_eq!(rows[1].card_sales, 300);
    l.sales[0].voided = true;
    let s = get_dashboard_summary(&l, 3, 1, day(17)).unwrap();
    assert_eq!(s.daily[0].net_qty, 1);
    assert_eq!(s.daily[0].net_revenue, 50);
    assert_eq!(s.daily[0].avg_basket, 50);
}

#[test]
fn sums_that_leave_the_range_are_refused() {
    let mut l = Ledger::new();
    l.products.push(product("100", "Blue Shirt", -4, 50, 50));
    sell(&mut l, &vec![item("100", 4, i64::MAX / 4)], PaymentMethod::Cash, &stamp(17, 9, 1)).unwrap();
    let err = get_dashboard_summary(&l, 1, 1, day(17)).unwrap_err();
    assert!(matches!(err, ciel_pos::error::LedgerError::OutOfRange));
    assert!(get_dashboard_summary(&l, 1, 1, day(18)).is_err());
    assert!(get_dashboard_summary(&l, 1, 1, Date { year: 2024, month: 7, day: 1 }).is_ok());
    sell(&mut l, &vec![item("100", 4, i64::MAX / 4)], PaymentMethod::Cash, &stamp(17, 10, 2)).unwrap();
    assert!(get_cash_report(&l, 1, day(17)).is_err());
    assert!(get_cash_report(&l, 1, day(19)).unwrap().is_empty());
    assert!(list_sale_groups(&l, 1, None, stamp(17, 12, 0).at).unwrap().len() == 2);
}

#[test]
fn the_monthly_series_has_one_row_for_each_month_even_at_a_month_end() {
    let mut l = Ledger::new();
    l.products.push(product("100", "Blue Shirt", 60, 50, 50));
    let feb = Moment {
        at: Timestamp { date: Date { year: 2024, month: 2, day: 10 }, hour: 9, minute: 0, second: 0 },
        millis: 1,
    };
    let mar = Moment {
        at: Timestamp { date: Date { year: 2024, month: 3, day: 31 }, hour: 9, minute: 0, second: 0 },
        millis: 2,
    };
    sell(&mut l, &vec![item("100", 1, 100)], PaymentMethod::Card, &feb).unwrap();
    sell(&mut l, &vec![item("100", 2, 100)], PaymentMethod::Card, &mar).unwrap();
    let s = get_dashboard_summary(&l, 1, 2, Date { year: 2024, month: 3, day: 31 }).unwrap();
    assert_eq!(s.monthly.len(), 2);
    assert_eq!(s.monthly[0].period, Period { year: 2024, month: 2 });
    assert_eq!(s.monthly[0].net_revenue, 100);
    assert_eq!(s.monthly[1].period, Period { year: 2024, month: 3 });
    assert_eq!(s.monthly[1].net_revenue, 200);
    let s = get_dashboard_summary(&l, 90, 24, Date { year: 2024, month: 5, day: 31 }).unwrap();
    assert_eq!(
        s.monthly.iter().map(|r| r.period.month).collect::<Vec<_>>(),
        vec![2, 3]
    );
    assert_eq!(s.daily.len(), 1);
    assert!(s.daily.windows(2).all(|w| w[0].day.rank() < w[1].day.rank()));
}

#[test]
fn a_ledger_with_a_negative_counter_can_still_be_read() {
    let mut l = busy_ledger();
    l.products[0].depo_stok = -3;
    assert!(!l.is_wf());
    assert!(l.is_readable());
    assert!(get_dashboard_summary(&l, 3, 1, day(17)).is_ok());
    assert_eq!(list_sales_by_group(&l, "S1").len(), 2);
    l.products.push(product("100", "Twin", 1, 0, 0));
    assert!(!l.is_readable());
}
