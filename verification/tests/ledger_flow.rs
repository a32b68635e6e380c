use ciel_pos::clock::{Date, Moment, Timestamp};
use ciel_pos::error::{ErrorKind, LedgerError};
use ciel_pos::kinds::{Location, PaymentMethod, ReturnMode};
use ciel_pos::ledger::Ledger;
use ciel_pos::refunds::{
    create_exchange, create_return, exchange, refund, CreateExchangeGivenItemPayload,
    CreateExchangePayload, CreateExchangeReturnedPayload, CreateExchangeSummaryPayload,
    CreateReturnPayload, GivenItem, ReturnedGoods,
};
use ciel_pos::sale::{
    create_sale, sell, undo_last_sale, CreateSaleItemPayload, CreateSalePayload, SaleItem,
};
use ciel_pos::stock::Product;
use ciel_pos::transfer::{
    create_transfer, transfer, undo_last_transfer, CreateTransferItemPayload,
    CreateTransferPayload, TransferItem,
};

fn at(hour: u8, minute: u8, second: u8) -> Timestamp {
    Timestamp { date: Date { year: 2024, month: 5, day: 17 }, hour, minute, second }
}

fn moment(millis: u64) -> Moment {
    Moment { at: at(10, 30, (millis % 60) as u8), millis }
}

fn product(barcode: &str, store: i64, warehouse: i64) -> Product {
    Product {
        barcode: barcode.to_string(),
        product_code: None,
        category: None,
        name: barcode.to_string(),
        color: None,
        size: None,
        buy_price: 6000,
        sell_price: 10000,
        created_at: None,
        stock: store + warehouse,
        magaza_baslangic: store,
        depo_baslangic: warehouse,
        magaza_stok: store,
        depo_stok: warehouse,
        is_active: true,
    }
}

fn ledger_with(products: Vec<Product>) -> Ledger {
    let mut ledger = Ledger::new();
    for p in products {
        ledger.products.push(p);
    }
    ledger
}

fn item(barcode: &str, qty: i64, unit_price: i64, location: Location) -> SaleItem {
    SaleItem {
        barcode: barcode.to_string(),
        qty,
        list_price: unit_price,
        discount_amount: 0,
        unit_price,
        location,
    }
}

fn goods(barcode: &str, qty: i64, unit_price: i64, to: Location, sold_at: Option<Timestamp>) -> ReturnedGoods {
    ReturnedGoods {
        barcode: barcode.to_string(),
        qty,
        return_to: to,
        sold_at,
        sold_from: None,
        unit_price,
    }
}

fn stocks(ledger: &Ledger, i: usize) -> (i64, i64, i64) {
    let p = &ledger.products[i];
    (p.magaza_stok, p.depo_stok, p.stock)
}

#[test]
fn sale_then_undo_restores_the_store() {
    let mut ledger = ledger_with(vec![product("A", 10, 5)]);
    let res = sell(
        &mut ledger,
        &vec![item("A", 3, 100, Location::Store)],
        PaymentMethod::Cash,
        &moment(1700000000000),
    )
    .unwrap();
    assert_eq!(res.sale_group_id, "S1700000000000");
    assert_eq!(res.total, 300);
    assert_eq!(res.lines, 1);
    assert_eq!(stocks(&ledger, 0), (7, 5, 12));
    assert_eq!(ledger.sales.len(), 1);
    assert_eq!(ledger.sales[0].id, 1);
    assert_eq!(ledger.sales[0].payment_method, PaymentMethod::Cash);

    let undone = undo_last_sale(&mut ledger).unwrap();
    assert_eq!(undone.sale_group_id, "S1700000000000");
    assert_eq!(undone.restored_lines, 1);
    assert_eq!(stocks(&ledger, 0), (10, 5, 15));
    assert!(ledger.sales.is_empty());

    let again = undo_last_sale(&mut ledger).unwrap_err();
    assert!(matches!(again, LedgerError::NoSaleToUndo));
    assert_eq!(again.kind(), ErrorKind::NotFound);
}

#[test]
fn refund_against_a_sale_line_leaves_the_rest_refundable() {
    let mut ledger = ledger_with(vec![product("A", 10, 0)]);
    let now = moment(1700000000001);
    sell(&mut ledger, &vec![item("A", 4, 50, Location::Store)], PaymentMethod::Card, &now).unwrap();
    assert_eq!(stocks(&ledger, 0), (6, 0, 6));
    let res = refund(
        &mut ledger,
        &goods("A", 2, 50, Location::Warehouse, Some(now.at)),
        &moment(1700000005000),
    )
    .unwrap();
    assert_eq!(res.return_group_id, "R1700000005000");
    assert_eq!(res.lines, 1);
    assert_eq!(res.returned_total, 100);
    assert_eq!(stocks(&ledger, 0), (6, 2, 8));
    assert_eq!(ledger.return_items.len(), 1);
    assert_eq!(ledger.return_items[0].ref_sale_id, Some(1));
    assert_eq!(ledger.return_groups[0].mode, ReturnMode::Refund);
    assert_eq!(ledger.return_groups[0].diff, -100);
    assert_eq!(ledger.return_groups[0].given_total, 0);
    let rest = ciel_pos::ledger::refunded_units(&ledger.return_items, 1);
    assert_eq!(ledger.sales[0].qty as i128 - rest, 2);
}

#[test]
fn partial_refunds_in_sequence() {
    let mut ledger = ledger_with(vec![product("A", 5, 0)]);
    let now = moment(1700000000002);
    sell(&mut ledger, &vec![item("A", 5, 10, Location::Store)], PaymentMethod::Card, &now).unwrap();
    let first = refund(&mut ledger, &goods("A", 3, 10, Location::Store, Some(now.at)), &moment(1700000000100));
    assert!(first.is_ok());
    let second = refund(&mut ledger, &goods("A", 3, 10, Location::Store, Some(now.at)), &moment(1700000000200));
    match second {
        Err(LedgerError::RefundExceedsRemaining { sold, refunded, remaining, exchange: false }) => {
            assert_eq!((sold, refunded, remaining), (5, 3, 2));
        }
        other => panic!("unexpected {:?}", other),
    }
    assert_eq!(stocks(&ledger, 0), (3, 0, 3));
    assert_eq!(ledger.return_items.len(), 1);
    let third = refund(&mut ledger, &goods("A", 2, 10, Location::Store, Some(now.at)), &moment(1700000000300));
    assert!(third.is_ok());
    assert_eq!(stocks(&ledger, 0), (5, 0, 5));
    let fourth = refund(&mut ledger, &goods("A", 1, 10, Location::Store, Some(now.at)), &moment(1700000000400));
    match fourth {
        Err(e @ LedgerError::FullyRefunded { sold: 5, refunded: 5, exchange: false }) => {
            assert_eq!(e.kind(), ErrorKind::Conflict)
        }
        other => panic!("unexpected {:?}", other),
    }
}

#[test]
fn refund_without_a_matching_sale_is_not_linked() {
    let mut ledger = ledger_with(vec![product("A", 0, 0)]);
    let res = refund(&mut ledger, &goods("A", 2, 75, Location::Store, None), &moment(5)).unwrap();
    assert_eq!(res.returned_total, 150);
    assert_eq!(ledger.return_items[0].ref_sale_id, None);
    assert_eq!(stocks(&ledger, 0), (2, 0, 2));
    let zero = refund(&mut ledger, &goods("A", 0, 75, Location::Store, None), &moment(6));
    assert!(matches!(zero, Err(LedgerError::QuantityNotPositive)));
    let unknown = refund(&mut ledger, &goods("Z", 1, 75, Location::Store, None), &moment(7));
    match unknown {
        Err(LedgerError::ProductNotFound { barcode }) => assert_eq!(barcode, "Z"),
        other => panic!("unexpected {:?}", other),
    }
    assert_eq!(ledger.return_items.len(), 1);
}

#[test]
fn understocked_basket_changes_nothing() {
    let mut ledger = ledger_with(vec![product("A", 10, 5), product("B", 1, 0)]);
    let basket = vec![
        item("A", 3, 100, Location::Store),
        item("B", 1, 100, Location::Store),
        item("B", 1, 100, Location::Store),
    ];
    let err = sell(&mut ledger, &basket, PaymentMethod::Card, &moment(1)).unwrap_err();
    match &err {
        LedgerError::InsufficientStock { barcode, location, available, requested } => {
            assert_eq!(barcode, "B");
            assert_eq!(*location, Location::Store);
            assert_eq!(*available, 1);
            assert_eq!(*requested, 2);
        }
        other => panic!("unexpected {:?}", other),
    }
    assert_eq!(err.kind(), ErrorKind::InsufficientStock);
    assert_eq!(stocks(&ledger, 0), (10, 5, 15));
    assert_eq!(stocks(&ledger, 1), (1, 0, 1));
    assert!(ledger.sales.is_empty());
    assert_eq!(ledger.next_sale_id, 1);
}

#[test]
fn basket_lines_add_up_per_location() {
    let mut ledger = ledger_with(vec![product("A", 10, 5), product("B", 4, 4)]);
    let basket = vec![
        item("A", 2, 100, Location::Store),
        item("A", 0, 100, Location::Store),
        item("A", 4, 90, Location::Warehouse),
        item("B", -7, 10, Location::Store),
    ];
    let res = sell(&mut ledger, &basket, PaymentMethod::Transfer, &moment(42)).unwrap();
    assert_eq!(res.lines, 4);
    assert_eq!(res.total, 200 + 100 + 360 + 10);
    assert_eq!(stocks(&ledger, 0), (7, 1, 8));
    assert_eq!(stocks(&ledger, 1), (3, 4, 7));
    assert_eq!(ledger.sales[1].qty, 1);
    assert_eq!(ledger.sales[3].id, 4);
    assert_eq!(ledger.next_sale_id, 5);
    let empty = sell(&mut ledger, &vec![], PaymentMethod::Card, &moment(43));
    assert!(matches!(empty, Err(LedgerError::EmptyBasket)));
    let unknown = sell(&mut ledger, &vec![item("Q", 1, 1, Location::Store)], PaymentMethod::Card, &moment(44));
    assert!(matches!(unknown, Err(LedgerError::ProductNotFound { .. })));
    let huge = sell(&mut ledger, &vec![item("A", 1, i64::MAX, Location::Store), item("A", 1, i64::MAX, Location::Store)], PaymentMethod::Card, &moment(45));
    assert!(matches!(huge, Err(LedgerError::OutOfRange)));
    assert_eq!(stocks(&ledger, 0), (7, 1, 8));
}

#[test]
fn exchange_with_a_difference_needs_card_or_cash() {
    let mut ledger = ledger_with(vec![product("A", 5, 0), product("B", 5, 5)]);
    let now = moment(1000);
    sell(&mut ledger, &vec![item("A", 2, 100, Location::Store)], PaymentMethod::Card, &now).unwrap();
    let given = vec![GivenItem {
        barcode: "B".to_string(),
        qty: 1,
        location: Location::Warehouse,
        unit_price: 250,
    }];
    let back = goods("A", 1, 100, Location::Store, Some(now.at));
    let refused = exchange(&mut ledger, &back, &given, Some(PaymentMethod::Transfer), &moment(2000));
    assert!(matches!(refused, Err(LedgerError::PaymentMethodRejected)));
    let refused = exchange(&mut ledger, &back, &given, None, &moment(2000));
    assert!(matches!(refused, Err(LedgerError::PaymentMethodRejected)));
    assert_eq!(stocks(&ledger, 0), (3, 0, 3));
    assert_eq!(stocks(&ledger, 1), (5, 5, 10));
    assert!(ledger.return_groups.is_empty());

    let res = exchange(&mut ledger, &back, &given, Some(PaymentMethod::Cash), &moment(2000)).unwrap();
    assert_eq!(res.exchange_group_id, "E2000");
    assert_eq!(res.lines, 1);
    assert_eq!(res.returned_total, 100);
    assert_eq!(res.given_total, 250);
    assert_eq!(res.diff, 150);
    assert_eq!(stocks(&ledger, 0), (4, 0, 4));
    assert_eq!(stocks(&ledger, 1), (5, 4, 9));
    assert_eq!(ledger.return_groups[0].mode, ReturnMode::Exchange);
    assert_eq!(ledger.return_groups[0].diff_payment_method, Some(PaymentMethod::Cash));
    assert_eq!(ledger.exchange_items[0].id, 1);
    assert_eq!(ledger.return_items[0].ref_sale_id, Some(1));
}

#[test]
fn exchange_without_a_difference_records_no_method() {
    let mut ledger = ledger_with(vec![product("A", 5, 0), product("B", 5, 5)]);
    let given = vec![
        GivenItem { barcode: "B".to_string(), qty: 2, location: Location::Store, unit_price: 40 },
        GivenItem { barcode: "B".to_string(), qty: 0, location: Location::Store, unit_price: 999 },
    ];
    let back = goods("A", 1, 100, Location::Warehouse, None);
    let res = exchange(&mut ledger, &back, &given, Some(PaymentMethod::Transfer), &moment(9)).unwrap();
    assert_eq!(res.lines, 1);
    assert_eq!(res.diff, -20);
    assert_eq!(ledger.return_groups[0].diff_payment_method, None);
    assert_eq!(stocks(&ledger, 0), (5, 1, 6));
    assert_eq!(stocks(&ledger, 1), (3, 5, 8));
    let none = exchange(&mut ledger, &back, &vec![], None, &moment(10));
    assert!(matches!(none, Err(LedgerError::NothingGiven)));
}

#[test]
fn exchange_never_drives_stock_negative() {
    let mut ledger = ledger_with(vec![product("A", 0, 0), product("B", 3, 0)]);
    let given = vec![
        GivenItem { barcode: "B".to_string(), qty: 2, location: Location::Store, unit_price: 10 },
        GivenItem { barcode: "B".to_string(), qty: 2, location: Location::Store, unit_price: 10 },
    ];
    let back = goods("A", 1, 100, Location::Store, None);
    let res = exchange(&mut ledger, &back, &given, None, &moment(11));
    match res {
        Err(LedgerError::InsufficientStock { barcode, available, requested, .. }) => {
            assert_eq!(barcode, "B");
            assert_eq!(available, 1);
            assert_eq!(requested, 2);
        }
        other => panic!("unexpected {:?}", other),
    }
    assert_eq!(stocks(&ledger, 0), (0, 0, 0));
    assert_eq!(stocks(&ledger, 1), (3, 0, 3));
    assert!(ledger.return_items.is_empty());
    assert!(ledger.exchange_items.is_empty());
}

#[test]
fn transfer_moves_between_locations_and_back() {
    let mut ledger = ledger_with(vec![product("A", 10, 5)]);
    let items = vec![TransferItem {
        barcode: "A".to_string(),
        qty: 4,
        from_loc: Location::Store,
        to_loc: Location::Warehouse,
    }];
    let res = transfer(&mut ledger, &items, &Some("restock".to_string()), &moment(77)).unwrap();
    assert_eq!(res.transfer_group_id, "T77");
    assert_eq!(res.lines, 1);
    assert_eq!(stocks(&ledger, 0), (6, 9, 15));
    assert_eq!(ledger.transfers[0].note.as_deref(), Some("restock"));
    let undone = undo_last_transfer(&mut ledger).unwrap();
    assert_eq!(undone.transfer_group_id, "T77");
    assert_eq!(undone.restored_lines, 1);
    assert_eq!(stocks(&ledger, 0), (10, 5, 15));
    assert_eq!(ledger.transfers.len(), 1);
    assert!(ledger.transfers[0].voided);
    let again = undo_last_transfer(&mut ledger);
    assert!(matches!(again, Err(LedgerError::NoTransferToUndo)));
}

#[test]
fn transfer_with_one_bad_line_fails_entirely() {
    let mut ledger = ledger_with(vec![product("A", 10, 5), product("B", 2, 2)]);
    let items = vec![
        TransferItem { barcode: "A".to_string(), qty: 4, from_loc: Location::Store, to_loc: Location::Warehouse },
        TransferItem { barcode: "B".to_string(), qty: 1, from_loc: Location::Store, to_loc: Location::Store },
    ];
    let err = transfer(&mut ledger, &items, &None, &moment(78)).unwrap_err();
    assert!(matches!(err, LedgerError::SameLocation));
    assert_eq!(err.kind(), ErrorKind::Validation);
    assert_eq!(stocks(&ledger, 0), (10, 5, 15));
    assert_eq!(stocks(&ledger, 1), (2, 2, 4));
    assert!(ledger.transfers.is_empty());
    let short = vec![
        TransferItem { barcode: "B".to_string(), qty: 2, from_loc: Location::Store, to_loc: Location::Warehouse },
        TransferItem { barcode: "B".to_string(), qty: 1, from_loc: Location::Store, to_loc: Location::Warehouse },
    ];
    let err = transfer(&mut ledger, &short, &None, &moment(79)).unwrap_err();
    match err {
        LedgerError::InsufficientStock { available, requested, .. } => {
            assert_eq!((available, requested), (2, 3))
        }
        other => panic!("unexpected {:?}", other),
    }
    assert!(matches!(transfer(&mut ledger, &vec![], &None, &moment(80)), Err(LedgerError::EmptyBasket)));
}

#[test]
fn undo_of_a_transfer_respects_what_was_sold_since() {
    let mut ledger = ledger_with(vec![product("A", 0, 5)]);
    let items = vec![TransferItem {
        barcode: "A".to_string(),
        qty: 5,
        from_loc: Location::Warehouse,
        to_loc: Location::Store,
    }];
    transfer(&mut ledger, &items, &None, &moment(1)).unwrap();
    sell(&mut ledger, &vec![item("A", 3, 10, Location::Store)], PaymentMethod::Card, &moment(2)).unwrap();
    let err = undo_last_transfer(&mut ledger).unwrap_err();
    match err {
        LedgerError::InsufficientStock { location, available, requested, .. } => {
            assert_eq!(location, Location::Store);
            assert_eq!((available, requested), (2, 5));
        }
        other => panic!("unexpected {:?}", other),
    }
    assert_eq!(stocks(&ledger, 0), (2, 0, 2));
    assert!(!ledger.transfers[0].voided);
}

#[test]
fn payloads_are_read_by_their_codes() {
    let mut ledger = ledger_with(vec![product("A", 10, 5), product("B", 3, 3)]);
    let sale = CreateSalePayload {
        items: vec![
            CreateSaleItemPayload {
                barcode: "A".to_string(),
                qty: 1,
                list_price: 100,
                discount_amount: 0,
                unit_price: 100,
                sold_from: "".to_string(),
            },
            CreateSaleItemPayload {
                barcode: "A".to_string(),
                qty: 2,
                list_price: 100,
                discount_amount: 10,
                unit_price: 90,
                sold_from: "magaza".to_string(),
            },
        ],
        sold_from_default: "depo".to_string(),
        payment_method: " nakit ".to_string(),
    };
    let now = moment(500);
    let res = create_sale(&mut ledger, sale, &now).unwrap();
    assert_eq!(res.total, 280);
    assert_eq!(stocks(&ledger, 0), (8, 4, 12));
    assert_eq!(ledger.sales[0].sold_from, Location::Warehouse);
    assert_eq!(ledger.sales[1].sold_from, Location::Store);
    assert_eq!(ledger.sales[0].payment_method, PaymentMethod::Cash);

    let ret = CreateReturnPayload {
        barcode: "A".to_string(),
        qty: 1,
        return_to: "DEPO".to_string(),
        sold_at: Some(now.at.to_text()),
        sold_from: Some("MAGAZA".to_string()),
        unit_price: 90,
    };
    let res = create_return(&mut ledger, ret, &moment(600)).unwrap();
    assert_eq!(res.returned_total, 90);
    assert_eq!(ledger.return_items[0].ref_sale_id, Some(2));
    assert_eq!(stocks(&ledger, 0), (8, 5, 13));

    let ex = CreateExchangePayload {
        returned: CreateExchangeReturnedPayload {
            barcode: "A".to_string(),
            qty: 1,
            return_to: "MAGAZA".to_string(),
            sold_at: Some("not a time".to_string()),
            sold_from: None,
            unit_price: 90,
        },
        given: vec![CreateExchangeGivenItemPayload {
            barcode: "B".to_string(),
            qty: 1,
            sold_from: "Depo".to_string(),
            unit_price: 120,
        }],
        summary: CreateExchangeSummaryPayload { diff_payment_method: Some("kart".to_string()) },
    };
    let res = create_exchange(&mut ledger, ex, &moment(700)).unwrap();
    assert_eq!(res.diff, 30);
    assert_eq!(ledger.return_groups[1].diff_payment_method, Some(PaymentMethod::Card));
    assert_eq!(ledger.return_items[1].ref_sale_id, None);
    assert_eq!(stocks(&ledger, 1), (3, 2, 5));

    let tr = CreateTransferPayload {
        items: vec![CreateTransferItemPayload {
            barcode: "B".to_string(),
            qty: 2,
            from_loc: "depo".to_string(),
            to_loc: "MAGAZA".to_string(),
        }],
        note: Some("   ".to_string()),
    };
    let res = create_transfer(&mut ledger, tr, &moment(800)).unwrap();
    assert_eq!(res.lines, 1);
    assert_eq!(ledger.transfers[0].note, None);
    assert_eq!(stocks(&ledger, 1), (5, 0, 5));
}

#[test]
fn one_counter_is_adjusted_with_its_mirror() {
    let mut ledger = ledger_with(vec![product("A", 10, 5), product("B", 1, 1)]);
    let a = "A".to_string();
    ciel_pos::stock::adjust_location_stock(&mut ledger.products, &a, Location::Warehouse, -5).unwrap();
    assert_eq!(stocks(&ledger, 0), (10, 0, 10));
    ciel_pos::stock::adjust_location_stock(&mut ledger.products, &a, Location::Store, 3).unwrap();
    assert_eq!(stocks(&ledger, 0), (13, 0, 13));
    let err = ciel_pos::stock::adjust_location_stock(&mut ledger.products, &a, Location::Warehouse, -1)
        .unwrap_err();
    match err {
        LedgerError::InsufficientStock { barcode, location, available, requested } => {
            assert_eq!(barcode, "A");
            assert_eq!(location, Location::Warehouse);
            assert_eq!((available, requested), (0, 1));
        }
        other => panic!("unexpected {:?}", other),
    }
    let err = ciel_pos::stock::adjust_location_stock(&mut ledger.products, &a, Location::Store, i64::MAX)
        .unwrap_err();
    assert!(matches!(err, LedgerError::OutOfRange));
    let err = ciel_pos::stock::adjust_location_stock(
        &mut ledger.products,
        &"nope".to_string(),
        Location::Store,
        1,
    )
    .unwrap_err();
    assert_eq!(err.kind(), ErrorKind::NotFound);
    assert_eq!(stocks(&ledger, 0), (13, 0, 13));
    assert_eq!(stocks(&ledger, 1), (1, 1, 2));
}

#[test]
fn the_invariant_holds_after_every_operation_and_is_checked() {
    let mut ledger = ledger_with(vec![product("A", 10, 5), product("B", 3, 3)]);
    assert!(ledger.is_wf());
    let now = moment(10);
    sell(&mut ledger, &vec![item("A", 4, 10, Location::Store)], PaymentMethod::Card, &now).unwrap();
    assert!(ledger.is_wf());
    refund(&mut ledger, &goods("A", 4, 10, Location::Store, Some(now.at)), &moment(20)).unwrap();
    assert!(ledger.is_wf());
    undo_last_sale(&mut ledger).unwrap();
    assert!(ledger.is_wf());
    assert_eq!(ledger.return_items[0].ref_sale_id, Some(1));
    sell(&mut ledger, &vec![item("A", 1, 10, Location::Store)], PaymentMethod::Card, &moment(30)).unwrap();
    assert_eq!(ledger.sales[0].id, 2);
    assert!(ledger.is_wf());

    let mut broken = ledger_with(vec![product("A", 1, 1), product("A", 1, 1)]);
    assert!(!broken.is_wf());
    broken.products.pop();
    assert!(broken.is_wf());
    broken.products[0].depo_stok = -1;
    assert!(!broken.is_wf());
    let mut over = ledger_with(vec![product("A", 5, 0)]);
    sell(&mut over, &vec![item("A", 2, 10, Location::Store)], PaymentMethod::Card, &now).unwrap();
    refund(&mut over, &goods("A", 2, 10, Location::Store, Some(now.at)), &moment(40)).unwrap();
    over.return_items[0].qty = 3;
    assert!(!over.is_wf());
}

#[test]
fn a_return_group_is_deleted_with_its_lines() {
    let mut ledger = ledger_with(vec![product("A", 5, 0), product("B", 5, 5)]);
    let now = moment(1000);
    sell(&mut ledger, &vec![item("A", 3, 100, Location::Store)], PaymentMethod::Card, &now).unwrap();
    refund(&mut ledger, &goods("A", 1, 100, Location::Store, Some(now.at)), &moment(2000)).unwrap();
    let given = vec![GivenItem {
        barcode: "B".to_string(),
        qty: 1,
        location: Location::Store,
        unit_price: 100,
    }];
    exchange(&mut ledger, &goods("A", 2, 100, Location::Store, Some(now.at)), &given, None, &moment(3000))
        .unwrap();
    assert_eq!(ledger.return_groups.len(), 2);
    assert_eq!(ledger.return_items.len(), 2);
    assert_eq!(ledger.exchange_items.len(), 1);
    let before = (stocks(&ledger, 0), stocks(&ledger, 1));
    let missing = ciel_pos::refunds::delete_return_group(&mut ledger, &"E9".to_string()).unwrap_err();
    assert!(matches!(missing, LedgerError::ReturnGroupNotFound));
    assert_eq!(missing.kind(), ErrorKind::NotFound);
    let n = ciel_pos::refunds::delete_return_group(&mut ledger, &"E3000".to_string()).unwrap();
    assert_eq!(n, 1);
    assert_eq!(ledger.return_groups.len(), 1);
    assert_eq!(ledger.return_groups[0].return_group_id, "R2000");
    assert_eq!(ledger.return_items.len(), 1);
    assert!(ledger.exchange_items.is_empty());
    assert_eq!((stocks(&ledger, 0), stocks(&ledger, 1)), before);
    assert!(ledger.is_wf());
    // What the exchange had taken back can be refunded again.
    assert!(refund(&mut ledger, &goods("A", 2, 100, Location::Store, Some(now.at)), &moment(4000)).is_ok());
}

#[test]
fn an_exchange_payload_without_a_method_is_refused_when_money_is_owed() {
    let mut ledger = ledger_with(vec![product("A", 5, 0), product("B", 5, 5)]);
    let payload = |method: Option<&str>, price: i64| CreateExchangePayload {
        returned: CreateExchangeReturnedPayload {
            barcode: "A".to_string(),
            qty: 1,
            return_to: "MAGAZA".to_string(),
            sold_at: None,
            sold_from: None,
            unit_price: 100,
        },
        given: vec![CreateExchangeGivenItemPayload {
            barcode: "B".to_string(),
            qty: 1,
            sold_from: "DEPO".to_string(),
            unit_price: price,
        }],
        summary: CreateExchangeSummaryPayload {
            diff_payment_method: method.map(|m| m.to_string()),
        },
    };
    let err = create_exchange(&mut ledger, payload(None, 150), &moment(1)).unwrap_err();
    assert!(matches!(err, LedgerError::PaymentMethodRejected));
    assert_eq!(err.kind(), ErrorKind::Validation);
    let err = create_exchange(&mut ledger, payload(Some("havale"), 150), &moment(1)).unwrap_err();
    assert!(matches!(err, LedgerError::PaymentMethodRejected));
    assert_eq!(stocks(&ledger, 0), (5, 0, 5));
    assert_eq!(stocks(&ledger, 1), (5, 5, 10));
    let even = create_exchange(&mut ledger, payload(None, 100), &moment(2)).unwrap();
    assert_eq!(even.diff, 0);
    assert_eq!(ledger.return_groups[0].diff_payment_method, None);
    let paid = create_exchange(&mut ledger, payload(Some(" NAKİT "), 150), &moment(3)).unwrap();
    assert_eq!(paid.diff, 50);
    assert_eq!(ledger.return_groups[1].diff_payment_method, Some(PaymentMethod::Cash));
}

#[test]
fn returned_goods_are_matched_by_their_trimmed_barcode() {
    let mut ledger = ledger_with(vec![product("A", 5, 0)]);
    let now = moment(1000);
    sell(&mut ledger, &vec![item("A", 2, 100, Location::Store)], PaymentMethod::Card, &now).unwrap();
    let found = ciel_pos::refunds::find_matched_sale(
        &ledger.sales,
        &goods(" A ", 1, 100, Location::Store, Some(now.at)),
    );
    assert_eq!(found, Some(0));
    let other = ciel_pos::refunds::find_matched_sale(
        &ledger.sales,
        &goods("B", 1, 100, Location::Store, Some(now.at)),
    );
    assert_eq!(other, None);
}

#[test]
fn an_exchange_reports_the_refund_accounting_in_its_own_words() {
    let mut ledger = ledger_with(vec![product("A", 5, 0), product("B", 5, 0)]);
    let now = moment(1000);
    sell(&mut ledger, &vec![item("A", 1, 100, Location::Store)], PaymentMethod::Card, &now).unwrap();
    let given = vec![GivenItem { barcode: "B".to_string(), qty: 1, location: Location::Store, unit_price: 10 }];
    let err = exchange(&mut ledger, &goods("A", 2, 100, Location::Store, Some(now.at)), &given, None, &moment(2000))
        .unwrap_err();
    assert!(matches!(err, LedgerError::RefundExceedsRemaining { sold: 1, refunded: 0, remaining: 1, exchange: true }));
    exchange(&mut ledger, &goods("A", 1, 100, Location::Store, Some(now.at)), &given, None, &moment(3000)).unwrap();
    let err = exchange(&mut ledger, &goods("A", 1, 100, Location::Store, Some(now.at)), &given, None, &moment(4000))
        .unwrap_err();
    assert!(matches!(err, LedgerError::FullyRefunded { exchange: true, .. }));
    assert_eq!(err.message(), "Bu satış satırı daha önce tamamen iade/değişim yapılmış");
    let err = refund(&mut ledger, &goods("A", 1, 100, Location::Store, Some(now.at)), &moment(5000)).unwrap_err();
    assert_eq!(err.message(), "Bu satış satırı daha önce tamamen iade edilmiş");
}
