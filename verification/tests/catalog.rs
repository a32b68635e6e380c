use ciel_pos::backup::{backup_file_name, chrono_like_id, now_stamp, safety_file_name};
use ciel_pos::catalog::{
    add_product, delete_product, find_product_by_barcode, list_products,
    next_barcode, next_product_code_for_prefix, normalize_prefix_from_category,
    prefix_from_upper, update_product, AddProductPayload, UpdateProductPayload,
};
use ciel_pos::clock::{
    day_number_of, parse_timestamp, period_back, prev_day, Date, Moment, Period, Timestamp,
};
use ciel_pos::dictionary::{
    create_category, create_color, create_size, delete_category, list_categories_full,
    list_sizes_full, update_category, update_size, Dictionaries,
};
use ciel_pos::error::{ErrorKind, LedgerError};
use ciel_pos::kinds::{
    col_for_loc, normalize_payment_method, pm_bucket, Location, PaymentMethod,
};
use ciel_pos::ledger::Ledger;
use ciel_pos::sale::{sell, SaleItem};
use ciel_pos::text::{
    gen_group_id, norm_opt, norm_opt_q, norm_req, norm_req_len, read_number, strip_hyphens,
};

fn now() -> Moment {
    Moment {
        at: Timestamp { date: Date { year: 2024, month: 5, day: 17 }, hour: 9, minute: 5, second: 7 },
        millis: 1715937907000,
    }
}

fn payload(name: &str) -> AddProductPayload {
    AddProductPayload {
        barcode: None,
        product_code: None,
        category: None,
        name: name.to_string(),
        color: None,
        size: None,
        buy_price: None,
        sell_price: 1000,
        stock: None,
        magaza_baslangic: None,
        depo_baslangic: None,
    }
}

#[test]
fn barcodes_are_assigned_from_a_million_and_one() {
    let mut l = Ledger::new();
    let a = add_product(&mut l, payload("first"), &now()).unwrap();
    assert_eq!(a.barcode, "1000001");
    assert_eq!(a.product_code.as_deref(), Some("PRD001"));
    let b = add_product(&mut l, payload("second"), &now()).unwrap();
    assert_eq!(b.barcode, "1000002");
    assert_eq!(b.product_code.as_deref(), Some("PRD002"));
    let mut own = payload("own code");
    own.barcode = Some("  77  ".to_string());
    own.product_code = Some(" ete-010 ".to_string());
    own.category = Some(" Etek ".to_string());
    own.magaza_baslangic = Some(4);
    own.depo_baslangic = Some(6);
    own.buy_price = Some(400);
    let c = add_product(&mut l, own, &now()).unwrap();
    assert_eq!(c.barcode, "77");
    assert_eq!(c.product_code.as_deref(), Some("ETE010"));
    let p = &l.products[2];
    assert_eq!((p.magaza_stok, p.depo_stok, p.stock), (4, 6, 10));
    assert_eq!((p.magaza_baslangic, p.depo_baslangic, p.buy_price), (4, 6, 400));
    assert_eq!(p.category.as_deref(), Some("Etek"));
    assert_eq!(p.created_at, Some(now().at));
    assert!(p.is_active);
    let mut skirt = payload("skirt");
    skirt.category = Some("etek".to_string());
    let d = add_product(&mut l, skirt, &now()).unwrap();
    assert_eq!(d.barcode, "1000003");
    assert_eq!(d.product_code.as_deref(), Some("ETE011"));
    let mut high = payload("high");
    high.barcode = Some("2000000x".to_string());
    add_product(&mut l, high, &now()).unwrap();
    assert_eq!(next_barcode(&l.products).unwrap(), "2000001");
    assert!(l.is_wf());
}

#[test]
fn products_that_cannot_be_created() {
    let mut l = Ledger::new();
    assert!(matches!(add_product(&mut l, payload("   "), &now()), Err(LedgerError::FieldRequired { .. })));
    let mut a = payload("a");
    a.barcode = Some("5".to_string());
    add_product(&mut l, a, &now()).unwrap();
    let mut again = payload("b");
    again.barcode = Some(" 5 ".to_string());
    let err = add_product(&mut l, again, &now()).unwrap_err();
    assert!(matches!(&err, LedgerError::DuplicateBarcode { barcode } if barcode == "5"));
    assert_eq!(err.kind(), ErrorKind::Conflict);
    let mut negative = payload("c");
    negative.depo_baslangic = Some(-1);
    assert!(matches!(add_product(&mut l, negative, &now()), Err(LedgerError::NegativeStock)));
    let mut full = payload("d");
    full.barcode = Some("9".to_string());
    full.product_code = Some("abc999".to_string());
    add_product(&mut l, full, &now()).unwrap();
    let mut next = payload("e");
    next.category = Some("abc".to_string());
    assert!(matches!(add_product(&mut l, next, &now()), Err(LedgerError::CodeSpaceExhausted { .. })));
    assert_eq!(l.products.len(), 2);
    assert!(matches!(
        next_product_code_for_prefix(&l.products, "ABC"),
        Err(LedgerError::CodeSpaceExhausted { prefix }) if prefix == "ABC"
    ));
    assert_eq!(next_product_code_for_prefix(&l.products, "XYZ").unwrap(), "XYZ001");
}

#[test]
fn prefixes_come_from_the_category() {
    assert_eq!(normalize_prefix_from_category(Some("Etek")), "ETE");
    assert_eq!(normalize_prefix_from_category(Some("  çanta ")), "CAN");
    assert_eq!(normalize_prefix_from_category(Some("Şal")), "SAL");
    assert_eq!(normalize_prefix_from_category(Some("ığ")), "IGX");
    assert_eq!(normalize_prefix_from_category(Some("Dış Giyim")), "DIS");
    assert_eq!(normalize_prefix_from_category(Some("é-1")), "1XX");
    assert_eq!(normalize_prefix_from_category(Some("--")), "PRD");
    assert_eq!(normalize_prefix_from_category(Some("")), "PRD");
    assert_eq!(normalize_prefix_from_category(None), "PRD");
    assert_eq!(prefix_from_upper("A B-C D"), "ABC");
    assert_eq!(prefix_from_upper("X"), "XXX");
    assert_eq!(strip_hyphens("a-b--c-"), "abc");
}

#[test]
fn products_are_updated_retired_and_listed() {
    let mut l = Ledger::new();
    for (bc, name) in [("30", "thirty"), ("4", "four"), ("200", "two hundred")] {
        let mut p = payload(name);
        p.barcode = Some(bc.to_string());
        p.magaza_baslangic = Some(5);
        add_product(&mut l, p, &now()).unwrap();
    }
    let listed = list_products(&l);
    assert_eq!(
        listed.iter().map(|p| p.barcode.as_str()).collect::<Vec<_>>(),
        vec!["4", "30", "200"]
    );
    let changed = update_product(
        &mut l,
        UpdateProductPayload {
            barcode: " 4 ".to_string(),
            product_code: None,
            category: Some("hats".to_string()),
            name: " Four ".to_string(),
            color: Some(" ".to_string()),
            size: None,
            buy_price: Some(12),
            sell_price: 34,
        },
    )
    .unwrap();
    assert_eq!(changed, 1);
    let four = find_product_by_barcode(&l, &"4".to_string()).unwrap();
    assert_eq!(four.name, "Four");
    assert_eq!(four.product_code.as_deref(), Some("PRD002"));
    assert_eq!(four.category.as_deref(), Some("hats"));
    assert_eq!(four.color, None);
    assert_eq!((four.buy_price, four.sell_price, four.magaza_stok), (12, 34, 5));
    let missing = update_product(
        &mut l,
        UpdateProductPayload {
            barcode: "404".to_string(),
            product_code: None,
            category: None,
            name: "x".to_string(),
            color: None,
            size: None,
            buy_price: None,
            sell_price: 1,
        },
    )
    .unwrap();
    assert_eq!(missing, 0);
    // A product that the history names is retired, not removed.
    sell(
        &mut l,
        &vec![SaleItem {
            barcode: "30".to_string(),
            qty: 1,
            list_price: 1,
            discount_amount: 0,
            unit_price: 1,
            location: Location::Store,
        }],
        PaymentMethod::Card,
        &now(),
    )
    .unwrap();
    assert_eq!(delete_product(&mut l, &"30".to_string()), 1);
    assert_eq!(l.products.len(), 3);
    let thirty = find_product_by_barcode(&l, &"30".to_string()).unwrap();
    assert!(!thirty.is_active);
    assert_eq!((thirty.magaza_stok, thirty.depo_stok, thirty.stock), (0, 0, 0));
    assert_eq!(delete_product(&mut l, &"200".to_string()), 1);
    assert_eq!(l.products.len(), 2);
    assert_eq!(delete_product(&mut l, &"200".to_string()), 0);
    assert_eq!(list_products(&l).len(), 1);
    assert!(find_product_by_barcode(&l, &"200".to_string()).is_none());
    assert!(l.is_wf());
}

#[test]
fn dictionaries_guard_entries_in_use() {
    let mut l = Ledger::new();
    let mut p = payload("hat");
    p.category = Some("Hats".to_string());
    add_product(&mut l, p, &now()).unwrap();
    let mut d = Dictionaries::new();
    assert_eq!(create_category(&mut d, " Hats ".to_string(), &now()).unwrap(), 1);
    assert_eq!(create_category(&mut d, "Hats".to_string(), &now()).unwrap(), 1);
    assert_eq!(create_category(&mut d, "Bags".to_string(), &now()).unwrap(), 1);
    assert_eq!(d.categories.rows.len(), 2);
    assert_eq!(d.categories.rows[0].name, "Hats");
    assert_eq!(d.categories.rows[1].id, 2);
    assert!(matches!(
        create_category(&mut d, "  ".to_string(), &now()),
        Err(LedgerError::NameRequired { .. })
    ));
    assert_eq!(create_color(&mut d, "Red".to_string(), &now()).unwrap(), 1);
    assert_eq!(create_size(&mut d, "XL".to_string(), Some(50), &now()).unwrap(), 1);
    assert_eq!(create_size(&mut d, "S".to_string(), None, &now()).unwrap(), 1);
    assert_eq!(d.sizes.rows[0].sort_order, 50);
    assert_eq!(d.sizes.rows[1].sort_order, 0);

    let used = update_category(&mut d, &l.products, 1, None, Some(0)).unwrap_err();
    assert!(matches!(used, LedgerError::EntryInUse { .. }));
    assert!(matches!(delete_category(&mut d, &l.products, 1), Err(LedgerError::EntryInUse { .. })));
    assert!(matches!(delete_category(&mut d, &l.products, 0), Err(LedgerError::InvalidId)));
    assert!(matches!(delete_category(&mut d, &l.products, 9), Err(LedgerError::EntryNotFound { .. })));
    assert!(matches!(
        update_category(&mut d, &l.products, 2, Some("Hats".to_string()), None),
        Err(LedgerError::DuplicateName)
    ));
    assert_eq!(update_category(&mut d, &l.products, 2, Some(" Totes ".to_string()), Some(0)).unwrap(), 2);
    assert_eq!(d.categories.rows[1].name, "Totes");
    assert!(!d.categories.rows[1].is_active);
    assert_eq!(list_categories_full(&d, false).len(), 1);
    let all = list_categories_full(&d, true);
    assert_eq!(all.len(), 2);
    assert_eq!(all[1].is_active, 0);
    assert_eq!(delete_category(&mut d, &l.products, 2).unwrap(), 1);
    assert_eq!(d.categories.rows.len(), 1);
    assert_eq!(update_size(&mut d, &l.products, 1, None, Some(5), Some(7)).unwrap(), 2);
    let sizes = list_sizes_full(&d, false);
    assert_eq!(sizes.iter().map(|s| s.name.as_str()).collect::<Vec<_>>(), vec!["S", "XL"]);
    assert_eq!(sizes[1].sort_order, 5);
    assert_eq!(sizes[1].is_active, 1);
    for name in ["Zebra", "apple", "Apple", "App", "Çay"] {
        create_color(&mut d, name.to_string(), &now()).unwrap();
    }
    let colors = ciel_pos::dictionary::list_colors_full(&d, true);
    assert_eq!(
        colors.iter().map(|c| c.name.as_str()).collect::<Vec<_>>(),
        vec!["App", "Apple", "Red", "Zebra", "apple", "Çay"]
    );
}

#[test]
fn texts_are_trimmed_and_codes_are_folded() {
    assert_eq!(norm_opt(Some("  a b \t".to_string())).as_deref(), Some("a b"));
    assert_eq!(norm_opt(Some(" \u{a0}\n".to_string())), None);
    assert_eq!(norm_opt(None), None);
    assert_eq!(norm_opt_q(Some(" q ".to_string())).as_deref(), Some("q"));
    assert_eq!(norm_req("name", " x ").unwrap(), "x");
    assert!(matches!(norm_req("name", " "), Err(LedgerError::FieldRequired { .. })));
    assert_eq!(norm_req_len("name", " abc ", 3).unwrap(), "abc");
    assert!(matches!(norm_req_len("name", "abcd", 3), Err(LedgerError::FieldTooLong { .. })));
    assert!(matches!(norm_req_len("name", "", 3), Err(LedgerError::FieldRequired { .. })));
    assert_eq!(Location::parse("depo"), Location::Warehouse);
    assert_eq!(Location::parse("DEPO"), Location::Warehouse);
    assert_eq!(Location::parse(" depo"), Location::Store);
    assert_eq!(Location::parse("magaza"), Location::Store);
    assert_eq!(Location::resolve(" ", "depo"), Location::Warehouse);
    assert_eq!(Location::resolve("", ""), Location::Store);
    assert_eq!(Location::resolve("magaza", "depo"), Location::Store);
    assert_eq!(col_for_loc("Depo"), "depo_stok");
    assert_eq!(col_for_loc("x"), "magaza_stok");
    assert_eq!(Location::Warehouse.code(), "DEPO");
    assert_eq!(PaymentMethod::parse_for_sale(" kart "), PaymentMethod::Card);
    assert_eq!(PaymentMethod::parse_for_sale("nakit"), PaymentMethod::Cash);
    assert_eq!(PaymentMethod::parse_for_sale("NAKİT"), PaymentMethod::Cash);
    assert_eq!(PaymentMethod::parse_for_sale("eft"), PaymentMethod::Transfer);
    assert_eq!(PaymentMethod::parse_for_sale("cheque"), PaymentMethod::Card);
    assert_eq!(PaymentMethod::parse_for_sale(""), PaymentMethod::Card);
    assert_eq!(PaymentMethod::parse_for_diff(&None), None);
    assert_eq!(PaymentMethod::parse_for_diff(&Some(" nakit ".to_string())), Some(PaymentMethod::Cash));
    assert_eq!(PaymentMethod::parse_for_diff(&Some("Card".to_string())), Some(PaymentMethod::Card));
    assert_eq!(PaymentMethod::parse_for_diff(&Some("transfer".to_string())), None);
    assert_eq!(PaymentMethod::Transfer.code(), "TRANSFER");
    assert_eq!(pm_bucket(" cash "), "CASH");
    assert_eq!(pm_bucket("nakit"), "CASH");
    assert_eq!(pm_bucket("transfer"), "CARD");
    assert_eq!(normalize_payment_method(Some(" cash ".to_string())), "CASH");
    assert_eq!(normalize_payment_method(Some("Transfer".to_string())), "TRANSFER");
    assert_eq!(normalize_payment_method(Some("nakit".to_string())), "CARD");
    assert_eq!(normalize_payment_method(None), "CARD");
    assert_eq!(gen_group_id("S", 0), "S0");
    assert_eq!(gen_group_id("T", 1715937907000), "T1715937907000");
    assert_eq!(gen_group_id("E", u64::MAX), "E18446744073709551615");
    assert_eq!(read_number("0123x9", 0, 1000), 123);
    assert_eq!(read_number("ab12", 2, 1000), 12);
    assert_eq!(read_number("99999", 0, 1000), 1000);
    assert_eq!(read_number("x1", 0, 1000), 0);
    assert_eq!(now_stamp(1715937907), "1715937907");
    assert_eq!(chrono_like_id(1715937907000), "1715937907000");
    assert_eq!(backup_file_name(12), "ciel_pos_12.sqlite");
    assert_eq!(safety_file_name(12), "ciel_pos_BEFORE_RESTORE_12.sqlite");
}

#[test]
fn error_messages_name_what_went_wrong() {
    let e = LedgerError::InsufficientStock {
        barcode: "A1".to_string(),
        location: Location::Warehouse,
        available: 2,
        requested: 5,
    };
    assert_eq!(e.message(), "Yetersiz stok: A1 (DEPO stok: 2, istenen: 5)");
    let e = LedgerError::RefundExceedsRemaining { sold: 5, refunded: 3, remaining: 2, exchange: false };
    assert_eq!(
        e.message(),
        "İade adedi satıştan fazla olamaz (satılan: 5, daha önce iade: 3, kalan: 2)"
    );
    assert_eq!(
        LedgerError::ProductNotFound { barcode: "Z".to_string() }.message(),
        "Ürün bulunamadı: Z"
    );
    assert_eq!(LedgerError::EmptyBasket.message(), "Sepet boş");
    assert_eq!(LedgerError::NothingGiven.message(), "Değişimde verilecek sepet boş");
    assert_eq!(LedgerError::NoSaleToUndo.message(), "Geri alınacak satış bulunamadı");
    assert_eq!(LedgerError::NoTransferToUndo.message(), "Geri alınacak transfer bulunamadı");
    assert_eq!(
        LedgerError::FullyRefunded { sold: 2, refunded: 2, exchange: false }.message(),
        "Bu satış satırı daha önce tamamen iade edilmiş"
    );
    assert_eq!(
        LedgerError::FullyRefunded { sold: 2, refunded: 2, exchange: true }.message(),
        "Bu satış satırı daha önce tamamen iade/değişim yapılmış"
    );
    assert_eq!(
        LedgerError::RefundExceedsRemaining { sold: 5, refunded: 3, remaining: 2, exchange: true }
            .message(),
        "İade edilen adet satıştan fazla olamaz (satılan: 5, daha önce iade: 3, kalan: 2)"
    );
    assert_eq!(
        LedgerError::CodeSpaceExhausted { prefix: "ETE".to_string() }.message(),
        "ETE için product_code limiti doldu (999)"
    );
    assert_eq!(norm_req("Ürün adı", " ").unwrap_err().message(), "Ürün adı zorunlu");
    assert_eq!(norm_req_len("name", "abcd", 3).unwrap_err().message(), "name çok uzun (max 3).");
    assert_eq!(
        LedgerError::NameRequired { kind: ciel_pos::kinds::DictKind::Color }.message(),
        "Renk adı boş olamaz"
    );
    assert_eq!(
        LedgerError::EntryNotFound { kind: ciel_pos::kinds::DictKind::Size }.message(),
        "Beden bulunamadı"
    );
    assert_eq!(
        LedgerError::EntryInUse { kind: ciel_pos::kinds::DictKind::Category, removing: false }
            .message(),
        "Bu kategori ürünlerde kullanılıyor; pasife alınamaz"
    );
    assert_eq!(
        LedgerError::EntryInUse { kind: ciel_pos::kinds::DictKind::Color, removing: true }
            .message(),
        "Bu renk ürünlerde kullanılıyor; silinemez / pasife alınamaz"
    );
    assert_eq!(LedgerError::OutOfRange.kind(), ErrorKind::Integrity);
    let e = LedgerError::InsufficientStock {
        barcode: "A1".to_string(),
        location: Location::Store,
        available: -3,
        requested: i64::MAX,
    };
    assert_eq!(e.message(), "Yetersiz stok: A1 (MAGAZA stok: -3, istenen: 9223372036854775807)");
}

#[test]
fn the_calendar_steps_back_over_month_and_year_ends() {
    let d = |year, month, day| Date { year, month, day };
    assert_eq!(prev_day(d(2024, 5, 17)), d(2024, 5, 16));
    assert_eq!(prev_day(d(2024, 3, 1)), d(2024, 2, 29));
    assert_eq!(prev_day(d(2023, 3, 1)), d(2023, 2, 28));
    assert_eq!(prev_day(d(1900, 3, 1)), d(1900, 2, 28));
    assert_eq!(prev_day(d(2000, 3, 1)), d(2000, 2, 29));
    assert_eq!(prev_day(d(2024, 1, 1)), d(2023, 12, 31));
    assert_eq!(prev_day(d(0, 1, 1)), d(0, 1, 1));
    assert_eq!(day_number_of(d(2024, 3, 1)) - day_number_of(d(2024, 2, 28)), 2);
    assert_eq!(day_number_of(d(2024, 1, 1)) - day_number_of(d(2023, 1, 1)), 365);
    assert_eq!(day_number_of(d(2025, 1, 1)) - day_number_of(d(2024, 1, 1)), 366);
    assert_eq!(day_number_of(d(0, 1, 1)), 1);
    assert_eq!(day_number_of(d(1970, 1, 1)), 719_529);
    assert_eq!(period_back(d(2024, 5, 17), 0), Period { year: 2024, month: 5 });
    assert_eq!(period_back(d(2024, 5, 17), 5), Period { year: 2023, month: 12 });
    assert_eq!(period_back(d(2024, 3, 31), 1), Period { year: 2024, month: 2 });
    assert_eq!(period_back(d(2024, 3, 29), 1), Period { year: 2024, month: 2 });
    assert_eq!(period_back(d(2024, 5, 31), 1), Period { year: 2024, month: 4 });
    assert_eq!(period_back(d(2024, 1, 31), 1), Period { year: 2023, month: 12 });
    assert_eq!(period_back(d(2024, 12, 31), 24), Period { year: 2022, month: 12 });
    assert_eq!(period_back(d(1, 2, 1), 24), Period { year: 0, month: 1 });
}

#[test]
fn timestamps_are_written_and_read_back() {
    let t = now().at;
    assert_eq!(t.to_text(), "2024-05-17 09:05:07");
    assert_eq!(t.date.to_text(), "2024-05-17");
    assert_eq!(Period { year: 987, month: 1 }.to_text(), "0987-01");
    assert_eq!(parse_timestamp("2024-05-17 09:05:07"), Some(t));
    assert_eq!(parse_timestamp("2024-05-17T09:05:07"), None);
    assert_eq!(parse_timestamp("2024-05-17 09:05"), None);
    assert_eq!(parse_timestamp("2024-05-17 09:05:0x"), None);
    assert_eq!(parse_timestamp("２024-05-17 09:05:07"), None);
    assert!(t.rank() > Timestamp { second: 6, ..t }.rank());
    assert!(t.date.rank() < Date { year: 2024, month: 6, day: 1 }.rank());
}
