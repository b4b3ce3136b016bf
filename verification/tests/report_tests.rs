use pos_core::models::{Date, Order, OrderItem, Product, Purchase, PurchaseItem, Setting};
use pos_core::rational::Rat;
use pos_core::store::Store;

fn rat(num: i64, den: i64) -> Rat {
    Rat { num, den }
}

fn whole(n: i64) -> Rat {
    rat(n, 1)
}

fn date(year: u16, month: u8, day: u8) -> Date {
    Date { year, month, day }
}

fn mk_product(name: &str) -> Product {
    Product {
        id: 0,
        product_name: name.to_owned(),
        product_code: None,
        category: None,
        brand: None,
        buying_price: whole(0),
        default_selling_price: whole(0),
        stock_quantity: whole(0),
        unit: None,
        tax_percentage: whole(0),
        original_price: whole(0),
        profit_percentage: whole(0),
        facebook_link: None,
        product_link: None,
        created_at: None,
        updated_at: None,
        is_deleted: 0,
        images: None,
    }
}

fn mk_purchase(d: Option<Date>, total: Rat) -> Purchase {
    Purchase {
        purchase_id: 0,
        supplier_name: Some("acme".to_owned()),
        supplier_phone: None,
        invoice_number: Some("inv-9".to_owned()),
        purchase_date: d,
        total_amount: total,
        notes: None,
        created_at: None,
    }
}

fn mk_line(product_id: i64, qty: Rat, unit: Rat) -> PurchaseItem {
    PurchaseItem {
        id: 0,
        purchase_id: 0,
        product_id,
        quantity: qty,
        buying_price: unit,
        extra_charge: whole(0),
        subtotal: whole(0),
        purchase_unit_cost: unit,
    }
}

fn mk_order(d: Option<Date>, total: Rat) -> Order {
    Order {
        order_id: 0,
        order_date: d,
        order_type: "sale".to_owned(),
        customer_name: Some("kim".to_owned()),
        customer_phone: None,
        customer_address: None,
        subtotal: total,
        extra_charge: whole(0),
        delivery_charge: whole(0),
        discount: whole(0),
        grand_total: total,
        payment_method: None,
        notes: None,
    }
}

fn mk_sale_line(product_id: i64, qty: Rat, price: Rat) -> OrderItem {
    OrderItem {
        id: 0,
        order_id: 0,
        product_id,
        quantity: qty,
        selling_price: price,
        subtotal: whole(0),
        buying_price_snapshot: None,
    }
}

fn scenario() -> (Store, i64) {
    let mut store = Store::new();
    let pid =
        pos_core::catalog::create_product(&mut store, mk_product("widget"), Vec::new()).unwrap();
    pos_core::ledger::create_purchase(
        &mut store,
        mk_purchase(Some(date(2024, 3, 15)), whole(50)),
        vec![mk_line(pid, whole(10), whole(5))],
    )
    .unwrap();
    pos_core::ledger::create_order(
        &mut store,
        mk_order(Some(date(2024, 3, 20)), whole(32)),
        vec![mk_sale_line(pid, whole(4), whole(8))],
    )
    .unwrap();
    pos_core::ledger::create_order(
        &mut store,
        mk_order(Some(date(2024, 2, 1)), whole(16)),
        vec![mk_sale_line(pid, whole(2), whole(8))],
    )
    .unwrap();
    (store, pid)
}

#[test]
fn dashboard_windows_and_profit() {
    let (store, _) = scenario();
    let today = date(2024, 3, 20);
    let stats = pos_core::reports::get_dashboard_stats(&store, today).unwrap();
    assert!(stats.total_sales.same_value(whole(48)));
    assert!(stats.sales_today.same_value(whole(32)));
    assert!(stats.sales_month.same_value(whole(32)));
    assert!(stats.sales_year.same_value(whole(48)));
    assert!(stats.total_purchases.same_value(whole(50)));
    assert!(stats.purchases_today.same_value(whole(0)));
    assert!(stats.purchases_month.same_value(whole(50)));
    // Profit = sales - quantity * snapshot: today 32 - 4*5 = 12;
    // all time 48 - 6*5 = 18.
    assert!(stats.profit_today.same_value(whole(12)));
    assert!(stats.total_profit.same_value(whole(18)));
    // Inventory value: 4 units left at cost 5.
    assert!(stats.inventory_value.same_value(whole(20)));
    assert_eq!(stats.low_stock_count, 1);
    assert_eq!(stats.order_count, 2);
    assert_eq!(stats.product_count, 1);
}

#[test]
fn sales_report_scopes_profit_to_the_range() {
    let (store, _) = scenario();
    let rows =
        pos_core::reports::get_sales_report(&store, date(2024, 3, 1), date(2024, 3, 31)).unwrap();
    assert_eq!(rows.len(), 1);
    assert!(rows[0].total.same_value(whole(32)));
    assert!(rows[0].profit.same_value(whole(12)));
    assert_eq!(rows[0].items_count, 1);
}

#[test]
fn sales_report_comes_newest_first() {
    let (store, _) = scenario();
    let rows =
        pos_core::reports::get_sales_report(&store, date(2024, 1, 1), date(2024, 12, 31)).unwrap();
    assert_eq!(rows.len(), 2);
    assert_eq!(rows[0].date, Some(date(2024, 3, 20)));
    assert_eq!(rows[1].date, Some(date(2024, 2, 1)));
}

#[test]
fn listings_come_newest_first() {
    let (store, _) = scenario();
    let orders = pos_core::catalog::get_orders(&store);
    assert_eq!(orders.len(), 2);
    assert_eq!(orders[0].order_date, Some(date(2024, 3, 20)));
    assert_eq!(orders[1].order_date, Some(date(2024, 2, 1)));
    let purchases = pos_core::catalog::get_purchases(&store);
    assert_eq!(purchases.len(), 1);
}

#[test]
fn inventory_report_sorts_by_stock_ascending() {
    let mut store = Store::new();
    let a = pos_core::catalog::create_product(&mut store, mk_product("a"), Vec::new()).unwrap();
    let b = pos_core::catalog::create_product(&mut store, mk_product("b"), Vec::new()).unwrap();
    pos_core::ledger::create_purchase(
        &mut store,
        mk_purchase(None, whole(0)),
        vec![mk_line(a, whole(9), whole(2)), mk_line(b, whole(3), whole(4))],
    )
    .unwrap();
    let rows = pos_core::reports::get_inventory_report(&store).unwrap();
    assert_eq!(rows.len(), 2);
    assert_eq!(rows[0].id, b);
    assert_eq!(rows[1].id, a);
    assert!(rows[0].stock_value.same_value(whole(12)));
    assert!(rows[1].stock_value.same_value(whole(18)));
}

#[test]
fn stock_history_merges_and_sorts_descending() {
    let (store, pid) = scenario();
    let rows = pos_core::reports::get_product_stock_history(&store, pid);
    assert_eq!(rows.len(), 3);
    assert_eq!(rows[0].movement_type, "OUT");
    assert_eq!(rows[0].date, Some(date(2024, 3, 20)));
    assert_eq!(rows[1].movement_type, "IN");
    assert_eq!(rows[1].date, Some(date(2024, 3, 15)));
    assert_eq!(rows[2].movement_type, "OUT");
    assert_eq!(rows[2].date, Some(date(2024, 2, 1)));
    assert_eq!(rows[1].reference.as_deref(), Some("inv-9"));
    assert!(rows[0].quantity.same_value(whole(4)));
}

#[test]
fn purchase_history_lists_the_lines() {
    let (store, pid) = scenario();
    let rows = pos_core::reports::get_product_purchase_history(&store, pid);
    assert_eq!(rows.len(), 1);
    assert!(rows[0].quantity.same_value(whole(10)));
    assert_eq!(rows[0].supplier_name.as_deref(), Some("acme"));
}

#[test]
fn rational_arithmetic_is_exact() {
    let a = rat(1, 3);
    let b = rat(1, 6);
    let sum = a.add(b).unwrap();
    assert!(sum.same_value(rat(1, 2)));
    let diff = a.sub(b).unwrap();
    assert!(diff.same_value(rat(1, 6)));
    let prod = a.mul(b).unwrap();
    assert!(prod.same_value(rat(1, 18)));
    let quot = a.div(b).unwrap();
    assert!(quot.same_value(whole(2)));
    assert!(a.div(whole(0)).is_none());
    assert!(whole(i64::MAX).add(whole(i64::MAX)).is_none());
    assert!(Rat::new(3, -4).unwrap().same_value(rat(-3, 4)));
    assert!(Rat::new(1, 0).is_none());
    assert!(rat(1, 3).le(rat(2, 5)));
    assert!(!rat(2, 5).le(rat(1, 3)));
}

#[test]
fn base64_encodes_standard_vectors() {
    assert_eq!(pos_core::encoding::base64_encode(b""), "");
    assert_eq!(pos_core::encoding::base64_encode(b"f"), "Zg==");
    assert_eq!(pos_core::encoding::base64_encode(b"fo"), "Zm8=");
    assert_eq!(pos_core::encoding::base64_encode(b"foo"), "Zm9v");
    assert_eq!(pos_core::encoding::base64_encode(b"foobar"), "Zm9vYmFy");
    assert_eq!(pos_core::encoding::base64_encode(&[0xff, 0xee, 0x11]), "/+4R");
}

fn setting(key: &str, value: &str) -> Setting {
    Setting { key: key.to_owned(), value: value.to_owned() }
}

#[test]
fn backup_plan_follows_the_settings() {
    let mut store = Store::new();
    pos_core::admin::update_settings(
        &mut store,
        vec![
            setting("auto_backup", "true"),
            setting("backup_dir", "/backups"),
            setting("keep_backups", "7"),
            setting("last_auto_backup_date", "2024-03-19"),
        ],
    )
    .unwrap();
    let plan = pos_core::backup::plan_auto_backup(
        &store.settings,
        "2024-03-20".to_owned(),
        "2024-03-20-10-00-00".to_owned(),
    )
    .unwrap();
    assert_eq!(plan.dir, "/backups");
    assert_eq!(plan.keep, 7);
    assert_eq!(plan.today, "2024-03-20");
    // Already backed up today: nothing to do.
    assert!(pos_core::backup::plan_auto_backup(
        &store.settings,
        "2024-03-19".to_owned(),
        "ts".to_owned(),
    )
    .is_none());
    // Switched off: nothing to do.
    pos_core::admin::update_settings(&mut store, vec![setting("auto_backup", "false")]).unwrap();
    assert!(pos_core::backup::plan_auto_backup(
        &store.settings,
        "2024-03-20".to_owned(),
        "ts".to_owned(),
    )
    .is_none());
}

#[test]
fn unreadable_keep_count_falls_back_to_five() {
    let mut store = Store::new();
    pos_core::admin::update_settings(
        &mut store,
        vec![
            setting("auto_backup", "true"),
            setting("backup_dir", "/backups"),
            setting("keep_backups", "many"),
        ],
    )
    .unwrap();
    let plan = pos_core::backup::plan_auto_backup(
        &store.settings,
        "2024-03-20".to_owned(),
        "ts".to_owned(),
    )
    .unwrap();
    assert_eq!(plan.keep, 5);
}

#[test]
fn data_url_mime_follows_the_extension() {
    assert_eq!(pos_core::encoding::mime_for_extension("jpg"), "image/jpeg");
    assert_eq!(pos_core::encoding::mime_for_extension("jpeg"), "image/jpeg");
    assert_eq!(pos_core::encoding::mime_for_extension("png"), "image/png");
    assert_eq!(pos_core::encoding::mime_for_extension("webp"), "image/webp");
    assert_eq!(pos_core::encoding::mime_for_extension("gif"), "image/gif");
    assert_eq!(pos_core::encoding::mime_for_extension("bmp"), "image/png");
}

#[test]
fn backup_listings_filter_and_sort_by_name() {
    let entries: Vec<pos_core::models::BackupInfo> =
        ["pos-2024-01-01.db", "notes.txt", "pos-2024-03-01.db", "old.bak"]
            .iter()
            .map(|n| pos_core::models::BackupInfo {
                name: n.to_string(),
                path: format!("/backups/{}", n),
                size: 1,
                created_at: String::new(),
            })
            .collect();
    let sorted = pos_core::backup::sorted_backups(&entries);
    assert_eq!(sorted.len(), 3);
    assert_eq!(sorted[0].name, "pos-2024-03-01.db");
    assert_eq!(sorted[1].name, "pos-2024-01-01.db");
    assert_eq!(sorted[2].name, "old.bak");
}

#[test]
fn prune_selection_splits_at_the_keep_count() {
    let backups: Vec<pos_core::models::BackupInfo> = ["c", "b", "a"]
        .iter()
        .map(|n| pos_core::models::BackupInfo {
            name: n.to_string(),
            path: format!("/backups/{}", n),
            size: 1,
            created_at: String::new(),
        })
        .collect();
    let (kept, removed) = pos_core::backup::prune_selection(&backups, 2);
    assert_eq!(kept.len(), 2);
    assert_eq!(removed.len(), 1);
    assert_eq!(removed[0].name, "a");
}
