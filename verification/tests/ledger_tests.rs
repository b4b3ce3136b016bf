use pos_core::models::{Date, Order, OrderItem, Product, Purchase, PurchaseItem, StoreError};
use pos_core::rational::Rat;
use pos_core::store::Store;

fn rat(num: i64, den: i64) -> Rat {
    Rat { num, den }
}

fn whole(n: i64) -> Rat {
    rat(n, 1)
}

fn mk_product(name: &str) -> Product {
    Product {
        id: 0,
        product_name: name.to_owned(),
        product_code: None,
        category: None,
        brand: None,
        buying_price: whole(0),
        default_selling_price: whole(0),
        stock_quantity: whole(0),
        unit: None,
        tax_percentage: whole(0),
        original_price: whole(0),
        profit_percentage: whole(0),
        facebook_link: None,
        product_link: None,
        created_at: None,
        updated_at: None,
        is_deleted: 0,
        images: None,
    }
}

fn mk_purchase(date: Option<Date>) -> Purchase {
    Purchase {
        purchase_id: 0,
        supplier_name: Some("acme".to_owned()),
        supplier_phone: None,
        invoice_number: Some("inv-1".to_owned()),
        purchase_date: date,
        total_amount: whole(0),
        notes: None,
        created_at: None,
    }
}

fn mk_line(product_id: i64, qty: Rat, unit: Rat, extra: Rat) -> PurchaseItem {
    PurchaseItem {
        id: 0,
        purchase_id: 0,
        product_id,
        quantity: qty,
        buying_price: unit,
        extra_charge: extra,
        subtotal: whole(0),
        purchase_unit_cost: unit,
    }
}

fn mk_order(date: Option<Date>) -> Order {
    Order {
        order_id: 0,
        order_date: date,
        order_type: "sale".to_owned(),
        customer_name: Some("kim".to_owned()),
        customer_phone: None,
        customer_address: None,
        subtotal: whole(0),
        extra_charge: whole(0),
        delivery_charge: whole(0),
        discount: whole(0),
        grand_total: whole(0),
        payment_method: None,
        notes: None,
    }
}

fn mk_sale_line(product_id: i64, qty: Rat, price: Rat) -> OrderItem {
    OrderItem {
        id: 0,
        order_id: 0,
        product_id,
        quantity: qty,
        selling_price: price,
        subtotal: whole(0),
        buying_price_snapshot: None,
    }
}

fn fresh_store_with_product() -> (Store, i64) {
    let mut store = Store::new();
    let pid = pos_core::catalog::create_product(&mut store, mk_product("widget"), Vec::new())
        .unwrap();
    (store, pid)
}

fn product_cols(store: &Store, pid: i64) -> (Rat, Rat) {
    for p in store.products.iter() {
        if p.id == pid {
            return (p.stock_quantity, p.buying_price);
        }
    }
    panic!("product not found");
}

#[test]
fn fresh_product_purchase_sale_and_second_purchase() {
    // Fresh product (stock 0, cost 0); purchase 10 @ 5 -> (10, 5);
    // sale of 4 @ 8 -> (6, 5) with snapshot 5; purchase 10 @ 7 ->
    // stock 16 and cost (6*5 + 10*7) / 16.
    let (mut store, pid) = fresh_store_with_product();
    let r = pos_core::ledger::create_purchase(
        &mut store,
        mk_purchase(None),
        vec![mk_line(pid, whole(10), whole(5), whole(0))],
    );
    assert!(r.is_ok());
    let (stock, cost) = product_cols(&store, pid);
    assert!(stock.same_value(whole(10)));
    assert!(cost.same_value(whole(5)));

    let r = pos_core::ledger::create_order(
        &mut store,
        mk_order(None),
        vec![mk_sale_line(pid, whole(4), whole(8))],
    );
    assert!(r.is_ok());
    let (stock, cost) = product_cols(&store, pid);
    assert!(stock.same_value(whole(6)));
    assert!(cost.same_value(whole(5)));
    let snap = store.order_items[0].buying_price_snapshot.unwrap();
    assert!(snap.same_value(whole(5)));

    let r = pos_core::ledger::create_purchase(
        &mut store,
        mk_purchase(None),
        vec![mk_line(pid, whole(10), whole(7), whole(0))],
    );
    assert!(r.is_ok());
    let (stock, cost) = product_cols(&store, pid);
    assert!(stock.same_value(whole(16)));
    // (6*5 + 10*7) / 16 = 100/16
    assert!(cost.same_value(rat(100, 16)));
}

#[test]
fn delete_purchase_restores_stock_and_leaves_cost() {
    // Deletion subtracts the quantity but deliberately leaves the average
    // cost as it is (unlike revision, which reverses both).
    let (mut store, pid) = fresh_store_with_product();
    pos_core::ledger::create_purchase(
        &mut store,
        mk_purchase(None),
        vec![mk_line(pid, whole(10), whole(5), whole(0))],
    )
    .unwrap();
    pos_core::ledger::create_order(
        &mut store,
        mk_order(None),
        vec![mk_sale_line(pid, whole(4), whole(8))],
    )
    .unwrap();
    let second = pos_core::ledger::create_purchase(
        &mut store,
        mk_purchase(None),
        vec![mk_line(pid, whole(10), whole(7), whole(0))],
    )
    .unwrap();
    let r = pos_core::ledger::delete_purchase(&mut store, second);
    assert!(r.is_ok());
    let (stock, cost) = product_cols(&store, pid);
    assert!(stock.same_value(whole(6)));
    assert!(cost.same_value(rat(100, 16)));
    assert_eq!(store.purchases.len(), 1);
}

#[test]
fn revise_to_previous_lines_restores_cost_exactly() {
    // The revision path fully reverses a line's cost effect: revising the
    // second purchase down to nothing restores both stock and cost.
    let (mut store, pid) = fresh_store_with_product();
    pos_core::ledger::create_purchase(
        &mut store,
        mk_purchase(None),
        vec![mk_line(pid, whole(10), whole(5), whole(0))],
    )
    .unwrap();
    pos_core::ledger::create_order(
        &mut store,
        mk_order(None),
        vec![mk_sale_line(pid, whole(4), whole(8))],
    )
    .unwrap();
    let second = pos_core::ledger::create_purchase(
        &mut store,
        mk_purchase(None),
        vec![mk_line(pid, whole(10), whole(7), whole(0))],
    )
    .unwrap();
    let r = pos_core::ledger::update_purchase(&mut store, second, mk_purchase(None), Vec::new());
    assert!(r.is_ok());
    let (stock, cost) = product_cols(&store, pid);
    assert!(stock.same_value(whole(6)));
    assert!(cost.same_value(whole(5)));
}

#[test]
fn weighted_average_is_order_independent() {
    // Two purchases in either order give the same final average cost:
    // (10*5 + 0.5) + (10*7 + 0.5) over 20 units.
    let lines =
        [(whole(10), whole(5), rat(1, 2)), (whole(10), whole(7), rat(1, 2))];
    let mut costs = Vec::new();
    for order in [[0usize, 1], [1, 0]] {
        let (mut store, pid) = fresh_store_with_product();
        for &k in order.iter() {
            let (q, u, e) = lines[k];
            pos_core::ledger::create_purchase(
                &mut store,
                mk_purchase(None),
                vec![mk_line(pid, q, u, e)],
            )
            .unwrap();
        }
        let (stock, cost) = product_cols(&store, pid);
        assert!(stock.same_value(whole(20)));
        costs.push(cost);
    }
    assert!(costs[0].same_value(costs[1]));
    // (50 + 1/2 + 70 + 1/2) / 20 = 121/20
    assert!(costs[0].same_value(rat(121, 20)));
}

#[test]
fn sales_never_change_cost() {
    let (mut store, pid) = fresh_store_with_product();
    pos_core::ledger::create_purchase(
        &mut store,
        mk_purchase(None),
        vec![mk_line(pid, whole(10), whole(5), whole(0))],
    )
    .unwrap();
    let (_, cost_before) = product_cols(&store, pid);
    for _ in 0..3 {
        pos_core::ledger::create_order(
            &mut store,
            mk_order(None),
            vec![mk_sale_line(pid, whole(4), whole(8))],
        )
        .unwrap();
    }
    let (stock, cost_after) = product_cols(&store, pid);
    // The cost is bit-for-bit untouched, and oversell is permitted.
    assert_eq!(cost_before.num, cost_after.num);
    assert_eq!(cost_before.den, cost_after.den);
    assert!(stock.same_value(whole(-2)));
}

#[test]
fn snapshot_survives_later_cost_changes() {
    let (mut store, pid) = fresh_store_with_product();
    pos_core::ledger::create_purchase(
        &mut store,
        mk_purchase(None),
        vec![mk_line(pid, whole(10), whole(5), whole(0))],
    )
    .unwrap();
    pos_core::ledger::create_order(
        &mut store,
        mk_order(None),
        vec![mk_sale_line(pid, whole(4), whole(8))],
    )
    .unwrap();
    let snap_before = store.order_items[0].buying_price_snapshot.unwrap();
    pos_core::ledger::create_purchase(
        &mut store,
        mk_purchase(None),
        vec![mk_line(pid, whole(10), whole(9), whole(0))],
    )
    .unwrap();
    let snap_after = store.order_items[0].buying_price_snapshot.unwrap();
    assert_eq!(snap_before.num, snap_after.num);
    assert_eq!(snap_before.den, snap_after.den);
    assert!(snap_after.same_value(whole(5)));
    let (_, cost) = product_cols(&store, pid);
    assert!(!cost.same_value(whole(5)));
}

#[test]
fn failing_last_line_leaves_nothing_behind() {
    // A multi-line purchase whose last line names an unknown product must
    // leave no header, no line and no stock update behind.
    let (mut store, pid) = fresh_store_with_product();
    let r = pos_core::ledger::create_purchase(
        &mut store,
        mk_purchase(None),
        vec![
            mk_line(pid, whole(10), whole(5), whole(0)),
            mk_line(pid + 777, whole(3), whole(2), whole(0)),
        ],
    );
    assert_eq!(r, Err(StoreError::Validation));
    let (stock, cost) = product_cols(&store, pid);
    assert!(stock.same_value(whole(0)));
    assert!(cost.same_value(whole(0)));
    assert_eq!(store.purchases.len(), 0);
    assert_eq!(store.purchase_items.len(), 0);
}

#[test]
fn overflowing_amounts_are_refused_atomically() {
    let (mut store, pid) = fresh_store_with_product();
    let r = pos_core::ledger::create_purchase(
        &mut store,
        mk_purchase(None),
        vec![mk_line(pid, whole(1), whole(i64::MAX), whole(1))],
    );
    assert_eq!(r, Err(StoreError::Overflow));
    let (stock, cost) = product_cols(&store, pid);
    assert!(stock.same_value(whole(0)));
    assert!(cost.same_value(whole(0)));
    assert_eq!(store.purchases.len(), 0);
}

#[test]
fn missing_headers_are_not_found() {
    let (mut store, _) = fresh_store_with_product();
    assert_eq!(
        pos_core::ledger::delete_purchase(&mut store, 99),
        Err(StoreError::NotFound)
    );
    assert_eq!(
        pos_core::ledger::delete_order(&mut store, 99),
        Err(StoreError::NotFound)
    );
    assert_eq!(
        pos_core::ledger::update_purchase(&mut store, 99, mk_purchase(None), Vec::new()),
        Err(StoreError::NotFound)
    );
    assert_eq!(
        pos_core::ledger::update_order(&mut store, 99, mk_order(None), Vec::new()),
        Err(StoreError::NotFound)
    );
}

#[test]
fn delete_order_adds_stock_back() {
    let (mut store, pid) = fresh_store_with_product();
    pos_core::ledger::create_purchase(
        &mut store,
        mk_purchase(None),
        vec![mk_line(pid, whole(10), whole(5), whole(0))],
    )
    .unwrap();
    let oid = pos_core::ledger::create_order(
        &mut store,
        mk_order(None),
        vec![mk_sale_line(pid, whole(4), whole(8))],
    )
    .unwrap();
    pos_core::ledger::delete_order(&mut store, oid).unwrap();
    let (stock, cost) = product_cols(&store, pid);
    assert!(stock.same_value(whole(10)));
    assert!(cost.same_value(whole(5)));
    assert_eq!(store.orders.len(), 0);
    assert_eq!(store.order_items.len(), 0);
}

#[test]
fn revise_order_re_freezes_the_snapshot() {
    let (mut store, pid) = fresh_store_with_product();
    pos_core::ledger::create_purchase(
        &mut store,
        mk_purchase(None),
        vec![mk_line(pid, whole(10), whole(5), whole(0))],
    )
    .unwrap();
    let oid = pos_core::ledger::create_order(
        &mut store,
        mk_order(None),
        vec![mk_sale_line(pid, whole(4), whole(8))],
    )
    .unwrap();
    // A later purchase moves the average cost; revising the sale must
    // re-read it.
    pos_core::ledger::create_purchase(
        &mut store,
        mk_purchase(None),
        vec![mk_line(pid, whole(6), whole(10), whole(0))],
    )
    .unwrap();
    pos_core::ledger::update_order(
        &mut store,
        oid,
        mk_order(None),
        vec![mk_sale_line(pid, whole(2), whole(8))],
    )
    .unwrap();
    let snap = store.order_items[0].buying_price_snapshot.unwrap();
    // After adding back 4 units: stock 16 at cost (12*5 + 60)/16 = 120/16.
    assert!(snap.same_value(rat(120, 16)));
    let (stock, _) = product_cols(&store, pid);
    assert!(stock.same_value(whole(14)));
}

#[test]
fn purchase_with_zero_resulting_stock_falls_back_to_unit_cost() {
    // When the resulting stock is not positive, the average cannot be
    // derived; the line's effective unit cost is taken instead.
    let (mut store, pid) = fresh_store_with_product();
    pos_core::ledger::create_order(
        &mut store,
        mk_order(None),
        vec![mk_sale_line(pid, whole(5), whole(8))],
    )
    .unwrap();
    let mut line = mk_line(pid, whole(5), whole(3), whole(0));
    line.purchase_unit_cost = whole(4);
    pos_core::ledger::create_purchase(&mut store, mk_purchase(None), vec![line]).unwrap();
    let (stock, cost) = product_cols(&store, pid);
    assert!(stock.same_value(whole(0)));
    assert!(cost.same_value(whole(4)));
}

#[test]
fn two_lines_on_one_product_thread_sequentially() {
    // The second line of one purchase must see the first line's effect.
    let (mut store, pid) = fresh_store_with_product();
    pos_core::ledger::create_purchase(
        &mut store,
        mk_purchase(None),
        vec![
            mk_line(pid, whole(10), whole(5), whole(0)),
            mk_line(pid, whole(10), whole(7), whole(0)),
        ],
    )
    .unwrap();
    let (stock, cost) = product_cols(&store, pid);
    assert!(stock.same_value(whole(20)));
    assert!(cost.same_value(rat(120, 20)));
}

#[test]
fn update_purchase_replaces_lines_and_reapplies() {
    let (mut store, pid) = fresh_store_with_product();
    let first = pos_core::ledger::create_purchase(
        &mut store,
        mk_purchase(None),
        vec![mk_line(pid, whole(10), whole(5), whole(0))],
    )
    .unwrap();
    pos_core::ledger::update_purchase(
        &mut store,
        first,
        mk_purchase(None),
        vec![mk_line(pid, whole(4), whole(9), whole(0))],
    )
    .unwrap();
    let (stock, cost) = product_cols(&store, pid);
    assert!(stock.same_value(whole(4)));
    assert!(cost.same_value(whole(9)));
    assert_eq!(store.purchase_items.len(), 1);
    assert_eq!(store.purchases.len(), 1);
}

#[test]
fn line_joins_carry_the_product_name() {
    let (mut store, pid) = fresh_store_with_product();
    let bid = pos_core::ledger::create_purchase(
        &mut store,
        mk_purchase(None),
        vec![mk_line(pid, whole(10), whole(5), whole(0))],
    )
    .unwrap();
    let oid = pos_core::ledger::create_order(
        &mut store,
        mk_order(None),
        vec![mk_sale_line(pid, whole(4), whole(8))],
    )
    .unwrap();
    let pitems = pos_core::catalog::get_purchase_items(&store, bid);
    assert_eq!(pitems.len(), 1);
    assert_eq!(pitems[0].product_name, "widget");
    let oitems = pos_core::catalog::get_order_items(&store, oid);
    assert_eq!(oitems.len(), 1);
    assert_eq!(oitems[0].product_name, "widget");
    assert_eq!(pos_core::catalog::get_purchases(&store).len(), 1);
    assert_eq!(pos_core::catalog::get_orders(&store).len(), 1);
}
