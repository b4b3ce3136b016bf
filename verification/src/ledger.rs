//! The stock ledger: the operations that mutate stock quantity and
//! weighted-average unit cost.
//!
//! Every operation is atomic: it either applies completely or returns an
//! error and leaves the store exactly as it was.  Each operation's effect on
//! the product table is pinned down by a spec-level transition function that
//! performs the same checked rational arithmetic as the code, so a caller can
//! compute, in the logic, precisely what any call does.
//!
//! The average-cost recurrence for an inbound line `(quantity, unit price,
//! extra charge)` against a product holding `(stock, price)`:
//!
//! ```text
//! new_stock = stock + quantity
//! new_price = new_stock > 0
//!     ? (stock * price + quantity * unit_price + extra) / new_stock
//!     : line's effective unit cost
//! ```
//!
//! Sales only decrement stock; the average cost is untouched, and each sale
//! line freezes the product's cost of that moment into its
//! `buying_price_snapshot`.

use vstd::prelude::*;
use crate::models::{
    Order, OrderItem, Product, Purchase, PurchaseItem, StoreError, order_item_wf, order_wf,
    purchase_item_wf, purchase_wf,
};
use crate::rational::{Rat, frac_pos, rat_add, rat_div, rat_mul, rat_sub};
use crate::store::{
    Store, find_product, index_of_id, order_ids, order_items_wf, product_ids, products_wf,
    purchase_ids, purchase_items_wf,
};

verus! {

/// The two product columns the ledger mutates.
#[derive(Clone, Copy, Debug)]
pub struct StockCols {
    pub stock: Rat,
    pub price: Rat,
}

pub open spec fn cols_of(ps: Seq<Product>) -> Seq<StockCols> {
    ps.map_values(|p: Product| StockCols { stock: p.stock_quantity, price: p.buying_price })
}

/// `q` agrees with `p` on everything but the two stock columns.
pub open spec fn same_but_cols(p: Product, q: Product) -> bool {
    q == (Product { stock_quantity: q.stock_quantity, buying_price: q.buying_price, ..p })
}

/// Row-wise [`same_but_cols`]: the ledger never touches anything else.
pub open spec fn same_shape(a: Seq<Product>, b: Seq<Product>) -> bool {
    &&& a.len() == b.len()
    &&& forall|i: int| 0 <= i < a.len() ==> same_but_cols(a[i], #[trigger] b[i])
}

/// What one purchase line does to one product's columns, by the
/// weighted-average recurrence; `None` when an amount leaves `i64`.
pub open spec fn purchase_step(stock: Rat, price: Rat, line: PurchaseItem) -> Option<(Rat, Rat)> {
    match rat_mul(stock, price) {
        None => None,
        Some(old_value) => match rat_mul(line.quantity, line.buying_price) {
            None => None,
            Some(line_cost) => match rat_add(line_cost, line.extra_charge) {
                None => None,
                Some(line_value) => match rat_add(stock, line.quantity) {
                    None => None,
                    Some(new_stock) => match rat_add(old_value, line_value) {
                        None => None,
                        Some(total_value) => if frac_pos(new_stock.frac()) {
                            match rat_div(total_value, new_stock) {
                                None => None,
                                Some(new_price) => Some((new_stock, new_price)),
                            }
                        } else {
                            Some((new_stock, line.purchase_unit_cost))
                        },
                    },
                },
            },
        },
    }
}

/// Executable twin of [`purchase_step`].
pub fn apply_purchase_step(stock: Rat, price: Rat, line: &PurchaseItem) -> (r: Option<(Rat, Rat)>)
    requires
        stock.wf(),
        price.wf(),
        purchase_item_wf(*line),
    ensures
        r == purchase_step(stock, price, *line),
        r matches Some(v) ==> v.0.wf() && v.1.wf(),
{
    let old_value = match stock.mul(price) {
        Some(v) => v,
        None => return None,
    };
    let line_cost = match line.quantity.mul(line.buying_price) {
        Some(v) => v,
        None => return None,
    };
    let line_value = match line_cost.add(line.extra_charge) {
        Some(v) => v,
        None => return None,
    };
    let new_stock = match stock.add(line.quantity) {
        Some(v) => v,
        None => return None,
    };
    let total_value = match old_value.add(line_value) {
        Some(v) => v,
        None => return None,
    };
    if new_stock.is_pos() {
        match total_value.div(new_stock) {
            Some(new_price) => Some((new_stock, new_price)),
            None => None,
        }
    } else {
        Some((new_stock, line.purchase_unit_cost))
    }
}

/// One purchase line applied to the product table.
pub open spec fn apply_purchase_line(ps: Seq<Product>, line: PurchaseItem) -> Result<
    Seq<Product>,
    StoreError,
> {
    let i = index_of_id(product_ids(ps), line.product_id);
    if i < 0 {
        Err(StoreError::Validation)
    } else {
        match purchase_step(ps[i].stock_quantity, ps[i].buying_price, line) {
            None => Err(StoreError::Overflow),
            Some(sp) => Ok(
                ps.update(
                    i,
                    Product { stock_quantity: sp.0, buying_price: sp.1, ..ps[i] },
                ),
            ),
        }
    }
}

/// The first `n` purchase lines applied in order; the first failure wins and
/// nothing of the attempt survives.
pub open spec fn apply_purchase_lines(
    ps: Seq<Product>,
    lines: Seq<PurchaseItem>,
    n: int,
) -> Result<Seq<Product>, StoreError>
    decreases n,
{
    if n <= 0 {
        Ok(ps)
    } else {
        match apply_purchase_lines(ps, lines, n - 1) {
            Err(e) => Err(e),
            Ok(ps2) => apply_purchase_line(ps2, lines[n - 1]),
        }
    }
}

/// Once a prefix fails, every longer prefix fails the same way.
pub proof fn lemma_purchase_lines_stall(
    ps: Seq<Product>,
    lines: Seq<PurchaseItem>,
    m: int,
    n: int,
)
    requires
        0 <= m <= n,
        apply_purchase_lines(ps, lines, m) is Err,
    ensures
        apply_purchase_lines(ps, lines, n) == apply_purchase_lines(ps, lines, m),
    decreases n - m,
{
    if m < n {
        lemma_purchase_lines_stall(ps, lines, m, n - 1);
    }
}

/// The line items of a new purchase, as stored: ids from the allocator,
/// the header's id on every line.
pub open spec fn stamped_purchase_items(
    items: Seq<PurchaseItem>,
    pid: i64,
    first: int,
) -> Seq<PurchaseItem> {
    Seq::new(
        items.len(),
        |k: int| PurchaseItem { id: (first + k) as i64, purchase_id: pid, ..items[k] },
    )
}

/// Record a purchase: insert the header and its lines, and fold every line
/// into its product's stock and weighted-average cost.
///
/// On success the product table is exactly `apply_purchase_lines` of the old
/// one, and the created header id is returned.  On any failure — a line
/// naming an unknown product, or an amount leaving the representable range —
/// the store is unchanged.
#[verifier::loop_isolation(false)]
pub fn create_purchase(store: &mut Store, purchase: Purchase, items: Vec<PurchaseItem>) -> (r:
    Result<i64, StoreError>)
    requires
        old(store).wf(),
        purchase_wf(purchase),
        purchase_items_wf(items@),
        old(store).next_id + items@.len() + 1 <= 0x7fff_ffff_ffff_ffff,
    ensures
        final(store).wf(),
        r is Ok ==> {
            &&& r == Ok::<i64, StoreError>(old(store).next_id)
            &&& apply_purchase_lines(old(store).products@, items@, items@.len() as int) == Ok::<
                Seq<Product>,
                StoreError,
            >(final(store).products@)
            &&& final(store).purchases@ == old(store).purchases@.push(
                Purchase { purchase_id: old(store).next_id, ..purchase },
            )
            &&& final(store).purchase_items@ == old(store).purchase_items@
                + stamped_purchase_items(items@, old(store).next_id, old(store).next_id + 1)
            &&& final(store).next_id == old(store).next_id + 1 + items@.len()
            &&& final(store).orders@ == old(store).orders@
            &&& final(store).order_items@ == old(store).order_items@
            &&& final(store).users@ == old(store).users@
            &&& final(store).settings@ == old(store).settings@
            &&& final(store).activity_logs@ == old(store).activity_logs@
            &&& final(store).expenses@ == old(store).expenses@
            &&& final(store).product_images@ == old(store).product_images@
            &&& final(store).conversations@ == old(store).conversations@
            &&& final(store).messages@ == old(store).messages@
        },
        r is Err ==> *final(store) == *old(store) && apply_purchase_lines(
            old(store).products@,
            items@,
            items@.len() as int,
        ) == Err::<Seq<Product>, StoreError>(r->Err_0),
{
    let ghost ps0 = store.products@;
    // Plan: run every line over a scratch copy of the stock columns, so that
    // a failing line leaves the store untouched.
    let mut cols: Vec<StockCols> = Vec::new();
    let mut j: usize = 0;
    while j < store.products.len()
        invariant
            j <= store.products@.len(),
            store.products@ == ps0,
            cols@.len() == j,
            forall|i: int| 0 <= i < j ==> cols@[i] == cols_of(ps0)[i],
        decreases store.products@.len() - j,
    {
        cols.push(
            StockCols {
                stock: store.products[j].stock_quantity,
                price: store.products[j].buying_price,
            },
        );
        j += 1;
    }
    assert(cols@ =~= cols_of(ps0));

    let ghost mut sim: Seq<Product> = ps0;
    let mut k: usize = 0;
    while k < items.len()
        invariant
            k <= items@.len(),
            purchase_items_wf(items@),
            store.products@ == ps0,
            products_wf(ps0),
            apply_purchase_lines(ps0, items@, k as int) == Ok::<Seq<Product>, StoreError>(sim),
            same_shape(ps0, sim),
            products_wf(sim),
            cols@ == cols_of(sim),
        decreases items@.len() - k,
    {
        let it = items[k];
        proof {
            assert(product_ids(sim) =~= product_ids(ps0));
        }
        match find_product(&store.products, it.product_id) {
            None => {
                proof {
                    assert(apply_purchase_lines(ps0, items@, k + 1) == Err::<
                        Seq<Product>,
                        StoreError,
                    >(StoreError::Validation));
                    lemma_purchase_lines_stall(ps0, items@, k + 1, items@.len() as int);
                }
                return Err(StoreError::Validation);
            },
            Some(i) => {
                let c = cols[i];
                assert(c.stock == sim[i as int].stock_quantity && c.price == sim[
                    i as int].buying_price);
                match apply_purchase_step(c.stock, c.price, &it) {
                    None => {
                        proof {
                            assert(apply_purchase_lines(ps0, items@, k + 1) == Err::<
                                Seq<Product>,
                                StoreError,
                            >(StoreError::Overflow));
                            lemma_purchase_lines_stall(ps0, items@, k + 1, items@.len() as int);
                        }
                        return Err(StoreError::Overflow);
                    },
                    Some((new_stock, new_price)) => {
                        cols.set(i, StockCols { stock: new_stock, price: new_price });
                        proof {
                            let updated = Product {
                                stock_quantity: new_stock,
                                buying_price: new_price,
                                ..sim[i as int]
                            };
                            sim = sim.update(i as int, updated);
                            assert(cols@ =~= cols_of(sim));
                        }
                    },
                }
            },
        }
        k += 1;
    }
    // Commit: write the planned columns back, then append the header and its
    // stamped lines.
    let mut j: usize = 0;
    while j < store.products.len()
        invariant
            j <= store.products@.len(),
            store.products@.len() == ps0.len(),
            cols@.len() == ps0.len(),
            sim.len() == ps0.len(),
            same_shape(ps0, sim),
            cols@ == cols_of(sim),
            forall|i: int| 0 <= i < j ==> store.products@[i] == sim[i],
            forall|i: int| j <= i < ps0.len() ==> store.products@[i] == ps0[i],
            *store == (Store { products: store.products, ..*old(store) }),
        decreases store.products@.len() - j,
    {
        let c = cols[j];
        let p = store.products.remove(j);
        store.products.insert(j, Product { stock_quantity: c.stock, buying_price: c.price, ..p });
        proof {
            assert(store.products@[j as int] == sim[j as int]);
        }
        j += 1;
    }
    assert(store.products@ =~= sim);

    let pid = store.next_id;
    store.purchases.push(Purchase { purchase_id: pid, ..purchase });
    let ghost stamped = stamped_purchase_items(items@, pid, pid + 1);
    let ghost pitems0 = store.purchase_items@;
    let mut k: usize = 0;
    while k < items.len()
        invariant
            k <= items@.len(),
            store.purchase_items@ == pitems0 + stamped.take(k as int),
            stamped == stamped_purchase_items(items@, pid, pid + 1),
            *store == (Store { purchase_items: store.purchase_items, purchases: store.purchases, products: store.products, ..*old(store) }),
            store.products@ == sim,
            store.purchases@ == old(store).purchases@.push(Purchase { purchase_id: pid, ..purchase }),
        decreases items@.len() - k,
    {
        let it = items[k];
        store.purchase_items.push(
            PurchaseItem { id: pid + 1 + (k as i64), purchase_id: pid, ..it },
        );
        proof {
            assert(pitems0 + stamped.take(k as int + 1) =~= (pitems0 + stamped.take(k as int)).push(
                stamped[k as int],
            ));
        }
        k += 1;
    }
    proof {
        assert(stamped.take(items@.len() as int) =~= stamped);
    }
    store.next_id = pid + 1 + (items.len() as i64);
    proof {
        assert(purchase_ids(store.purchases@) =~= purchase_ids(old(store).purchases@).push(pid));
        assert(product_ids(store.products@) =~= product_ids(ps0));
    }
    Ok(pid)
}


/// One sale line applied to the product table: the stock is decremented and
/// the product's current average cost is returned as the line's snapshot.
/// The cost itself is untouched.
pub open spec fn apply_order_line(ps: Seq<Product>, line: OrderItem) -> Result<
    (Seq<Product>, Rat),
    StoreError,
> {
    let i = index_of_id(product_ids(ps), line.product_id);
    if i < 0 {
        Err(StoreError::Validation)
    } else {
        match rat_sub(ps[i].stock_quantity, line.quantity) {
            None => Err(StoreError::Overflow),
            Some(ns) => Ok(
                (ps.update(i, Product { stock_quantity: ns, ..ps[i] }), ps[i].buying_price),
            ),
        }
    }
}

/// The first `n` sale lines applied in order, with the snapshot frozen for
/// each line in turn.
pub open spec fn apply_order_lines(ps: Seq<Product>, lines: Seq<OrderItem>, n: int) -> Result<
    (Seq<Product>, Seq<Rat>),
    StoreError,
>
    decreases n,
{
    if n <= 0 {
        Ok((ps, Seq::<Rat>::empty()))
    } else {
        match apply_order_lines(ps, lines, n - 1) {
            Err(e) => Err(e),
            Ok(r0) => match apply_order_line(r0.0, lines[n - 1]) {
                Err(e) => Err(e),
                Ok(r1) => Ok((r1.0, r0.1.push(r1.1))),
            },
        }
    }
}

/// Once a prefix fails, every longer prefix fails the same way.
pub proof fn lemma_order_lines_stall(ps: Seq<Product>, lines: Seq<OrderItem>, m: int, n: int)
    requires
        0 <= m <= n,
        apply_order_lines(ps, lines, m) is Err,
    ensures
        apply_order_lines(ps, lines, n) == apply_order_lines(ps, lines, m),
    decreases n - m,
{
    if m < n {
        lemma_order_lines_stall(ps, lines, m, n - 1);
    }
}

/// The line items of a new sale, as stored: ids from the allocator, the
/// header's id and the frozen cost snapshot on every line.
pub open spec fn stamped_order_items(
    items: Seq<OrderItem>,
    oid: i64,
    first: int,
    snaps: Seq<Rat>,
) -> Seq<OrderItem> {
    Seq::new(
        items.len(),
        |k: int| OrderItem {
            id: (first + k) as i64,
            order_id: oid,
            buying_price_snapshot: Some(snaps[k]),
            ..items[k]
        },
    )
}

/// Record a sale: insert the header and its lines, freeze each line's
/// `buying_price_snapshot` from its product's current average cost, and
/// decrement the products' stock.
///
/// The average cost of every product is untouched: a sale never changes
/// `buying_price`.  On any failure the store is unchanged.
#[verifier::loop_isolation(false)]
pub fn create_order(store: &mut Store, order: Order, items: Vec<OrderItem>) -> (r: Result<
    i64,
    StoreError,
>)
    requires
        old(store).wf(),
        order_wf(order),
        forall|i: int| 0 <= i < items@.len() ==> order_item_wf(#[trigger] items@[i]),
        old(store).next_id + items@.len() + 1 <= 0x7fff_ffff_ffff_ffff,
    ensures
        final(store).wf(),
        r is Ok ==> {
            &&& r == Ok::<i64, StoreError>(old(store).next_id)
            &&& apply_order_lines(old(store).products@, items@, items@.len() as int) matches Ok(v)
                && final(store).products@ == v.0 && final(store).order_items@ == old(store).order_items@ + stamped_order_items(
                items@,
                old(store).next_id,
                old(store).next_id + 1,
                v.1,
            )
            &&& final(store).orders@ == old(store).orders@.push(
                Order { order_id: old(store).next_id, ..order },
            )
            &&& final(store).next_id == old(store).next_id + 1 + items@.len()
            &&& forall|i: int|
                0 <= i < old(store).products@.len() ==> (#[trigger] final(store).products@[i]).buying_price == old(store).products@[i].buying_price
            &&& final(store).purchases@ == old(store).purchases@
            &&& final(store).purchase_items@ == old(store).purchase_items@
            &&& final(store).users@ == old(store).users@
            &&& final(store).settings@ == old(store).settings@
            &&& final(store).activity_logs@ == old(store).activity_logs@
            &&& final(store).expenses@ == old(store).expenses@
            &&& final(store).product_images@ == old(store).product_images@
            &&& final(store).conversations@ == old(store).conversations@
            &&& final(store).messages@ == old(store).messages@
        },
        r is Err ==> *final(store) == *old(store) && apply_order_lines(
            old(store).products@,
            items@,
            items@.len() as int,
        ) == Err::<(Seq<Product>, Seq<Rat>), StoreError>(r->Err_0),
{
    let ghost ps0 = store.products@;
    let mut cols: Vec<StockCols> = Vec::new();
    let mut j: usize = 0;
    while j < store.products.len()
        invariant
            j <= store.products@.len(),
            store.products@ == ps0,
            cols@.len() == j,
            forall|i: int| 0 <= i < j ==> cols@[i] == cols_of(ps0)[i],
        decreases store.products@.len() - j,
    {
        cols.push(
            StockCols {
                stock: store.products[j].stock_quantity,
                price: store.products[j].buying_price,
            },
        );
        j += 1;
    }
    assert(cols@ =~= cols_of(ps0));

    let ghost mut sim: Seq<Product> = ps0;
    let mut snaps: Vec<Rat> = Vec::new();
    let mut k: usize = 0;
    while k < items.len()
        invariant
            k <= items@.len(),
            store.products@ == ps0,
            apply_order_lines(ps0, items@, k as int) == Ok::<(Seq<Product>, Seq<Rat>), StoreError>(
                (sim, snaps@),
            ),
            same_shape(ps0, sim),
            products_wf(sim),
            cols@ == cols_of(sim),
            snaps@.len() == k,
            forall|i: int| 0 <= i < snaps@.len() ==> (#[trigger] snaps@[i]).wf(),
            forall|i: int|
                0 <= i < ps0.len() ==> (#[trigger] sim[i]).buying_price == ps0[i].buying_price,
        decreases items@.len() - k,
    {
        let it = items[k];
        proof {
            assert(product_ids(sim) =~= product_ids(ps0));
        }
        match find_product(&store.products, it.product_id) {
            None => {
                proof {
                    assert(apply_order_lines(ps0, items@, k + 1) == Err::<
                        (Seq<Product>, Seq<Rat>),
                        StoreError,
                    >(StoreError::Validation));
                    lemma_order_lines_stall(ps0, items@, k + 1, items@.len() as int);
                }
                return Err(StoreError::Validation);
            },
            Some(i) => {
                let c = cols[i];
                assert(c.stock == sim[i as int].stock_quantity && c.price == sim[
                    i as int].buying_price);
                match c.stock.sub(it.quantity) {
                    None => {
                        proof {
                            assert(apply_order_lines(ps0, items@, k + 1) == Err::<
                                (Seq<Product>, Seq<Rat>),
                                StoreError,
                            >(StoreError::Overflow));
                            lemma_order_lines_stall(ps0, items@, k + 1, items@.len() as int);
                        }
                        return Err(StoreError::Overflow);
                    },
                    Some(new_stock) => {
                        cols.set(i, StockCols { stock: new_stock, price: c.price });
                        snaps.push(c.price);
                        proof {
                            let updated = Product { stock_quantity: new_stock, ..sim[i as int] };
                            sim = sim.update(i as int, updated);
                            assert(cols@ =~= cols_of(sim));
                        }
                    },
                }
            },
        }
        k += 1;
    }
    let mut j: usize = 0;
    while j < store.products.len()
        invariant
            j <= store.products@.len(),
            store.products@.len() == ps0.len(),
            cols@.len() == ps0.len(),
            sim.len() == ps0.len(),
            same_shape(ps0, sim),
            cols@ == cols_of(sim),
            forall|i: int| 0 <= i < j ==> store.products@[i] == sim[i],
            forall|i: int| j <= i < ps0.len() ==> store.products@[i] == ps0[i],
            *store == (Store { products: store.products, ..*old(store) }),
        decreases store.products@.len() - j,
    {
        let c = cols[j];
        let p = store.products.remove(j);
        store.products.insert(j, Product { stock_quantity: c.stock, buying_price: c.price, ..p });
        proof {
            assert(store.products@[j as int] == sim[j as int]);
        }
        j += 1;
    }
    assert(store.products@ =~= sim);

    let oid = store.next_id;
    store.orders.push(Order { order_id: oid, ..order });
    let ghost stamped = stamped_order_items(items@, oid, oid + 1, snaps@);
    let ghost oitems0 = store.order_items@;
    let mut k: usize = 0;
    while k < items.len()
        invariant
            k <= items@.len(),
            snaps@.len() == items@.len(),
            forall|i: int| 0 <= i < snaps@.len() ==> (#[trigger] snaps@[i]).wf(),
            store.order_items@ == oitems0 + stamped.take(k as int),
            stamped == stamped_order_items(items@, oid, oid + 1, snaps@),
            *store == (Store { order_items: store.order_items, orders: store.orders, products: store.products, ..*old(store) }),
            store.products@ == sim,
            store.orders@ == old(store).orders@.push(Order { order_id: oid, ..order }),
        decreases items@.len() - k,
    {
        let it = items[k];
        let snap = snaps[k];
        store.order_items.push(
            OrderItem {
                id: oid + 1 + (k as i64),
                order_id: oid,
                buying_price_snapshot: Some(snap),
                ..it
            },
        );
        proof {
            assert(oitems0 + stamped.take(k as int + 1) =~= (oitems0 + stamped.take(k as int)).push(
                stamped[k as int],
            ));
        }
        k += 1;
    }
    proof {
        assert(stamped.take(items@.len() as int) =~= stamped);
    }
    store.next_id = oid + 1 + (items.len() as i64);
    proof {
        assert(order_ids(store.orders@) =~= order_ids(old(store).orders@).push(oid));
        assert(product_ids(store.products@) =~= product_ids(ps0));
    }
    Ok(oid)
}


/// Copy the stock columns of every product.
fn snapshot_cols(products: &Vec<Product>) -> (r: Vec<StockCols>)
    ensures
        r@ == cols_of(products@),
{
    let mut cols: Vec<StockCols> = Vec::new();
    let mut j: usize = 0;
    while j < products.len()
        invariant
            j <= products@.len(),
            cols@.len() == j,
            forall|i: int| 0 <= i < j ==> cols@[i] == cols_of(products@)[i],
        decreases products@.len() - j,
    {
        cols.push(
            StockCols { stock: products[j].stock_quantity, price: products[j].buying_price },
        );
        j += 1;
    }
    proof {
        assert(cols@ =~= cols_of(products@));
    }
    cols
}

/// Write planned stock columns back into the product rows, yielding exactly
/// the planned table.
fn commit_cols(products: &mut Vec<Product>, cols: &Vec<StockCols>, Ghost(sim): Ghost<Seq<Product>>)
    requires
        old(products)@.len() == sim.len(),
        same_shape(old(products)@, sim),
        cols@ == cols_of(sim),
    ensures
        final(products)@ == sim,
{
    let ghost ps0 = products@;
    let mut j: usize = 0;
    while j < products.len()
        invariant
            j <= products@.len(),
            products@.len() == ps0.len(),
            cols@.len() == ps0.len(),
            sim.len() == ps0.len(),
            same_shape(ps0, sim),
            cols@ == cols_of(sim),
            forall|i: int| 0 <= i < j ==> products@[i] == sim[i],
            forall|i: int| j <= i < ps0.len() ==> products@[i] == ps0[i],
        decreases products@.len() - j,
    {
        let c = cols[j];
        let p = products.remove(j);
        products.insert(j, Product { stock_quantity: c.stock, buying_price: c.price, ..p });
        proof {
            assert(products@[j as int] == sim[j as int]);
        }
        j += 1;
    }
    proof {
        assert(products@ =~= sim);
    }
}

/// The lines of one purchase, in stored order.
pub open spec fn purchase_lines_of(s: Seq<PurchaseItem>, pid: i64) -> Seq<PurchaseItem>
    decreases s.len(),
{
    if s.len() == 0 {
        s
    } else {
        let rest = purchase_lines_of(s.drop_last(), pid);
        if s.last().purchase_id == pid {
            rest.push(s.last())
        } else {
            rest
        }
    }
}

/// The purchase-item table with one purchase's lines taken out.
pub open spec fn purchase_lines_removed(s: Seq<PurchaseItem>, pid: i64) -> Seq<PurchaseItem>
    decreases s.len(),
{
    if s.len() == 0 {
        s
    } else {
        let rest = purchase_lines_removed(s.drop_last(), pid);
        if s.last().purchase_id == pid {
            rest
        } else {
            rest.push(s.last())
        }
    }
}

/// The lines of one sale, in stored order.
pub open spec fn order_lines_of(s: Seq<OrderItem>, oid: i64) -> Seq<OrderItem>
    decreases s.len(),
{
    if s.len() == 0 {
        s
    } else {
        let rest = order_lines_of(s.drop_last(), oid);
        if s.last().order_id == oid {
            rest.push(s.last())
        } else {
            rest
        }
    }
}

/// The order-item table with one sale's lines taken out.
pub open spec fn order_lines_removed(s: Seq<OrderItem>, oid: i64) -> Seq<OrderItem>
    decreases s.len(),
{
    if s.len() == 0 {
        s
    } else {
        let rest = order_lines_removed(s.drop_last(), oid);
        if s.last().order_id == oid {
            rest
        } else {
            rest.push(s.last())
        }
    }
}

/// Undo one purchase line's quantity: the stock is decremented, the average
/// cost deliberately left as it is.  A line whose product no longer exists is
/// skipped, as an update that matches no row.
pub open spec fn subtract_line(ps: Seq<Product>, line: PurchaseItem) -> Result<
    Seq<Product>,
    StoreError,
> {
    let i = index_of_id(product_ids(ps), line.product_id);
    if i < 0 {
        Ok(ps)
    } else {
        match rat_sub(ps[i].stock_quantity, line.quantity) {
            None => Err(StoreError::Overflow),
            Some(ns) => Ok(ps.update(i, Product { stock_quantity: ns, ..ps[i] })),
        }
    }
}

pub open spec fn subtract_lines(ps: Seq<Product>, lines: Seq<PurchaseItem>, n: int) -> Result<
    Seq<Product>,
    StoreError,
>
    decreases n,
{
    if n <= 0 {
        Ok(ps)
    } else {
        match subtract_lines(ps, lines, n - 1) {
            Err(e) => Err(e),
            Ok(ps2) => subtract_line(ps2, lines[n - 1]),
        }
    }
}

pub proof fn lemma_subtract_lines_stall(ps: Seq<Product>, lines: Seq<PurchaseItem>, m: int, n: int)
    requires
        0 <= m <= n,
        subtract_lines(ps, lines, m) is Err,
    ensures
        subtract_lines(ps, lines, n) == subtract_lines(ps, lines, m),
    decreases n - m,
{
    if m < n {
        lemma_subtract_lines_stall(ps, lines, m, n - 1);
    }
}

/// Undo one sale line's quantity: the stock is added back; the cost is
/// untouched.  A line whose product no longer exists is skipped.
pub open spec fn add_back_line(ps: Seq<Product>, line: OrderItem) -> Result<
    Seq<Product>,
    StoreError,
> {
    let i = index_of_id(product_ids(ps), line.product_id);
    if i < 0 {
        Ok(ps)
    } else {
        match rat_add(ps[i].stock_quantity, line.quantity) {
            None => Err(StoreError::Overflow),
            Some(ns) => Ok(ps.update(i, Product { stock_quantity: ns, ..ps[i] })),
        }
    }
}

pub open spec fn add_back_lines(ps: Seq<Product>, lines: Seq<OrderItem>, n: int) -> Result<
    Seq<Product>,
    StoreError,
>
    decreases n,
{
    if n <= 0 {
        Ok(ps)
    } else {
        match add_back_lines(ps, lines, n - 1) {
            Err(e) => Err(e),
            Ok(ps2) => add_back_line(ps2, lines[n - 1]),
        }
    }
}

pub proof fn lemma_add_back_lines_stall(ps: Seq<Product>, lines: Seq<OrderItem>, m: int, n: int)
    requires
        0 <= m <= n,
        add_back_lines(ps, lines, m) is Err,
    ensures
        add_back_lines(ps, lines, n) == add_back_lines(ps, lines, m),
    decreases n - m,
{
    if m < n {
        lemma_add_back_lines_stall(ps, lines, m, n - 1);
    }
}

/// Delete a purchase: subtract each line's quantity from its product's
/// stock, then remove the lines and the header.
///
/// The average cost is deliberately left as it is: deletion reverses the
/// quantity but not the cost attribution, unlike revision, which fully
/// reverses both.  Targeting a header that does not exist is refused as
/// `NotFound` with the store unchanged.
#[verifier::loop_isolation(false)]
pub fn delete_purchase(store: &mut Store, purchase_id: i64) -> (r: Result<(), StoreError>)
    requires
        old(store).wf(),
    ensures
        final(store).wf(),
        ({
            let lines = purchase_lines_of(old(store).purchase_items@, purchase_id);
            let hidx = index_of_id(purchase_ids(old(store).purchases@), purchase_id);
            match r {
                Ok(u) => {
                    &&& hidx >= 0
                    &&& subtract_lines(old(store).products@, lines, lines.len() as int) == Ok::<
                        Seq<Product>,
                        StoreError,
                    >(final(store).products@)
                    &&& final(store).purchases@ == old(store).purchases@.remove(hidx)
                    &&& final(store).purchase_items@ == purchase_lines_removed(
                        old(store).purchase_items@,
                        purchase_id,
                    )
                    &&& final(store).orders@ == old(store).orders@
                    &&& final(store).order_items@ == old(store).order_items@
                    &&& final(store).users@ == old(store).users@
                    &&& final(store).settings@ == old(store).settings@
                    &&& final(store).activity_logs@ == old(store).activity_logs@
                    &&& final(store).expenses@ == old(store).expenses@
                    &&& final(store).product_images@ == old(store).product_images@
                    &&& final(store).conversations@ == old(store).conversations@
                    &&& final(store).messages@ == old(store).messages@
                    &&& final(store).next_id == old(store).next_id
                },
                Err(e) => {
                    &&& *final(store) == *old(store)
                    &&& hidx < 0 ==> e == StoreError::NotFound
                    &&& hidx >= 0 ==> subtract_lines(old(store).products@, lines, lines.len() as int)
                        == Err::<Seq<Product>, StoreError>(e)
                },
            }
        }),
{
    let hidx = match crate::store::find_purchase(&store.purchases, purchase_id) {
        None => return Err(StoreError::NotFound),
        Some(h) => h,
    };
    let ghost ps0 = store.products@;
    let ghost items0 = store.purchase_items@;

    let mut lines: Vec<PurchaseItem> = Vec::new();
    let mut kept: Vec<PurchaseItem> = Vec::new();
    let mut k: usize = 0;
    while k < store.purchase_items.len()
        invariant
            k <= store.purchase_items@.len(),
            store.purchase_items@ == items0,
            lines@ == purchase_lines_of(items0.take(k as int), purchase_id),
            kept@ == purchase_lines_removed(items0.take(k as int), purchase_id),
            purchase_items_wf(lines@),
            purchase_items_wf(kept@),
            crate::store::purchase_items_bounded(kept@, old(store).next_id),
        decreases store.purchase_items@.len() - k,
    {
        let it = store.purchase_items[k];
        proof {
            assert(items0.take(k as int + 1).drop_last() =~= items0.take(k as int));
            assert(items0.take(k as int + 1).last() == items0[k as int]);
        }
        if it.purchase_id == purchase_id {
            lines.push(it);
        } else {
            kept.push(it);
        }
        k += 1;
    }
    proof {
        assert(items0.take(items0.len() as int) =~= items0);
    }

    let mut cols = snapshot_cols(&store.products);
    let ghost mut sim: Seq<Product> = ps0;
    let mut k: usize = 0;
    while k < lines.len()
        invariant
            k <= lines@.len(),
            store.products@ == ps0,
            purchase_items_wf(lines@),
            subtract_lines(ps0, lines@, k as int) == Ok::<Seq<Product>, StoreError>(sim),
            same_shape(ps0, sim),
            products_wf(sim),
            cols@ == cols_of(sim),
        decreases lines@.len() - k,
    {
        let it = lines[k];
        proof {
            assert(product_ids(sim) =~= product_ids(ps0));
        }
        match find_product(&store.products, it.product_id) {
            None => {
            },
            Some(i) => {
                let c = cols[i];
                assert(c.stock == sim[i as int].stock_quantity);
                match c.stock.sub(it.quantity) {
                    None => {
                        proof {
                            assert(subtract_lines(ps0, lines@, k + 1) == Err::<
                                Seq<Product>,
                                StoreError,
                            >(StoreError::Overflow));
                            lemma_subtract_lines_stall(ps0, lines@, k + 1, lines@.len() as int);
                        }
                        return Err(StoreError::Overflow);
                    },
                    Some(new_stock) => {
                        cols.set(i, StockCols { stock: new_stock, price: c.price });
                        proof {
                            sim = sim.update(
                                i as int,
                                Product { stock_quantity: new_stock, ..sim[i as int] },
                            );
                            assert(cols@ =~= cols_of(sim));
                        }
                    },
                }
            },
        }
        k += 1;
    }

    commit_cols(&mut store.products, &cols, Ghost(sim));
    store.purchase_items = kept;
    store.purchases.remove(hidx);
    proof {
        crate::store::lemma_purchase_ids_remove(old(store).purchases@, hidx as int);
        crate::store::lemma_ids_remove(
            purchase_ids(old(store).purchases@),
            hidx as int,
            old(store).next_id,
        );
        assert(product_ids(store.products@) =~= product_ids(ps0));
    }
    Ok(())
}

/// Delete a sale: add each line's quantity back to its product's stock, then
/// remove the lines and the header.  The average cost is untouched.
/// Targeting a header that does not exist is refused as `NotFound` with the
/// store unchanged.
#[verifier::loop_isolation(false)]
pub fn delete_order(store: &mut Store, order_id: i64) -> (r: Result<(), StoreError>)
    requires
        old(store).wf(),
    ensures
        final(store).wf(),
        ({
            let lines = order_lines_of(old(store).order_items@, order_id);
            let hidx = index_of_id(order_ids(old(store).orders@), order_id);
            match r {
                Ok(u) => {
                    &&& hidx >= 0
                    &&& add_back_lines(old(store).products@, lines, lines.len() as int) == Ok::<
                        Seq<Product>,
                        StoreError,
                    >(final(store).products@)
                    &&& final(store).orders@ == old(store).orders@.remove(hidx)
                    &&& final(store).order_items@ == order_lines_removed(
                        old(store).order_items@,
                        order_id,
                    )
                    &&& forall|i: int|
                        0 <= i < old(store).products@.len() ==> (#[trigger] final(store).products@[i]).buying_price == old(store).products@[i].buying_price
                    &&& final(store).purchases@ == old(store).purchases@
                    &&& final(store).purchase_items@ == old(store).purchase_items@
                    &&& final(store).users@ == old(store).users@
                    &&& final(store).settings@ == old(store).settings@
                    &&& final(store).activity_logs@ == old(store).activity_logs@
                    &&& final(store).expenses@ == old(store).expenses@
                    &&& final(store).product_images@ == old(store).product_images@
                    &&& final(store).conversations@ == old(store).conversations@
                    &&& final(store).messages@ == old(store).messages@
                    &&& final(store).next_id == old(store).next_id
                },
                Err(e) => {
                    &&& *final(store) == *old(store)
                    &&& hidx < 0 ==> e == StoreError::NotFound
                    &&& hidx >= 0 ==> add_back_lines(old(store).products@, lines, lines.len() as int)
                        == Err::<Seq<Product>, StoreError>(e)
                },
            }
        }),
{
    let hidx = match crate::store::find_order(&store.orders, order_id) {
        None => return Err(StoreError::NotFound),
        Some(h) => h,
    };
    let ghost ps0 = store.products@;
    let ghost items0 = store.order_items@;

    let mut lines: Vec<OrderItem> = Vec::new();
    let mut kept: Vec<OrderItem> = Vec::new();
    let mut k: usize = 0;
    while k < store.order_items.len()
        invariant
            k <= store.order_items@.len(),
            store.order_items@ == items0,
            lines@ == order_lines_of(items0.take(k as int), order_id),
            kept@ == order_lines_removed(items0.take(k as int), order_id),
            order_items_wf(lines@),
            order_items_wf(kept@),
            crate::store::order_items_bounded(kept@, old(store).next_id),
        decreases store.order_items@.len() - k,
    {
        let it = store.order_items[k];
        proof {
            assert(items0.take(k as int + 1).drop_last() =~= items0.take(k as int));
            assert(items0.take(k as int + 1).last() == items0[k as int]);
        }
        if it.order_id == order_id {
            lines.push(it);
        } else {
            kept.push(it);
        }
        k += 1;
    }
    proof {
        assert(items0.take(items0.len() as int) =~= items0);
    }

    let mut cols = snapshot_cols(&store.products);
    let ghost mut sim: Seq<Product> = ps0;
    let mut k: usize = 0;
    while k < lines.len()
        invariant
            k <= lines@.len(),
            store.products@ == ps0,
            order_items_wf(lines@),
            add_back_lines(ps0, lines@, k as int) == Ok::<Seq<Product>, StoreError>(sim),
            same_shape(ps0, sim),
            products_wf(sim),
            cols@ == cols_of(sim),
            forall|i: int|
                0 <= i < ps0.len() ==> (#[trigger] sim[i]).buying_price == ps0[i].buying_price,
        decreases lines@.len() - k,
    {
        let it = lines[k];
        proof {
            assert(product_ids(sim) =~= product_ids(ps0));
        }
        match find_product(&store.products, it.product_id) {
            None => {
            },
            Some(i) => {
                let c = cols[i];
                assert(c.stock == sim[i as int].stock_quantity);
                match c.stock.add(it.quantity) {
                    None => {
                        proof {
                            assert(add_back_lines(ps0, lines@, k + 1) == Err::<
                                Seq<Product>,
                                StoreError,
                            >(StoreError::Overflow));
                            lemma_add_back_lines_stall(ps0, lines@, k + 1, lines@.len() as int);
                        }
                        return Err(StoreError::Overflow);
                    },
                    Some(new_stock) => {
                        cols.set(i, StockCols { stock: new_stock, price: c.price });
                        proof {
                            sim = sim.update(
                                i as int,
                                Product { stock_quantity: new_stock, ..sim[i as int] },
                            );
                            assert(cols@ =~= cols_of(sim));
                        }
                    },
                }
            },
        }
        k += 1;
    }

    commit_cols(&mut store.products, &cols, Ghost(sim));
    store.order_items = kept;
    store.orders.remove(hidx);
    proof {
        crate::store::lemma_order_ids_remove(old(store).orders@, hidx as int);
        crate::store::lemma_ids_remove(
            order_ids(old(store).orders@),
            hidx as int,
            old(store).next_id,
        );
        assert(product_ids(store.products@) =~= product_ids(ps0));
    }
    Ok(())
}


/// Reverse one purchase line during revision: subtract its quantity and take
/// its cost contribution back out of the weighted average:
///
/// ```text
/// reverted_stock = stock - quantity
/// reverted_price = reverted_stock > 0
///     ? (stock * price - quantity * unit_price) / reverted_stock
///     : 0
/// ```
///
/// The line's extra charge stays attributed; only the unit-cost contribution
/// is reversed.
pub open spec fn reverse_purchase_step(stock: Rat, price: Rat, line: PurchaseItem) -> Option<
    (Rat, Rat),
> {
    match rat_mul(stock, price) {
        None => None,
        Some(old_value) => match rat_sub(stock, line.quantity) {
            None => None,
            Some(reverted) => match rat_mul(line.quantity, line.buying_price) {
                None => None,
                Some(line_cost) => match rat_sub(old_value, line_cost) {
                    None => None,
                    Some(new_value) => if frac_pos(reverted.frac()) {
                        match rat_div(new_value, reverted) {
                            None => None,
                            Some(new_price) => Some((reverted, new_price)),
                        }
                    } else {
                        Some((reverted, Rat { num: 0, den: 1 }))
                    },
                },
            },
        },
    }
}

/// Executable twin of [`reverse_purchase_step`].
pub fn apply_reverse_purchase_step(stock: Rat, price: Rat, line: &PurchaseItem) -> (r: Option<
    (Rat, Rat),
>)
    requires
        stock.wf(),
        price.wf(),
        purchase_item_wf(*line),
    ensures
        r == reverse_purchase_step(stock, price, *line),
        r matches Some(v) ==> v.0.wf() && v.1.wf(),
{
    let old_value = match stock.mul(price) {
        Some(v) => v,
        None => return None,
    };
    let reverted = match stock.sub(line.quantity) {
        Some(v) => v,
        None => return None,
    };
    let line_cost = match line.quantity.mul(line.buying_price) {
        Some(v) => v,
        None => return None,
    };
    let new_value = match old_value.sub(line_cost) {
        Some(v) => v,
        None => return None,
    };
    if reverted.is_pos() {
        match new_value.div(reverted) {
            Some(new_price) => Some((reverted, new_price)),
            None => None,
        }
    } else {
        Some((reverted, Rat { num: 0, den: 1 }))
    }
}

/// One purchase line reversed against the product table.  Unlike deletion,
/// revision reads the product row first, so a missing product is an error.
pub open spec fn reverse_purchase_line(ps: Seq<Product>, line: PurchaseItem) -> Result<
    Seq<Product>,
    StoreError,
> {
    let i = index_of_id(product_ids(ps), line.product_id);
    if i < 0 {
        Err(StoreError::Validation)
    } else {
        match reverse_purchase_step(ps[i].stock_quantity, ps[i].buying_price, line) {
            None => Err(StoreError::Overflow),
            Some(sp) => Ok(
                ps.update(i, Product { stock_quantity: sp.0, buying_price: sp.1, ..ps[i] }),
            ),
        }
    }
}

pub open spec fn reverse_purchase_lines(
    ps: Seq<Product>,
    lines: Seq<PurchaseItem>,
    n: int,
) -> Result<Seq<Product>, StoreError>
    decreases n,
{
    if n <= 0 {
        Ok(ps)
    } else {
        match reverse_purchase_lines(ps, lines, n - 1) {
            Err(e) => Err(e),
            Ok(ps2) => reverse_purchase_line(ps2, lines[n - 1]),
        }
    }
}

pub proof fn lemma_reverse_purchase_lines_stall(
    ps: Seq<Product>,
    lines: Seq<PurchaseItem>,
    m: int,
    n: int,
)
    requires
        0 <= m <= n,
        reverse_purchase_lines(ps, lines, m) is Err,
    ensures
        reverse_purchase_lines(ps, lines, n) == reverse_purchase_lines(ps, lines, m),
    decreases n - m,
{
    if m < n {
        lemma_reverse_purchase_lines_stall(ps, lines, m, n - 1);
    }
}

/// What revising a purchase does to the product table: reverse every old
/// line, then fold in every new line.
pub open spec fn revise_purchase_products(
    ps: Seq<Product>,
    old_lines: Seq<PurchaseItem>,
    new_items: Seq<PurchaseItem>,
) -> Result<Seq<Product>, StoreError> {
    match reverse_purchase_lines(ps, old_lines, old_lines.len() as int) {
        Err(e) => Err(e),
        Ok(mid) => apply_purchase_lines(mid, new_items, new_items.len() as int),
    }
}

/// What revising a sale does to the product table: add every old line's
/// quantity back, then apply every new line, re-freezing the snapshots.
pub open spec fn revise_order_products(
    ps: Seq<Product>,
    old_lines: Seq<OrderItem>,
    new_items: Seq<OrderItem>,
) -> Result<(Seq<Product>, Seq<Rat>), StoreError> {
    match add_back_lines(ps, old_lines, old_lines.len() as int) {
        Err(e) => Err(e),
        Ok(mid) => apply_order_lines(mid, new_items, new_items.len() as int),
    }
}

/// Revise a purchase: reverse every old line's stock and cost effect, replace
/// the header's fields and the lines, and fold in the new lines against the
/// reversed state.  This reaches the same end state as deleting and
/// recreating the purchase would, without a window where the header is gone.
/// Targeting a header that does not exist is refused as `NotFound`; any
/// failure leaves the store unchanged.
#[verifier::loop_isolation(false)]
pub fn update_purchase(
    store: &mut Store,
    purchase_id: i64,
    purchase: Purchase,
    items: Vec<PurchaseItem>,
) -> (r: Result<(), StoreError>)
    requires
        old(store).wf(),
        purchase_wf(purchase),
        purchase_items_wf(items@),
        old(store).next_id + items@.len() <= 0x7fff_ffff_ffff_ffff,
    ensures
        final(store).wf(),
        ({
            let lines = purchase_lines_of(old(store).purchase_items@, purchase_id);
            let hidx = index_of_id(purchase_ids(old(store).purchases@), purchase_id);
            match r {
                Ok(u) => {
                    &&& hidx >= 0
                    &&& revise_purchase_products(old(store).products@, lines, items@) == Ok::<
                        Seq<Product>,
                        StoreError,
                    >(final(store).products@)
                    &&& final(store).purchases@ == old(store).purchases@.update(
                        hidx,
                        Purchase { purchase_id, ..purchase },
                    )
                    &&& final(store).purchase_items@ == purchase_lines_removed(
                        old(store).purchase_items@,
                        purchase_id,
                    ) + stamped_purchase_items(items@, purchase_id, old(store).next_id as int)
                    &&& final(store).next_id == old(store).next_id + items@.len()
                    &&& final(store).orders@ == old(store).orders@
                    &&& final(store).order_items@ == old(store).order_items@
                    &&& final(store).users@ == old(store).users@
                    &&& final(store).settings@ == old(store).settings@
                    &&& final(store).activity_logs@ == old(store).activity_logs@
                    &&& final(store).expenses@ == old(store).expenses@
                    &&& final(store).product_images@ == old(store).product_images@
                    &&& final(store).conversations@ == old(store).conversations@
                    &&& final(store).messages@ == old(store).messages@
                },
                Err(e) => {
                    &&& *final(store) == *old(store)
                    &&& hidx < 0 ==> e == StoreError::NotFound
                    &&& hidx >= 0 ==> revise_purchase_products(old(store).products@, lines, items@)
                        == Err::<Seq<Product>, StoreError>(e)
                },
            }
        }),
{
    let hidx = match crate::store::find_purchase(&store.purchases, purchase_id) {
        None => return Err(StoreError::NotFound),
        Some(h) => h,
    };
    let ghost ps0 = store.products@;
    let ghost items0 = store.purchase_items@;

    let mut lines: Vec<PurchaseItem> = Vec::new();
    let mut kept: Vec<PurchaseItem> = Vec::new();
    let mut k: usize = 0;
    while k < store.purchase_items.len()
        invariant
            k <= store.purchase_items@.len(),
            store.purchase_items@ == items0,
            lines@ == purchase_lines_of(items0.take(k as int), purchase_id),
            kept@ == purchase_lines_removed(items0.take(k as int), purchase_id),
            purchase_items_wf(lines@),
            purchase_items_wf(kept@),
            crate::store::purchase_items_bounded(kept@, old(store).next_id),
        decreases store.purchase_items@.len() - k,
    {
        let it = store.purchase_items[k];
        proof {
            assert(items0.take(k as int + 1).drop_last() =~= items0.take(k as int));
            assert(items0.take(k as int + 1).last() == items0[k as int]);
        }
        if it.purchase_id == purchase_id {
            lines.push(it);
        } else {
            kept.push(it);
        }
        k += 1;
    }
    proof {
        assert(items0.take(items0.len() as int) =~= items0);
    }

    let mut cols = snapshot_cols(&store.products);
    let ghost mut sim: Seq<Product> = ps0;
    let mut k: usize = 0;
    while k < lines.len()
        invariant
            k <= lines@.len(),
            store.products@ == ps0,
            purchase_items_wf(lines@),
            reverse_purchase_lines(ps0, lines@, k as int) == Ok::<Seq<Product>, StoreError>(sim),
            same_shape(ps0, sim),
            products_wf(sim),
            cols@ == cols_of(sim),
        decreases lines@.len() - k,
    {
        let it = lines[k];
        proof {
            assert(product_ids(sim) =~= product_ids(ps0));
        }
        match find_product(&store.products, it.product_id) {
            None => {
                proof {
                    assert(reverse_purchase_lines(ps0, lines@, k + 1) == Err::<
                        Seq<Product>,
                        StoreError,
                    >(StoreError::Validation));
                    lemma_reverse_purchase_lines_stall(ps0, lines@, k + 1, lines@.len() as int);
                }
                return Err(StoreError::Validation);
            },
            Some(i) => {
                let c = cols[i];
                assert(c.stock == sim[i as int].stock_quantity && c.price == sim[
                    i as int].buying_price);
                match apply_reverse_purchase_step(c.stock, c.price, &it) {
                    None => {
                        proof {
                            assert(reverse_purchase_lines(ps0, lines@, k + 1) == Err::<
                                Seq<Product>,
                                StoreError,
                            >(StoreError::Overflow));
                            lemma_reverse_purchase_lines_stall(
                                ps0,
                                lines@,
                                k + 1,
                                lines@.len() as int,
                            );
                        }
                        return Err(StoreError::Overflow);
                    },
                    Some((new_stock, new_price)) => {
                        cols.set(i, StockCols { stock: new_stock, price: new_price });
                        proof {
                            sim = sim.update(
                                i as int,
                                Product {
                                    stock_quantity: new_stock,
                                    buying_price: new_price,
                                    ..sim[i as int]
                                },
                            );
                            assert(cols@ =~= cols_of(sim));
                        }
                    },
                }
            },
        }
        k += 1;
    }
    let ghost mid = sim;

    let mut k: usize = 0;
    while k < items.len()
        invariant
            k <= items@.len(),
            store.products@ == ps0,
            purchase_items_wf(items@),
            reverse_purchase_lines(ps0, lines@, lines@.len() as int) == Ok::<
                Seq<Product>,
                StoreError,
            >(mid),
            apply_purchase_lines(mid, items@, k as int) == Ok::<Seq<Product>, StoreError>(sim),
            same_shape(ps0, sim),
            products_wf(sim),
            cols@ == cols_of(sim),
        decreases items@.len() - k,
    {
        let it = items[k];
        proof {
            assert(product_ids(sim) =~= product_ids(ps0));
        }
        match find_product(&store.products, it.product_id) {
            None => {
                proof {
                    assert(apply_purchase_lines(mid, items@, k + 1) == Err::<
                        Seq<Product>,
                        StoreError,
                    >(StoreError::Validation));
                    lemma_purchase_lines_stall(mid, items@, k + 1, items@.len() as int);
                }
                return Err(StoreError::Validation);
            },
            Some(i) => {
                let c = cols[i];
                assert(c.stock == sim[i as int].stock_quantity && c.price == sim[
                    i as int].buying_price);
                match apply_purchase_step(c.stock, c.price, &it) {
                    None => {
                        proof {
                            assert(apply_purchase_lines(mid, items@, k + 1) == Err::<
                                Seq<Product>,
                                StoreError,
                            >(StoreError::Overflow));
                            lemma_purchase_lines_stall(mid, items@, k + 1, items@.len() as int);
                        }
                        return Err(StoreError::Overflow);
                    },
                    Some((new_stock, new_price)) => {
                        cols.set(i, StockCols { stock: new_stock, price: new_price });
                        proof {
                            sim = sim.update(
                                i as int,
                                Product {
                                    stock_quantity: new_stock,
                                    buying_price: new_price,
                                    ..sim[i as int]
                                },
                            );
                            assert(cols@ =~= cols_of(sim));
                        }
                    },
                }
            },
        }
        k += 1;
    }

    commit_cols(&mut store.products, &cols, Ghost(sim));
    store.purchases.set(hidx, Purchase { purchase_id, ..purchase });
    store.purchase_items = kept;
    let first = store.next_id;
    let ghost stamped = stamped_purchase_items(items@, purchase_id, first as int);
    let ghost pitems0 = store.purchase_items@;
    let mut k: usize = 0;
    while k < items.len()
        invariant
            k <= items@.len(),
            store.purchase_items@ == pitems0 + stamped.take(k as int),
            stamped == stamped_purchase_items(items@, purchase_id, first as int),
            *store == (Store { purchase_items: store.purchase_items, purchases: store.purchases, products: store.products, ..*old(store) }),
            store.products@ == sim,
            store.purchases@ == old(store).purchases@.update(hidx as int, Purchase { purchase_id, ..purchase }),
        decreases items@.len() - k,
    {
        let it = items[k];
        store.purchase_items.push(
            PurchaseItem { id: first + (k as i64), purchase_id, ..it },
        );
        proof {
            assert(pitems0 + stamped.take(k as int + 1) =~= (pitems0 + stamped.take(k as int)).push(
                stamped[k as int],
            ));
        }
        k += 1;
    }
    proof {
        assert(stamped.take(items@.len() as int) =~= stamped);
    }
    store.next_id = first + (items.len() as i64);
    proof {
        assert(purchase_ids(store.purchases@) =~= purchase_ids(old(store).purchases@));
        assert(product_ids(store.products@) =~= product_ids(ps0));
        assert(purchase_ids(old(store).purchases@)[hidx as int] == purchase_id);
        assert(purchase_id < old(store).next_id);
    }
    Ok(())
}

/// Revise a sale: add every old line's quantity back, replace the header's
/// fields and the lines, and apply the new lines, re-freezing each snapshot
/// from the product's current cost.  Targeting a header that does not exist
/// is refused as `NotFound`; any failure leaves the store unchanged.
#[verifier::loop_isolation(false)]
pub fn update_order(store: &mut Store, order_id: i64, order: Order, items: Vec<OrderItem>) -> (r:
    Result<(), StoreError>)
    requires
        old(store).wf(),
        order_wf(order),
        forall|i: int| 0 <= i < items@.len() ==> order_item_wf(#[trigger] items@[i]),
        old(store).next_id + items@.len() <= 0x7fff_ffff_ffff_ffff,
    ensures
        final(store).wf(),
        ({
            let lines = order_lines_of(old(store).order_items@, order_id);
            let hidx = index_of_id(order_ids(old(store).orders@), order_id);
            match r {
                Ok(u) => {
                    &&& hidx >= 0
                    &&& revise_order_products(old(store).products@, lines, items@) matches Ok(v)
                        && final(store).products@ == v.0 && final(store).order_items@
                        == order_lines_removed(old(store).order_items@, order_id)
                        + stamped_order_items(items@, order_id, old(store).next_id as int, v.1)
                    &&& final(store).orders@ == old(store).orders@.update(
                        hidx,
                        Order { order_id, ..order },
                    )
                    &&& final(store).next_id == old(store).next_id + items@.len()
                    &&& forall|i: int|
                        0 <= i < old(store).products@.len() ==> (#[trigger] final(store).products@[i]).buying_price == old(store).products@[i].buying_price
                    &&& final(store).purchases@ == old(store).purchases@
                    &&& final(store).purchase_items@ == old(store).purchase_items@
                    &&& final(store).users@ == old(store).users@
                    &&& final(store).settings@ == old(store).settings@
                    &&& final(store).activity_logs@ == old(store).activity_logs@
                    &&& final(store).expenses@ == old(store).expenses@
                    &&& final(store).product_images@ == old(store).product_images@
                    &&& final(store).conversations@ == old(store).conversations@
                    &&& final(store).messages@ == old(store).messages@
                },
                Err(e) => {
                    &&& *final(store) == *old(store)
                    &&& hidx < 0 ==> e == StoreError::NotFound
                    &&& hidx >= 0 ==> revise_order_products(old(store).products@, lines, items@)
                        == Err::<(Seq<Product>, Seq<Rat>), StoreError>(e)
                },
            }
        }),
{
    let hidx = match crate::store::find_order(&store.orders, order_id) {
        None => return Err(StoreError::NotFound),
        Some(h) => h,
    };
    let ghost ps0 = store.products@;
    let ghost items0 = store.order_items@;

    let mut lines: Vec<OrderItem> = Vec::new();
    let mut kept: Vec<OrderItem> = Vec::new();
    let mut k: usize = 0;
    while k < store.order_items.len()
        invariant
            k <= store.order_items@.len(),
            store.order_items@ == items0,
            lines@ == order_lines_of(items0.take(k as int), order_id),
            kept@ == order_lines_removed(items0.take(k as int), order_id),
            order_items_wf(lines@),
            order_items_wf(kept@),
            crate::store::order_items_bounded(kept@, old(store).next_id),
        decreases store.order_items@.len() - k,
    {
        let it = store.order_items[k];
        proof {
            assert(items0.take(k as int + 1).drop_last() =~= items0.take(k as int));
            assert(items0.take(k as int + 1).last() == items0[k as int]);
        }
        if it.order_id == order_id {
            lines.push(it);
        } else {
            kept.push(it);
        }
        k += 1;
    }
    proof {
        assert(items0.take(items0.len() as int) =~= items0);
    }

    let mut cols = snapshot_cols(&store.products);
    let ghost mut sim: Seq<Product> = ps0;
    let mut k: usize = 0;
    while k < lines.len()
        invariant
            k <= lines@.len(),
            store.products@ == ps0,
            order_items_wf(lines@),
            add_back_lines(ps0, lines@, k as int) == Ok::<Seq<Product>, StoreError>(sim),
            same_shape(ps0, sim),
            products_wf(sim),
            cols@ == cols_of(sim),
            forall|i: int|
                0 <= i < ps0.len() ==> (#[trigger] sim[i]).buying_price == ps0[i].buying_price,
        decreases lines@.len() - k,
    {
        let it = lines[k];
        proof {
            assert(product_ids(sim) =~= product_ids(ps0));
        }
        match find_product(&store.products, it.product_id) {
            None => {
            },
            Some(i) => {
                let c = cols[i];
                assert(c.stock == sim[i as int].stock_quantity);
                match c.stock.add(it.quantity) {
                    None => {
                        proof {
                            assert(add_back_lines(ps0, lines@, k + 1) == Err::<
                                Seq<Product>,
                                StoreError,
                            >(StoreError::Overflow));
                            lemma_add_back_lines_stall(ps0, lines@, k + 1, lines@.len() as int);
                        }
                        return Err(StoreError::Overflow);
                    },
                    Some(new_stock) => {
                        cols.set(i, StockCols { stock: new_stock, price: c.price });
                        proof {
                            sim = sim.update(
                                i as int,
                                Product { stock_quantity: new_stock, ..sim[i as int] },
                            );
                            assert(cols@ =~= cols_of(sim));
                        }
                    },
                }
            },
        }
        k += 1;
    }
    let ghost mid = sim;

    let mut snaps: Vec<Rat> = Vec::new();
    let mut k: usize = 0;
    while k < items.len()
        invariant
            k <= items@.len(),
            store.products@ == ps0,
            add_back_lines(ps0, lines@, lines@.len() as int) == Ok::<Seq<Product>, StoreError>(
                mid,
            ),
            apply_order_lines(mid, items@, k as int) == Ok::<(Seq<Product>, Seq<Rat>), StoreError>(
                (sim, snaps@),
            ),
            same_shape(ps0, sim),
            products_wf(sim),
            cols@ == cols_of(sim),
            snaps@.len() == k,
            forall|i: int| 0 <= i < snaps@.len() ==> (#[trigger] snaps@[i]).wf(),
            forall|i: int|
                0 <= i < ps0.len() ==> (#[trigger] sim[i]).buying_price == ps0[i].buying_price,
        decreases items@.len() - k,
    {
        let it = items[k];
        proof {
            assert(product_ids(sim) =~= product_ids(ps0));
        }
        match find_product(&store.products, it.product_id) {
            None => {
                proof {
                    assert(apply_order_lines(mid, items@, k + 1) == Err::<
                        (Seq<Product>, Seq<Rat>),
                        StoreError,
                    >(StoreError::Validation));
                    lemma_order_lines_stall(mid, items@, k + 1, items@.len() as int);
                }
                return Err(StoreError::Validation);
            },
            Some(i) => {
                let c = cols[i];
                assert(c.stock == sim[i as int].stock_quantity && c.price == sim[
                    i as int].buying_price);
                match c.stock.sub(it.quantity) {
                    None => {
                        proof {
                            assert(apply_order_lines(mid, items@, k + 1) == Err::<
                                (Seq<Product>, Seq<Rat>),
                                StoreError,
                            >(StoreError::Overflow));
                            lemma_order_lines_stall(mid, items@, k + 1, items@.len() as int);
                        }
                        return Err(StoreError::Overflow);
                    },
                    Some(new_stock) => {
                        cols.set(i, StockCols { stock: new_stock, price: c.price });
                        snaps.push(c.price);
                        proof {
                            sim = sim.update(
                                i as int,
                                Product { stock_quantity: new_stock, ..sim[i as int] },
                            );
                            assert(cols@ =~= cols_of(sim));
                        }
                    },
                }
            },
        }
        k += 1;
    }

    commit_cols(&mut store.products, &cols, Ghost(sim));
    store.orders.set(hidx, Order { order_id, ..order });
    store.order_items = kept;
    let first = store.next_id;
    let ghost stamped = stamped_order_items(items@, order_id, first as int, snaps@);
    let ghost oitems0 = store.order_items@;
    let mut k: usize = 0;
    while k < items.len()
        invariant
            k <= items@.len(),
            snaps@.len() == items@.len(),
            forall|i: int| 0 <= i < snaps@.len() ==> (#[trigger] snaps@[i]).wf(),
            store.order_items@ == oitems0 + stamped.take(k as int),
            stamped == stamped_order_items(items@, order_id, first as int, snaps@),
            *store == (Store { order_items: store.order_items, orders: store.orders, products: store.products, ..*old(store) }),
            store.products@ == sim,
            store.orders@ == old(store).orders@.update(hidx as int, Order { order_id, ..order }),
        decreases items@.len() - k,
    {
        let it = items[k];
        let snap = snaps[k];
        store.order_items.push(
            OrderItem {
                id: first + (k as i64),
                order_id,
                buying_price_snapshot: Some(snap),
                ..it
            },
        );
        proof {
            assert(oitems0 + stamped.take(k as int + 1) =~= (oitems0 + stamped.take(k as int)).push(
                stamped[k as int],
            ));
        }
        k += 1;
    }
    proof {
        assert(stamped.take(items@.len() as int) =~= stamped);
    }
    store.next_id = first + (items.len() as i64);
    proof {
        assert(order_ids(store.orders@) =~= order_ids(old(store).orders@));
        assert(product_ids(store.products@) =~= product_ids(ps0));
        assert(order_ids(old(store).orders@)[hidx as int] == order_id);
        assert(order_id < old(store).next_id);
    }
    Ok(())
}

} // verus!
