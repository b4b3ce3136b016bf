//! The product catalog and the read-only row queries.
//!
//! Creation assigns row ids from the store's allocator; deletion of a product
//! is a soft delete (the row is flagged, never removed), so ledger rows that
//! reference it stay valid.  Every query returns values equal to a spec-level
//! projection of the store.

use vstd::prelude::*;
use crate::models::{
    Order, OrderItemDetail, Product, ProductImage, Purchase, PurchaseItemDetail, StoreError,
    clone_opt_string, product_wf,
};
use crate::reports::{date_key, lemma_insert_multiset, mdate_key};
use crate::store::{Store, find_product, index_of_id, product_ids};

verus! {

/// The image rows of a new or revised product, stamped with fresh ids.
pub open spec fn stamped_images(paths: Seq<String>, pid: i64, first: int) -> Seq<ProductImage> {
    Seq::new(
        paths.len(),
        |k: int| ProductImage { id: (first + k) as i64, product_id: pid, image_path: paths[k] },
    )
}

/// The image table with one product's rows taken out.
pub open spec fn images_removed(s: Seq<ProductImage>, pid: i64) -> Seq<ProductImage>
    decreases s.len(),
{
    if s.len() == 0 {
        s
    } else {
        let rest = images_removed(s.drop_last(), pid);
        if s.last().product_id == pid {
            rest
        } else {
            rest.push(s.last())
        }
    }
}

/// The image paths of one product over the first `n` image rows.
pub open spec fn image_paths(s: Seq<ProductImage>, pid: i64, n: int) -> Seq<String>
    decreases n,
{
    if n <= 0 {
        Seq::<String>::empty()
    } else {
        let rest = image_paths(s, pid, n - 1);
        if s[n - 1].product_id == pid {
            rest.push(s[n - 1].image_path)
        } else {
            rest
        }
    }
}

/// The first stored image path of a product, if any, searching from `i`.
pub open spec fn first_image_from(s: Seq<ProductImage>, pid: i64, i: int) -> Option<String>
    decreases s.len() - i,
{
    if i < 0 || i >= s.len() {
        None
    } else if s[i].product_id == pid {
        Some(s[i].image_path)
    } else {
        first_image_from(s, pid, i + 1)
    }
}

proof fn lemma_first_image_prefix(s: Seq<ProductImage>, pid: i64, i: int)
    requires
        0 <= i <= s.len(),
        forall|j: int| 0 <= j < i ==> (#[trigger] s[j]).product_id != pid,
    ensures
        first_image_from(s, pid, 0) == first_image_from(s, pid, i),
    decreases i,
{
    if i > 0 {
        lemma_first_image_prefix(s, pid, i - 1);
    }
}

/// Insert a catalog row and its image rows; the new row id is returned.
/// The row starts live (`is_deleted == 0`); its stock and cost start at
/// whatever the caller supplies, as a stored row would.
#[verifier::loop_isolation(false)]
pub fn create_product(store: &mut Store, product: Product, images: Vec<String>) -> (r: Result<
    i64,
    StoreError,
>)
    requires
        old(store).wf(),
        product_wf(product),
        old(store).next_id + images@.len() + 1 <= 0x7fff_ffff_ffff_ffff,
    ensures
        final(store).wf(),
        r == Ok::<i64, StoreError>(old(store).next_id),
        final(store).products@ == old(store).products@.push(
            Product { id: old(store).next_id, is_deleted: 0, images: None, ..product },
        ),
        final(store).product_images@ == old(store).product_images@ + stamped_images(
            images@,
            old(store).next_id,
            old(store).next_id + 1,
        ),
        final(store).next_id == old(store).next_id + 1 + images@.len(),
        final(store).purchases@ == old(store).purchases@,
        final(store).purchase_items@ == old(store).purchase_items@,
        final(store).orders@ == old(store).orders@,
        final(store).order_items@ == old(store).order_items@,
        final(store).users@ == old(store).users@,
        final(store).settings@ == old(store).settings@,
        final(store).activity_logs@ == old(store).activity_logs@,
        final(store).expenses@ == old(store).expenses@,
        final(store).conversations@ == old(store).conversations@,
        final(store).messages@ == old(store).messages@,
{
    let pid = store.next_id;
    store.products.push(Product { id: pid, is_deleted: 0, images: None, ..product });
    let ghost stamped = stamped_images(images@, pid, pid + 1);
    let ghost imgs0 = store.product_images@;
    let mut k: usize = 0;
    while k < images.len()
        invariant
            k <= images@.len(),
            store.product_images@ == imgs0 + stamped.take(k as int),
            stamped == stamped_images(images@, pid, pid + 1),
            *store == (Store {
                product_images: store.product_images,
                products: store.products,
                ..*old(store)
            }),
            store.products@ == old(store).products@.push(
                Product { id: pid, is_deleted: 0, images: None, ..product },
            ),
        decreases images@.len() - k,
    {
        let path = images[k].clone();
        store.product_images.push(
            ProductImage { id: pid + 1 + (k as i64), product_id: pid, image_path: path },
        );
        proof {
            assert(imgs0 + stamped.take(k as int + 1) =~= (imgs0 + stamped.take(k as int)).push(
                stamped[k as int],
            ));
        }
        k += 1;
    }
    proof {
        assert(stamped.take(images@.len() as int) =~= stamped);
    }
    store.next_id = pid + 1 + (images.len() as i64);
    proof {
        assert(product_ids(store.products@) =~= product_ids(old(store).products@).push(pid));
    }
    Ok(pid)
}

/// What a revision leaves in the catalog row: the caller's fields, with the
/// row's identity, creation stamp, deletion flag and attached-image cache
/// kept.
pub open spec fn revised_product(old_row: Product, input: Product) -> Product {
    Product {
        id: old_row.id,
        created_at: old_row.created_at,
        is_deleted: old_row.is_deleted,
        images: old_row.images,
        ..input
    }
}

/// Revise a catalog row and replace its stored images.  A row id that does
/// not exist leaves the catalog unchanged, but the image set is still
/// replaced, as the stored system does.
#[verifier::loop_isolation(false)]
pub fn update_product(store: &mut Store, product: Product, images: Vec<String>) -> (r: Result<
    (),
    StoreError,
>)
    requires
        old(store).wf(),
        product_wf(product),
        old(store).next_id + images@.len() <= 0x7fff_ffff_ffff_ffff,
    ensures
        final(store).wf(),
        r == Ok::<(), StoreError>(()),
        ({
            let i = index_of_id(product_ids(old(store).products@), product.id);
            final(store).products@ == if i >= 0 {
                old(store).products@.update(i, revised_product(old(store).products@[i], product))
            } else {
                old(store).products@
            }
        }),
        final(store).product_images@ == images_removed(old(store).product_images@, product.id)
            + stamped_images(images@, product.id, old(store).next_id as int),
        final(store).next_id == old(store).next_id + images@.len(),
        final(store).purchases@ == old(store).purchases@,
        final(store).purchase_items@ == old(store).purchase_items@,
        final(store).orders@ == old(store).orders@,
        final(store).order_items@ == old(store).order_items@,
        final(store).users@ == old(store).users@,
        final(store).settings@ == old(store).settings@,
        final(store).activity_logs@ == old(store).activity_logs@,
        final(store).expenses@ == old(store).expenses@,
        final(store).conversations@ == old(store).conversations@,
        final(store).messages@ == old(store).messages@,
{
    let pid = product.id;
    match find_product(&store.products, pid) {
        None => {},
        Some(i) => {
            let old_row = store.products.remove(i);
            store.products.insert(
                i,
                Product {
                    id: old_row.id,
                    created_at: old_row.created_at,
                    is_deleted: old_row.is_deleted,
                    images: old_row.images,
                    ..product
                },
            );
            proof {
                assert(store.products@ =~= old(store).products@.update(
                    i as int,
                    revised_product(old(store).products@[i as int], product),
                ));
                assert(product_ids(store.products@) =~= product_ids(old(store).products@));
            }
        },
    }
    let ghost imgs0 = store.product_images@;
    let mut kept: Vec<ProductImage> = Vec::new();
    let mut k: usize = 0;
    while k < store.product_images.len()
        invariant
            k <= store.product_images@.len(),
            store.product_images@ == imgs0,
            kept@ == images_removed(imgs0.take(k as int), pid),
        decreases store.product_images@.len() - k,
    {
        proof {
            assert(imgs0.take(k as int + 1).drop_last() =~= imgs0.take(k as int));
            assert(imgs0.take(k as int + 1).last() == imgs0[k as int]);
        }
        if store.product_images[k].product_id != pid {
            let row = ProductImage {
                id: store.product_images[k].id,
                product_id: store.product_images[k].product_id,
                image_path: store.product_images[k].image_path.clone(),
            };
            proof {
                assert(row == imgs0[k as int]);
            }
            kept.push(row);
        }
        k += 1;
    }
    proof {
        assert(imgs0.take(imgs0.len() as int) =~= imgs0);
    }
    store.product_images = kept;
    let first = store.next_id;
    let ghost stamped = stamped_images(images@, pid, first as int);
    let ghost imgs1 = store.product_images@;
    let mut k: usize = 0;
    while k < images.len()
        invariant
            k <= images@.len(),
            store.product_images@ == imgs1 + stamped.take(k as int),
            stamped == stamped_images(images@, pid, first as int),
            imgs1 == images_removed(imgs0, pid),
            *store == (Store {
                product_images: store.product_images,
                products: store.products,
                ..*old(store)
            }),
            store.products@ == ({
                let i = index_of_id(product_ids(old(store).products@), pid);
                if i >= 0 {
                    old(store).products@.update(
                        i,
                        revised_product(old(store).products@[i], product),
                    )
                } else {
                    old(store).products@
                }
            }),
        decreases images@.len() - k,
    {
        let path = images[k].clone();
        store.product_images.push(
            ProductImage { id: first + (k as i64), product_id: pid, image_path: path },
        );
        proof {
            assert(imgs1 + stamped.take(k as int + 1) =~= (imgs1 + stamped.take(k as int)).push(
                stamped[k as int],
            ));
        }
        k += 1;
    }
    proof {
        assert(stamped.take(images@.len() as int) =~= stamped);
        assert(product_ids(store.products@) =~= product_ids(old(store).products@));
    }
    store.next_id = first + (images.len() as i64);
    Ok(())
}

/// Soft-delete a catalog row: the row is flagged, not removed, so history
/// that references it stays intact.  A missing id is a no-op, as an update
/// matching no row.
#[verifier::loop_isolation(false)]
pub fn delete_product(store: &mut Store, id: i64) -> (r: Result<(), StoreError>)
    requires
        old(store).wf(),
    ensures
        final(store).wf(),
        r == Ok::<(), StoreError>(()),
        ({
            let i = index_of_id(product_ids(old(store).products@), id);
            final(store).products@ == if i >= 0 {
                old(store).products@.update(
                    i,
                    Product { is_deleted: 1, ..old(store).products@[i] },
                )
            } else {
                old(store).products@
            }
        }),
        *final(store) == (Store { products: final(store).products, ..*old(store) }),
{
    match find_product(&store.products, id) {
        None => {},
        Some(i) => {
            let old_row = store.products.remove(i);
            store.products.insert(i, Product { is_deleted: 1, ..old_row });
            proof {
                assert(store.products@ =~= old(store).products@.update(
                    i as int,
                    Product { is_deleted: 1, ..old(store).products@[i as int] },
                ));
                assert(product_ids(store.products@) =~= product_ids(old(store).products@));
            }
        },
    }
    Ok(())
}

/// The live catalog rows, each stripped to an image-less row.
pub open spec fn live_rows(ps: Seq<Product>, n: int) -> Seq<Product>
    decreases n,
{
    if n <= 0 {
        Seq::<Product>::empty()
    } else {
        let rest = live_rows(ps, n - 1);
        if ps[n - 1].is_deleted == 0 {
            rest.push(Product { images: None, ..ps[n - 1] })
        } else {
            rest
        }
    }
}

/// The live catalog rows, each carrying its first stored image, if any.
/// Rows come in catalog order.  The store is not changed.
#[verifier::loop_isolation(false)]
pub fn get_products(store: &Store) -> (r: Vec<Product>)
    requires
        store.wf(),
    ensures
        r@.map_values(|p: Product| Product { images: None, ..p }) == live_rows(
            store.products@,
            store.products@.len() as int,
        ),
        forall|k: int|
            0 <= k < r@.len() ==> {
                let fi = first_image_from(store.product_images@, (#[trigger] r@[k]).id, 0);
                match fi {
                    None => r@[k].images is None,
                    Some(path) => r@[k].images matches Some(v) && v@ == seq![path],
                }
            },
{
    let ghost strip = |p: Product| Product { images: None, ..p };
    let n = store.products.len();
    let mut out: Vec<Product> = Vec::new();
    let mut k: usize = 0;
    while k < n
        invariant
            k <= n,
            out@.map_values(strip) == live_rows(store.products@, k as int),
            forall|j: int|
                0 <= j < out@.len() ==> {
                    let fi = first_image_from(store.product_images@, (#[trigger] out@[j]).id, 0);
                    match fi {
                        None => out@[j].images is None,
                        Some(path) => out@[j].images matches Some(v) && v@ == seq![path],
                    }
                },
        decreases n - k,
    {
        let p = &store.products[k];
        if p.is_deleted == 0 {
            let fi = first_image(&store.product_images, p.id);
            let images: Option<Vec<String>> = match fi {
                None => None,
                Some(path) => {
                    let mut v: Vec<String> = Vec::new();
                    v.push(path);
                    proof {
                        assert(v@ =~= seq![
                            first_image_from(store.product_images@, p.id, 0)->Some_0,
                        ]);
                    }
                    Some(v)
                },
            };
            let row = Product {
                id: p.id,
                product_name: p.product_name.clone(),
                product_code: clone_opt_string(&p.product_code),
                category: clone_opt_string(&p.category),
                brand: clone_opt_string(&p.brand),
                buying_price: p.buying_price,
                default_selling_price: p.default_selling_price,
                stock_quantity: p.stock_quantity,
                unit: clone_opt_string(&p.unit),
                tax_percentage: p.tax_percentage,
                original_price: p.original_price,
                profit_percentage: p.profit_percentage,
                facebook_link: clone_opt_string(&p.facebook_link),
                product_link: clone_opt_string(&p.product_link),
                created_at: clone_opt_string(&p.created_at),
                updated_at: clone_opt_string(&p.updated_at),
                is_deleted: p.is_deleted,
                images,
            };
            let ghost out0 = out@;
            out.push(row);
            proof {
                assert(strip(row) == (Product { images: None, ..store.products@[k as int] }));
                assert(out@.map_values(strip) =~= out0.map_values(strip).push(strip(row)));
            }
        }
        k += 1;
    }
    out
}

/// The first stored image path of a product, cloned.
#[verifier::loop_isolation(false)]
pub fn first_image(images: &Vec<ProductImage>, pid: i64) -> (r: Option<String>)
    ensures
        r == first_image_from(images@, pid, 0),
{
    let mut k: usize = 0;
    while k < images.len()
        invariant
            k <= images@.len(),
            forall|j: int| 0 <= j < k ==> (#[trigger] images@[j]).product_id != pid,
        decreases images@.len() - k,
    {
        if images[k].product_id == pid {
            proof {
                lemma_first_image_prefix(images@, pid, k as int);
            }
            return Some(images[k].image_path.clone());
        }
        k += 1;
    }
    proof {
        lemma_first_image_prefix(images@, pid, images@.len() as int);
    }
    None
}

/// All stored image paths of a product, in stored order.
#[verifier::loop_isolation(false)]
pub fn get_product_images(store: &Store, product_id: i64) -> (r: Vec<String>)
    ensures
        r@ == image_paths(
            store.product_images@,
            product_id,
            store.product_images@.len() as int,
        ),
{
    let n = store.product_images.len();
    let mut out: Vec<String> = Vec::new();
    let mut k: usize = 0;
    while k < n
        invariant
            k <= n,
            out@ == image_paths(store.product_images@, product_id, k as int),
        decreases n - k,
    {
        let im = &store.product_images[k];
        if im.product_id == product_id {
            out.push(im.image_path.clone());
        }
        k += 1;
    }
    out
}

/// Descending by purchase date.
pub open spec fn purchases_sorted(s: Seq<Purchase>) -> bool {
    forall|i: int, j: int|
        0 <= i < j < s.len() ==> mdate_key((#[trigger] s[j]).purchase_date) <= mdate_key(
            (#[trigger] s[i]).purchase_date,
        )
}

/// Insert a header at its place in the date-descending listing.
#[verifier::loop_isolation(false)]
fn insert_purchase_row(out: &mut Vec<Purchase>, row: Purchase)
    requires
        purchases_sorted(old(out)@),
    ensures
        final(out)@.to_multiset() == old(out)@.to_multiset().insert(row),
        purchases_sorted(final(out)@),
        final(out)@.len() == old(out)@.len() + 1,
{
    let rk = date_key(&row.purchase_date);
    let mut pos: usize = 0;
    while pos < out.len() && date_key(&out[pos].purchase_date) >= rk
        invariant
            pos <= out@.len(),
            out@ == old(out)@,
            forall|i: int|
                0 <= i < pos ==> mdate_key(row.purchase_date) <= mdate_key(
                    (#[trigger] out@[i]).purchase_date,
                ),
        decreases out@.len() - pos,
    {
        pos += 1;
    }
    let ghost out0 = out@;
    out.insert(pos, row);
    proof {
        let p0 = pos as int;
        lemma_insert_multiset(out0, p0, row);
        assert forall|i: int, j: int| 0 <= i < j < out@.len() implies mdate_key(
            (#[trigger] out@[j]).purchase_date,
        ) <= mdate_key((#[trigger] out@[i]).purchase_date) by {
            if i < p0 && j == p0 {
            } else if i == p0 && j > p0 {
            }
        }
    }
}

/// All purchase headers, newest first; headers of equal date are not ordered
/// further.  The store is not changed.
#[verifier::loop_isolation(false)]
pub fn get_purchases(store: &Store) -> (r: Vec<Purchase>)
    ensures
        r@.to_multiset() == store.purchases@.to_multiset(),
        purchases_sorted(r@),
{
    broadcast use vstd::seq_lib::group_to_multiset_ensures;

    let n = store.purchases.len();
    let mut out: Vec<Purchase> = Vec::new();
    let mut k: usize = 0;
    while k < n
        invariant
            k <= n,
            out@.to_multiset() == store.purchases@.take(k as int).to_multiset(),
            purchases_sorted(out@),
        decreases n - k,
    {
        let p = &store.purchases[k];
        let row = Purchase {
            purchase_id: p.purchase_id,
            supplier_name: clone_opt_string(&p.supplier_name),
            supplier_phone: clone_opt_string(&p.supplier_phone),
            invoice_number: clone_opt_string(&p.invoice_number),
            purchase_date: p.purchase_date,
            total_amount: p.total_amount,
            notes: clone_opt_string(&p.notes),
            created_at: clone_opt_string(&p.created_at),
        };
        proof {
            assert(row == store.purchases@[k as int]);
            assert(store.purchases@.take(k as int + 1) =~= store.purchases@.take(k as int).push(
                store.purchases@[k as int],
            ));
        }
        insert_purchase_row(&mut out, row);
        k += 1;
    }
    proof {
        assert(store.purchases@.take(n as int) =~= store.purchases@);
    }
    out
}

/// Descending by order date.
pub open spec fn orders_sorted(s: Seq<Order>) -> bool {
    forall|i: int, j: int|
        0 <= i < j < s.len() ==> mdate_key((#[trigger] s[j]).order_date) <= mdate_key(
            (#[trigger] s[i]).order_date,
        )
}

/// Insert a header at its place in the date-descending listing.
#[verifier::loop_isolation(false)]
fn insert_order_row(out: &mut Vec<Order>, row: Order)
    requires
        orders_sorted(old(out)@),
    ensures
        final(out)@.to_multiset() == old(out)@.to_multiset().insert(row),
        orders_sorted(final(out)@),
        final(out)@.len() == old(out)@.len() + 1,
{
    let rk = date_key(&row.order_date);
    let mut pos: usize = 0;
    while pos < out.len() && date_key(&out[pos].order_date) >= rk
        invariant
            pos <= out@.len(),
            out@ == old(out)@,
            forall|i: int|
                0 <= i < pos ==> mdate_key(row.order_date) <= mdate_key(
                    (#[trigger] out@[i]).order_date,
                ),
        decreases out@.len() - pos,
    {
        pos += 1;
    }
    let ghost out0 = out@;
    out.insert(pos, row);
    proof {
        let p0 = pos as int;
        lemma_insert_multiset(out0, p0, row);
        assert forall|i: int, j: int| 0 <= i < j < out@.len() implies mdate_key(
            (#[trigger] out@[j]).order_date,
        ) <= mdate_key((#[trigger] out@[i]).order_date) by {
            if i < p0 && j == p0 {
            } else if i == p0 && j > p0 {
            }
        }
    }
}

/// All sale headers, newest first; headers of equal date are not ordered
/// further.  The store is not changed.
#[verifier::loop_isolation(false)]
pub fn get_orders(store: &Store) -> (r: Vec<Order>)
    ensures
        r@.to_multiset() == store.orders@.to_multiset(),
        orders_sorted(r@),
{
    broadcast use vstd::seq_lib::group_to_multiset_ensures;

    let n = store.orders.len();
    let mut out: Vec<Order> = Vec::new();
    let mut k: usize = 0;
    while k < n
        invariant
            k <= n,
            out@.to_multiset() == store.orders@.take(k as int).to_multiset(),
            orders_sorted(out@),
        decreases n - k,
    {
        let o = &store.orders[k];
        let row = Order {
            order_id: o.order_id,
            order_date: o.order_date,
            order_type: o.order_type.clone(),
            customer_name: clone_opt_string(&o.customer_name),
            customer_phone: clone_opt_string(&o.customer_phone),
            customer_address: clone_opt_string(&o.customer_address),
            subtotal: o.subtotal,
            extra_charge: o.extra_charge,
            delivery_charge: o.delivery_charge,
            discount: o.discount,
            grand_total: o.grand_total,
            payment_method: clone_opt_string(&o.payment_method),
            notes: clone_opt_string(&o.notes),
        };
        proof {
            assert(row == store.orders@[k as int]);
            assert(store.orders@.take(k as int + 1) =~= store.orders@.take(k as int).push(
                store.orders@[k as int],
            ));
        }
        insert_order_row(&mut out, row);
        k += 1;
    }
    proof {
        assert(store.orders@.take(n as int) =~= store.orders@);
    }
    out
}

/// The lines of one purchase, joined with their products' names; lines whose
/// product is gone are dropped, as a join would.
pub open spec fn purchase_item_details(
    items: Seq<crate::models::PurchaseItem>,
    products: Seq<Product>,
    pid: i64,
    n: int,
) -> Seq<PurchaseItemDetail>
    decreases n,
{
    if n <= 0 {
        Seq::<PurchaseItemDetail>::empty()
    } else {
        let rest = purchase_item_details(items, products, pid, n - 1);
        let it = items[n - 1];
        let pi = index_of_id(product_ids(products), it.product_id);
        if it.purchase_id == pid && pi >= 0 {
            rest.push(
                PurchaseItemDetail {
                    id: it.id,
                    purchase_id: it.purchase_id,
                    product_id: it.product_id,
                    product_name: products[pi].product_name,
                    quantity: it.quantity,
                    buying_price: it.buying_price,
                    extra_charge: it.extra_charge,
                    subtotal: it.subtotal,
                    purchase_unit_cost: it.purchase_unit_cost,
                },
            )
        } else {
            rest
        }
    }
}

/// The lines of one purchase with their products' names, in stored order.
#[verifier::loop_isolation(false)]
pub fn get_purchase_items(store: &Store, purchase_id: i64) -> (r: Vec<PurchaseItemDetail>)
    requires
        store.wf(),
    ensures
        r@ == purchase_item_details(
            store.purchase_items@,
            store.products@,
            purchase_id,
            store.purchase_items@.len() as int,
        ),
{
    let n = store.purchase_items.len();
    let mut out: Vec<PurchaseItemDetail> = Vec::new();
    let mut k: usize = 0;
    while k < n
        invariant
            k <= n,
            out@ == purchase_item_details(
                store.purchase_items@,
                store.products@,
                purchase_id,
                k as int,
            ),
        decreases n - k,
    {
        let it = store.purchase_items[k];
        if it.purchase_id == purchase_id {
            match find_product(&store.products, it.product_id) {
                None => {},
                Some(pi) => {
                    out.push(
                        PurchaseItemDetail {
                            id: it.id,
                            purchase_id: it.purchase_id,
                            product_id: it.product_id,
                            product_name: store.products[pi].product_name.clone(),
                            quantity: it.quantity,
                            buying_price: it.buying_price,
                            extra_charge: it.extra_charge,
                            subtotal: it.subtotal,
                            purchase_unit_cost: it.purchase_unit_cost,
                        },
                    );
                },
            }
        }
        k += 1;
    }
    out
}

/// The lines of one sale, joined with their products' names.
pub open spec fn order_item_details(
    items: Seq<crate::models::OrderItem>,
    products: Seq<Product>,
    oid: i64,
    n: int,
) -> Seq<OrderItemDetail>
    decreases n,
{
    if n <= 0 {
        Seq::<OrderItemDetail>::empty()
    } else {
        let rest = order_item_details(items, products, oid, n - 1);
        let it = items[n - 1];
        let pi = index_of_id(product_ids(products), it.product_id);
        if it.order_id == oid && pi >= 0 {
            rest.push(
                OrderItemDetail {
                    id: it.id,
                    order_id: it.order_id,
                    product_id: it.product_id,
                    product_name: products[pi].product_name,
                    quantity: it.quantity,
                    selling_price: it.selling_price,
                    subtotal: it.subtotal,
                },
            )
        } else {
            rest
        }
    }
}

/// The lines of one sale with their products' names, in stored order.
#[verifier::loop_isolation(false)]
pub fn get_order_items(store: &Store, order_id: i64) -> (r: Vec<OrderItemDetail>)
    requires
        store.wf(),
    ensures
        r@ == order_item_details(
            store.order_items@,
            store.products@,
            order_id,
            store.order_items@.len() as int,
        ),
{
    let n = store.order_items.len();
    let mut out: Vec<OrderItemDetail> = Vec::new();
    let mut k: usize = 0;
    while k < n
        invariant
            k <= n,
            out@ == order_item_details(store.order_items@, store.products@, order_id, k as int),
        decreases n - k,
    {
        let it = store.order_items[k];
        if it.order_id == order_id {
            match find_product(&store.products, it.product_id) {
                None => {},
                Some(pi) => {
                    out.push(
                        OrderItemDetail {
                            id: it.id,
                            order_id: it.order_id,
                            product_id: it.product_id,
                            product_name: store.products[pi].product_name.clone(),
                            quantity: it.quantity,
                            selling_price: it.selling_price,
                            subtotal: it.subtotal,
                        },
                    );
                },
            }
        }
        k += 1;
    }
    out
}

} // verus!
