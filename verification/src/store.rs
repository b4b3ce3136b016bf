//! The in-memory model of the relational store.
//!
//! The backend keeps its tables in one embedded database; the core only
//! requires atomic read-modify-write over them, so it is modelled here as one
//! value holding every table as a vector of rows.  A single `next_id` counter
//! plays the role of the row-id allocator: every row of every table gets its
//! id from it, so ids are unique across the store.  Persistence lives outside
//! the crate; a caller loads a `Store`, runs operations, and writes it back.

use vstd::prelude::*;
use crate::models::{
    ActivityLog, Conversation, Expense, Message, Order, OrderItem, Product, ProductImage,
    Purchase, PurchaseItem, Setting, User, expense_wf, order_item_wf, order_wf, product_wf,
    purchase_item_wf, purchase_wf,
};

verus! {

/// Every table of the backend, plus the id allocator.
#[derive(Debug)]
pub struct Store {
    pub products: Vec<Product>,
    pub product_images: Vec<ProductImage>,
    pub purchases: Vec<Purchase>,
    pub purchase_items: Vec<PurchaseItem>,
    pub orders: Vec<Order>,
    pub order_items: Vec<OrderItem>,
    pub settings: Vec<Setting>,
    pub users: Vec<User>,
    pub activity_logs: Vec<ActivityLog>,
    pub expenses: Vec<Expense>,
    pub conversations: Vec<Conversation>,
    pub messages: Vec<Message>,
    pub next_id: i64,
}

/// No id occurs twice.
pub open spec fn ids_unique(ids: Seq<i64>) -> bool {
    forall|i: int, j: int| 0 <= i < j < ids.len() ==> ids[i] != ids[j]
}

/// Every id is below the allocator's next value.
pub open spec fn ids_below(ids: Seq<i64>, n: i64) -> bool {
    forall|i: int| 0 <= i < ids.len() ==> ids[i] < n
}

pub open spec fn product_ids(s: Seq<Product>) -> Seq<i64> {
    s.map_values(|p: Product| p.id)
}

pub open spec fn purchase_ids(s: Seq<Purchase>) -> Seq<i64> {
    s.map_values(|p: Purchase| p.purchase_id)
}

pub open spec fn order_ids(s: Seq<Order>) -> Seq<i64> {
    s.map_values(|o: Order| o.order_id)
}

pub open spec fn products_wf(s: Seq<Product>) -> bool {
    forall|i: int| 0 <= i < s.len() ==> product_wf(#[trigger] s[i])
}

pub open spec fn purchases_wf(s: Seq<Purchase>) -> bool {
    forall|i: int| 0 <= i < s.len() ==> purchase_wf(#[trigger] s[i])
}

pub open spec fn purchase_items_wf(s: Seq<PurchaseItem>) -> bool {
    forall|i: int| 0 <= i < s.len() ==> purchase_item_wf(#[trigger] s[i])
}

pub open spec fn orders_wf(s: Seq<Order>) -> bool {
    forall|i: int| 0 <= i < s.len() ==> order_wf(#[trigger] s[i])
}

/// Line rows and the headers they reference stay below the allocator, so a
/// freshly allocated header id can never collide with an existing line's
/// foreign key.
pub open spec fn purchase_items_bounded(s: Seq<PurchaseItem>, n: i64) -> bool {
    forall|i: int|
        0 <= i < s.len() ==> (#[trigger] s[i]).id < n && s[i].purchase_id < n
}

/// As [`purchase_items_bounded`], for sale lines.
pub open spec fn order_items_bounded(s: Seq<OrderItem>, n: i64) -> bool {
    forall|i: int| 0 <= i < s.len() ==> (#[trigger] s[i]).id < n && s[i].order_id < n
}

pub open spec fn order_items_wf(s: Seq<OrderItem>) -> bool {
    forall|i: int| 0 <= i < s.len() ==> order_item_wf(#[trigger] s[i])
}

pub open spec fn expenses_wf(s: Seq<Expense>) -> bool {
    forall|i: int| 0 <= i < s.len() ==> expense_wf(#[trigger] s[i])
}

impl Store {
    /// The store's invariant: amounts are well-formed rationals, row ids are
    /// unique where rows are addressed by id, and every id is below the
    /// allocator.
    pub open spec fn wf(self) -> bool {
        &&& self.next_id >= 1
        &&& products_wf(self.products@)
        &&& purchases_wf(self.purchases@)
        &&& purchase_items_wf(self.purchase_items@)
        &&& orders_wf(self.orders@)
        &&& order_items_wf(self.order_items@)
        &&& expenses_wf(self.expenses@)
        &&& ids_unique(product_ids(self.products@))
        &&& ids_below(product_ids(self.products@), self.next_id)
        &&& ids_unique(purchase_ids(self.purchases@))
        &&& ids_below(purchase_ids(self.purchases@), self.next_id)
        &&& ids_unique(order_ids(self.orders@))
        &&& ids_below(order_ids(self.orders@), self.next_id)
        &&& purchase_items_bounded(self.purchase_items@, self.next_id)
        &&& order_items_bounded(self.order_items@, self.next_id)
    }

    /// An empty store.
    pub fn new() -> (r: Store)
        ensures
            r.wf(),
            r.products@ == Seq::<Product>::empty(),
            r.product_images@ == Seq::<ProductImage>::empty(),
            r.purchases@ == Seq::<Purchase>::empty(),
            r.purchase_items@ == Seq::<PurchaseItem>::empty(),
            r.orders@ == Seq::<Order>::empty(),
            r.order_items@ == Seq::<OrderItem>::empty(),
            r.settings@ == Seq::<Setting>::empty(),
            r.users@ == Seq::<User>::empty(),
            r.activity_logs@ == Seq::<ActivityLog>::empty(),
            r.expenses@ == Seq::<Expense>::empty(),
            r.conversations@ == Seq::<Conversation>::empty(),
            r.messages@ == Seq::<Message>::empty(),
            r.next_id == 1,
    {
        Store {
            products: Vec::new(),
            product_images: Vec::new(),
            purchases: Vec::new(),
            purchase_items: Vec::new(),
            orders: Vec::new(),
            order_items: Vec::new(),
            settings: Vec::new(),
            users: Vec::new(),
            activity_logs: Vec::new(),
            expenses: Vec::new(),
            conversations: Vec::new(),
            messages: Vec::new(),
            next_id: 1,
        }
    }
}

/// First position holding `id`, searching from `i`; `-1` when absent.
pub open spec fn find_id_from(ids: Seq<i64>, id: i64, i: int) -> int
    decreases ids.len() - i,
{
    if i < 0 || i >= ids.len() {
        -1
    } else if ids[i] == id {
        i
    } else {
        find_id_from(ids, id, i + 1)
    }
}

/// First position holding `id`, or `-1`.
pub open spec fn index_of_id(ids: Seq<i64>, id: i64) -> int {
    find_id_from(ids, id, 0)
}

/// Searching from the start equals searching from `i` when the prefix has no hit.
pub proof fn lemma_find_id_prefix(ids: Seq<i64>, id: i64, i: int)
    requires
        0 <= i <= ids.len(),
        forall|j: int| 0 <= j < i ==> ids[j] != id,
    ensures
        index_of_id(ids, id) == find_id_from(ids, id, i),
    decreases i,
{
    if i > 0 {
        lemma_find_id_prefix(ids.subrange(0, i), id, i - 1);
        assert(forall|k: int| #![auto] 0 <= k < ids.len() ==> ids[k] == ids[k]);
        lemma_find_id_from_step(ids, id, 0, i);
    }
}

proof fn lemma_find_id_from_step(ids: Seq<i64>, id: i64, lo: int, hi: int)
    requires
        0 <= lo <= hi <= ids.len(),
        forall|j: int| lo <= j < hi ==> ids[j] != id,
    ensures
        find_id_from(ids, id, lo) == find_id_from(ids, id, hi),
    decreases hi - lo,
{
    if lo < hi {
        lemma_find_id_from_step(ids, id, lo + 1, hi);
    }
}

/// What a successful search means.
pub proof fn lemma_index_of_id_found(ids: Seq<i64>, id: i64)
    ensures
        index_of_id(ids, id) == -1 ==> forall|j: int| 0 <= j < ids.len() ==> ids[j] != id,
        index_of_id(ids, id) >= 0 ==> index_of_id(ids, id) < ids.len() && ids[index_of_id(
            ids,
            id,
        )] == id,
{
    lemma_index_of_from(ids, id, 0);
}

proof fn lemma_index_of_from(ids: Seq<i64>, id: i64, i: int)
    requires
        0 <= i <= ids.len(),
    ensures
        find_id_from(ids, id, i) == -1 ==> forall|j: int| i <= j < ids.len() ==> ids[j] != id,
        find_id_from(ids, id, i) >= 0 ==> find_id_from(ids, id, i) < ids.len() && ids[
            find_id_from(ids, id, i)
        ] == id,
    decreases ids.len() - i,
{
    if i < ids.len() && ids[i] != id {
        lemma_index_of_from(ids, id, i + 1);
    }
}

/// Removing a row keeps ids unique and bounded.
pub proof fn lemma_ids_remove(ids: Seq<i64>, i: int, bound: i64)
    requires
        ids_unique(ids),
        ids_below(ids, bound),
        0 <= i < ids.len(),
    ensures
        ids_unique(ids.remove(i)),
        ids_below(ids.remove(i), bound),
{
    let r = ids.remove(i);
    assert forall|a: int, b: int| 0 <= a < b < r.len() implies r[a] != r[b] by {
        if a < i {
            assert(r[a] == ids[a]);
        } else {
            assert(r[a] == ids[a + 1]);
        }
        if b < i {
            assert(r[b] == ids[b]);
        } else {
            assert(r[b] == ids[b + 1]);
        }
    }
    assert forall|a: int| 0 <= a < r.len() implies r[a] < bound by {
        if a < i {
            assert(r[a] == ids[a]);
        } else {
            assert(r[a] == ids[a + 1]);
        }
    }
}

/// Mapping to ids commutes with removing a row.
pub proof fn lemma_purchase_ids_remove(s: Seq<Purchase>, i: int)
    requires
        0 <= i < s.len(),
    ensures
        purchase_ids(s.remove(i)) =~= purchase_ids(s).remove(i),
{
}

/// Mapping to ids commutes with removing a row.
pub proof fn lemma_order_ids_remove(s: Seq<Order>, i: int)
    requires
        0 <= i < s.len(),
    ensures
        order_ids(s.remove(i)) =~= order_ids(s).remove(i),
{
}

/// Find a product row by id.
pub fn find_product(products: &Vec<Product>, id: i64) -> (r: Option<usize>)
    ensures
        r matches Some(i) ==> index_of_id(product_ids(products@), id) == i as int
            && i < products@.len() && products@[i as int].id == id,
        r is None ==> index_of_id(product_ids(products@), id) == -1 && forall|j: int|
            0 <= j < products@.len() ==> (#[trigger] products@[j]).id != id,
{
    let ghost ids = product_ids(products@);
    let mut i: usize = 0;
    while i < products.len()
        invariant
            i <= products@.len(),
            ids == product_ids(products@),
            forall|j: int| 0 <= j < i ==> ids[j] != id,
        decreases products@.len() - i,
    {
        if products[i].id == id {
            proof {
                lemma_find_id_prefix(ids, id, i as int);
            }
            return Some(i);
        }
        i += 1;
    }
    proof {
        lemma_find_id_prefix(ids, id, products@.len() as int);
        assert forall|j: int| 0 <= j < products@.len() implies (#[trigger] products@[j]).id
            != id by {
            assert(ids[j] == products@[j].id);
        }
    }
    None
}

/// Find a purchase header by id.
pub fn find_purchase(purchases: &Vec<Purchase>, id: i64) -> (r: Option<usize>)
    ensures
        r matches Some(i) ==> index_of_id(purchase_ids(purchases@), id) == i as int
            && i < purchases@.len() && purchases@[i as int].purchase_id == id,
        r is None ==> index_of_id(purchase_ids(purchases@), id) == -1,
{
    let ghost ids = purchase_ids(purchases@);
    let mut i: usize = 0;
    while i < purchases.len()
        invariant
            i <= purchases@.len(),
            ids == purchase_ids(purchases@),
            forall|j: int| 0 <= j < i ==> ids[j] != id,
        decreases purchases@.len() - i,
    {
        if purchases[i].purchase_id == id {
            proof {
                lemma_find_id_prefix(ids, id, i as int);
            }
            return Some(i);
        }
        i += 1;
    }
    proof {
        lemma_find_id_prefix(ids, id, purchases@.len() as int);
    }
    None
}

/// Find a sale header by id.
pub fn find_order(orders: &Vec<Order>, id: i64) -> (r: Option<usize>)
    ensures
        r matches Some(i) ==> index_of_id(order_ids(orders@), id) == i as int && i < orders@.len()
            && orders@[i as int].order_id == id,
        r is None ==> index_of_id(order_ids(orders@), id) == -1,
{
    let ghost ids = order_ids(orders@);
    let mut i: usize = 0;
    while i < orders.len()
        invariant
            i <= orders@.len(),
            ids == order_ids(orders@),
            forall|j: int| 0 <= j < i ==> ids[j] != id,
        decreases orders@.len() - i,
    {
        if orders[i].order_id == id {
            proof {
                lemma_find_id_prefix(ids, id, i as int);
            }
            return Some(i);
        }
        i += 1;
    }
    proof {
        lemma_find_id_prefix(ids, id, orders@.len() as int);
    }
    None
}

/// Wipe tables as requested; clearing products wipes every transaction table
/// that references them.
pub fn cleanup_database(
    store: &mut Store,
    clean_sales: bool,
    clean_purchases: bool,
    clean_products: bool,
    clean_logs: bool,
    clean_expenses: bool,
)
    requires
        old(store).wf(),
    ensures
        final(store).wf(),
        clean_products ==> final(store).products@ == Seq::<Product>::empty()
            && final(store).product_images@ == Seq::<ProductImage>::empty(),
        (clean_products || clean_sales) ==> final(store).orders@ == Seq::<Order>::empty()
            && final(store).order_items@ == Seq::<OrderItem>::empty(),
        (clean_products || clean_purchases) ==> final(store).purchases@ == Seq::<
            Purchase,
        >::empty() && final(store).purchase_items@ == Seq::<PurchaseItem>::empty(),
        clean_logs ==> final(store).activity_logs@ == Seq::<ActivityLog>::empty(),
        clean_expenses ==> final(store).expenses@ == Seq::<Expense>::empty(),
        !clean_products ==> final(store).products@ == old(store).products@
            && final(store).product_images@ == old(store).product_images@,
        !(clean_products || clean_sales) ==> final(store).orders@ == old(store).orders@
            && final(store).order_items@ == old(store).order_items@,
        !(clean_products || clean_purchases) ==> final(store).purchases@ == old(store).purchases@
            && final(store).purchase_items@ == old(store).purchase_items@,
        !clean_logs ==> final(store).activity_logs@ == old(store).activity_logs@,
        !clean_expenses ==> final(store).expenses@ == old(store).expenses@,
        final(store).settings@ == old(store).settings@,
        final(store).users@ == old(store).users@,
        final(store).conversations@ == old(store).conversations@,
        final(store).messages@ == old(store).messages@,
        final(store).next_id == old(store).next_id,
{
    if clean_products {
        store.product_images = Vec::new();
        store.order_items = Vec::new();
        store.orders = Vec::new();
        store.purchase_items = Vec::new();
        store.purchases = Vec::new();
        store.products = Vec::new();
    } else {
        if clean_sales {
            store.order_items = Vec::new();
            store.orders = Vec::new();
        }
        if clean_purchases {
            store.purchase_items = Vec::new();
            store.purchases = Vec::new();
        }
    }
    if clean_expenses {
        store.expenses = Vec::new();
    }
    if clean_logs {
        store.activity_logs = Vec::new();
    }
}

} // verus!
