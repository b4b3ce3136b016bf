//! Data model of the backend: catalog rows, ledger rows, report rows and the
//! auxiliary tables.
//!
//! Amounts that the stored system keeps as floating point are exact rationals
//! here ([`Rat`]); calendar timestamps that the stored system fills in with
//! `CURRENT_TIMESTAMP` are plain values supplied by the caller: a [`Date`]
//! where the core compares dates, an opaque string where it only carries them.

use vstd::prelude::*;
use crate::rational::Rat;

verus! {

/// A calendar date, compared field by field; the caller converts real
/// timestamps at the boundary.
#[derive(Clone, Copy, Debug, PartialEq, Eq, Structural)]
pub struct Date {
    pub year: u16,
    pub month: u8,
    pub day: u8,
}

/// `a` is on or before `b`, by (year, month, day) in that order.
pub open spec fn date_le(a: Date, b: Date) -> bool {
    if a.year != b.year {
        a.year < b.year
    } else if a.month != b.month {
        a.month < b.month
    } else {
        a.day <= b.day
    }
}

impl Date {
    /// Comparison: `self` is on or before `other`.
    pub fn on_or_before(self, other: Date) -> (r: bool)
        ensures
            r == date_le(self, other),
    {
        if self.year != other.year {
            self.year < other.year
        } else if self.month != other.month {
            self.month < other.month
        } else {
            self.day <= other.day
        }
    }
}

/// Why an operation was refused.  Every refusal leaves the store exactly as
/// it was.
#[derive(Clone, Copy, Debug, PartialEq, Eq, Structural)]
pub enum StoreError {
    /// The request refers to a product that does not exist.
    Validation,
    /// The targeted header row does not exist.
    NotFound,
    /// An amount or an identifier left the representable range.
    Overflow,
}

impl StoreError {
    /// A human-readable description of the failure.
    pub fn message(&self) -> (r: String)
        ensures
            *self is Validation ==> r@ == "referenced product not found"@,
            *self is NotFound ==> r@ == "record not found"@,
            *self is Overflow ==> r@ == "amount out of range"@,
    {
        match self {
            StoreError::Validation => "referenced product not found".to_owned(),
            StoreError::NotFound => "record not found".to_owned(),
            StoreError::Overflow => "amount out of range".to_owned(),
        }
    }
}

/// A catalog row.  `id` is assigned by the store on creation.
#[derive(Debug)]
pub struct Product {
    pub id: i64,
    pub product_name: String,
    pub product_code: Option<String>,
    pub category: Option<String>,
    pub brand: Option<String>,
    pub buying_price: Rat,
    pub default_selling_price: Rat,
    pub stock_quantity: Rat,
    pub unit: Option<String>,
    pub tax_percentage: Rat,
    pub original_price: Rat,
    pub profit_percentage: Rat,
    pub facebook_link: Option<String>,
    pub product_link: Option<String>,
    pub created_at: Option<String>,
    pub updated_at: Option<String>,
    pub is_deleted: i32,
    pub images: Option<Vec<String>>,
}

pub open spec fn product_wf(p: Product) -> bool {
    &&& p.buying_price.wf()
    &&& p.default_selling_price.wf()
    &&& p.stock_quantity.wf()
    &&& p.tax_percentage.wf()
    &&& p.original_price.wf()
    &&& p.profit_percentage.wf()
}

/// One stored image path of a product.
#[derive(Debug)]
pub struct ProductImage {
    pub id: i64,
    pub product_id: i64,
    pub image_path: String,
}

/// A purchase header; its lines are [`PurchaseItem`] rows.
#[derive(Debug)]
pub struct Purchase {
    pub purchase_id: i64,
    pub supplier_name: Option<String>,
    pub supplier_phone: Option<String>,
    pub invoice_number: Option<String>,
    pub purchase_date: Option<Date>,
    pub total_amount: Rat,
    pub notes: Option<String>,
    pub created_at: Option<String>,
}

pub open spec fn purchase_wf(p: Purchase) -> bool {
    p.total_amount.wf()
}

/// A purchase line: one inbound stock movement of one product.
#[derive(Clone, Copy, Debug)]
pub struct PurchaseItem {
    pub id: i64,
    pub purchase_id: i64,
    pub product_id: i64,
    pub quantity: Rat,
    pub buying_price: Rat,
    pub extra_charge: Rat,
    pub subtotal: Rat,
    pub purchase_unit_cost: Rat,
}

pub open spec fn purchase_item_wf(it: PurchaseItem) -> bool {
    &&& it.quantity.wf()
    &&& it.buying_price.wf()
    &&& it.extra_charge.wf()
    &&& it.subtotal.wf()
    &&& it.purchase_unit_cost.wf()
}

/// A purchase line joined with its product's name, for display.
#[derive(Debug)]
pub struct PurchaseItemDetail {
    pub id: i64,
    pub purchase_id: i64,
    pub product_id: i64,
    pub product_name: String,
    pub quantity: Rat,
    pub buying_price: Rat,
    pub extra_charge: Rat,
    pub subtotal: Rat,
    pub purchase_unit_cost: Rat,
}

/// A sale header; its lines are [`OrderItem`] rows.
#[derive(Debug)]
pub struct Order {
    pub order_id: i64,
    pub order_date: Option<Date>,
    pub order_type: String,
    pub customer_name: Option<String>,
    pub customer_phone: Option<String>,
    pub customer_address: Option<String>,
    pub subtotal: Rat,
    pub extra_charge: Rat,
    pub delivery_charge: Rat,
    pub discount: Rat,
    pub grand_total: Rat,
    pub payment_method: Option<String>,
    pub notes: Option<String>,
}

pub open spec fn order_wf(o: Order) -> bool {
    &&& o.subtotal.wf()
    &&& o.extra_charge.wf()
    &&& o.delivery_charge.wf()
    &&& o.discount.wf()
    &&& o.grand_total.wf()
}

/// A sale line: one outbound stock movement of one product.
/// `buying_price_snapshot` is frozen from the product's average cost when the
/// sale is recorded and never changes afterwards.
#[derive(Clone, Copy, Debug)]
pub struct OrderItem {
    pub id: i64,
    pub order_id: i64,
    pub product_id: i64,
    pub quantity: Rat,
    pub selling_price: Rat,
    pub subtotal: Rat,
    pub buying_price_snapshot: Option<Rat>,
}

pub open spec fn order_item_wf(it: OrderItem) -> bool {
    &&& it.quantity.wf()
    &&& it.selling_price.wf()
    &&& it.subtotal.wf()
    &&& (it.buying_price_snapshot matches Some(s) ==> s.wf())
}

/// A sale line joined with its product's name, for display.
#[derive(Debug)]
pub struct OrderItemDetail {
    pub id: i64,
    pub order_id: i64,
    pub product_id: i64,
    pub product_name: String,
    pub quantity: Rat,
    pub selling_price: Rat,
    pub subtotal: Rat,
}

/// Aggregated figures for the dashboard.
#[derive(Clone, Copy, Debug)]
pub struct DashboardStats {
    pub sales_today: Rat,
    pub sales_month: Rat,
    pub sales_year: Rat,
    pub total_sales: Rat,
    pub purchases_today: Rat,
    pub purchases_month: Rat,
    pub purchases_year: Rat,
    pub total_purchases: Rat,
    pub profit_today: Rat,
    pub profit_month: Rat,
    pub profit_year: Rat,
    pub total_profit: Rat,
    pub inventory_value: Rat,
    pub low_stock_count: i64,
    pub order_count: i64,
    pub product_count: i64,
}

/// One order in the sales report.
#[derive(Debug)]
pub struct SalesReportItem {
    pub order_id: i64,
    pub date: Option<Date>,
    pub customer: Option<String>,
    pub total: Rat,
    pub discount: Rat,
    pub items_count: i64,
    pub profit: Rat,
}

/// One product in the inventory report.
#[derive(Debug)]
pub struct InventoryReportItem {
    pub id: i64,
    pub name: String,
    pub category: Option<String>,
    pub stock: Rat,
    pub unit: Option<String>,
    pub cost_price: Rat,
    pub selling_price: Rat,
    pub stock_value: Rat,
}

/// A user account.  `password` is cleared in every row handed out.
#[derive(Debug)]
pub struct User {
    pub id: i64,
    pub username: String,
    pub password: Option<String>,
    pub role: String,
    pub created_at: Option<String>,
}

/// A backup file found on disk; the caller lists the directory.
#[derive(Debug)]
pub struct BackupInfo {
    pub name: String,
    pub path: String,
    pub size: u64,
    pub created_at: String,
}

/// One purchase line of a product, joined with its header, for history views.
#[derive(Debug)]
pub struct ProductPurchaseHistory {
    pub date: Option<Date>,
    pub supplier_name: Option<String>,
    pub invoice_number: Option<String>,
    pub quantity: Rat,
    pub buying_price: Rat,
    pub extra_charge: Rat,
    pub subtotal: Rat,
    pub purchase_unit_cost: Rat,
}

/// One entry of a product's stock timeline.  Inbound rows carry the supplier
/// and invoice; outbound rows carry the customer and the order id.
#[derive(Debug)]
pub struct StockMovement {
    pub date: Option<Date>,
    pub movement_type: String,
    pub entity_name: Option<String>,
    pub reference: Option<String>,
    pub reference_id: Option<i64>,
    pub quantity: Rat,
    pub price: Rat,
}

/// One audit-trail row.
#[derive(Debug)]
pub struct ActivityLog {
    pub id: i64,
    pub user_id: Option<i64>,
    pub username: String,
    pub action: String,
    pub entity_type: String,
    pub entity_id: Option<i64>,
    pub description: String,
    pub created_at: Option<String>,
}

/// One recorded expense.
#[derive(Debug)]
pub struct Expense {
    pub id: i64,
    pub expense_date: Option<Date>,
    pub category: String,
    pub amount: Rat,
    pub notes: Option<String>,
    pub created_at: Option<String>,
}

pub open spec fn expense_wf(e: Expense) -> bool {
    e.amount.wf()
}

/// One key-value row of the settings table.
#[derive(Debug)]
pub struct Setting {
    pub key: String,
    pub value: String,
}

/// A chat conversation header.
#[derive(Debug)]
pub struct Conversation {
    pub id: i64,
    pub title: String,
    pub created_at: String,
}

/// One chat message of a conversation.
#[derive(Debug)]
pub struct Message {
    pub id: i64,
    pub conversation_id: i64,
    pub sender: String,
    pub content: String,
    pub created_at: String,
}


/// Clone an optional string, preserving the value exactly.
pub fn clone_opt_string(x: &Option<String>) -> (r: Option<String>)
    ensures
        r == *x,
{
    match x {
        None => None,
        Some(s) => Some(s.clone()),
    }
}

} // verus!
