//! Inventory accounting core for a small-retail point-of-sale backend.
//!
//! The crate models the product catalog, purchasing, sales, reporting and the
//! auxiliary tables of the backend as one in-memory [`store::Store`], and
//! verifies the operations that mutate it: above all the stock ledger, which
//! keeps each product's quantity on hand and its weighted-average unit cost
//! consistent across purchases, sales, revisions and deletions.  Amounts are
//! exact rationals ([`rational::Rat`]); persistence, the user interface and
//! other I/O live outside the crate and exchange plain values with it.

pub mod admin;
pub mod backup;
pub mod catalog;
pub mod encoding;
pub mod laws;
pub mod ledger;
pub mod models;
pub mod rational;
pub mod reports;
pub mod store;
pub mod text;

pub use rational::Rat;
