//! A single-tenant inventory and order-taking library.
//!
//! The library tracks stocked items (name, unit cost, unit weight, quantity on
//! hand), lets an operator assemble an order by reserving quantities against
//! stock, and commits completed orders with aggregated cost and shipping
//! weight.  Every quantity-changing step routes through one guarded primitive,
//! so the on-hand quantity of an item is never negative.

pub mod laws;
pub mod session;
pub mod store;
pub mod units;
