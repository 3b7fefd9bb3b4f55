//! Point-of-sale transaction settlement.
//!
//! The library prices a basket of line items against a pricebook,
//! settles payment by cash or store credit, and records the outcome in
//! a store whose state the contracts describe exactly: money must
//! reconcile, partial transactions must resume verbatim, and a
//! rejected settlement must leave every balance untouched.

pub mod engine;
pub mod model;
pub mod store;
pub mod util;
