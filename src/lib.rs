//! Discount operations for a checkout: from a cart and a discount
//! configuration, the order-level and product-level percentage discounts
//! to offer.
pub mod decimal;
pub mod discount;
