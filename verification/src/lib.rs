//! Product metadata, stock policy and session cart rules of a small shop.
//!
//! The crate holds the decisions of the shop: which metadata entries
//! a product edit writes, whether a product may be added to a cart, how a cart
//! changes, and how a product is put together for display. Reading and writing
//! the database, the session and the cookies is left to the caller.

pub mod attributes;
pub mod cart;
pub mod hash;
pub mod json;
pub mod meta;
pub mod products;
pub mod stock;
pub mod text;
