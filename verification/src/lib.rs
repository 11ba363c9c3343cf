//! A hierarchical record store: a wallet holds categories, a category holds
//! items, an item holds entries, and every level is kept in ascending key order.

pub mod args;
pub mod assoc;
pub mod category;
pub mod command;
pub mod document;
pub mod error;
pub mod item;
pub mod json;
pub mod key_order;
pub mod laws;
pub mod model;
pub mod table;
pub mod text;
pub mod update;
pub mod wallet;
