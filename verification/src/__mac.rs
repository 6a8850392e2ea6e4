//! Helpers for dropping arrays item by item, for deciding conditional types, and for
//! reading the attribute of the `apply` macro.
pub mod arr;
pub mod cond;
pub mod apply;
