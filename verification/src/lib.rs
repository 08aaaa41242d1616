//! An in-memory registry of departments and their employees, driven by a
//! small line-oriented command language.
//!
//! A raw input line is classified against a fixed grammar
//! ([`classify::get_input_type`]), and the resulting command is applied to a
//! [`registry::Registry`], a multimap from department names to ordered lists
//! of employee names. [`dispatch::process_line`] ties the two together: it
//! classifies one line and performs the corresponding mutation or query.

pub mod classify;
pub mod dispatch;
pub mod registry;
