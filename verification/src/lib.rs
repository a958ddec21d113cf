//! A finite space of 24 musical key/scale identities, a catalog of ten
//! transformation rules over it, a directed labeled graph of every
//! (state, rule) transition, and a frontier search that enumerates the
//! cheapest arrival paths between two states in non-decreasing cost order.

pub mod state;
pub mod catalog;
pub mod graphwrap;
pub mod builder;
pub mod search;
