//! Building blocks of a small concurrent network service: the decisions of a
//! connection handler and of its listener, a counter store for metrics, and
//! dense integer matrices and vectors.

pub mod connection;
pub mod listener;
pub mod matrix;
pub mod metrics;
pub mod text;
pub mod vector;
