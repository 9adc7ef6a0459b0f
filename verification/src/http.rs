//! What the serving layer asks of the store, as plain values.

pub mod handlers;
