//! A single-producer/single-consumer ring buffer of fixed-size byte slots,
//! with its index arithmetic, full/empty rules and slot copies verified.

mod error;
pub mod ring;
mod buffer;
pub mod model;
pub mod laws;

pub use error::Error;
pub use buffer::{marker_byte, Consumer, KrabiBuffer, Producer};
