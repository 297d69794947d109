//! A fixed-block-size disk emulated on top of one backing store.
//!
//! The library decides everything about a request: whether a geometry is
//! acceptable, whether a block range may be transferred, at which byte offset
//! a transfer starts, and which bytes move through the block-sized staging
//! buffer at each step. The caller performs the byte transfers on the store.
pub mod geometry;
pub mod model;
pub mod transfer;

pub use geometry::{DiskError, Geometry};
pub use transfer::{check_transfer, close_step, status_code, zero_block, CloseStep, Transfer};

