//! Assembles same-sized RGBA tiles into fixed-grid sprite sheets.
//!
//! A name-sorted list of tile paths is cut into sliding windows of at most
//! [`layout::BATCH_SIZE`] entries; the decoded tiles of one window are copied
//! into the cells of a grid-shaped canvas, in forward or reversed order.
//! Reading directories and decoding or encoding image files is left to the
//! caller.

pub mod arith;
pub mod bitmap;
pub mod compose;
pub mod layout;
pub mod listing;
pub mod naming;
pub mod partition;
pub mod raster;
pub mod sheet;
