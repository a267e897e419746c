//! Format detection, decoding limits and sample unpacking for a
//! multi-format image decoder.

pub mod error;
pub mod expand;
pub mod format;
pub mod limits;
pub mod reader;
pub mod sniff;
pub mod utils;
