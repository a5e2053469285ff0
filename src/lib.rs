//! Stores an arbitrary byte payload losslessly inside a square RGBA pixel grid,
//! behind an eight-byte big-endian length header, and recovers it again.
//! An optional xz stage compresses the payload before packing and
//! decompresses it after unpacking.

pub mod cli;
pub mod codec;
pub mod error;
pub mod grid;
pub mod layout;
pub mod pipeline;
pub mod xz;

pub use cli::{parse_args, Config, Mode, UsageError};
pub use codec::{pack, try_pack, unpack};
pub use error::FtoiError;
pub use grid::PixelGrid;
pub use layout::{grid_side, header_bytes, header_value, slot_position};
pub use pipeline::{decode, encode, XZ_PRESET};
