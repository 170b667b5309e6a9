//! A codec for a reduced Bitcoin transaction wire format: a version, a
//! counted list of inputs and a lock time, with no outputs and no witness
//! data.
//!
//! Every wire type owns a `to_bytes` / `from_bytes` pair. Each pair is
//! specified against two spec functions on byte sequences, `*_bytes` for the
//! encoding and `*_parse` for the decoding, and for each type it is proved
//! that parsing an encoding gives the value back, whatever bytes follow.
//!
//! - [`endian`]: fixed-width little-endian integers.
//! - [`compact_size`]: the variable-width count prefix.
//! - [`txid`], [`hex_text`]: the 32-byte identifier and its hex text form.
//! - [`outpoint`], [`script`], [`input`], [`transaction`]: the nested wire
//!   types, smallest first.
//! - [`text`]: the rendering of a transaction for a person to read.

pub mod compact_size;
pub mod endian;
pub mod error;
pub mod hex_text;
pub mod input;
pub mod outpoint;
pub mod script;
pub mod text;
pub mod transaction;
pub mod txid;

pub use crate::compact_size::CompactSize;
pub use crate::error::BitcoinError;
pub use crate::input::TransactionInput;
pub use crate::outpoint::OutPoint;
pub use crate::script::Script;
pub use crate::transaction::BitcoinTransaction;
pub use crate::txid::Txid;
