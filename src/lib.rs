//! Resumable, chunked file transfer: the persistent chunk map, the rules that
//! split a file into byte ranges and reconcile a request with a saved record,
//! the per-chunk copy protocol and the wire framing, with their proofs.

use vstd::prelude::*;

pub mod error;
pub mod identity;
pub mod state;
pub mod engine;
pub mod stream;
pub mod protocol;
pub mod checksum;
pub mod auth;
pub mod platform;
pub mod args;

pub use crate::auth::get_ssh_password;
pub use crate::checksum::{create_checksum, AnyChecksum, Checksum, ChecksumType};
pub use crate::engine::{TransferEngine, TransferMessage, TransferOptions};
pub use crate::error::BbcprError;
pub use crate::identity::generate_transfer_id;
pub use crate::state::{ChunkState, TransferState};
pub use crate::stream::TransferStream;

verus! {

/// Number of parallel streams used when none is asked for.
pub const DEFAULT_STREAMS: u32 = 4;

/// Size of the I/O buffer of each stream, in bytes.
pub const DEFAULT_BUFFER_SIZE: usize = 128 * 1024;

/// Size of the network window, in bytes.
pub const DEFAULT_WINDOW_SIZE: usize = 128 * 1024;

} // verus!
