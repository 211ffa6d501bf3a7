//! What the platform layer reports about a file, and the queries it answers.

use vstd::prelude::*;

use crate::error::BbcprError;

verus! {

/// Size, modification time (seconds since the Unix epoch), permission bits
/// and owner of a file.
#[derive(Clone, Copy, Debug, PartialEq, Eq, Structural)]
pub struct FileMetadata {
    pub size: u64,
    pub modified: u64,
    pub mode: u32,
    pub uid: u32,
    pub gid: u32,
}

/// File queries that differ between platforms.
pub trait FileSystem {
    fn get_file_size(path: &str) -> Result<u64, BbcprError>;

    fn get_available_space(path: &str) -> Result<u64, BbcprError>;

    fn set_permissions(path: &str, mode: u32) -> Result<(), BbcprError>;

    fn sync_file(path: &str) -> Result<(), BbcprError>;

    fn get_block_size(path: &str) -> Result<u64, BbcprError>;
}

} // verus!
