//! The server's command-line settings.
use vstd::prelude::*;

verus! {

/// The settings that the command line gives the server.
#[derive(Debug)]
pub struct Args {
    /// Listen for UDP instead of TCP.
    pub udp: bool,
    /// Interfaces, addresses or host names to listen on.
    pub listen_interface: Vec<String>,
    /// Path of a Unix socket to listen on instead.
    pub unix_socket: Option<String>,
    /// Permission bits of the Unix socket.
    pub unix_socket_perm: u16,
    /// TCP or UDP port.
    pub port: u16,
    /// Memory limit in megabytes.
    pub memory: u64,
    /// Refuse to evict when memory runs out.
    pub memory_eviction: bool,
    /// Largest item, in bytes.
    pub max_item_size: u64,
    /// Largest number of simultaneous connections (0: no limit).
    pub max_connections: u64,
    /// Refuse connections over the limit at once.
    pub maxconns_fast: bool,
    /// Worker threads.
    pub threads: u64,
    /// Run as a daemon.
    pub daemonize: bool,
    /// User to run as.
    pub user: String,
    /// Keep core dumps.
    pub core_dump: bool,
    /// Lock all memory.
    pub lock_all_memory: bool,
    /// Disable CAS numbers.
    pub cas_disable: bool,
    /// File to write the process id to.
    pub pid_file: Option<String>,
}

/// The smallest item size limit that may be set.
pub const MIN_ITEM_SIZE_LIMIT: u64 = 1024;

/// The largest item size limit that may be set: a gigabyte.
pub const MAX_ITEM_SIZE_LIMIT: u64 = 1_073_741_824;

/// Why an item size limit is refused.
#[derive(Debug, Clone, Copy, PartialEq, Eq, Structural)]
pub enum ItemSizeLimitError {
    /// Below 1024 bytes.
    TooSmall,
    /// Above a gigabyte.
    TooLarge,
}

/// Checks the item size limit: from 1024 bytes to a gigabyte.
pub fn check_max_item_size(size: u64) -> (res: Result<(), ItemSizeLimitError>)
    ensures
        size < MIN_ITEM_SIZE_LIMIT ==> res matches Err(ItemSizeLimitError::TooSmall),
        size > MAX_ITEM_SIZE_LIMIT ==> res matches Err(ItemSizeLimitError::TooLarge),
        MIN_ITEM_SIZE_LIMIT <= size <= MAX_ITEM_SIZE_LIMIT ==> res is Ok,
{
    if size < MIN_ITEM_SIZE_LIMIT {
        Err(ItemSizeLimitError::TooSmall)
    } else if size > MAX_ITEM_SIZE_LIMIT {
        Err(ItemSizeLimitError::TooLarge)
    } else {
        Ok(())
    }
}

/// The number of worker threads to start: at least one.
pub fn worker_threads(threads: u64) -> (res: u64)
    ensures
        res == if threads == 0 { 1 } else { threads },
{
    if threads == 0 {
        1
    } else {
        threads
    }
}

} // verus!
