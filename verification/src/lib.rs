//! A memcached-compatible cache server: the verified core.
//!
//! The library holds the text protocol (tokenising, command and frame
//! parsing, reply encoding), the item store with lazy expiry, the
//! connection-limit state machine, the listen-address classification and
//! the command-line value checks.

pub mod args;
pub mod log;
pub mod protocol;
pub mod server;
pub mod store;
