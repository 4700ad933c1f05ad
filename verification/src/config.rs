//! How the store is reached and used.

use vstd::prelude::*;

verus! {

/// The settings of the store.
#[derive(Debug, PartialEq, Eq)]
pub struct EtcdConfig {
    /// The addresses of the servers, separated by commas.
    pub addr: String,
    /// What every key in the store begins with.
    pub prefix: String,
    /// Seconds.
    pub connect_timeout: u64,
    /// Seconds.
    pub command_timeout: u64,
    /// Seconds that a lock is waited for where the caller names no time.
    pub lock_wait_timeout: u64,
    /// Empty where the servers ask for no user.
    pub user: String,
    pub password: String,
    /// Whether the servers and the client show certificates to each other.
    pub cert_auth: bool,
    pub ca_file: String,
    pub cert_file: String,
    pub key_file: String,
    pub domain_name: String,
    /// How many keys are read at once.
    pub load_page_size: i64,
}

} // verus!
