//! How the servers are connected to.

use crate::config::EtcdConfig;
use crate::text::{split, split_on, texts};
use vstd::prelude::*;

verus! {

/// The user that the servers ask for.
#[derive(Debug, PartialEq, Eq)]
pub struct Credentials {
    pub user: String,
    pub password: String,
}

/// The files and the name that a connection with certificates needs.
#[derive(Debug, PartialEq, Eq)]
pub struct TlsFiles {
    pub ca_file: String,
    pub cert_file: String,
    pub key_file: String,
    pub domain_name: String,
}

/// How the servers are connected to.
#[derive(Debug, PartialEq, Eq)]
pub struct ConnectPlan {
    pub endpoints: Vec<String>,
    /// Seconds.
    pub timeout: u64,
    /// Seconds.
    pub connect_timeout: u64,
    pub credentials: Option<Credentials>,
    pub tls: Option<TlsFiles>,
}

/// How the servers of the settings are connected to: every address between commas is one
/// server, a user is shown exactly if one is set, and certificates exactly if they are asked
/// for.
pub fn connect_etcd(config: &EtcdConfig) -> (plan: ConnectPlan)
    ensures
        texts(plan.endpoints@) == split_on(config.addr@, ','),
        plan.timeout == config.command_timeout,
        plan.connect_timeout == config.connect_timeout,
        match plan.credentials {
            Some(shown) => {
                &&& config.user@.len() > 0
                &&& shown.user@ == config.user@
                &&& shown.password@ == config.password@
            },
            None => config.user@.len() == 0,
        },
        match plan.tls {
            Some(files) => {
                &&& config.cert_auth
                &&& files.ca_file@ == config.ca_file@
                &&& files.cert_file@ == config.cert_file@
                &&& files.key_file@ == config.key_file@
                &&& files.domain_name@ == config.domain_name@
            },
            None => !config.cert_auth,
        },
{
    let credentials = if !config.user.as_str().is_empty() {
        Some(Credentials { user: config.user.clone(), password: config.password.clone() })
    } else {
        None
    };
    let tls = if config.cert_auth {
        Some(
            TlsFiles {
                ca_file: config.ca_file.clone(),
                cert_file: config.cert_file.clone(),
                key_file: config.key_file.clone(),
                domain_name: config.domain_name.clone(),
            },
        )
    } else {
        None
    };
    ConnectPlan {
        endpoints: split(config.addr.as_str(), ','),
        timeout: config.command_timeout,
        connect_timeout: config.connect_timeout,
        credentials,
        tls,
    }
}

} // verus!
