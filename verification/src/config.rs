//! The configuration of one server and of its peers.

use crate::error::ServerError;
use crate::utils::{b64_to_loc, binary_digits, binary_string, location_of};
use vstd::prelude::*;

verus! {

/// What a cluster configuration says of one server: where it is reached, the
/// sub-tree it owns, and its public keys in base64.
#[derive(Debug)]
pub struct ServerConfig {
    pub connection_string: String,
    pub id: String,
    pub prefix: Option<String>,
    pub prefix_length: Option<u32>,
    pub length: u32,
    pub bls_pub_key: String,
    pub dalek_pub_key: String,
}

/// What a server's configuration says of the server itself.
#[derive(Debug)]
pub struct LocalServerConfig {
    pub server_config: ServerConfig,
    pub outer_port: u16,
    pub outer_addr: String,
    pub inner_port: u16,
    pub private_key: String,
    /// Epoch interval in milliseconds.
    pub epoch_interval: u32,
}

/// The configuration of one server: itself and its peers.
#[derive(Debug)]
pub struct ServersConfig {
    pub server: LocalServerConfig,
    pub peers: Option<Vec<ServerConfig>>,
}

/// Copies an optional text.
pub fn clone_opt_text(text: &Option<String>) -> (res: Option<String>)
    ensures
        res == *text,
{
    match text {
        Some(t) => Some(t.clone()),
        None => None,
    }
}

impl Clone for ServerConfig {
    fn clone(&self) -> (res: Self)
        ensures
            res == *self,
    {
        ServerConfig {
            connection_string: self.connection_string.clone(),
            id: self.id.clone(),
            prefix: clone_opt_text(&self.prefix),
            prefix_length: self.prefix_length,
            length: self.length,
            bls_pub_key: self.bls_pub_key.clone(),
            dalek_pub_key: self.dalek_pub_key.clone(),
        }
    }
}

impl Clone for LocalServerConfig {
    fn clone(&self) -> (res: Self)
        ensures
            res == *self,
    {
        LocalServerConfig {
            server_config: self.server_config.clone(),
            outer_port: self.outer_port,
            outer_addr: self.outer_addr.clone(),
            inner_port: self.inner_port,
            private_key: self.private_key.clone(),
            epoch_interval: self.epoch_interval,
        }
    }
}

/// The canonical binary string of a configured prefix: empty where the prefix or
/// its length is missing, nothing where the prefix does not decode into that
/// length.
pub open spec fn prefix_digits(prefix: Option<String>, length: Option<u32>) -> Option<Seq<char>> {
    match (prefix, length) {
        (Some(p), Some(l)) => match location_of(p@, l as nat) {
            Some(bytes) => Some(binary_digits(bytes, l as nat)),
            None => None,
        },
        _ => Some(Seq::empty()),
    }
}

/// Renders the canonical binary string of a configured prefix.
pub fn prefix_bin(prefix: &Option<String>, length: &Option<u32>) -> (res: Result<
    String,
    ServerError,
>)
    ensures
        match prefix_digits(*prefix, *length) {
            Some(digits) => res matches Ok(text) && text@ == digits,
            None => res matches Err(e) && e == ServerError::ConfigError,
        },
{
    match (prefix, length) {
        (Some(pref), Some(len)) => {
            let len_siz = *len as usize;
            match b64_to_loc(pref.as_str(), len_siz) {
                Ok(bytes) => Ok(binary_string(bytes.as_slice(), len_siz)),
                Err(e) => Err(e),
            }
        },
        _ => Ok(String::new()),
    }
}

impl ServerConfig {
    /// The canonical binary string of the server's prefix.
    pub fn prefix_bin(&self) -> (res: Result<String, ServerError>)
        ensures
            match prefix_digits(self.prefix, self.prefix_length) {
                Some(digits) => res matches Ok(text) && text@ == digits,
                None => res matches Err(e) && e == ServerError::ConfigError,
            },
    {
        prefix_bin(&self.prefix, &self.prefix_length)
    }
}

} // verus!
