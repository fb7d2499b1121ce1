//! The settings of a node that the mempool reads.

use crate::status::{append_decimal, decimal};
use vstd::prelude::*;
use vstd::string::StringExecFns;

verus! {

/// The settings of the mempool.
#[derive(Debug)]
pub struct MempoolConfig {
    /// How many transactions the mempool holds at most.
    pub capacity: usize,
    /// For how many seconds a transaction stays in the mempool at most.
    pub system_transaction_timeout_secs: u64,
    /// The address on which the mempool service listens.
    pub address: String,
    /// The port on which the mempool service listens.
    pub mempool_service_port: u16,
}

/// The settings of the storage service.
#[derive(Debug)]
pub struct StorageConfig {
    /// The port on which the storage service listens.
    pub port: u16,
}

/// The settings of a node.
#[derive(Debug)]
pub struct NodeConfig {
    /// Those of the mempool.
    pub mempool: MempoolConfig,
    /// Those of the storage service.
    pub storage: StorageConfig,
}

impl MempoolConfig {
    /// Where the mempool service listens, as `address:port`.
    pub fn service_address(&self) -> (text: String)
        ensures
            text@ == self.address@ + ":"@ + decimal(self.mempool_service_port as nat),
    {
        let mut text = self.address.clone();
        text.append(":");
        append_decimal(&mut text, self.mempool_service_port as u128);
        text
    }
}

} // verus!
