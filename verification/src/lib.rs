pub mod address;
pub mod codec;
pub mod errors;
pub mod get;
pub mod keys;
pub mod laws;
pub mod messages;
pub mod model;
pub mod post;
pub mod redis;
pub mod reply;
pub mod seqs;
pub mod storage;
pub mod store;
pub mod text;

pub use crate::redis::authorized_voters;

use crate::address::{parsed_address, Address};
use crate::reply::{network_named, read_network};
use crate::storage::Network;
use vstd::prelude::*;

verus! {

/// How many seconds a vote lasts where nothing else is configured.
pub const VOTE_LENGTH: u64 = 60;

/// Where the store is looked for where nothing else is configured.
pub const REDIS_DEFAULT_PATH: &'static str = "redis://127.0.0.1:6379";

/// Where requests are served where nothing else is configured.
pub const DEFAULT_SERVE_ADDRESS: &'static str = "http://127.0.0.1:51634";

/// The query of a request about one proposal on one network.
#[derive(Debug)]
pub struct NtwFipParams {
    /// The name of the network: `mainnet` or `calibration`.
    pub network: String,
    /// The number of the proposal.
    pub fip_number: u32,
}

/// The query of a request about one address on one network.
#[derive(Debug)]
pub struct NtwAddrParams {
    /// The name of the network: `mainnet` or `calibration`.
    pub network: String,
    /// The address, in hexadecimal digits.
    pub address: String,
}

/// The query of a request about one proposal.
#[derive(Debug)]
pub struct FipParams {
    /// The number of the proposal.
    pub fip_number: u32,
}

/// The query of a request about one network.
#[derive(Debug)]
pub struct NtwParams {
    /// The name of the network: `mainnet` or `calibration`.
    pub network: String,
}

impl NtwFipParams {
    /// The network that the query names.
    pub fn network(&self) -> (ntw: Option<Network>)
        ensures
            ntw == network_named(self.network@),
    {
        read_network(self.network.as_str())
    }
}

impl NtwAddrParams {
    /// The network that the query names.
    pub fn network(&self) -> (ntw: Option<Network>)
        ensures
            ntw == network_named(self.network@),
    {
        read_network(self.network.as_str())
    }

    /// The address that the query names.
    pub fn address(&self) -> (a: Option<Address>)
        ensures
            a is Some <==> parsed_address(self.address@) is Some,
            a matches Some(x) ==> x@ == parsed_address(self.address@).unwrap(),
    {
        Address::parse(self.address.as_str())
    }
}

impl NtwParams {
    /// The network that the query names.
    pub fn network(&self) -> (ntw: Option<Network>)
        ensures
            ntw == network_named(self.network@),
    {
        read_network(self.network.as_str())
    }
}

} // verus!
