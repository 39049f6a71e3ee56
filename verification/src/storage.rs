use crate::text::{chars_of, decimal, parse_number, parsed_number, push_decimal, string_of};
use vstd::prelude::*;

verus! {

/// JSON-RPC endpoint that serves chain data for the main network.
pub const MAINNET_RPC: &'static str = "https://api.chain.love/rpc/v0";

/// JSON-RPC endpoint that serves chain data for the calibration test network.
pub const TESTNET_RPC: &'static str = "https://filecoin-calibration.chainup.net/rpc/v1";

/// The Filecoin network an entity belongs to. Every stored record is
/// partitioned by network.
#[derive(Copy, Clone, Debug, PartialEq, Eq, Structural)]
pub enum Network {
    /// The main network.
    Mainnet,
    /// The calibration test network.
    Testnet,
}

impl Network {
    /// The byte that stands for the network inside stored keys.
    pub open spec fn code(self) -> u8 {
        match self {
            Network::Mainnet => 0,
            Network::Testnet => 1,
        }
    }

    /// Executable form of [`Network::code`].
    pub fn code_byte(&self) -> (b: u8)
        ensures
            b == self.code(),
    {
        match self {
            Network::Mainnet => 0,
            Network::Testnet => 1,
        }
    }

    /// The chain-data endpoint to query for this network.
    pub fn rpc(&self) -> (url: &'static str)
        ensures
            url@ == (match *self {
                Network::Mainnet => MAINNET_RPC@,
                Network::Testnet => TESTNET_RPC@,
            }),
    {
        match self {
            Network::Mainnet => MAINNET_RPC,
            Network::Testnet => TESTNET_RPC,
        }
    }
}

/// Why the oracle gave no answer.
#[derive(Debug, Clone, Copy, PartialEq, Eq, Structural)]
pub enum StorageFetchError {
    /// The request did not get through or the response could not be read.
    Reqwest,
    /// The result of the response is no JSON text.
    Serde,
    /// The response holds no result, or the result does not hold what was
    /// asked for.
    NoResult,
}

/// Declares `serde_json::Error`, the error of reading JSON text. Nothing is
/// claimed of its values.
#[verifier::external_type_specification]
#[verifier::external_body]
pub struct ExJsonError(serde_json::Error);

/// The name of a storage provider on a network: `f0` on the main network and
/// `t0` on the test network, then the provider's number.
pub open spec fn provider_name(ntw: Network, id: u32) -> Seq<char> {
    match ntw {
        Network::Mainnet => seq!['f', '0'] + decimal(id as nat),
        Network::Testnet => seq!['t', '0'] + decimal(id as nat),
    }
}

/// Writes the name of a storage provider on a network.
pub fn sp_id_format(ntw: Network, id: u32) -> (name: String)
    ensures
        name@ == provider_name(ntw, id),
{
    let mut name: Vec<char> = Vec::new();
    match ntw {
        Network::Mainnet => name.push('f'),
        Network::Testnet => name.push('t'),
    }
    name.push('0');
    push_decimal(&mut name, id as u128);
    assert(name@ =~= provider_name(ntw, id));
    string_of(&name)
}

/// The string found in a JSON text by going from member to member along
/// `path`, a missing member counting as `null`: `Some(None)` where what is
/// found is no string, `None` where the text is no JSON. This names what
/// `serde_json::from_str` returns for the text, read as a `Value` and
/// indexed by each name of the path in turn.
pub uninterp spec fn json_string_at(text: Seq<char>, path: Seq<Seq<char>>) -> Option<
    Option<Seq<char>>,
>;

/// The character sequences of a list of names.
pub open spec fn name_views(path: Seq<String>) -> Seq<Seq<char>> {
    Seq::new(path.len(), |i: int| path[i]@)
}

/// What was found, without the outside error and with the string by its
/// characters.
pub open spec fn found_view(found: Result<Option<String>, serde_json::Error>) -> Option<
    Option<Seq<char>>,
> {
    match found {
        Ok(Some(s)) => Some(Some(s@)),
        Ok(None) => Some(None),
        Err(_) => None,
    }
}

/// Calls `serde_json::from_str` for a `Value`, indexes it by each name of
/// the path in turn, and hands back the string found there, if it is one.
/// The contract names its result.
#[verifier::external_body]
fn json_string(text: &str, path: &Vec<String>) -> (found: Result<Option<String>, serde_json::Error>)
    ensures
        found_view(found) == json_string_at(text@, name_views(path@)),
{
    let value: serde_json::Value = serde_json::from_str(text)?;
    let mut at = &value;
    for name in path.iter() {
        at = &at[name.as_str()];
    }
    Ok(at.as_str().map(|s| s.to_string()))
}

/// The path to the worker of a storage provider in the answer to a request
/// for the provider's details.
pub open spec fn worker_path() -> Seq<Seq<char>> {
    seq![seq!['W', 'o', 'r', 'k', 'e', 'r']]
}

/// The path to the raw byte power of a storage provider in the answer to a
/// request for the provider's power.
pub open spec fn power_path() -> Seq<Seq<char>> {
    seq![
        seq!['M', 'i', 'n', 'e', 'r', 'P', 'o', 'w', 'e', 'r'],
        seq!['R', 'a', 'w', 'B', 'y', 't', 'e', 'P', 'o', 'w', 'e', 'r'],
    ]
}

fn text_of(chars: &[char]) -> (text: String)
    ensures
        text@ == chars@,
{
    let mut list: Vec<char> = Vec::new();
    let mut i: usize = 0;
    while i < chars.len()
        invariant
            i <= chars@.len(),
            list@ == chars@.subrange(0, i as int),
        decreases chars@.len() - i,
    {
        list.push(chars[i]);
        assert(list@ =~= chars@.subrange(0, i + 1));
        i += 1;
    }
    assert(chars@.subrange(0, chars@.len() as int) =~= chars@);
    string_of(&list)
}

/// The worker that the answer to a request for a provider's details names:
/// `None` where the response has no result or the result names no worker.
pub open spec fn worker_named(result: Option<Seq<char>>) -> Result<
    Option<Seq<char>>,
    StorageFetchError,
> {
    match result {
        None => Ok(None),
        Some(text) => match json_string_at(text, worker_path()) {
            None => Err(StorageFetchError::Serde),
            Some(found) => Ok(found),
        },
    }
}

/// Reads the worker of a storage provider from the result of the response
/// to a request for the provider's details.
pub fn miner_worker(result: &Option<String>) -> (worker: Result<Option<String>, StorageFetchError>)
    ensures
        match worker_named(
            match *result {
                Some(text) => Some(text@),
                None => None,
            },
        ) {
            Err(e) => worker == Err::<Option<String>, StorageFetchError>(e),
            Ok(None) => worker == Ok::<Option<String>, StorageFetchError>(None),
            Ok(Some(name)) => worker matches Ok(Some(w)) && w@ == name,
        },
{
    match result {
        None => Ok(None),
        Some(text) => {
            let mut path: Vec<String> = Vec::new();
            path.push(text_of(&['W', 'o', 'r', 'k', 'e', 'r']));
            assert(name_views(path@) =~= worker_path());
            match json_string(text.as_str(), &path) {
                Err(_) => Err(StorageFetchError::Serde),
                Ok(found) => Ok(found),
            }
        },
    }
}

/// Whether the answer to a request for the key of an account shows that the
/// claimed worker address controls it. Anything but a result that is the
/// very address counts as no.
pub open spec fn key_confirmed(result: Option<Seq<char>>, worker_address: Seq<char>) -> Result<
    bool,
    StorageFetchError,
> {
    match result {
        None => Ok(false),
        Some(text) => match json_string_at(text, Seq::empty()) {
            None => Err(StorageFetchError::Serde),
            Some(None) => Ok(false),
            Some(Some(key)) => Ok(key == worker_address),
        },
    }
}

/// Decides, from the result of the response to a request for the key of a
/// provider's worker, whether the claimed worker address controls the
/// provider.
pub fn account_key_matches(result: &Option<String>, worker_address: &String) -> (confirmed: Result<
    bool,
    StorageFetchError,
>)
    ensures
        confirmed == key_confirmed(
            match *result {
                Some(text) => Some(text@),
                None => None,
            },
            worker_address@,
        ),
{
    match result {
        None => Ok(false),
        Some(text) => {
            let path: Vec<String> = Vec::new();
            assert(name_views(path@) =~= Seq::<Seq<char>>::empty());
            match json_string(text.as_str(), &path) {
                Err(_) => Err(StorageFetchError::Serde),
                Ok(None) => Ok(false),
                Ok(Some(key)) => Ok(key == *worker_address),
            }
        },
    }
}

/// The raw byte power that the answer to a request for a provider's power
/// reports: a decimal number of at most 128 bits, written as a JSON string.
pub open spec fn power_reported(result: Option<Seq<char>>) -> Result<u128, StorageFetchError> {
    match result {
        None => Err(StorageFetchError::NoResult),
        Some(text) => match json_string_at(text, power_path()) {
            None => Err(StorageFetchError::Serde),
            Some(None) => Err(StorageFetchError::NoResult),
            Some(Some(number)) => match parsed_number(number, u128::MAX as nat) {
                Some(n) => Ok(n as u128),
                None => Err(StorageFetchError::NoResult),
            },
        },
    }
}

/// Reads the raw byte power of a storage provider from the result of the
/// response to a request for the provider's power.
pub fn raw_byte_power(result: &Option<String>) -> (power: Result<u128, StorageFetchError>)
    ensures
        power == power_reported(
            match *result {
                Some(text) => Some(text@),
                None => None,
            },
        ),
{
    match result {
        None => Err(StorageFetchError::NoResult),
        Some(text) => {
            let mut path: Vec<String> = Vec::new();
            path.push(text_of(&['M', 'i', 'n', 'e', 'r', 'P', 'o', 'w', 'e', 'r']));
            path.push(text_of(&['R', 'a', 'w', 'B', 'y', 't', 'e', 'P', 'o', 'w', 'e', 'r']));
            assert(name_views(path@) =~= power_path());
            match json_string(text.as_str(), &path) {
                Err(_) => Err(StorageFetchError::Serde),
                Ok(None) => Err(StorageFetchError::NoResult),
                Ok(Some(number)) => {
                    let digits = chars_of(number.as_str());
                    assert(digits@.subrange(0, digits@.len() as int) =~= digits@);
                    match parse_number(&digits, 0, digits.len(), u128::MAX) {
                        Some(n) => Ok(n),
                        None => Err(StorageFetchError::NoResult),
                    }
                },
            }
        },
    }
}

} // verus!
