use crate::address::{parsed_address, Address};
use crate::codec::put_slice;
use crate::storage::{Network, StorageFetchError};
use crate::text::{chars_of, parse_u32, parsed_u32, split_words, string_of, word_views, words};
use bls_signatures::Serialize;
use vstd::prelude::*;
use vstd::utf8::encode_utf8;

verus! {

/// Declares `bls_signatures::Error`, the error of reading a key or a
/// signature from bytes. Nothing is claimed of its values.
#[verifier::external_type_specification]
#[verifier::external_body]
pub struct ExBlsError(bls_signatures::Error);

/// Declares `hex::FromHexError`, the error of reading hexadecimal digits.
/// Nothing is claimed of its values.
#[verifier::external_type_specification]
#[verifier::external_body]
pub struct ExFromHexError(hex::FromHexError);

/// Why a registration of a voter was not accepted.
#[derive(Debug, Clone, Copy, PartialEq, Eq, Structural)]
pub enum VoteRegistrationError {
    /// The signature is not the worker's signature over the message.
    SignatureMismatch,
    /// The message names no address.
    InvalidMessageFormat,
    /// The worker does not control one of the storage providers named.
    NotStorageProvider,
    /// The oracle could not say whether the worker controls a provider.
    StorageFetchError(StorageFetchError),
    /// The worker address does not have the form of a BLS address.
    InvalidWorkerAddress,
    /// The worker's key or the signature is no valid BLS encoding.
    InvalidBlsEncoding,
    /// The message or the signature is not written in hexadecimal digits.
    InvalidHexEncoding,
    /// The first word of the message is no address.
    InvalidAddress,
    /// A storage provider is not named by a letter and its number.
    InvalidStorageProviderId,
}

impl VoteRegistrationError {
    /// The sentence that describes the error.
    pub open spec fn spec_message(self) -> Seq<char> {
        match self {
            VoteRegistrationError::SignatureMismatch => "Signature does not match message"@,
            VoteRegistrationError::InvalidMessageFormat => "Invalid message format"@,
            VoteRegistrationError::NotStorageProvider => "Not a storage provider"@,
            VoteRegistrationError::StorageFetchError(_) => "Error fetching storage provider"@,
            VoteRegistrationError::InvalidWorkerAddress => "Invalid worker address"@,
            VoteRegistrationError::InvalidBlsEncoding => "Invalid BLS encoding"@,
            VoteRegistrationError::InvalidHexEncoding => "Invalid hex encoding"@,
            VoteRegistrationError::InvalidAddress => "Invalid address"@,
            VoteRegistrationError::InvalidStorageProviderId => "Invalid storage provider id"@,
        }
    }

    /// A sentence that describes the error.
    pub fn message(&self) -> (text: &'static str)
        ensures
            text@ == self.spec_message(),
    {
        match self {
            VoteRegistrationError::SignatureMismatch => "Signature does not match message",
            VoteRegistrationError::InvalidMessageFormat => "Invalid message format",
            VoteRegistrationError::NotStorageProvider => "Not a storage provider",
            VoteRegistrationError::StorageFetchError(_) => "Error fetching storage provider",
            VoteRegistrationError::InvalidWorkerAddress => "Invalid worker address",
            VoteRegistrationError::InvalidBlsEncoding => "Invalid BLS encoding",
            VoteRegistrationError::InvalidHexEncoding => "Invalid hex encoding",
            VoteRegistrationError::InvalidAddress => "Invalid address",
            VoteRegistrationError::InvalidStorageProviderId => "Invalid storage provider id",
        }
    }
}

/// The value of a hexadecimal digit, given by its character code.
pub open spec fn hex_digit(c: u8) -> Option<u8> {
    if 48 <= c <= 57 {
        Some((c - 48) as u8)
    } else if 97 <= c <= 102 {
        Some((c - 87) as u8)
    } else if 65 <= c <= 70 {
        Some((c - 55) as u8)
    } else {
        None
    }
}

/// The bytes that a text of hexadecimal digits denotes, two digits to a
/// byte; `None` where the number of characters is odd or one of them is no
/// hexadecimal digit.
pub open spec fn hex_decoded(text: Seq<u8>) -> Option<Seq<u8>> {
    if text.len() % 2 == 0 && forall|i: int| 0 <= i < text.len() ==> hex_digit(#[trigger] text[i])
        is Some {
        Some(
            Seq::new(
                text.len() / 2,
                |i: int|
                    (hex_digit(text[2 * i]).unwrap() * 16 + hex_digit(text[2 * i + 1]).unwrap())
                        as u8,
            ),
        )
    } else {
        None
    }
}

/// Calls `hex::decode`. The contract states what it returns: the bytes that
/// the digits denote, or an error where [`hex_decoded`] has none.
#[verifier::external_body]
fn hex_decode(text: &Vec<u8>) -> (bytes: Result<Vec<u8>, hex::FromHexError>)
    ensures
        bytes is Ok <==> hex_decoded(text@) is Some,
        bytes matches Ok(b) ==> b@ == hex_decoded(text@).unwrap(),
{
    hex::decode(text)
}

/// The bytes that a text denotes in base 32, with the alphabet of RFC 4648
/// and no padding; `None` where it denotes none. This names what
/// `base32::decode` returns for the text.
pub uninterp spec fn base32_decoded(text: Seq<char>) -> Option<Seq<u8>>;

/// Calls `base32::decode` with the alphabet of RFC 4648, without padding.
/// The contract names its result.
#[verifier::external_body]
fn base32_decode(text: &str) -> (bytes: Option<Vec<u8>>)
    ensures
        bytes is Some <==> base32_decoded(text@) is Some,
        bytes matches Some(b) ==> b@ == base32_decoded(text@).unwrap(),
{
    base32::decode(base32::Alphabet::RFC4648 { padding: false }, text)
}

/// Whether the bytes are the compressed form of a BLS public key. This
/// names whether `bls_signatures::PublicKey::from_bytes` accepts the bytes.
pub uninterp spec fn bls_public_key(bytes: Seq<u8>) -> bool;

/// Whether the bytes are the compressed form of a BLS signature. This names
/// whether `bls_signatures::Signature::from_bytes` accepts the bytes.
pub uninterp spec fn bls_signature(bytes: Seq<u8>) -> bool;

/// Whether the signature is the key's signature over the message. This
/// names what `bls_signatures::PublicKey::verify` returns for the key, the
/// signature and the message that the bytes stand for.
pub uninterp spec fn bls_verified(key: Seq<u8>, signature: Seq<u8>, message: Seq<u8>) -> bool;

/// Calls `bls_signatures::PublicKey::from_bytes` and drops the key. The
/// contract names whether the bytes are accepted, and says that only 48
/// bytes are.
#[verifier::external_body]
fn check_public_key(bytes: &Vec<u8>) -> (checked: Result<(), bls_signatures::Error>)
    ensures
        checked is Ok <==> bls_public_key(bytes@),
        checked is Ok ==> bytes@.len() == 48,
{
    match bls_signatures::PublicKey::from_bytes(bytes) {
        Ok(_) => Ok(()),
        Err(e) => Err(e),
    }
}

/// Calls `bls_signatures::Signature::from_bytes` and drops the signature.
/// The contract names whether the bytes are accepted, and says that only 96
/// bytes are.
#[verifier::external_body]
fn check_signature(bytes: &Vec<u8>) -> (checked: Result<(), bls_signatures::Error>)
    ensures
        checked is Ok <==> bls_signature(bytes@),
        checked is Ok ==> bytes@.len() == 96,
{
    match bls_signatures::Signature::from_bytes(bytes) {
        Ok(_) => Ok(()),
        Err(e) => Err(e),
    }
}

/// Calls `bls_signatures::PublicKey::verify` for the key and the signature
/// that the bytes stand for. The contract names its result.
#[verifier::external_body]
fn verify_signature(key: &Vec<u8>, signature: &Vec<u8>, message: &Vec<u8>) -> (valid: bool)
    requires
        bls_public_key(key@),
        bls_signature(signature@),
    ensures
        valid == bls_verified(key@, signature@, message@),
{
    let key = bls_signatures::PublicKey::from_bytes(key).unwrap();
    let signature = bls_signatures::Signature::from_bytes(signature).unwrap();
    key.verify(signature, message)
}

/// The public key of a worker: 48 bytes that are the compressed form of a
/// BLS public key.
#[derive(Debug)]
pub struct PublicKey {
    bytes: Vec<u8>,
}

impl View for PublicKey {
    type V = Seq<u8>;

    closed spec fn view(&self) -> Seq<u8> {
        self.bytes@
    }
}

impl PublicKey {
    /// The bytes of a key are accepted as a key.
    #[verifier::type_invariant]
    spec fn accepted(&self) -> bool {
        bls_public_key(self.bytes@)
    }

    /// The key that the bytes are the compressed form of.
    pub fn from_bytes(bytes: Vec<u8>) -> (key: Result<PublicKey, VoteRegistrationError>)
        ensures
            key is Ok <==> bls_public_key(bytes@),
            key matches Ok(k) ==> k@ == bytes@,
            key matches Err(e) ==> e == VoteRegistrationError::InvalidBlsEncoding,
    {
        match check_public_key(&bytes) {
            Ok(_) => Ok(PublicKey { bytes }),
            Err(_) => Err(VoteRegistrationError::InvalidBlsEncoding),
        }
    }

    /// The compressed form of the key.
    pub fn as_bytes(&self) -> (bytes: &Vec<u8>)
        ensures
            bytes@ == self@,
            bls_public_key(bytes@),
    {
        proof {
            use_type_invariant(self);
        }
        &self.bytes
    }

    /// Whether the signature is this key's signature over the message.
    pub fn verify(&self, signature: &Signature, message: &Vec<u8>) -> (valid: bool)
        ensures
            valid == bls_verified(self@, signature@, message@),
    {
        proof {
            use_type_invariant(self);
            use_type_invariant(signature);
        }
        verify_signature(&self.bytes, signature.as_bytes(), message)
    }
}

/// The signature of a worker: 96 bytes that are the compressed form of a BLS
/// signature.
#[derive(Debug)]
pub struct Signature {
    bytes: Vec<u8>,
}

impl View for Signature {
    type V = Seq<u8>;

    closed spec fn view(&self) -> Seq<u8> {
        self.bytes@
    }
}

impl Signature {
    /// The bytes of a signature are accepted as a signature.
    #[verifier::type_invariant]
    spec fn accepted(&self) -> bool {
        bls_signature(self.bytes@)
    }

    /// The signature that the bytes are the compressed form of.
    pub fn from_bytes(bytes: Vec<u8>) -> (signature: Result<Signature, VoteRegistrationError>)
        ensures
            signature is Ok <==> bls_signature(bytes@),
            signature matches Ok(s) ==> s@ == bytes@,
            signature matches Err(e) ==> e == VoteRegistrationError::InvalidBlsEncoding,
    {
        match check_signature(&bytes) {
            Ok(_) => Ok(Signature { bytes }),
            Err(_) => Err(VoteRegistrationError::InvalidBlsEncoding),
        }
    }

    /// The compressed form of the signature.
    pub fn as_bytes(&self) -> (bytes: &Vec<u8>)
        ensures
            bytes@ == self@,
            bls_signature(bytes@),
    {
        proof {
            use_type_invariant(self);
        }
        &self.bytes
    }
}

/// Whether a character is a letter or one of the digits 2 to 7: the
/// characters of base 32, in either case.
pub open spec fn base32_char(c: char) -> bool {
    let n = c as u32;
    (65 <= n <= 90) || (97 <= n <= 122) || (50 <= n <= 55)
}

/// The network that a worker address belongs to: the address has 86
/// characters, `t` for the test network or `f` for the main network (in
/// either case), then `3`, then 84 characters of base 32. `None` for any
/// other text.
pub open spec fn worker_network(address: Seq<char>) -> Option<Network> {
    if address.len() == 86 && address[1] == '3' && forall|i: int|
        2 <= i < 86 ==> base32_char(#[trigger] address[i]) {
        if address[0] == 't' || address[0] == 'T' {
            Some(Network::Testnet)
        } else if address[0] == 'f' || address[0] == 'F' {
            Some(Network::Mainnet)
        } else {
            None
        }
    } else {
        None
    }
}

/// The part of a worker address that holds the key: what lies between the
/// first two characters and the last six.
pub open spec fn worker_key_text(address: Seq<char>) -> Seq<char> {
    address.subrange(2, 80)
}

/// The key and the network that a worker address stands for.
pub open spec fn worker_key(address: Seq<char>) -> Result<
    (Seq<u8>, Network),
    VoteRegistrationError,
> {
    match worker_network(address) {
        None => Err(VoteRegistrationError::InvalidWorkerAddress),
        Some(ntw) => match base32_decoded(worker_key_text(address)) {
            None => Err(VoteRegistrationError::InvalidWorkerAddress),
            Some(bytes) => if bls_public_key(bytes) {
                Ok((bytes, ntw))
            } else {
                Err(VoteRegistrationError::InvalidBlsEncoding)
            },
        },
    }
}

/// The bytes of the signature that a text stands for: the text without its
/// first two bytes, read as hexadecimal digits, must be a BLS signature.
pub open spec fn worker_signature(text: Seq<u8>) -> Result<Seq<u8>, VoteRegistrationError> {
    if text.len() < 2 {
        Err(VoteRegistrationError::InvalidHexEncoding)
    } else {
        match hex_decoded(text.subrange(2, text.len() as int)) {
            None => Err(VoteRegistrationError::InvalidHexEncoding),
            Some(bytes) => if bls_signature(bytes) {
                Ok(bytes)
            } else {
                Err(VoteRegistrationError::InvalidBlsEncoding)
            },
        }
    }
}

/// A capital letter as its small letter; any other byte as it is.
pub open spec fn lowered(b: u8) -> u8 {
    if 65 <= b <= 90 {
        (b + 32) as u8
    } else {
        b
    }
}

/// The text of a signed registration: each byte of the message as the
/// character with its number, capital letters made small.
pub open spec fn registration_text(message: Seq<u8>) -> Seq<char> {
    Seq::new(message.len(), |i: int| lowered(message[i]) as char)
}

/// The number of the storage provider that a word names: the word without
/// its first character, which must be a plain one, read as a number.
pub open spec fn provider_id(word: Seq<char>) -> Option<u32> {
    if word.len() >= 1 && (word[0] as u32) < 128 {
        parsed_u32(word.subrange(1, word.len() as int))
    } else {
        None
    }
}

/// What a received registration claims.
pub struct ClaimView {
    /// The address that is to vote.
    pub voter: Seq<u8>,
    /// The network of the worker.
    pub network: Network,
    /// The names of the storage providers that the worker claims to control.
    pub providers: Seq<Seq<char>>,
}

/// What a received registration claims, as far as it can be told without
/// the oracle. The worker address is checked first, then the message, then
/// the signature and whether it is the worker's over the message, and last
/// the address that the message names.
pub open spec fn claimed(
    signature: Seq<u8>,
    worker_address: Seq<char>,
    message: Seq<u8>,
) -> Result<ClaimView, VoteRegistrationError> {
    match worker_key(worker_address) {
        Err(e) => Err(e),
        Ok((key, network)) => match hex_decoded(message) {
            None => Err(VoteRegistrationError::InvalidHexEncoding),
            Some(signed) => match worker_signature(signature) {
                Err(e) => Err(e),
                Ok(sig) => if !bls_verified(key, sig, signed) {
                    Err(VoteRegistrationError::SignatureMismatch)
                } else {
                    let list = words(registration_text(signed));
                    if list.len() == 0 {
                        Err(VoteRegistrationError::InvalidMessageFormat)
                    } else {
                        match parsed_address(list[0]) {
                            None => Err(VoteRegistrationError::InvalidAddress),
                            Some(voter) => Ok(
                                ClaimView {
                                    voter,
                                    network,
                                    providers: list.subrange(1, list.len() as int),
                                },
                            ),
                        }
                    }
                },
            },
        },
    }
}

/// The numbers of the first `count` providers, where the oracle confirmed
/// each of them and each is named by a letter and a number; else the error
/// met first, going through the providers in order: for each, an oracle
/// that failed, then a provider not confirmed, then a malformed name. A
/// provider without an answer counts as not confirmed.
pub open spec fn confirmed_ids(
    providers: Seq<Seq<char>>,
    checks: Seq<Result<bool, StorageFetchError>>,
    count: nat,
) -> Result<Seq<u32>, VoteRegistrationError>
    decreases count,
{
    if count == 0 || count > providers.len() {
        Ok(Seq::empty())
    } else {
        match confirmed_ids(providers, checks, (count - 1) as nat) {
            Err(e) => Err(e),
            Ok(ids) => if count > checks.len() {
                Err(VoteRegistrationError::NotStorageProvider)
            } else {
                match checks[count - 1] {
                    Err(e) => Err(VoteRegistrationError::StorageFetchError(e)),
                    Ok(false) => Err(VoteRegistrationError::NotStorageProvider),
                    Ok(true) => match provider_id(providers[count - 1]) {
                        None => Err(VoteRegistrationError::InvalidStorageProviderId),
                        Some(id) => Ok(ids.push(id)),
                    },
                }
            },
        }
    }
}

/// What a registration says.
pub struct RegistrationView {
    /// The address that may vote.
    pub voter: Seq<u8>,
    /// The network that the registration is for.
    pub network: Network,
    /// The storage providers that the address votes for.
    pub sp_ids: Seq<u32>,
}

/// A registration as it was received: the worker's signature, the worker's
/// address, and the signed message in hexadecimal digits. The message names
/// the address that is to vote and then the storage providers, separated by
/// spaces, as in `0xabcdef0123456789 f0xxxx f0xxxx`.
#[derive(Debug)]
pub struct ReceivedVoterRegistration {
    /// The worker's signature over the message: two characters that are
    /// passed over, then hexadecimal digits.
    pub signature: String,
    /// The address of the worker, which holds the worker's public key.
    pub worker_address: String,
    /// The message that was signed, in hexadecimal digits.
    pub message: String,
}

/// What a received registration asks to have confirmed by the oracle: that
/// the worker controls each of the providers.
#[derive(Debug)]
pub struct RegistrationClaim {
    voter: Address,
    network: Network,
    providers: Vec<String>,
}

impl View for RegistrationClaim {
    type V = ClaimView;

    closed spec fn view(&self) -> ClaimView {
        ClaimView {
            voter: self.voter@,
            network: self.network,
            providers: Seq::new(self.providers@.len(), |i: int| self.providers@[i]@),
        }
    }
}

impl RegistrationClaim {
    /// The address that is to vote.
    pub fn voter(&self) -> (a: Address)
        ensures
            a@ == self@.voter,
    {
        self.voter
    }

    /// The network of the worker.
    pub fn network(&self) -> (ntw: Network)
        ensures
            ntw == self@.network,
    {
        self.network
    }

    /// How many providers the worker claims to control.
    pub fn provider_count(&self) -> (count: usize)
        ensures
            count == self@.providers.len(),
    {
        self.providers.len()
    }

    /// The name of the provider at `index`.
    pub fn provider(&self, index: usize) -> (name: &String)
        requires
            index < self@.providers.len(),
        ensures
            name@ == self@.providers[index as int],
    {
        &self.providers[index]
    }
}

/// An address that may vote on a network on behalf of the storage providers
/// that it was registered for.
#[derive(Debug)]
pub struct VoterRegistration {
    authorized_voter: Address,
    network: Network,
    sp_ids: Vec<u32>,
}

impl View for VoterRegistration {
    type V = RegistrationView;

    closed spec fn view(&self) -> RegistrationView {
        RegistrationView {
            voter: self.authorized_voter@,
            network: self.network,
            sp_ids: self.sp_ids@,
        }
    }
}

impl VoterRegistration {
    /// The address that may vote.
    pub fn address(&self) -> (a: Address)
        ensures
            a@ == self@.voter,
    {
        self.authorized_voter
    }

    /// The network that the registration is for.
    pub fn ntw(&self) -> (ntw: Network)
        ensures
            ntw == self@.network,
    {
        self.network
    }

    /// The storage providers that the address votes for.
    pub fn sp_ids(&self) -> (ids: Vec<u32>)
        ensures
            ids@ == self@.sp_ids,
    {
        let mut ids: Vec<u32> = Vec::new();
        let mut i: usize = 0;
        while i < self.sp_ids.len()
            invariant
                i <= self.sp_ids@.len(),
                ids@ == self.sp_ids@.subrange(0, i as int),
            decreases self.sp_ids@.len() - i,
        {
            ids.push(self.sp_ids[i]);
            assert(ids@ =~= self.sp_ids@.subrange(0, i + 1));
            i += 1;
        }
        assert(self.sp_ids@.subrange(0, self.sp_ids@.len() as int) =~= self.sp_ids@);
        ids
    }
}

/// Whether a character is a letter or one of the digits 2 to 7.
pub fn is_base32_char(c: char) -> (yes: bool)
    ensures
        yes == base32_char(c),
{
    let n: u32 = c as u32;
    (65 <= n && n <= 90) || (97 <= n && n <= 122) || (50 <= n && n <= 55)
}

/// Reads the number of the storage provider that a word names.
pub fn read_provider_id(word: &Vec<char>) -> (id: Option<u32>)
    ensures
        id == provider_id(word@),
{
    if word.len() >= 1 && (word[0] as u32) < 128 {
        parse_u32(word, 1, word.len())
    } else {
        None
    }
}

impl ReceivedVoterRegistration {
    /// A received registration with the given signature, worker address and
    /// message.
    pub fn new(signature: String, worker_address: String, message: String) -> (received:
        ReceivedVoterRegistration)
        ensures
            received.signature == signature,
            received.worker_address == worker_address,
            received.message == message,
    {
        ReceivedVoterRegistration { signature, worker_address, message }
    }

    /// The public key and the network that the worker address stands for.
    pub fn pub_key(&self) -> (key: Result<(PublicKey, Network), VoteRegistrationError>)
        ensures
            match worker_key(self.worker_address@) {
                Err(e) => key == Err::<(PublicKey, Network), VoteRegistrationError>(e),
                Ok((bytes, ntw)) => key matches Ok((k, n)) && k@ == bytes && n == ntw,
            },
    {
        let address = chars_of(self.worker_address.as_str());
        if address.len() != 86 || address[1] != '3' {
            return Err(VoteRegistrationError::InvalidWorkerAddress);
        }
        let mut i: usize = 2;
        while i < 86
            invariant
                2 <= i <= 86,
                address@.len() == 86,
                address@ == self.worker_address@,
                forall|j: int| 2 <= j < i ==> base32_char(#[trigger] address@[j]),
            decreases 86 - i,
        {
            if !is_base32_char(address[i]) {
                assert(!base32_char(address@[i as int]));
                return Err(VoteRegistrationError::InvalidWorkerAddress);
            }
            i += 1;
        }
        let ntw = if address[0] == 't' || address[0] == 'T' {
            Network::Testnet
        } else if address[0] == 'f' || address[0] == 'F' {
            Network::Mainnet
        } else {
            return Err(VoteRegistrationError::InvalidWorkerAddress);
        };
        let mut inner: Vec<char> = Vec::new();
        let mut k: usize = 2;
        while k < 80
            invariant
                2 <= k <= 80,
                address@.len() == 86,
                inner@ == address@.subrange(2, k as int),
            decreases 80 - k,
        {
            inner.push(address[k]);
            assert(inner@ =~= address@.subrange(2, k + 1));
            k += 1;
        }
        let bytes = match base32_decode(string_of(&inner).as_str()) {
            Some(bytes) => bytes,
            None => {
                return Err(VoteRegistrationError::InvalidWorkerAddress);
            },
        };
        match PublicKey::from_bytes(bytes) {
            Ok(key) => Ok((key, ntw)),
            Err(e) => Err(e),
        }
    }

    /// The signature of the worker.
    pub fn sig(&self) -> (signature: Result<Signature, VoteRegistrationError>)
        ensures
            match worker_signature(encode_utf8(self.signature@)) {
                Err(e) => signature == Err::<Signature, VoteRegistrationError>(e),
                Ok(bytes) => signature matches Ok(s) && s@ == bytes,
            },
    {
        let text = self.signature.as_str().as_bytes_vec();
        if text.len() < 2 {
            return Err(VoteRegistrationError::InvalidHexEncoding);
        }
        let mut digits: Vec<u8> = Vec::new();
        put_slice(&mut digits, &text, 2, text.len());
        assert(digits@ =~= text@.subrange(2, text@.len() as int));
        let bytes = match hex_decode(&digits) {
            Ok(bytes) => bytes,
            Err(_) => {
                return Err(VoteRegistrationError::InvalidHexEncoding);
            },
        };
        Signature::from_bytes(bytes)
    }

    /// What the registration claims: the address that is to vote, the
    /// network, and the storage providers that the oracle must confirm the
    /// worker to control.
    pub fn claim(&self) -> (claim: Result<RegistrationClaim, VoteRegistrationError>)
        ensures
            match claimed(
                encode_utf8(self.signature@),
                self.worker_address@,
                encode_utf8(self.message@),
            ) {
                Err(e) => claim == Err::<RegistrationClaim, VoteRegistrationError>(e),
                Ok(view) => claim matches Ok(c) && c@ == view,
            },
    {
        let (key, network) = match self.pub_key() {
            Ok(pair) => pair,
            Err(e) => {
                return Err(e);
            },
        };
        let signed = match hex_decode(&self.message.as_str().as_bytes_vec()) {
            Ok(signed) => signed,
            Err(_) => {
                return Err(VoteRegistrationError::InvalidHexEncoding);
            },
        };
        let signature = match self.sig() {
            Ok(signature) => signature,
            Err(e) => {
                return Err(e);
            },
        };
        if !key.verify(&signature, &signed) {
            return Err(VoteRegistrationError::SignatureMismatch);
        }
        let text = lowered_text(&signed);
        let list = split_words(&text);
        assert(word_views(list@).len() == list@.len());
        if list.len() == 0 {
            return Err(VoteRegistrationError::InvalidMessageFormat);
        }
        assert(word_views(list@)[0] == list@[0]@);
        let voter = match Address::parse(string_of(&list[0]).as_str()) {
            Some(voter) => voter,
            None => {
                return Err(VoteRegistrationError::InvalidAddress);
            },
        };
        let providers = names_after_first(&list);
        let claim = RegistrationClaim { voter, network, providers };
        assert(claim@.providers =~= word_views(list@).subrange(1, list@.len() as int));
        Ok(claim)
    }

    /// The registration that was received, with the answers of the oracle:
    /// `checks` holds, for each storage provider of the claim and in their
    /// order, whether the worker controls it, or why the oracle could not
    /// say. A provider without an answer counts as not controlled.
    pub fn recover_vote_registration(
        &self,
        checks: &Vec<Result<bool, StorageFetchError>>,
    ) -> (registration: Result<VoterRegistration, VoteRegistrationError>)
        ensures
            match claimed(
                encode_utf8(self.signature@),
                self.worker_address@,
                encode_utf8(self.message@),
            ) {
                Err(e) => registration == Err::<VoterRegistration, VoteRegistrationError>(e),
                Ok(claim) => match confirmed_ids(claim.providers, checks@, claim.providers.len()) {
                    Err(e) => registration == Err::<VoterRegistration, VoteRegistrationError>(e),
                    Ok(ids) => registration matches Ok(r) && r@ == (RegistrationView {
                        voter: claim.voter,
                        network: claim.network,
                        sp_ids: ids,
                    }),
                },
            },
    {
        let claim = match self.claim() {
            Ok(claim) => claim,
            Err(e) => {
                return Err(e);
            },
        };
        let sp_ids = match confirm(&claim, checks) {
            Ok(sp_ids) => sp_ids,
            Err(e) => {
                return Err(e);
            },
        };
        Ok(VoterRegistration { authorized_voter: claim.voter(), network: claim.network(), sp_ids })
    }
}

/// The text of a signed registration.
fn lowered_text(signed: &Vec<u8>) -> (text: Vec<char>)
    ensures
        text@ == registration_text(signed@),
{
    let mut text: Vec<char> = Vec::new();
    let mut i: usize = 0;
    while i < signed.len()
        invariant
            i <= signed@.len(),
            text@ == registration_text(signed@).subrange(0, i as int),
        decreases signed@.len() - i,
    {
        let b: u8 = signed[i];
        let small: u8 = if 65 <= b && b <= 90 {
            b + 32
        } else {
            b
        };
        text.push(small as char);
        assert(text@ =~= registration_text(signed@).subrange(0, i + 1));
        i += 1;
    }
    assert(registration_text(signed@).subrange(0, signed@.len() as int) =~= registration_text(
        signed@,
    ));
    text
}

/// The words after the first, as strings.
fn names_after_first(list: &Vec<Vec<char>>) -> (names: Vec<String>)
    requires
        list@.len() >= 1,
    ensures
        names@.len() == list@.len() - 1,
        forall|j: int| 0 <= j < names@.len() ==> (#[trigger] names@[j])@ == list@[j + 1]@,
{
    let mut names: Vec<String> = Vec::new();
    let mut k: usize = 1;
    while k < list.len()
        invariant
            1 <= k <= list@.len(),
            names@.len() == k - 1,
            forall|j: int| 0 <= j < k - 1 ==> (#[trigger] names@[j])@ == list@[j + 1]@,
        decreases list@.len() - k,
    {
        names.push(string_of(&list[k]));
        k += 1;
    }
    names
}

/// Goes through the providers of a claim with the answers of the oracle.
fn confirm(claim: &RegistrationClaim, checks: &Vec<Result<bool, StorageFetchError>>) -> (ids:
    Result<Vec<u32>, VoteRegistrationError>)
    ensures
        match confirmed_ids(claim@.providers, checks@, claim@.providers.len()) {
            Err(e) => ids == Err::<Vec<u32>, VoteRegistrationError>(e),
            Ok(list) => ids matches Ok(v) && v@ == list,
        },
{
    let mut sp_ids: Vec<u32> = Vec::new();
    let mut i: usize = 0;
    while i < claim.provider_count()
        invariant
            i <= claim@.providers.len(),
            confirmed_ids(claim@.providers, checks@, i as nat) == Ok::<
                Seq<u32>,
                VoteRegistrationError,
            >(sp_ids@),
        decreases claim@.providers.len() - i,
    {
        let ghost next = confirmed_ids(claim@.providers, checks@, (i + 1) as nat);
        if i >= checks.len() {
            proof {
                assert(next == Err::<Seq<u32>, VoteRegistrationError>(
                    VoteRegistrationError::NotStorageProvider,
                ));
                lemma_confirmed_ids_fails(
                    claim@.providers,
                    checks@,
                    (i + 1) as nat,
                    claim@.providers.len(),
                );
            }
            return Err(VoteRegistrationError::NotStorageProvider);
        }
        let name = chars_of(claim.provider(i).as_str());
        let id = read_provider_id(&name);
        match (checks[i], id) {
            (Err(e), _) => {
                proof {
                    assert(next is Err);
                    lemma_confirmed_ids_fails(
                        claim@.providers,
                        checks@,
                        (i + 1) as nat,
                        claim@.providers.len(),
                    );
                }
                return Err(VoteRegistrationError::StorageFetchError(e));
            },
            (Ok(false), _) => {
                proof {
                    assert(next is Err);
                    lemma_confirmed_ids_fails(
                        claim@.providers,
                        checks@,
                        (i + 1) as nat,
                        claim@.providers.len(),
                    );
                }
                return Err(VoteRegistrationError::NotStorageProvider);
            },
            (Ok(true), None) => {
                proof {
                    assert(next is Err);
                    lemma_confirmed_ids_fails(
                        claim@.providers,
                        checks@,
                        (i + 1) as nat,
                        claim@.providers.len(),
                    );
                }
                return Err(VoteRegistrationError::InvalidStorageProviderId);
            },
            (Ok(true), Some(id)) => {
                sp_ids.push(id);
            },
        }
        i += 1;
    }
    Ok(sp_ids)
}

/// An error met at one provider is the error of any longer run.
proof fn lemma_confirmed_ids_fails(
    providers: Seq<Seq<char>>,
    checks: Seq<Result<bool, StorageFetchError>>,
    at: nat,
    count: nat,
)
    requires
        at <= count <= providers.len(),
        confirmed_ids(providers, checks, at) is Err,
    ensures
        confirmed_ids(providers, checks, count) == confirmed_ids(providers, checks, at),
    decreases count,
{
    if count > at {
        lemma_confirmed_ids_fails(providers, checks, at, (count - 1) as nat);
    }
}

} // verus!
