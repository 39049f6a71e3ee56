use crate::address::Address;
use crate::codec::put_slice;
use crate::text::{decimal, push_decimal};
use ethers::types::{Signature, SignatureError, H256};
use std::str::FromStr;
use vstd::prelude::*;
use vstd::string::StringSliceAdditionalSpecFns;

verus! {

/// Declares `ethers::types::SignatureError`, the error of reading a
/// signature or recovering its signer. Nothing is claimed of its values.
#[verifier::external_type_specification]
#[verifier::external_body]
pub struct ExSignatureError(SignatureError);

/// The 65 bytes of the signature that a text denotes in hexadecimal digits;
/// `None` where the text denotes none. This names what
/// `ethers::types::Signature::from_str` returns for the text.
pub uninterp spec fn parsed_signature(text: Seq<char>) -> Option<Seq<u8>>;

/// The Keccak-256 digest of a byte string. This names what
/// `ethers::utils::keccak256` returns for the bytes.
pub uninterp spec fn keccak256_digest(data: Seq<u8>) -> Seq<u8>;

/// The address whose key made the signature over the digest; `None` where no
/// key can be recovered. This names what `ethers::types::Signature::recover`
/// returns for the signature of those 65 bytes and the digest.
pub uninterp spec fn recovered_signer(signature: Seq<u8>, digest: Seq<u8>) -> Option<Seq<u8>>;

/// Calls `ethers::types::Signature::from_str` and hands back the 65 bytes of
/// the signature read. The contract names its result.
#[verifier::external_body]
fn parse_signature(text: &str) -> (parsed: Result<Vec<u8>, SignatureError>)
    ensures
        parsed is Ok <==> parsed_signature(text@) is Some,
        parsed matches Ok(bytes) ==> bytes@ == parsed_signature(text@).unwrap() && bytes@.len()
            == 65,
{
    match Signature::from_str(text) {
        Ok(signature) => Ok(signature.to_vec()),
        Err(e) => Err(e),
    }
}

/// Calls `ethers::utils::keccak256`. The contract names its result.
#[verifier::external_body]
fn keccak256(data: &Vec<u8>) -> (digest: [u8; 32])
    ensures
        digest@ == keccak256_digest(data@),
{
    ethers::utils::keccak256(data)
}

/// Calls `ethers::types::Signature::recover` on the signature of the given
/// 65 bytes, with the digest as the hash of the message. The contract names
/// its result.
#[verifier::external_body]
fn recover_signer(signature: &Vec<u8>, digest: &[u8; 32]) -> (signer: Result<
    Address,
    SignatureError,
>)
    requires
        signature@.len() == 65,
    ensures
        signer is Ok <==> recovered_signer(signature@, digest@) is Some,
        signer matches Ok(a) ==> a@ == recovered_signer(signature@, digest@).unwrap(),
{
    match Signature::try_from(signature.as_slice())?.recover(H256(*digest)) {
        Ok(a) => Ok(Address(a.0)),
        Err(e) => Err(e),
    }
}

/// The words that come before the length of a signed message, as bytes: the
/// byte 0x19 and `Ethereum Signed Message:`, then a line feed.
pub open spec fn signed_prefix() -> Seq<u8> {
    seq![
        0x19u8, 0x45u8, 0x74u8, 0x68u8, 0x65u8, 0x72u8, 0x65u8, 0x75u8, 0x6du8, 0x20u8, 0x53u8,
        0x69u8, 0x67u8, 0x6eu8, 0x65u8, 0x64u8, 0x20u8, 0x4du8, 0x65u8, 0x73u8, 0x73u8, 0x61u8,
        0x67u8, 0x65u8, 0x3au8, 0x0au8,
    ]
}

/// The bytes of a text of plain characters.
pub open spec fn ascii_bytes(chars: Seq<char>) -> Seq<u8> {
    Seq::new(chars.len(), |i: int| chars[i] as u8)
}

/// The bytes that are hashed for a signed message: the prefix, the length of
/// the message in decimal digits, and the message.
pub open spec fn signed_text(message: Seq<u8>) -> Seq<u8> {
    signed_prefix() + ascii_bytes(decimal(message.len())) + message
}

/// The address that signed a message, as far as the signature text shows;
/// `None` where the text is no signature or no key can be recovered.
pub open spec fn message_signer(signature: Seq<char>, message: Seq<u8>) -> Option<Seq<u8>> {
    match parsed_signature(signature) {
        Some(bytes) => recovered_signer(bytes, keccak256_digest(signed_text(message))),
        None => None,
    }
}

/// Builds the bytes that are hashed for a signed message.
pub fn signed_message(message: &Vec<u8>) -> (text: Vec<u8>)
    ensures
        text@ == signed_text(message@),
{
    let prefix: [u8; 26] = [
        0x19, 0x45, 0x74, 0x68, 0x65, 0x72, 0x65, 0x75, 0x6d, 0x20, 0x53, 0x69, 0x67, 0x6e, 0x65,
        0x64, 0x20, 0x4d, 0x65, 0x73, 0x73, 0x61, 0x67, 0x65, 0x3a, 0x0a,
    ];
    let mut text: Vec<u8> = Vec::new();
    let mut i: usize = 0;
    while i < 26
        invariant
            i <= 26,
            prefix@ == signed_prefix(),
            text@ == prefix@.subrange(0, i as int),
        decreases 26 - i,
    {
        text.push(prefix[i]);
        assert(text@ =~= prefix@.subrange(0, i + 1));
        i += 1;
    }
    assert(prefix@.subrange(0, 26) =~= prefix@);
    let mut digits: Vec<char> = Vec::new();
    push_decimal(&mut digits, message.len() as u128);
    assert(digits@ =~= decimal(message@.len()));
    let mut k: usize = 0;
    while k < digits.len()
        invariant
            k <= digits@.len(),
            text@ == signed_prefix() + ascii_bytes(digits@).subrange(0, k as int),
        decreases digits@.len() - k,
    {
        text.push(digits[k] as u8);
        assert(text@ =~= signed_prefix() + ascii_bytes(digits@).subrange(0, k + 1));
        k += 1;
    }
    assert(ascii_bytes(digits@).subrange(0, digits@.len() as int) =~= ascii_bytes(digits@));
    put_slice(&mut text, message, 0, message.len());
    assert(message@.subrange(0, message@.len() as int) =~= message@);
    text
}

/// Recovers the address that signed a message. The signature is given in
/// hexadecimal digits; the message is hashed with the prefix and length of a
/// signed message in front.
pub fn signer(signature: &str, message: &str) -> (signer: Result<Address, SignatureError>)
    ensures
        signer is Ok <==> message_signer(signature@, message.spec_bytes()) is Some,
        signer matches Ok(a) ==> a@ == message_signer(signature@, message.spec_bytes()).unwrap(),
{
    let bytes = match parse_signature(signature) {
        Ok(bytes) => bytes,
        Err(e) => {
            return Err(e);
        },
    };
    let text = signed_message(&message.as_bytes_vec());
    let digest = keccak256(&text);
    recover_signer(&bytes, &digest)
}

/// What the outside error says of itself. The body formats the error with
/// its `Display`; nothing is claimed of the text.
#[verifier::external_body]
pub(crate) fn signature_error_text(error: &SignatureError) -> (text: String) {
    format!("{}", error)
}

} // verus!
