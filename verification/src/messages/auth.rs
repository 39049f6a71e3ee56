use crate::address::{parsed_address, Address};
use crate::messages::signer::{message_signer, signer};
use crate::messages::votes::VoteError;
use vstd::prelude::*;
use vstd::utf8::encode_utf8;

verus! {

/// A request to authorize a vote starter as it was received: the signature
/// and the message that it signs, which is the address to authorize.
#[derive(Debug)]
pub struct VoterAuthorization {
    /// The signature over the message, in hexadecimal digits.
    pub signature: String,
    /// The message that was signed: the address to authorize.
    pub message: String,
}

impl VoterAuthorization {
    /// A received request with the given signature and message.
    pub fn new(signature: String, message: String) -> (received: VoterAuthorization)
        ensures
            received.signature == signature,
            received.message == message,
    {
        VoterAuthorization { signature, message }
    }

    /// The address that signed the request and the address that it asks to
    /// authorize. A signature that yields no signer is reported before a
    /// message that is no address.
    pub fn auth(&self) -> (request: Result<(Address, Address), VoteError>)
        ensures
            match message_signer(self.signature@, encode_utf8(self.message@)) {
                None => request matches Err(VoteError::SignatureError(_)),
                Some(by) => match parsed_address(self.message@) {
                    None => request == Err::<(Address, Address), VoteError>(
                        VoteError::InvalidMessageFormat,
                    ),
                    Some(new) => request matches Ok((a, b)) && a@ == by && b@ == new,
                },
            },
    {
        let by = match self.pub_key() {
            Ok(by) => by,
            Err(e) => {
                return Err(e);
            },
        };
        match Address::parse(self.message.as_str()) {
            Some(new) => Ok((by, new)),
            None => Err(VoteError::InvalidMessageFormat),
        }
    }

    /// The address that signed the message.
    pub fn pub_key(&self) -> (address: Result<Address, VoteError>)
        ensures
            address is Ok <==> message_signer(self.signature@, encode_utf8(self.message@)) is Some,
            address matches Ok(a) ==> a@ == message_signer(
                self.signature@,
                encode_utf8(self.message@),
            ).unwrap(),
            address matches Err(e) ==> e is SignatureError,
    {
        match signer(self.signature.as_str(), self.message.as_str()) {
            Ok(address) => Ok(address),
            Err(e) => Err(VoteError::SignatureError(e)),
        }
    }
}

} // verus!
