use crate::address::Address;
use crate::messages::signer::{message_signer, signer};
use crate::messages::votes::VoteError;
use crate::text::{chars_of, parse_u32, parsed_u32};
use vstd::prelude::*;
use vstd::utf8::encode_utf8;

verus! {

/// The place of the first hyphen at or after `from`, or the length of the
/// text where there is none.
pub open spec fn next_hyphen(text: Seq<char>, from: int) -> int
    decreases text.len() - from,
{
    if from >= text.len() {
        text.len() as int
    } else if text[from] == '-' {
        from
    } else {
        next_hyphen(text, from + 1)
    }
}

/// The proposal number that the message of a request to start a vote names:
/// the number written between the first hyphen and the second, or the end of
/// the message, as in `FIP-12`.
pub open spec fn started_fip(message: Seq<char>) -> Option<u32> {
    let first = next_hyphen(message, 0);
    if first >= message.len() {
        None
    } else {
        parsed_u32(message.subrange(first + 1, next_hyphen(message, first + 1)))
    }
}

/// Finds the first hyphen at or after `from`.
pub fn find_hyphen(text: &Vec<char>, from: usize) -> (at: usize)
    requires
        from <= text@.len(),
    ensures
        at == next_hyphen(text@, from as int),
        from <= at <= text@.len(),
{
    let mut at: usize = from;
    while at < text.len() && text[at] != '-'
        invariant
            from <= at <= text@.len(),
            next_hyphen(text@, from as int) == next_hyphen(text@, at as int),
        decreases text@.len() - at,
    {
        at += 1;
    }
    at
}

/// A request to start a vote as it was received: the signature and the
/// message that it signs, which names the proposal.
#[derive(Debug)]
pub struct VoteStart {
    /// The signature over the message, in hexadecimal digits.
    pub signature: String,
    /// The message that was signed: it names the proposal.
    pub message: String,
}

impl VoteStart {
    /// A received request with the given signature and message.
    pub fn new(signature: String, message: String) -> (received: VoteStart)
        ensures
            received.signature == signature,
            received.message == message,
    {
        VoteStart { signature, message }
    }

    /// The address that signed the request and the number of the proposal
    /// that it asks to start. A signature that yields no signer is reported
    /// before a message that names no proposal.
    pub fn auth(&self) -> (request: Result<(Address, u32), VoteError>)
        ensures
            match message_signer(self.signature@, encode_utf8(self.message@)) {
                None => request matches Err(VoteError::SignatureError(_)),
                Some(starter) => match started_fip(self.message@) {
                    None => request == Err::<(Address, u32), VoteError>(
                        VoteError::InvalidMessageFormat,
                    ),
                    Some(fip) => request matches Ok((a, n)) && a@ == starter && n == fip,
                },
            },
    {
        let starter = match self.pub_key() {
            Ok(starter) => starter,
            Err(e) => {
                return Err(e);
            },
        };
        match self.fip() {
            Ok(fip) => Ok((starter, fip)),
            Err(e) => Err(e),
        }
    }

    /// The number of the proposal that the message names.
    pub fn fip(&self) -> (fip: Result<u32, VoteError>)
        ensures
            match started_fip(self.message@) {
                Some(n) => fip == Ok::<u32, VoteError>(n),
                None => fip == Err::<u32, VoteError>(VoteError::InvalidMessageFormat),
            },
    {
        let text = chars_of(self.message.as_str());
        let first = find_hyphen(&text, 0);
        if first >= text.len() {
            return Err(VoteError::InvalidMessageFormat);
        }
        let second = find_hyphen(&text, first + 1);
        match parse_u32(&text, first + 1, second) {
            Some(fip) => Ok(fip),
            None => Err(VoteError::InvalidMessageFormat),
        }
    }

    /// The address that signed the message.
    pub fn pub_key(&self) -> (address: Result<Address, VoteError>)
        ensures
            address is Ok <==> message_signer(self.signature@, encode_utf8(self.message@)) is Some,
            address matches Ok(a) ==> a@ == message_signer(
                self.signature@,
                encode_utf8(self.message@),
            ).unwrap(),
            address matches Err(e) ==> e is SignatureError,
    {
        match signer(self.signature.as_str(), self.message.as_str()) {
            Ok(address) => Ok(address),
            Err(e) => Err(VoteError::SignatureError(e)),
        }
    }
}

} // verus!
