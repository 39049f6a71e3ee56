use crate::address::{hex_text, Address};
use crate::codec::{
    be_bytes, be_value, decode_records, encode_records, lemma_be_bytes_len,
    lemma_be_value_of_bytes, lemma_decode_records_len, lemma_pow256_widths, put_be, read_be,
};
use crate::messages::signer::{message_signer, signature_error_text, signer};
use crate::text::{
    chars_of, decimal, parse_u32, parsed_u32, push_decimal, split_words, string_of, word_views,
    words,
};
use ethers::types::SignatureError;
use vstd::prelude::*;
use vstd::std_specs::cmp::PartialEqSpecImpl;
use vstd::std_specs::convert::FromSpecImpl;
use vstd::utf8::encode_utf8;

verus! {

/// The three answers a voter can give to a proposal.
#[derive(Debug, PartialEq, Eq, Clone, Copy, Structural)]
pub enum VoteOption {
    Yay,
    Nay,
    Abstain,
}

/// The choice that a stored byte stands for, if any.
pub open spec fn option_of_code(code: u8) -> Option<VoteOption> {
    if code == 0 {
        Some(VoteOption::Yay)
    } else if code == 1 {
        Some(VoteOption::Nay)
    } else if code == 2 {
        Some(VoteOption::Abstain)
    } else {
        None
    }
}

impl VoteOption {
    /// The byte that stands for the choice in a stored vote.
    pub open spec fn code(self) -> u8 {
        match self {
            VoteOption::Yay => 0,
            VoteOption::Nay => 1,
            VoteOption::Abstain => 2,
        }
    }

    /// Executable form of [`VoteOption::code`].
    pub fn to_byte(&self) -> (b: u8)
        ensures
            b == self.code(),
            option_of_code(b) == Some(*self),
    {
        match self {
            VoteOption::Yay => 0,
            VoteOption::Nay => 1,
            VoteOption::Abstain => 2,
        }
    }

    /// The choice that `code` stands for; `None` for any byte above 2.
    pub fn from_byte(code: u8) -> (choice: Option<VoteOption>)
        ensures
            choice == option_of_code(code),
    {
        if code == 0 {
            Some(VoteOption::Yay)
        } else if code == 1 {
            Some(VoteOption::Nay)
        } else if code == 2 {
            Some(VoteOption::Abstain)
        } else {
            None
        }
    }

    /// The choice's byte followed by the proposal number, big-endian.
    pub fn to_bytes(&self, fip_number: u32) -> (bytes: [u8; 5])
        ensures
            bytes@ == seq![self.code()] + be_bytes(fip_number as nat, 4),
    {
        let mut number: Vec<u8> = Vec::new();
        put_be(&mut number, fip_number as u128, 4);
        proof {
            lemma_be_bytes_len(fip_number as nat, 4);
        }
        let bytes: [u8; 5] = [self.to_byte(), number[0], number[1], number[2], number[3]];
        assert(bytes@ =~= seq![self.code()] + be_bytes(fip_number as nat, 4));
        bytes
    }
}

impl From<VoteOption> for u8 {
    /// The byte that stands for the choice in a stored vote.
    fn from(vote: VoteOption) -> (b: u8) {
        vote.to_byte()
    }
}

impl FromSpecImpl<VoteOption> for u8 {
    open spec fn obeys_from_spec() -> bool {
        true
    }

    open spec fn from_spec(vote: VoteOption) -> u8 {
        vote.code()
    }
}

/// What a vote says: the choice, the voter's 20 address bytes, and the number
/// of the proposal the ballot was signed for.
pub struct VoteView {
    /// What the voter chose.
    pub choice: VoteOption,
    /// The address that cast the vote.
    pub voter: Seq<u8>,
    /// The number of the proposal that the ballot names.
    pub fip: u32,
}

/// A vote that was cast: a signed choice on one proposal by one address.
#[derive(Debug, Clone, Copy)]
pub struct Vote {
    choice: VoteOption,
    address: Address,
    fip: u32,
}

impl View for Vote {
    type V = VoteView;

    closed spec fn view(&self) -> VoteView {
        VoteView { choice: self.choice, voter: self.address@, fip: self.fip }
    }
}

/// The name of a choice.
pub open spec fn choice_name(choice: VoteOption) -> Seq<char> {
    match choice {
        VoteOption::Yay => "Yay"@,
        VoteOption::Nay => "Nay"@,
        VoteOption::Abstain => "Abstain"@,
    }
}

/// A vote in words: the voter's address, the choice and the proposal.
pub open spec fn vote_text(vote: VoteView) -> Seq<char> {
    seq!['0', 'x'] + hex_text(vote.voter) + " voted "@ + choice_name(vote.choice) + " on FIP-"@
        + decimal(vote.fip as nat)
}

/// Whether two votes are the same ballot: cast by the same address on the same
/// proposal, whatever they chose.
pub open spec fn same_ballot(a: VoteView, b: VoteView) -> bool {
    a.voter == b.voter && a.fip == b.fip
}

/// Whether `votes` already holds the ballot of `vote`.
pub open spec fn has_ballot(votes: Seq<VoteView>, vote: VoteView) -> bool {
    exists|i: int| 0 <= i < votes.len() && same_ballot(#[trigger] votes[i], vote)
}

impl Vote {
    /// A vote with the given choice, voter and proposal number.
    pub fn new(choice: VoteOption, address: Address, fip: u32) -> (v: Vote)
        ensures
            v@ == (VoteView { choice, voter: address@, fip }),
    {
        Vote { choice, address, fip }
    }

    /// What the voter chose.
    pub fn choice(&self) -> (c: VoteOption)
        ensures
            c == self@.choice,
    {
        self.choice
    }

    /// Who cast the vote.
    pub fn voter(&self) -> (a: Address)
        ensures
            a@ == self@.voter,
    {
        self.address
    }

    /// The number of the proposal that the ballot names.
    pub fn fip(&self) -> (n: u32)
        ensures
            n == self@.fip,
    {
        self.fip
    }

    /// The vote in words, as in `0x… voted Yay on FIP-12`.
    pub fn to_text(&self) -> (text: String)
        ensures
            text@ == vote_text(self@),
    {
        let mut chars = chars_of(self.address.to_hex().as_str());
        let mut voted = chars_of(" voted ");
        chars.append(&mut voted);
        let mut choice = chars_of(
            match self.choice {
                VoteOption::Yay => "Yay",
                VoteOption::Nay => "Nay",
                VoteOption::Abstain => "Abstain",
            },
        );
        chars.append(&mut choice);
        let mut on = chars_of(" on FIP-");
        chars.append(&mut on);
        push_decimal(&mut chars, self.fip as u128);
        assert(chars@ =~= vote_text(self@));
        string_of(&chars)
    }

    /// The voter of any vote is a 20-byte address.
    pub proof fn lemma_voter_len(self)
        ensures
            self@.voter.len() == 20,
    {
    }

    /// Appends the stored record of the vote to `out`.
    pub fn write_record(&self, out: &mut Vec<u8>)
        ensures
            final(out)@ == old(out)@ + vote_record(self@),
    {
        out.push(self.choice.to_byte());
        let mut i: usize = 0;
        while i < 20
            invariant
                i <= 20,
                out@ == old(out)@ + seq![self.choice.code()] + self.address@.subrange(0, i as int),
            decreases 20 - i,
        {
            out.push(self.address.0[i]);
            assert(out@ =~= old(out)@ + seq![self.choice.code()] + self.address@.subrange(
                0,
                i + 1,
            ));
            i += 1;
        }
        put_be(out, self.fip as u128, 4);
        assert(self.address@.subrange(0, 20) =~= self.address@);
        assert(out@ =~= old(out)@ + vote_record(self@));
    }

    /// Reads the stored record of a vote that starts at `at`; `None` where its
    /// first byte stands for no choice.
    pub fn read_record(bytes: &Vec<u8>, at: usize) -> (v: Option<Vote>)
        requires
            at + 25 <= bytes@.len(),
        ensures
            v is Some <==> record_vote(bytes@.subrange(at as int, at + 25)) is Some,
            v matches Some(vote) ==> Some(vote@) == record_vote(
                bytes@.subrange(at as int, at + 25),
            ),
    {
        let ghost record = bytes@.subrange(at as int, at + 25);
        let total: usize = bytes.len();
        assert(at + 25 <= total);
        let code: u8 = bytes[at];
        assert(record[0] == code);
        match VoteOption::from_byte(code) {
            None => None,
            Some(choice) => {
                let address = Address::from_slice(bytes, at + 1);
                let number: u128 = read_be(bytes, at + 21, 4);
                proof {
                    lemma_pow256_widths();
                    assert(record.subrange(1, 21) =~= bytes@.subrange(at + 1, at + 21));
                    assert(record.subrange(21, 25) =~= bytes@.subrange(at + 21, at + 25));
                }
                Some(Vote { choice, address, fip: number as u32 })
            },
        }
    }
}

impl PartialEq for Vote {
    /// Two votes are equal when they are the same ballot, whatever they chose.
    fn eq(&self, other: &Vote) -> (same: bool) {
        self.address.same(&other.address) && self.fip == other.fip
    }
}

impl PartialEqSpecImpl for Vote {
    open spec fn obeys_eq_spec() -> bool {
        true
    }

    open spec fn eq_spec(&self, other: &Vote) -> bool {
        same_ballot(self@, other@)
    }
}

/// The stored record of a vote: the choice's byte, the 20 address bytes, and
/// the proposal number in four bytes, big-endian.
pub open spec fn vote_record(vote: VoteView) -> Seq<u8> {
    seq![vote.choice.code()] + vote.voter + be_bytes(vote.fip as nat, 4)
}

/// The vote that a 25-byte record holds; `None` for another length or a first
/// byte that stands for no choice.
pub open spec fn record_vote(record: Seq<u8>) -> Option<VoteView> {
    if record.len() == 25 && option_of_code(record[0]) is Some {
        Some(
            VoteView {
                choice: option_of_code(record[0]).unwrap(),
                voter: record.subrange(1, 21),
                fip: be_value(record.subrange(21, 25)) as u32,
            },
        )
    } else {
        None
    }
}

/// The record of a vote by a 20-byte address has 25 bytes and reads back as
/// that vote.
pub proof fn lemma_vote_record_roundtrip(vote: VoteView)
    requires
        vote.voter.len() == 20,
    ensures
        vote_record(vote).len() == 25,
        record_vote(vote_record(vote)) == Some(vote),
{
    let record = vote_record(vote);
    lemma_be_bytes_len(vote.fip as nat, 4);
    lemma_pow256_widths();
    lemma_be_value_of_bytes(vote.fip as nat, 4);
    assert(record.subrange(1, 21) =~= vote.voter);
    assert(record.subrange(21, 25) =~= be_bytes(vote.fip as nat, 4));
    assert(record[0] == vote.choice.code());
}

/// What each vote of a list says, in order.
pub open spec fn vote_views(items: Seq<Vote>) -> Seq<VoteView> {
    Seq::new(items.len(), |i: int| items[i]@)
}

/// The list of votes that `bytes` holds, or `None` where the length is no
/// multiple of 25 or a record holds no vote.
pub open spec fn bytes_votes(bytes: Seq<u8>) -> Option<Seq<VoteView>> {
    decode_records(bytes, 25, |r: Seq<u8>| record_vote(r))
}

/// A stored vote list with one more record holds one more vote.
pub proof fn lemma_votes_appended(bytes: Seq<u8>, vote: VoteView)
    requires
        vote.voter.len() == 20,
    ensures
        bytes_votes(bytes + vote_record(vote)) == match bytes_votes(bytes) {
            Some(votes) => Some(votes.push(vote)),
            None => None,
        },
{
    lemma_vote_record_roundtrip(vote);
    let all = bytes + vote_record(vote);
    let cut = all.len() - 25;
    assert(all.subrange(0, cut) =~= bytes);
    assert(all.subrange(cut, all.len() as int) =~= vote_record(vote));
}

/// Reads a stored list of votes.
pub fn decode_votes(bytes: &Vec<u8>) -> (items: Option<Vec<Vote>>)
    ensures
        items is Some <==> bytes_votes(bytes@) is Some,
        items matches Some(v) ==> vote_views(v@) == bytes_votes(bytes@).unwrap(),
{
    let total: usize = bytes.len();
    let ghost decode = |r: Seq<u8>| record_vote(r);
    if total % 25 != 0 {
        proof {
            if bytes_votes(bytes@) is Some {
                lemma_decode_records_len(bytes@, 25, decode);
            }
        }
        return None;
    }
    let count: usize = total / 25;
    let mut items: Vec<Vote> = Vec::new();
    let mut i: usize = 0;
    assert(bytes@.subrange(0, 0) =~= Seq::<u8>::empty());
    assert(vote_views(items@) =~= Seq::<VoteView>::empty());
    while i < count
        invariant
            i <= count,
            total == bytes@.len(),
            total == count * 25,
            decode == (|r: Seq<u8>| record_vote(r)),
            decode_records(bytes@.subrange(0, 25 * i), 25, decode) == Some(vote_views(items@)),
        decreases count - i,
    {
        let ghost upto = bytes@.subrange(0, 25 * i + 25);
        proof {
            assert(upto.subrange(0, upto.len() - 25) =~= bytes@.subrange(0, 25 * i));
            assert(upto.subrange(upto.len() - 25, upto.len() as int) =~= bytes@.subrange(
                25 * i,
                25 * i + 25,
            ));
        }
        match Vote::read_record(bytes, 25 * i) {
            None => {
                proof {
                    lemma_bad_record_spoils(bytes@, 25 * i);
                }
                return None;
            },
            Some(vote) => {
                assert(vote_views(items@.push(vote)) =~= vote_views(items@).push(vote@));
                items.push(vote);
            },
        }
        i += 1;
    }
    assert(bytes@.subrange(0, 25 * count) =~= bytes@);
    Some(items)
}

/// A vote list with a record that holds no vote does not decode.
proof fn lemma_bad_record_spoils(bytes: Seq<u8>, at: int)
    requires
        0 <= at,
        at + 25 <= bytes.len(),
        at % 25 == 0,
        record_vote(bytes.subrange(at, at + 25)) is None,
    ensures
        bytes_votes(bytes) is None,
    decreases bytes.len(),
{
    let cut = bytes.len() - 25;
    if at < cut {
        let front = bytes.subrange(0, cut);
        if bytes.len() % 25 == 0 {
            assert(at + 25 <= cut);
            assert(front.subrange(at, at + 25) =~= bytes.subrange(at, at + 25));
            lemma_bad_record_spoils(front, at);
        } else {
            let decode = |r: Seq<u8>| record_vote(r);
            if bytes_votes(bytes) is Some {
                lemma_decode_records_len(bytes, 25, decode);
            }
        }
    } else if at > cut {
        let decode = |r: Seq<u8>| record_vote(r);
        if bytes_votes(bytes) is Some {
            lemma_decode_records_len(bytes, 25, decode);
        }
    }
}

/// Why a signed message was not accepted.
#[derive(Debug)]
pub enum VoteError {
    /// The signature is malformed or no signer can be recovered from it.
    SignatureError(SignatureError),
    /// The message does not have the expected form.
    InvalidMessageFormat,
    /// The message names no choice.
    InvalidVoteOption,
}

impl VoteError {
    /// The sentence that describes the error, where it is this library's to
    /// word: an error of the signature describes itself, in words of which
    /// nothing is known here.
    pub open spec fn spec_message(self) -> Option<Seq<char>> {
        match self {
            VoteError::SignatureError(_) => None,
            VoteError::InvalidMessageFormat => Some("Invalid message format"@),
            VoteError::InvalidVoteOption => Some("Invalid vote option"@),
        }
    }

    /// A sentence that describes the error: for a malformed message and for
    /// a message without a choice, the sentence of [`VoteError::spec_message`];
    /// for an error of the signature, what that error says of itself.
    pub fn message(&self) -> (text: String)
        ensures
            self.spec_message() matches Some(words) ==> text@ == words,
    {
        match self {
            VoteError::SignatureError(e) => signature_error_text(e),
            VoteError::InvalidMessageFormat => string_of(&chars_of("Invalid message format")),
            VoteError::InvalidVoteOption => string_of(&chars_of("Invalid vote option")),
        }
    }
}

/// The word that stands for a choice in a ballot.
pub open spec fn choice_word(choice: VoteOption) -> Seq<char> {
    match choice {
        VoteOption::Yay => seq!['Y', 'A', 'Y', ':'],
        VoteOption::Nay => seq!['N', 'A', 'Y', ':'],
        VoteOption::Abstain => seq!['A', 'B', 'S', 'T', 'A', 'I', 'N', ':'],
    }
}

/// The choice that a word stands for, if any.
pub open spec fn word_choice(word: Seq<char>) -> Option<VoteOption> {
    if word == choice_word(VoteOption::Yay) {
        Some(VoteOption::Yay)
    } else if word == choice_word(VoteOption::Nay) {
        Some(VoteOption::Nay)
    } else if word == choice_word(VoteOption::Abstain) {
        Some(VoteOption::Abstain)
    } else {
        None
    }
}

/// The letters in front of a proposal number: `FIP-`.
pub open spec fn fip_prefix() -> Seq<char> {
    seq!['F', 'I', 'P', '-']
}

/// The proposal number that a word of the form `FIP-` and a number holds.
pub open spec fn word_fip(word: Seq<char>) -> Option<u32> {
    if word.len() >= 4 && word.subrange(0, 4) == fip_prefix() {
        parsed_u32(word.subrange(4, word.len() as int))
    } else {
        None
    }
}

/// What the message of a ballot says: it must hold exactly two words, a
/// choice (`YAY:`, `NAY:` or `ABSTAIN:`) and a proposal (`FIP-` and its
/// number).
pub open spec fn ballot(message: Seq<char>) -> Result<(VoteOption, u32), VoteError> {
    let list = words(message);
    if list.len() != 2 {
        Err(VoteError::InvalidMessageFormat)
    } else if word_choice(list[0]) is None {
        Err(VoteError::InvalidVoteOption)
    } else if word_fip(list[1]) is None {
        Err(VoteError::InvalidMessageFormat)
    } else {
        Ok((word_choice(list[0]).unwrap(), word_fip(list[1]).unwrap()))
    }
}

/// Whether the word holds exactly the given characters.
pub fn word_is(word: &Vec<char>, text: &Vec<char>) -> (same: bool)
    ensures
        same == (word@ == text@),
{
    if word.len() != text.len() {
        return false;
    }
    let mut i: usize = 0;
    while i < word.len()
        invariant
            i <= word@.len(),
            word@.len() == text@.len(),
            forall|j: int| 0 <= j < i ==> word@[j] == text@[j],
        decreases word@.len() - i,
    {
        if word[i] != text[i] {
            return false;
        }
        i += 1;
    }
    assert(word@ =~= text@);
    true
}

fn choice_text(choice: VoteOption) -> (text: Vec<char>)
    ensures
        text@ == choice_word(choice),
{
    let mut text: Vec<char> = Vec::new();
    match choice {
        VoteOption::Yay => {
            text.push('Y');
            text.push('A');
            text.push('Y');
        },
        VoteOption::Nay => {
            text.push('N');
            text.push('A');
            text.push('Y');
        },
        VoteOption::Abstain => {
            text.push('A');
            text.push('B');
            text.push('S');
            text.push('T');
            text.push('A');
            text.push('I');
            text.push('N');
        },
    }
    text.push(':');
    assert(text@ =~= choice_word(choice));
    text
}

/// Reads the choice that a word stands for.
pub fn read_choice(word: &Vec<char>) -> (choice: Option<VoteOption>)
    ensures
        choice == word_choice(word@),
{
    if word_is(word, &choice_text(VoteOption::Yay)) {
        Some(VoteOption::Yay)
    } else if word_is(word, &choice_text(VoteOption::Nay)) {
        Some(VoteOption::Nay)
    } else if word_is(word, &choice_text(VoteOption::Abstain)) {
        Some(VoteOption::Abstain)
    } else {
        None
    }
}

/// Reads the proposal number of a word of the form `FIP-` and a number.
pub fn read_fip(word: &Vec<char>) -> (fip: Option<u32>)
    ensures
        fip == word_fip(word@),
{
    if word.len() < 4 || word[0] != 'F' || word[1] != 'I' || word[2] != 'P' || word[3] != '-' {
        proof {
            if word@.len() >= 4 && word@.subrange(0, 4) == fip_prefix() {
                assert(word@.subrange(0, 4)[0] == 'F');
                assert(word@.subrange(0, 4)[1] == 'I');
                assert(word@.subrange(0, 4)[2] == 'P');
                assert(word@.subrange(0, 4)[3] == '-');
            }
        }
        return None;
    }
    assert(word@.subrange(0, 4) =~= fip_prefix());
    parse_u32(word, 4, word.len())
}

/// A ballot as it was received: the signature and the message that it signs.
/// The message names the choice and the proposal, as in `YAY: FIP-12`.
#[derive(Debug, Default)]
pub struct ReceivedVote {
    /// The signature over the message, in hexadecimal digits.
    pub signature: String,
    /// The message that was signed.
    pub message: String,
}

impl ReceivedVote {
    /// A received ballot with the given signature and message.
    pub fn new(signature: String, message: String) -> (received: ReceivedVote)
        ensures
            received.signature == signature,
            received.message == message,
    {
        ReceivedVote { signature, message }
    }

    /// The vote that the ballot casts: the choice and the proposal that the
    /// message names, cast by the address that signed the message.
    pub fn vote(&self) -> (cast: Result<Vote, VoteError>)
        ensures
            match ballot(self.message@) {
                Err(e) => cast == Err::<Vote, VoteError>(e),
                Ok((choice, fip)) => match message_signer(
                    self.signature@,
                    encode_utf8(self.message@),
                ) {
                    None => cast matches Err(VoteError::SignatureError(_)),
                    Some(voter) => cast matches Ok(v) && v@ == (VoteView { choice, voter, fip }),
                },
            },
    {
        let (choice, fip) = match self.msg_details() {
            Ok(details) => details,
            Err(e) => {
                return Err(e);
            },
        };
        let address = match self.pub_key() {
            Ok(address) => address,
            Err(e) => {
                return Err(e);
            },
        };
        Ok(Vote { choice, address, fip })
    }

    /// The choice and the proposal number that the message names.
    pub fn msg_details(&self) -> (details: Result<(VoteOption, u32), VoteError>)
        ensures
            details == ballot(self.message@),
    {
        let text = chars_of(self.message.as_str());
        let list = split_words(&text);
        assert(word_views(list@).len() == list@.len());
        if list.len() != 2 {
            return Err(VoteError::InvalidMessageFormat);
        }
        assert(word_views(list@)[0] == list@[0]@ && word_views(list@)[1] == list@[1]@);
        let choice = match read_choice(&list[0]) {
            Some(choice) => choice,
            None => {
                return Err(VoteError::InvalidVoteOption);
            },
        };
        match read_fip(&list[1]) {
            Some(fip) => Ok((choice, fip)),
            None => Err(VoteError::InvalidMessageFormat),
        }
    }

    /// The address that signed the message.
    pub fn pub_key(&self) -> (address: Result<Address, VoteError>)
        ensures
            address is Ok <==> message_signer(self.signature@, encode_utf8(self.message@)) is Some,
            address matches Ok(a) ==> a@ == message_signer(
                self.signature@,
                encode_utf8(self.message@),
            ).unwrap(),
            address matches Err(e) ==> e is SignatureError,
    {
        match signer(self.signature.as_str(), self.message.as_str()) {
            Ok(address) => Ok(address),
            Err(e) => Err(VoteError::SignatureError(e)),
        }
    }
}

} // verus!
