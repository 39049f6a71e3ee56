use crate::address::{address_views, Address};
use crate::redis::VoteResults;
use crate::storage::Network;
use crate::text::{chars_of, string_of};
use vstd::prelude::*;

verus! {

/// What is sent back with a reply.
#[derive(Debug)]
pub enum Body {
    /// Nothing.
    Empty,
    /// A line of text.
    Text(String),
    /// The tally of one proposal.
    Results(VoteResults),
    /// A list of proposal numbers.
    Numbers(Vec<u32>),
    /// A list of names of storage providers.
    Names(Vec<String>),
    /// A list of addresses.
    Addresses(Vec<Address>),
    /// The tallies of several proposals, each with the proposal's number.
    AllResults(Vec<(u32, VoteResults)>),
}

/// What a body holds.
pub enum BodyView {
    /// Nothing.
    Empty,
    /// A line of text.
    Text(Seq<char>),
    /// The tally of one proposal.
    Results(VoteResults),
    /// A list of proposal numbers.
    Numbers(Seq<u32>),
    /// A list of names of storage providers.
    Names(Seq<Seq<char>>),
    /// A list of addresses.
    Addresses(Seq<Seq<u8>>),
    /// The tallies of several proposals, each with the proposal's number.
    AllResults(Seq<(u32, VoteResults)>),
}

impl View for Body {
    type V = BodyView;

    open spec fn view(&self) -> BodyView {
        match *self {
            Body::Empty => BodyView::Empty,
            Body::Text(text) => BodyView::Text(text@),
            Body::Results(results) => BodyView::Results(results),
            Body::Numbers(list) => BodyView::Numbers(list@),
            Body::Names(list) => BodyView::Names(Seq::new(list@.len(), |i: int| list@[i]@)),
            Body::Addresses(list) => BodyView::Addresses(address_views(list@)),
            Body::AllResults(list) => BodyView::AllResults(list@),
        }
    }
}

/// The answer to a request: an HTTP status and a body.
#[derive(Debug)]
pub struct Reply {
    /// The HTTP status.
    pub status: u16,
    /// What is sent back.
    pub body: Body,
}

/// What a reply says.
pub struct ReplyView {
    /// The HTTP status.
    pub status: u16,
    /// What is sent back.
    pub body: BodyView,
}

impl View for Reply {
    type V = ReplyView;

    open spec fn view(&self) -> ReplyView {
        ReplyView { status: self.status, body: self.body@ }
    }
}

/// The two characters between the two parts of an error text.
pub open spec fn separator() -> Seq<char> {
    seq![':', ' ']
}

/// A reply that reports an error: a text made of what failed, a colon and a
/// space, and why.
pub open spec fn failure(status: u16, what: Seq<char>, why: Seq<char>) -> ReplyView {
    ReplyView { status, body: BodyView::Text(what + separator() + why) }
}

/// A reply with a line of text.
pub open spec fn said(status: u16, text: Seq<char>) -> ReplyView {
    ReplyView { status, body: BodyView::Text(text) }
}

/// A reply that all went well, with nothing more to say.
pub open spec fn done() -> ReplyView {
    ReplyView { status: 200, body: BodyView::Empty }
}

/// The network that a name in a query stands for: `mainnet` for the main
/// network and `calibration` for the test network.
pub open spec fn network_named(name: Seq<char>) -> Option<Network> {
    if name == seq!['m', 'a', 'i', 'n', 'n', 'e', 't'] {
        Some(Network::Mainnet)
    } else if name == seq!['c', 'a', 'l', 'i', 'b', 'r', 'a', 't', 'i', 'o', 'n'] {
        Some(Network::Testnet)
    } else {
        None
    }
}

/// Reads the network that a name in a query stands for.
pub fn read_network(name: &str) -> (ntw: Option<Network>)
    ensures
        ntw == network_named(name@),
{
    let text = chars_of(name);
    let mainnet: [char; 7] = ['m', 'a', 'i', 'n', 'n', 'e', 't'];
    let calibration: [char; 11] = ['c', 'a', 'l', 'i', 'b', 'r', 'a', 't', 'i', 'o', 'n'];
    if same_chars(&text, mainnet.as_slice()) {
        assert(mainnet@ =~= seq!['m', 'a', 'i', 'n', 'n', 'e', 't']);
        Some(Network::Mainnet)
    } else if same_chars(&text, calibration.as_slice()) {
        assert(mainnet@ =~= seq!['m', 'a', 'i', 'n', 'n', 'e', 't']);
        assert(calibration@ =~= seq!['c', 'a', 'l', 'i', 'b', 'r', 'a', 't', 'i', 'o', 'n']);
        Some(Network::Testnet)
    } else {
        assert(mainnet@ =~= seq!['m', 'a', 'i', 'n', 'n', 'e', 't']);
        assert(calibration@ =~= seq!['c', 'a', 'l', 'i', 'b', 'r', 'a', 't', 'i', 'o', 'n']);
        None
    }
}

fn same_chars(text: &Vec<char>, other: &[char]) -> (same: bool)
    ensures
        same == (text@ == other@),
{
    if text.len() != other.len() {
        return false;
    }
    let mut i: usize = 0;
    while i < text.len()
        invariant
            i <= text@.len(),
            text@.len() == other@.len(),
            forall|j: int| 0 <= j < i ==> text@[j] == other@[j],
        decreases text@.len() - i,
    {
        if text[i] != other[i] {
            return false;
        }
        i += 1;
    }
    assert(text@ =~= other@);
    true
}

impl Reply {
    /// A reply that reports an error.
    pub fn failure(status: u16, what: &str, why: &str) -> (reply: Reply)
        ensures
            reply@ == failure(status, what@, why@),
    {
        let mut text = chars_of(what);
        text.push(':');
        text.push(' ');
        let mut rest = chars_of(why);
        text.append(&mut rest);
        assert(text@ =~= what@ + separator() + why@);
        Reply { status, body: Body::Text(string_of(&text)) }
    }

    /// A reply with a line of text.
    pub fn said(status: u16, text: &str) -> (reply: Reply)
        ensures
            reply@ == said(status, text@),
    {
        Reply { status, body: Body::Text(string_of(&chars_of(text))) }
    }

    /// A reply that all went well, with nothing more to say.
    pub fn done() -> (reply: Reply)
        ensures
            reply@ == done(),
    {
        Reply { status: 200, body: Body::Empty }
    }
}

} // verus!
