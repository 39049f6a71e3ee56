use crate::address::Address;
use crate::codec::{
    be_bytes, lemma_be_bytes_injective, lemma_be_bytes_len, lemma_pow256_widths, put_be,
};
use crate::messages::votes::VoteOption;
use crate::storage::Network;
use vstd::prelude::*;

verus! {

/// The logical tables that share the flat key space of the store, each with
/// the entity that a record of it belongs to.
#[derive(Debug, Clone, Copy)]
pub enum LookupKey {
    /// Proposal number to the list of all votes cast on it.
    Votes(u32, Network),
    /// Proposal number to the time at which voting started.
    Timestamp(u32, Network),
    /// Network and voter address to the voter's registration.
    Voter(Network, Address),
    /// The addresses allowed to start a vote on the network.
    VoteStarters(Network),
    /// The proposals on which voting is in progress on the network.
    ActiveVotes(Network),
    /// The proposals on which voting has concluded on the network.
    ConcludedVotes(Network),
    /// Choice and proposal number to the storage power behind that choice.
    Storage(VoteOption, Network, u32),
    /// Voter address to the network the voter registered on.
    Network(Address),
}

/// Key of a table indexed by proposal number: the number in four bytes,
/// big-endian, then one byte that tells the tables apart.
pub open spec fn numeric_key(fip: u32, tag: u8) -> Seq<u8> {
    be_bytes(fip as nat, 4).push(tag)
}

/// The number that stands for a choice in the tag of the storage-power
/// table. The numbers are chosen so that no two pairs of choice and network
/// share a tag, and no tag is one of another table.
pub open spec fn choice_number(choice: VoteOption) -> u8 {
    match choice {
        VoteOption::Yay => 2,
        VoteOption::Nay => 3,
        VoteOption::Abstain => 7,
    }
}

/// The tag of the storage-power table for a choice on a network: the choice's
/// number times the network's (1 or 2).
pub open spec fn storage_tag(choice: VoteOption, ntw: Network) -> u8 {
    (choice_number(choice) * (ntw.code() + 1)) as u8
}

/// Key of the vote list of a proposal.
pub open spec fn votes_key(fip: u32, ntw: Network) -> Seq<u8> {
    numeric_key(fip, ntw.code())
}

/// Key of the start time of a proposal.
pub open spec fn timestamp_key(fip: u32, ntw: Network) -> Seq<u8> {
    numeric_key(fip, (9 + ntw.code()) as u8)
}

/// Key of the storage power behind one choice on a proposal.
pub open spec fn storage_key(choice: VoteOption, ntw: Network, fip: u32) -> Seq<u8> {
    numeric_key(fip, storage_tag(choice, ntw))
}

/// Key of a voter's registration: the network's byte, then the address.
pub open spec fn voter_key(ntw: Network, voter: Seq<u8>) -> Seq<u8> {
    seq![ntw.code()] + voter
}

/// Key of a voter's network: a byte that is no network's, then the address.
pub open spec fn network_key(voter: Seq<u8>) -> Seq<u8> {
    seq![2u8] + voter
}

/// Key of one of the per-network tables: a fixed prefix, the table's number
/// and the network's byte.
pub open spec fn admin_key(table: u8, ntw: Network) -> Seq<u8> {
    seq![8u8, 0u8, 0u8, 8u8, 1u8, 3u8, table, ntw.code()]
}

/// Key of the list of vote starters of a network.
pub open spec fn starters_key(ntw: Network) -> Seq<u8> {
    admin_key(5, ntw)
}

/// Key of the list of proposals in progress on a network.
pub open spec fn active_key(ntw: Network) -> Seq<u8> {
    admin_key(6, ntw)
}

/// Key of the list of concluded proposals of a network.
pub open spec fn concluded_key(ntw: Network) -> Seq<u8> {
    admin_key(7, ntw)
}

impl LookupKey {
    /// The bytes under which the record is stored.
    pub open spec fn spec_bytes(self) -> Seq<u8> {
        match self {
            LookupKey::Votes(fip, ntw) => votes_key(fip, ntw),
            LookupKey::Timestamp(fip, ntw) => timestamp_key(fip, ntw),
            LookupKey::Voter(ntw, voter) => voter_key(ntw, voter@),
            LookupKey::VoteStarters(ntw) => starters_key(ntw),
            LookupKey::ActiveVotes(ntw) => active_key(ntw),
            LookupKey::ConcludedVotes(ntw) => concluded_key(ntw),
            LookupKey::Storage(choice, ntw, fip) => storage_key(choice, ntw, fip),
            LookupKey::Network(voter) => network_key(voter@),
        }
    }

    /// Builds the key: five bytes for a table indexed by proposal number, 21
    /// for one indexed by address, eight for a per-network table.
    pub fn to_bytes(&self) -> (key: Vec<u8>)
        ensures
            key@ == self.spec_bytes(),
    {
        match self {
            LookupKey::Votes(fip, ntw) => numeric(*fip, ntw.code_byte()),
            LookupKey::Storage(choice, ntw, fip) => {
                let number: u8 = match choice {
                    VoteOption::Yay => 2,
                    VoteOption::Nay => 3,
                    VoteOption::Abstain => 7,
                };
                let tag: u8 = match ntw {
                    Network::Mainnet => number,
                    Network::Testnet => number + number,
                };
                proof {
                    lemma_storage_tags();
                }
                numeric(*fip, tag)
            },
            LookupKey::Timestamp(fip, ntw) => numeric(*fip, 9 + ntw.code_byte()),
            LookupKey::Voter(ntw, voter) => tagged_address(ntw.code_byte(), voter),
            LookupKey::Network(voter) => tagged_address(2, voter),
            LookupKey::VoteStarters(ntw) => admin(5, ntw),
            LookupKey::ActiveVotes(ntw) => admin(6, ntw),
            LookupKey::ConcludedVotes(ntw) => admin(7, ntw),
        }
    }

    /// Distinct records never share a key: whatever the tables, the networks
    /// and the entities, two keys are the same only where the records are.
    pub proof fn lemma_keys_distinct(a: LookupKey, b: LookupKey)
        requires
            a != b,
        ensures
            a.spec_bytes() != b.spec_bytes(),
    {
        lemma_key_shape(a);
        lemma_key_shape(b);
        lemma_storage_tags();
        if a.spec_bytes() == b.spec_bytes() {
            let ka = a.spec_bytes();
            let kb = b.spec_bytes();
            match (a, b) {
                (LookupKey::Votes(f1, _), LookupKey::Votes(f2, _)) => {
                    lemma_same_number(f1, f2, ka[4], kb[4]);
                },
                (LookupKey::Timestamp(f1, _), LookupKey::Timestamp(f2, _)) => {
                    lemma_same_number(f1, f2, ka[4], kb[4]);
                },
                (LookupKey::Storage(_, _, f1), LookupKey::Storage(_, _, f2)) => {
                    lemma_same_number(f1, f2, ka[4], kb[4]);
                },
                (LookupKey::Voter(_, v1), LookupKey::Voter(_, v2)) => {
                    assert(ka[0] == kb[0]);
                    assert(v1@ =~= ka.subrange(1, 21));
                    assert(v2@ =~= kb.subrange(1, 21));
                    Address::lemma_view_injective(v1, v2);
                },
                (LookupKey::Network(v1), LookupKey::Network(v2)) => {
                    assert(v1@ =~= ka.subrange(1, 21));
                    assert(v2@ =~= kb.subrange(1, 21));
                    Address::lemma_view_injective(v1, v2);
                },
                (LookupKey::VoteStarters(_), LookupKey::VoteStarters(_)) => {
                    assert(ka[7] == kb[7]);
                },
                (LookupKey::ActiveVotes(_), LookupKey::ActiveVotes(_)) => {
                    assert(ka[7] == kb[7]);
                },
                (LookupKey::ConcludedVotes(_), LookupKey::ConcludedVotes(_)) => {
                    assert(ka[7] == kb[7]);
                },
                _ => {
                    assert(ka.len() == kb.len());
                    if ka.len() == 5 {
                        assert(ka[4] == kb[4]);
                    } else if ka.len() == 21 {
                        assert(ka[0] == kb[0]);
                    } else {
                        assert(ka[6] == kb[6]);
                    }
                },
            }
        }
    }
}

/// The length of a key and the byte that tells its table apart.
pub proof fn lemma_key_shape(k: LookupKey)
    ensures
        match k {
            LookupKey::Votes(_, ntw) => k.spec_bytes().len() == 5 && k.spec_bytes()[4]
                == ntw.code(),
            LookupKey::Storage(c, ntw, _) => k.spec_bytes().len() == 5 && k.spec_bytes()[4]
                == storage_tag(c, ntw) && 2 <= storage_tag(c, ntw) <= 14 && storage_tag(c, ntw)
                != 9 && storage_tag(c, ntw) != 10,
            LookupKey::Timestamp(_, ntw) => k.spec_bytes().len() == 5 && k.spec_bytes()[4] == 9
                + ntw.code(),
            LookupKey::Voter(ntw, _) => k.spec_bytes().len() == 21 && k.spec_bytes()[0]
                == ntw.code(),
            LookupKey::Network(_) => k.spec_bytes().len() == 21 && k.spec_bytes()[0] == 2,
            LookupKey::VoteStarters(ntw) => k.spec_bytes().len() == 8 && k.spec_bytes()[6] == 5
                && k.spec_bytes()[7] == ntw.code(),
            LookupKey::ActiveVotes(ntw) => k.spec_bytes().len() == 8 && k.spec_bytes()[6] == 6
                && k.spec_bytes()[7] == ntw.code(),
            LookupKey::ConcludedVotes(ntw) => k.spec_bytes().len() == 8 && k.spec_bytes()[6] == 7
                && k.spec_bytes()[7] == ntw.code(),
        },
{
    lemma_storage_tags();
    match k {
        LookupKey::Votes(fip, _) => lemma_be_bytes_len(fip as nat, 4),
        LookupKey::Storage(_, _, fip) => lemma_be_bytes_len(fip as nat, 4),
        LookupKey::Timestamp(fip, _) => lemma_be_bytes_len(fip as nat, 4),
        _ => {},
    }
}

/// The six tags of the storage-power table.
pub proof fn lemma_storage_tags()
    ensures
        storage_tag(VoteOption::Yay, Network::Mainnet) == 2,
        storage_tag(VoteOption::Nay, Network::Mainnet) == 3,
        storage_tag(VoteOption::Abstain, Network::Mainnet) == 7,
        storage_tag(VoteOption::Yay, Network::Testnet) == 4,
        storage_tag(VoteOption::Nay, Network::Testnet) == 6,
        storage_tag(VoteOption::Abstain, Network::Testnet) == 14,
{
    assert(2int * 1 == 2 && 3int * 1 == 3 && 7int * 1 == 7) by (nonlinear_arith);
    assert(2int * 2 == 4 && 3int * 2 == 6 && 7int * 2 == 14) by (nonlinear_arith);
}

/// Two numeric keys that are equal belong to the same proposal.
proof fn lemma_same_number(f1: u32, f2: u32, t1: u8, t2: u8)
    requires
        numeric_key(f1, t1) == numeric_key(f2, t2),
    ensures
        f1 == f2,
        t1 == t2,
{
    lemma_be_bytes_len(f1 as nat, 4);
    lemma_be_bytes_len(f2 as nat, 4);
    let k1 = numeric_key(f1, t1);
    let k2 = numeric_key(f2, t2);
    assert(k1.subrange(0, 4) =~= be_bytes(f1 as nat, 4));
    assert(k2.subrange(0, 4) =~= be_bytes(f2 as nat, 4));
    assert(k1[4] == t1 && k2[4] == t2);
    lemma_pow256_widths();
    lemma_be_bytes_injective(f1 as nat, f2 as nat, 4);
}

fn numeric(fip: u32, tag: u8) -> (key: Vec<u8>)
    ensures
        key@ == numeric_key(fip, tag),
{
    let mut key: Vec<u8> = Vec::new();
    put_be(&mut key, fip as u128, 4);
    key.push(tag);
    assert(key@ =~= numeric_key(fip, tag));
    key
}

fn tagged_address(tag: u8, voter: &Address) -> (key: Vec<u8>)
    ensures
        key@ == seq![tag] + voter@,
{
    let mut key: Vec<u8> = Vec::new();
    key.push(tag);
    let mut raw = voter.to_vec();
    key.append(&mut raw);
    assert(key@ =~= seq![tag] + voter@);
    key
}

fn admin(table: u8, ntw: &Network) -> (key: Vec<u8>)
    ensures
        key@ == admin_key(table, *ntw),
{
    let mut key: Vec<u8> = Vec::new();
    key.push(8);
    key.push(0);
    key.push(0);
    key.push(8);
    key.push(1);
    key.push(3);
    key.push(table);
    key.push(ntw.code_byte());
    assert(key@ =~= admin_key(table, *ntw));
    key
}

} // verus!
