use crate::address::{address_views, decode_addresses, encode_addresses, Address};
use crate::codec::{
    be_bytes, bytes_eq, decode_u32s, encode_u32s, lemma_pow256_widths, put_be, read_be,
};
use crate::errors::LedgerError;
use crate::keys::{active_key, concluded_key, votes_key, LookupKey};
use crate::laws::{lemma_consistent_preserved, lemma_starters_sorted, Operation};
use crate::messages::votes::{
    decode_votes, has_ballot, same_ballot, vote_views, Vote, VoteOption, VoteView,
};
use crate::model::{
    active, active_votes_records, active_votes_result, add_vote_records, add_vote_result, all_timed,
    answered, bootstrap_starters, capped, concluded, consistent, delegates, expired, insert_sorted,
    listed, network_consistent, network_name, power, power_sum, register_starter_records, register_voter_records, registered,
    remove_starter_records, sorted_set, start_time, start_vote_records, start_vote_result, started,
    starters, stored_bytes, stored_u32s, strictly_sorted, sweep_records, sweep_result, tally,
    unregister_voter_records, vote_status_records, vote_status_result, voter_network, votes,
    Records,
};
use crate::seqs::{kept, lemma_kept_contains, lemma_kept_push};
use crate::storage::Network;
use crate::store::Store;
use vstd::prelude::*;

verus! {

/// Where a proposal stands.
#[derive(Debug, PartialEq, Eq, Clone, Copy, Structural)]
pub enum VoteStatus {
    /// The proposal was never started.
    DoesNotExist,
    /// Voting is open for as many more seconds.
    InProgress(u64),
    /// Voting is over.
    Concluded,
}

/// The ledger of votes, voter registrations and proposal lifecycles, kept in
/// the tables of one key-value store.
///
/// Every change goes through `&mut self`, so one ledger serves one writer at
/// a time: a check and the change that rests on it are never interleaved
/// with another change.
pub struct Redis {
    store: Store,
}

impl View for Redis {
    type V = Records;

    closed spec fn view(&self) -> Records {
        self.store@
    }
}

impl Redis {
    /// Opens the ledger on the records of `store`.
    pub fn new(store: Store) -> (redis: Redis)
        ensures
            redis@ == store@,
    {
        Redis { store }
    }

    /// The store that holds the ledger's records.
    pub fn store(&self) -> (store: &Store)
        ensures
            store@ == self@,
    {
        &self.store
    }

    /// Closes the ledger and hands back its store.
    pub fn into_store(self) -> (store: Store)
        ensures
            store@ == self@,
    {
        self.store
    }

    fn read(&self, key: &LookupKey) -> (raw: Vec<u8>)
        ensures
            raw@ == stored_bytes(self@, key.spec_bytes()),
    {
        match self.store.get(&key.to_bytes()) {
            Some(raw) => raw,
            None => Vec::new(),
        }
    }

    fn read_u32s(&self, key: &LookupKey) -> (list: Result<Vec<u32>, LedgerError>)
        ensures
            list is Ok <==> stored_u32s(self@, key.spec_bytes()) is Some,
            list matches Ok(v) ==> v@ == stored_u32s(self@, key.spec_bytes()).unwrap(),
            list matches Err(e) ==> e == LedgerError::Decode,
    {
        let raw = self.read(key);
        match decode_u32s(&raw) {
            Some(list) => Ok(list),
            None => Err(LedgerError::Decode),
        }
    }

    /// Whether the records are consistent: on each network, no proposal is
    /// listed both as in progress and as concluded, and every listed
    /// proposal has a start time on record. Records that were written through
    /// the ledger alone, starting from none, are.
    pub fn is_consistent(&self) -> (yes: bool)
        ensures
            yes == consistent(self@),
    {
        self.network_is_consistent(Network::Mainnet) && self.network_is_consistent(
            Network::Testnet,
        )
    }

    #[verifier::loop_isolation(false)]
    fn network_is_consistent(&self, ntw: Network) -> (yes: bool)
        ensures
            yes == network_consistent(self@, ntw),
    {
        let going: Vec<u32> = match self.list_active(ntw) {
            Ok(list) => list,
            Err(_) => Vec::new(),
        };
        let over: Vec<u32> = match self.concluded_votes(ntw) {
            Ok(list) => list,
            Err(_) => Vec::new(),
        };
        let ghost db = self@;
        assert forall|fip: u32|
            listed(db, active_key(ntw), fip) == going@.contains(fip) && listed(
                db,
                concluded_key(ntw),
                fip,
            ) == over@.contains(fip) by {}
        let mut i: usize = 0;
        while i < going.len()
            invariant
                i <= going@.len(),
                db == self@,
                forall|j: int|
                    0 <= j < i ==> started(db, #[trigger] going@[j], ntw) && !over@.contains(
                        going@[j],
                    ),
            decreases going@.len() - i,
        {
            if !self.vote_exists(ntw, going[i]) || holds_number(&over, going[i]) {
                assert(listed(db, active_key(ntw), going@[i as int])) by {
                    assert(going@.contains(going@[i as int]));
                }
                return false;
            }
            i += 1;
        }
        let mut k: usize = 0;
        while k < over.len()
            invariant
                k <= over@.len(),
                db == self@,
                forall|j: int| 0 <= j < k ==> started(db, #[trigger] over@[j], ntw),
            decreases over@.len() - k,
        {
            if !self.vote_exists(ntw, over[k]) {
                assert(listed(db, concluded_key(ntw), over@[k as int])) by {
                    assert(over@.contains(over@[k as int]));
                }
                return false;
            }
            k += 1;
        }
        true
    }

    /// Whether the proposal was started on the network.
    pub fn vote_exists(&self, ntw: Network, fip: u32) -> (exists: bool)
        ensures
            exists == started(self@, fip, ntw),
    {
        self.store.contains(&LookupKey::Timestamp(fip, ntw).to_bytes())
    }

    /// The addresses that were registered to start votes on the network.
    pub fn voter_starters(&self, ntw: Network) -> (list: Result<Vec<Address>, LedgerError>)
        ensures
            list is Ok <==> starters(self@, ntw) is Some,
            list matches Ok(v) ==> address_views(v@) == starters(self@, ntw).unwrap(),
            list matches Err(e) ==> e == LedgerError::Decode,
    {
        let raw = self.read(&LookupKey::VoteStarters(ntw));
        match decode_addresses(&raw) {
            Some(list) => Ok(list),
            None => Err(LedgerError::Decode),
        }
    }

    /// Whether the address is in the network's list of vote starters.
    pub fn is_authorized_starter(&self, voter: Address, ntw: Network) -> (found: Result<
        bool,
        LedgerError,
    >)
        ensures
            found is Ok <==> starters(self@, ntw) is Some,
            found matches Ok(b) ==> b == starters(self@, ntw).unwrap().contains(voter@),
            found matches Err(e) ==> e == LedgerError::Decode,
    {
        match self.voter_starters(ntw) {
            Ok(list) => Ok(holds_address(&list, &voter)),
            Err(e) => Err(e),
        }
    }

    /// Whether the voter is registered for at least one storage provider on
    /// the network. A malformed registration counts as none.
    pub fn is_registered(&self, voter: Address, ntw: Network) -> (found: bool)
        ensures
            found == registered(self@, voter@, ntw),
    {
        match self.read_u32s(&LookupKey::Voter(ntw, voter)) {
            Ok(ids) => ids.len() > 0,
            Err(_) => false,
        }
    }

    /// The storage providers that the voter is registered for on the network;
    /// none where the voter is not registered there.
    pub fn voter_delegates(&self, voter: Address, ntw: Network) -> (ids: Result<
        Vec<u32>,
        LedgerError,
    >)
        ensures
            ids is Ok <==> delegates(self@, voter@, ntw) is Some,
            ids matches Ok(v) ==> v@ == delegates(self@, voter@, ntw).unwrap(),
            ids matches Err(e) ==> e == LedgerError::Decode,
    {
        self.read_u32s(&LookupKey::Voter(ntw, voter))
    }

    /// The network that the voter registered on.
    pub fn network(&self, voter: Address) -> (ntw: Result<Network, LedgerError>)
        ensures
            ntw == voter_network(self@, voter@),
    {
        match self.store.get(&LookupKey::Network(voter).to_bytes()) {
            None => Err(LedgerError::VoterNotRegistered),
            Some(raw) => {
                if is_name(&raw, Network::Mainnet) {
                    Ok(Network::Mainnet)
                } else if is_name(&raw, Network::Testnet) {
                    Ok(Network::Testnet)
                } else {
                    Err(LedgerError::Decode)
                }
            },
        }
    }

    /// When voting on the proposal started, in seconds since the epoch.
    pub fn vote_start(&self, fip_number: u32, ntw: Network) -> (time: Result<u64, LedgerError>)
        ensures
            time is Ok <==> start_time(self@, fip_number, ntw) is Some,
            time matches Ok(t) ==> t == start_time(self@, fip_number, ntw).unwrap(),
            time matches Err(e) ==> e == (if started(self@, fip_number, ntw) {
                LedgerError::Decode
            } else {
                LedgerError::DoesNotExist
            }),
    {
        match self.store.get(&LookupKey::Timestamp(fip_number, ntw).to_bytes()) {
            None => Err(LedgerError::DoesNotExist),
            Some(raw) => {
                if raw.len() != 8 {
                    Err(LedgerError::Decode)
                } else {
                    let value: u128 = read_be(&raw, 0, 8);
                    proof {
                        lemma_pow256_widths();
                        assert(raw@.subrange(0, 8) =~= raw@);
                    }
                    Ok(value as u64)
                }
            },
        }
    }

    /// The votes cast on the proposal, in the order in which they were cast.
    pub fn votes(&self, fip_number: u32, ntw: Network) -> (list: Result<Vec<Vote>, LedgerError>)
        ensures
            list is Ok <==> votes(self@, fip_number, ntw) is Some,
            list matches Ok(v) ==> vote_views(v@) == votes(self@, fip_number, ntw).unwrap(),
            list matches Err(e) ==> e == LedgerError::Decode,
    {
        let raw = self.read(&LookupKey::Votes(fip_number, ntw));
        match decode_votes(&raw) {
            Some(list) => Ok(list),
            None => Err(LedgerError::Decode),
        }
    }

    /// The storage power recorded behind a choice on the proposal.
    pub fn get_storage(&self, fip_number: u32, vote: VoteOption, ntw: Network) -> (total: Result<
        u128,
        LedgerError,
    >)
        ensures
            total is Ok <==> power(self@, vote, ntw, fip_number) is Some,
            total matches Ok(p) ==> p == power(self@, vote, ntw, fip_number).unwrap(),
            total matches Err(e) ==> e == LedgerError::Decode,
    {
        let raw = self.read(&LookupKey::Storage(vote, ntw, fip_number));
        if raw.len() == 0 {
            Ok(0)
        } else if raw.len() != 16 {
            Err(LedgerError::Decode)
        } else {
            let value: u128 = read_be(&raw, 0, 16);
            assert(raw@.subrange(0, 16) =~= raw@);
            Ok(value)
        }
    }

    /// The proposals listed as concluded on the network.
    pub fn concluded_votes(&self, ntw: Network) -> (list: Result<Vec<u32>, LedgerError>)
        ensures
            list is Ok <==> concluded(self@, ntw) is Some,
            list matches Ok(v) ==> v@ == concluded(self@, ntw).unwrap(),
            list matches Err(e) ==> e == LedgerError::Decode,
    {
        self.read_u32s(&LookupKey::ConcludedVotes(ntw))
    }

    /// The proposals listed as in progress on the network, as stored: no
    /// proposal is moved to the concluded ones.
    pub fn list_active(&self, ntw: Network) -> (list: Result<Vec<u32>, LedgerError>)
        ensures
            list is Ok <==> active(self@, ntw) is Some,
            list matches Ok(v) ==> v@ == active(self@, ntw).unwrap(),
            list matches Err(e) ==> e == LedgerError::Decode,
    {
        self.read_u32s(&LookupKey::ActiveVotes(ntw))
    }

    /// Registers the voter on the network for the given storage providers, in
    /// place of any earlier registration there, and records the network as
    /// the voter's.
    pub fn register_voter(&mut self, voter: Address, ntw: Network, sp_ids: Vec<u32>) -> (done:
        Result<(), LedgerError>)
        ensures
            done is Ok,
            final(self)@ == register_voter_records(old(self)@, voter@, ntw, sp_ids@),
            consistent(old(self)@) ==> consistent(final(self)@),
    {
        proof {
            if consistent(self@) {
                lemma_consistent_preserved(
                    self@,
                    Operation::RegisterVoter { voter: voter@, ntw, sp_ids: sp_ids@ },
                );
            }
        }
        self.store.set(LookupKey::Network(voter).to_bytes(), name_bytes(ntw));
        self.store.set(LookupKey::Voter(ntw, voter).to_bytes(), encode_u32s(&sp_ids));
        Ok(())
    }

    /// Removes the voter's registration on the network and the record of the
    /// voter's network.
    pub fn unregister_voter(&mut self, voter: Address, ntw: Network) -> (done: Result<
        (),
        LedgerError,
    >)
        ensures
            done is Ok,
            final(self)@ == unregister_voter_records(old(self)@, voter@, ntw),
            consistent(old(self)@) ==> consistent(final(self)@),
    {
        proof {
            if consistent(self@) {
                lemma_consistent_preserved(
                    self@,
                    Operation::UnregisterVoter { voter: voter@, ntw },
                );
            }
        }
        self.store.del(&LookupKey::Network(voter).to_bytes());
        self.store.del(&LookupKey::Voter(ntw, voter).to_bytes());
        Ok(())
    }

    /// Removes the votes cast on the proposal.
    pub fn flush_vote(&mut self, fip_number: u32, ntw: Network) -> (done: Result<(), LedgerError>)
        ensures
            done is Ok,
            final(self)@ == old(self)@.remove(votes_key(fip_number, ntw)),
            consistent(old(self)@) ==> consistent(final(self)@),
    {
        proof {
            if consistent(self@) {
                lemma_consistent_preserved(self@, Operation::FlushVote { fip: fip_number, ntw });
            }
        }
        self.store.del(&LookupKey::Votes(fip_number, ntw).to_bytes());
        Ok(())
    }

    /// Removes every record.
    pub fn flush_all(&mut self) -> (done: Result<(), LedgerError>)
        ensures
            done is Ok,
            final(self)@ == Map::<Seq<u8>, Seq<u8>>::empty(),
            consistent(old(self)@) ==> consistent(final(self)@),
    {
        proof {
            if consistent(self@) {
                lemma_consistent_preserved(self@, Operation::FlushAll);
            }
        }
        self.store.clear();
        Ok(())
    }

    /// Adds the address to the network's list of vote starters, which is
    /// stored sorted with each address once. Whether the caller may do so is
    /// for the caller to check.
    pub fn register_voter_starter(&mut self, voter: Address, ntw: Network) -> (done: Result<
        (),
        LedgerError,
    >)
        ensures
            done is Ok <==> starters(old(self)@, ntw) is Some,
            done matches Err(e) ==> e == LedgerError::Decode,
            final(self)@ == register_starter_records(old(self)@, voter@, ntw),
            done is Ok ==> starters(final(self)@, ntw) is Some,
            done is Ok ==> strictly_sorted(starters(final(self)@, ntw).unwrap()),
            done is Ok ==> forall|a: Seq<u8>| #[trigger]
                starters(final(self)@, ntw).unwrap().contains(a) <==> starters(
                    old(self)@,
                    ntw,
                ).unwrap().contains(a) || a == voter@,
            consistent(old(self)@) ==> consistent(final(self)@),
    {
        proof {
            if consistent(self@) {
                lemma_consistent_preserved(
                    self@,
                    Operation::RegisterStarter { voter: voter@, ntw },
                );
            }
            if starters(self@, ntw) is Some {
                lemma_starters_sorted(self@, voter@, ntw);
            }
        }
        let mut list = match self.voter_starters(ntw) {
            Ok(list) => list,
            Err(e) => {
                return Err(e);
            },
        };
        proof {
            assert(address_views(list@.push(voter)) =~= address_views(list@).push(voter@));
        }
        list.push(voter);
        let sorted = sort_unique(&list);
        self.store.set(LookupKey::VoteStarters(ntw).to_bytes(), encode_addresses(&sorted));
        Ok(())
    }

    /// Removes the address from the network's list of vote starters. Nothing
    /// changes where it is not in the list.
    pub fn remove_voter_starters(&mut self, voter: Address, ntw: Network) -> (done: Result<
        (),
        LedgerError,
    >)
        ensures
            done is Ok <==> starters(old(self)@, ntw) is Some,
            done matches Err(e) ==> e == LedgerError::Decode,
            final(self)@ == remove_starter_records(old(self)@, voter@, ntw),
            consistent(old(self)@) ==> consistent(final(self)@),
    {
        proof {
            if consistent(self@) {
                lemma_consistent_preserved(self@, Operation::RemoveStarter { voter: voter@, ntw });
            }
        }
        let list = match self.voter_starters(ntw) {
            Ok(list) => list,
            Err(e) => {
                return Err(e);
            },
        };
        if holds_address(&list, &voter) {
            let ghost wanted = |a: Seq<u8>| a != voter@;
            let ghost views = address_views(list@);
            let mut rest: Vec<Address> = Vec::new();
            let mut i: usize = 0;
            assert(address_views(rest@) =~= kept(views.subrange(0, 0), wanted));
            while i < list.len()
                invariant
                    i <= list@.len(),
                    views == address_views(list@),
                    wanted == (|a: Seq<u8>| a != voter@),
                    address_views(rest@) == kept(views.subrange(0, i as int), wanted),
                decreases list@.len() - i,
            {
                proof {
                    assert(views.subrange(0, i + 1) =~= views.subrange(0, i as int).push(
                        views[i as int],
                    ));
                    lemma_kept_push(views.subrange(0, i as int), wanted, views[i as int]);
                    assert(address_views(rest@.push(list@[i as int])) =~= address_views(rest@).push(
                        views[i as int],
                    ));
                }
                if !list[i].same(&voter) {
                    rest.push(list[i]);
                }
                i += 1;
            }
            assert(views.subrange(0, list@.len() as int) =~= views);
            self.store.set(LookupKey::VoteStarters(ntw).to_bytes(), encode_addresses(&rest));
        }
        Ok(())
    }

    /// Starts voting on a proposal at time `now`, in seconds since the epoch.
    /// The signer must be a vote starter of the network or one of the
    /// bootstrap addresses, and the proposal must not have been started.
    pub fn start_vote_at(
        &mut self,
        fip_number: u32,
        signer: Address,
        ntw: Network,
        now: u64,
    ) -> (done: Result<(), LedgerError>)
        ensures
            done == start_vote_result(old(self)@, fip_number, signer@, ntw),
            final(self)@ == start_vote_records(old(self)@, fip_number, signer@, ntw, now),
            consistent(old(self)@) ==> consistent(final(self)@),
    {
        proof {
            if consistent(self@) {
                lemma_consistent_preserved(
                    self@,
                    Operation::StartVote { fip: fip_number, signer: signer@, ntw, now },
                );
            }
        }
        let list = match self.voter_starters(ntw) {
            Ok(list) => list,
            Err(e) => {
                return Err(e);
            },
        };
        if !holds_address(&list, &signer) && !holds_address(&authorized_voters(), &signer) {
            return Err(LedgerError::NotAuthorized);
        }
        if self.vote_exists(ntw, fip_number) {
            return Err(LedgerError::AlreadyExists);
        }
        let mut fips = match self.list_active(ntw) {
            Ok(fips) => fips,
            Err(e) => {
                return Err(e);
            },
        };
        let mut stamp: Vec<u8> = Vec::new();
        put_be(&mut stamp, now as u128, 8);
        assert(stamp@ =~= be_bytes(now as nat, 8));
        self.store.set(LookupKey::Timestamp(fip_number, ntw).to_bytes(), stamp);
        fips.push(fip_number);
        self.store.set(LookupKey::ActiveVotes(ntw).to_bytes(), encode_u32s(&fips));
        Ok(())
    }

    /// Starts voting on a proposal now. See [`Redis::start_vote_at`].
    pub fn start_vote(&mut self, fip_number: u32, signer: Address, ntw: Network) -> (done: Result<
        (),
        LedgerError,
    >)
        ensures
            done == start_vote_result(old(self)@, fip_number, signer@, ntw),
            exists|now: u64|
                final(self)@ == #[trigger] start_vote_records(
                    old(self)@,
                    fip_number,
                    signer@,
                    ntw,
                    now,
                ),
            consistent(old(self)@) ==> consistent(final(self)@),
    {
        let now: u64 = unix_now();
        proof {
            if consistent(self@) {
                lemma_consistent_preserved(
                    self@,
                    Operation::StartVote { fip: fip_number, signer: signer@, ntw, now },
                );
            }
        }
        self.start_vote_at(fip_number, signer, ntw, now)
    }

    /// Moves every proposal whose voting has run `vote_length` seconds at
    /// time `now` from the network's list of proposals in progress to the end
    /// of its list of concluded ones, and returns those that stay in progress.
    pub fn sweep_expired_at(&mut self, ntw: Network, vote_length: u64, now: u64) -> (open: Result<
        Vec<u32>,
        LedgerError,
    >)
        ensures
            open is Ok <==> sweep_result(old(self)@, ntw, vote_length, now) is Ok,
            open matches Ok(v) ==> Ok::<Seq<u32>, LedgerError>(v@) == sweep_result(
                old(self)@,
                ntw,
                vote_length,
                now,
            ),
            open matches Err(e) ==> Err::<Seq<u32>, LedgerError>(e) == sweep_result(
                old(self)@,
                ntw,
                vote_length,
                now,
            ),
            final(self)@ == sweep_records(old(self)@, ntw, vote_length, now),
            consistent(old(self)@) ==> consistent(final(self)@),
    {
        proof {
            if consistent(self@) {
                lemma_consistent_preserved(self@, Operation::Sweep { ntw, vote_length, now });
            }
        }
        let fips = match self.list_active(ntw) {
            Ok(fips) => fips,
            Err(e) => {
                return Err(e);
            },
        };
        let ghost db = self@;
        let ghost gone = |fip: u32| expired(db, ntw, fip, vote_length, now);
        let ghost stays = |fip: u32| !expired(db, ntw, fip, vote_length, now);
        let mut open: Vec<u32> = Vec::new();
        let mut out: Vec<u32> = Vec::new();
        let mut i: usize = 0;
        assert(fips@.subrange(0, 0) =~= Seq::<u32>::empty());
        while i < fips.len()
            invariant
                i <= fips@.len(),
                db == self@,
                self@ == old(self)@,
                active(db, ntw) == Some(fips@),
                gone == (|fip: u32| expired(db, ntw, fip, vote_length, now)),
                stays == (|fip: u32| !expired(db, ntw, fip, vote_length, now)),
                all_timed(db, ntw, fips@.subrange(0, i as int)),
                open@ == kept(fips@.subrange(0, i as int), stays),
                out@ == kept(fips@.subrange(0, i as int), gone),
            decreases fips@.len() - i,
        {
            let fip: u32 = fips[i];
            proof {
                assert(fips@.subrange(0, i + 1) =~= fips@.subrange(0, i as int).push(fip));
                lemma_kept_push(fips@.subrange(0, i as int), stays, fip);
                lemma_kept_push(fips@.subrange(0, i as int), gone, fip);
            }
            let start: u64 = match self.vote_start(fip, ntw) {
                Ok(start) => start,
                Err(_) => {
                    assert(!all_timed(db, ntw, fips@)) by {
                        assert(fips@[i as int] == fip);
                    }
                    return Err(LedgerError::Decode);
                },
            };
            let passed: u64 = if now >= start {
                now - start
            } else {
                0
            };
            if passed >= vote_length {
                out.push(fip);
            } else {
                open.push(fip);
            }
            proof {
                let upto = fips@.subrange(0, i as int);
                let next = fips@.subrange(0, i + 1);
                assert forall|j: int| 0 <= j < next.len() implies start_time(
                    db,
                    #[trigger] next[j],
                    ntw,
                ) is Some by {
                    if j < i {
                        assert(upto[j] == next[j]);
                    }
                }
            }
            i += 1;
        }
        assert(fips@.subrange(0, fips@.len() as int) =~= fips@);
        if out.len() == 0 {
            return Ok(open);
        }
        let mut done = match self.concluded_votes(ntw) {
            Ok(done) => done,
            Err(e) => {
                return Err(e);
            },
        };
        if open.len() == 0 {
            self.store.del(&LookupKey::ActiveVotes(ntw).to_bytes());
        } else {
            self.store.set(LookupKey::ActiveVotes(ntw).to_bytes(), encode_u32s(&open));
        }
        done.append(&mut out);
        self.store.set(LookupKey::ConcludedVotes(ntw).to_bytes(), encode_u32s(&done));
        Ok(open)
    }

    /// Sweeps the network now. See [`Redis::sweep_expired_at`].
    pub fn sweep_expired(&mut self, ntw: Network, vote_length: u64) -> (open: Result<
        Vec<u32>,
        LedgerError,
    >)
        ensures
            exists|now: u64|
                {
                    &&& final(self)@ == #[trigger] sweep_records(old(self)@, ntw, vote_length, now)
                    &&& match open {
                        Ok(v) => Ok::<Seq<u32>, LedgerError>(v@) == sweep_result(
                            old(self)@,
                            ntw,
                            vote_length,
                            now,
                        ),
                        Err(e) => Err::<Seq<u32>, LedgerError>(e) == sweep_result(
                            old(self)@,
                            ntw,
                            vote_length,
                            now,
                        ),
                    }
                },
            consistent(old(self)@) ==> consistent(final(self)@),
    {
        let now: u64 = unix_now();
        proof {
            if consistent(self@) {
                lemma_consistent_preserved(self@, Operation::Sweep { ntw, vote_length, now });
            }
        }
        self.sweep_expired_at(ntw, vote_length, now)
    }

    /// The proposals in progress on the network. With a vote length, the
    /// network is first swept at time `now`: this query then changes the
    /// records.
    pub fn active_votes_at(&mut self, ntw: Network, vote_length: Option<u64>, now: u64) -> (open:
        Result<Vec<u32>, LedgerError>)
        ensures
            match open {
                Ok(v) => Ok::<Seq<u32>, LedgerError>(v@) == active_votes_result(
                    old(self)@,
                    ntw,
                    vote_length,
                    now,
                ),
                Err(e) => Err::<Seq<u32>, LedgerError>(e) == active_votes_result(
                    old(self)@,
                    ntw,
                    vote_length,
                    now,
                ),
            },
            final(self)@ == active_votes_records(old(self)@, ntw, vote_length, now),
            consistent(old(self)@) ==> consistent(final(self)@),
    {
        proof {
            if consistent(self@) && vote_length is Some {
                lemma_consistent_preserved(
                    self@,
                    Operation::Sweep { ntw, vote_length: vote_length.unwrap(), now },
                );
            }
        }
        match vote_length {
            Some(length) => self.sweep_expired_at(ntw, length, now),
            None => self.list_active(ntw),
        }
    }

    /// The proposals in progress on the network, swept now where a vote
    /// length is given. See [`Redis::active_votes_at`].
    pub fn active_votes(&mut self, ntw: Network, vote_length: Option<u64>) -> (open: Result<
        Vec<u32>,
        LedgerError,
    >)
        ensures
            exists|now: u64|
                {
                    &&& final(self)@ == #[trigger] active_votes_records(
                        old(self)@,
                        ntw,
                        vote_length,
                        now,
                    )
                    &&& match open {
                        Ok(v) => Ok::<Seq<u32>, LedgerError>(v@) == active_votes_result(
                            old(self)@,
                            ntw,
                            vote_length,
                            now,
                        ),
                        Err(e) => Err::<Seq<u32>, LedgerError>(e) == active_votes_result(
                            old(self)@,
                            ntw,
                            vote_length,
                            now,
                        ),
                    }
                },
            consistent(old(self)@) ==> consistent(final(self)@),
    {
        let now: u64 = unix_now();
        proof {
            if consistent(self@) && vote_length is Some {
                lemma_consistent_preserved(
                    self@,
                    Operation::Sweep { ntw, vote_length: vote_length.unwrap(), now },
                );
            }
        }
        self.active_votes_at(ntw, vote_length, now)
    }

    /// Where the proposal stands at time `now`, for votes that last
    /// `vote_length` seconds. The network is swept first, so this query
    /// changes the records.
    pub fn vote_status_at(
        &mut self,
        fip_number: u32,
        vote_length: u64,
        ntw: Network,
        now: u64,
    ) -> (status: Result<VoteStatus, LedgerError>)
        ensures
            status == vote_status_result(old(self)@, fip_number, vote_length, ntw, now),
            final(self)@ == vote_status_records(old(self)@, fip_number, vote_length, ntw, now),
            consistent(old(self)@) ==> consistent(final(self)@),
    {
        proof {
            if consistent(self@) {
                lemma_consistent_preserved(
                    self@,
                    Operation::VoteStatus { fip: fip_number, vote_length, ntw, now },
                );
            }
        }
        if !self.vote_exists(ntw, fip_number) {
            return Ok(VoteStatus::DoesNotExist);
        }
        let start = self.vote_start(fip_number, ntw);
        let open = match self.sweep_expired_at(ntw, vote_length, now) {
            Ok(open) => open,
            Err(e) => {
                return Err(e);
            },
        };
        if holds_number(&open, fip_number) {
            proof {
                let db = old(self)@;
                let fips = active(db, ntw).unwrap();
                lemma_kept_contains(
                    fips,
                    |fip: u32| !expired(db, ntw, fip, vote_length, now),
                    fip_number,
                );
                let j = choose|j: int| 0 <= j < fips.len() && fips[j] == fip_number;
                assert(start_time(db, fips[j], ntw) is Some);
            }
            match start {
                Ok(start) => {
                    let passed: u64 = if now >= start {
                        now - start
                    } else {
                        0
                    };
                    Ok(VoteStatus::InProgress(vote_length - passed))
                },
                Err(e) => Err(e),
            }
        } else {
            Ok(VoteStatus::Concluded)
        }
    }

    /// Where the proposal stands now. See [`Redis::vote_status_at`].
    pub fn vote_status(&mut self, fip_number: u32, vote_length: u64, ntw: Network) -> (status:
        Result<VoteStatus, LedgerError>)
        ensures
            exists|now: u64|
                {
                    &&& final(self)@ == #[trigger] vote_status_records(
                        old(self)@,
                        fip_number,
                        vote_length,
                        ntw,
                        now,
                    )
                    &&& status == vote_status_result(old(self)@, fip_number, vote_length, ntw, now)
                },
            consistent(old(self)@) ==> consistent(final(self)@),
    {
        let now: u64 = unix_now();
        proof {
            if consistent(self@) {
                lemma_consistent_preserved(
                    self@,
                    Operation::VoteStatus { fip: fip_number, vote_length, ntw, now },
                );
            }
        }
        self.vote_status_at(fip_number, vote_length, ntw, now)
    }

    /// Admits a vote on a proposal at time `now`. `powers` holds, for each of
    /// the storage providers that the voter is registered for and in their
    /// order, the storage power that the oracle reported, or `None` where it
    /// did not answer; an answer that is not there counts as missing.
    ///
    /// The voter's network is swept first. Power that was added before a
    /// missing answer stays added although the vote is refused.
    pub fn add_vote_at(
        &mut self,
        fip_number: u32,
        vote: Vote,
        voter: Address,
        vote_length: u64,
        now: u64,
        powers: &Vec<Option<u128>>,
    ) -> (done: Result<(), LedgerError>)
        ensures
            done == add_vote_result(
                old(self)@,
                fip_number,
                vote@,
                voter@,
                vote_length,
                now,
                powers@,
            ),
            final(self)@ == add_vote_records(
                old(self)@,
                fip_number,
                vote@,
                voter@,
                vote_length,
                now,
                powers@,
            ),
            consistent(old(self)@) ==> consistent(final(self)@),
    {
        proof {
            if consistent(self@) {
                vote.lemma_voter_len();
                lemma_consistent_preserved(self@, Operation::AddVote {
                        fip: fip_number,
                        vote: vote@,
                        voter: voter@,
                        vote_length,
                        now,
                        powers: powers@,
                    });
            }
        }
        let ntw = match self.network(voter) {
            Ok(ntw) => ntw,
            Err(e) => {
                return Err(e);
            },
        };
        let open = match self.sweep_expired_at(ntw, vote_length, now) {
            Ok(open) => open,
            Err(e) => {
                return Err(e);
            },
        };
        if !holds_number(&open, fip_number) {
            return Err(LedgerError::VoteNotActive);
        }
        let ids = match self.voter_delegates(voter, ntw) {
            Ok(ids) => ids,
            Err(e) => {
                return Err(e);
            },
        };
        if ids.len() == 0 {
            return Err(LedgerError::NoAuthorizedProviders);
        }
        let mut raw = self.read(&LookupKey::Votes(fip_number, ntw));
        let cast = match decode_votes(&raw) {
            Some(cast) => cast,
            None => {
                return Err(LedgerError::Decode);
            },
        };
        if holds_ballot(&cast, &vote) {
            return Err(LedgerError::DuplicateVote);
        }
        let before: u128 = match self.get_storage(fip_number, vote.choice(), ntw) {
            Ok(before) => before,
            Err(e) => {
                return Err(e);
            },
        };
        let mut total: u128 = before;
        let mut count: usize = 0;
        while count < ids.len() && count < powers.len() && powers[count].is_some()
            invariant
                count <= ids@.len(),
                count <= powers@.len(),
                answered(powers@, count as nat) == count,
                total == capped(before + power_sum(powers@, count as nat)),
            decreases ids@.len() - count,
        {
            let more: u128 = powers[count].unwrap();
            total = if more > u128::MAX - total {
                u128::MAX
            } else {
                total + more
            };
            count += 1;
        }
        proof {
            lemma_answered_stops(powers@, count as nat, ids@.len());
        }
        if count > 0 {
            let mut weight: Vec<u8> = Vec::new();
            put_be(&mut weight, total, 16);
            assert(weight@ =~= be_bytes(total as nat, 16));
            self.store.set(LookupKey::Storage(vote.choice(), ntw, fip_number).to_bytes(), weight);
        }
        if count < ids.len() {
            return Err(LedgerError::OracleUnavailable);
        }
        vote.write_record(&mut raw);
        self.store.set(LookupKey::Votes(fip_number, ntw).to_bytes(), raw);
        Ok(())
    }

    /// Admits a vote on a proposal now. See [`Redis::add_vote_at`].
    pub fn add_vote(
        &mut self,
        fip_number: u32,
        vote: Vote,
        voter: Address,
        vote_length: u64,
        powers: &Vec<Option<u128>>,
    ) -> (done: Result<(), LedgerError>)
        ensures
            exists|now: u64|
                {
                    &&& final(self)@ == #[trigger] add_vote_records(
                        old(self)@,
                        fip_number,
                        vote@,
                        voter@,
                        vote_length,
                        now,
                        powers@,
                    )
                    &&& done == add_vote_result(
                        old(self)@,
                        fip_number,
                        vote@,
                        voter@,
                        vote_length,
                        now,
                        powers@,
                    )
                },
            consistent(old(self)@) ==> consistent(final(self)@),
    {
        let now: u64 = unix_now();
        proof {
            if consistent(self@) {
                vote.lemma_voter_len();
                lemma_consistent_preserved(self@, Operation::AddVote {
                        fip: fip_number,
                        vote: vote@,
                        voter: voter@,
                        vote_length,
                        now,
                        powers: powers@,
                    });
            }
        }
        self.add_vote_at(fip_number, vote, voter, vote_length, now, powers)
    }

    /// The number of votes for each choice on the proposal and the storage
    /// power recorded behind each.
    pub fn vote_results(&self, fip_number: u32, ntw: Network) -> (results: Result<
        VoteResults,
        LedgerError,
    >)
        ensures
            results is Ok <==> results_known(self@, fip_number, ntw),
            results matches Ok(r) ==> r == vote_results_of(self@, fip_number, ntw),
            results matches Err(e) ==> e == LedgerError::Decode,
    {
        let cast = match self.votes(fip_number, ntw) {
            Ok(cast) => cast,
            Err(e) => {
                return Err(e);
            },
        };
        let ghost views = vote_views(cast@);
        let ghost is_yay = |v: VoteView| v.choice == VoteOption::Yay;
        let ghost is_nay = |v: VoteView| v.choice == VoteOption::Nay;
        let ghost is_abstain = |v: VoteView| v.choice == VoteOption::Abstain;
        let mut yay: u64 = 0;
        let mut nay: u64 = 0;
        let mut abstain: u64 = 0;
        let mut i: usize = 0;
        assert(views.subrange(0, 0) =~= Seq::<VoteView>::empty());
        while i < cast.len()
            invariant
                i <= cast@.len(),
                views == vote_views(cast@),
                is_yay == (|v: VoteView| v.choice == VoteOption::Yay),
                is_nay == (|v: VoteView| v.choice == VoteOption::Nay),
                is_abstain == (|v: VoteView| v.choice == VoteOption::Abstain),
                yay == kept(views.subrange(0, i as int), is_yay).len(),
                nay == kept(views.subrange(0, i as int), is_nay).len(),
                abstain == kept(views.subrange(0, i as int), is_abstain).len(),
                yay + nay + abstain == i,
            decreases cast@.len() - i,
        {
            proof {
                let upto = views.subrange(0, i as int);
                assert(views.subrange(0, i + 1) =~= upto.push(views[i as int]));
                lemma_kept_push(upto, is_yay, views[i as int]);
                lemma_kept_push(upto, is_nay, views[i as int]);
                lemma_kept_push(upto, is_abstain, views[i as int]);
            }
            match cast[i].choice() {
                VoteOption::Yay => {
                    yay += 1;
                },
                VoteOption::Nay => {
                    nay += 1;
                },
                VoteOption::Abstain => {
                    abstain += 1;
                },
            }
            i += 1;
        }
        assert(views.subrange(0, cast@.len() as int) =~= views);
        let yay_storage_size = match self.get_storage(fip_number, VoteOption::Yay, ntw) {
            Ok(p) => p,
            Err(e) => {
                return Err(e);
            },
        };
        let nay_storage_size = match self.get_storage(fip_number, VoteOption::Nay, ntw) {
            Ok(p) => p,
            Err(e) => {
                return Err(e);
            },
        };
        let abstain_storage_size = match self.get_storage(fip_number, VoteOption::Abstain, ntw) {
            Ok(p) => p,
            Err(e) => {
                return Err(e);
            },
        };
        Ok(
            VoteResults {
                yay,
                nay,
                abstain,
                yay_storage_size,
                nay_storage_size,
                abstain_storage_size,
            },
        )
    }
}

/// Whether the list holds the address.
pub fn holds_address(list: &Vec<Address>, a: &Address) -> (found: bool)
    ensures
        found == address_views(list@).contains(a@),
{
    let mut i: usize = 0;
    while i < list.len()
        invariant
            i <= list@.len(),
            forall|j: int| 0 <= j < i ==> address_views(list@)[j] != a@,
        decreases list@.len() - i,
    {
        if list[i].same(a) {
            assert(address_views(list@)[i as int] == a@);
            return true;
        }
        i += 1;
    }
    false
}

/// Whether the list holds the number.
pub fn holds_number(list: &Vec<u32>, n: u32) -> (found: bool)
    ensures
        found == list@.contains(n),
{
    let mut i: usize = 0;
    while i < list.len()
        invariant
            i <= list@.len(),
            forall|j: int| 0 <= j < i ==> list@[j] != n,
        decreases list@.len() - i,
    {
        if list[i] == n {
            return true;
        }
        i += 1;
    }
    false
}

fn name_bytes(ntw: Network) -> (name: Vec<u8>)
    ensures
        name@ == network_name(ntw),
{
    let mut name: Vec<u8> = Vec::new();
    match ntw {
        Network::Mainnet => {
            name.push(109);
            name.push(97);
            name.push(105);
            name.push(110);
        },
        Network::Testnet => {
            name.push(116);
            name.push(101);
            name.push(115);
            name.push(116);
        },
    }
    name.push(110);
    name.push(101);
    name.push(116);
    assert(name@ =~= network_name(ntw));
    name
}

fn is_name(raw: &Vec<u8>, ntw: Network) -> (same: bool)
    ensures
        same == (raw@ == network_name(ntw)),
{
    let name = name_bytes(ntw);
    bytes_eq(raw, &name)
}

/// The tally of a proposal: how many votes each choice got, and how much
/// storage power stands behind each.
#[derive(Debug, PartialEq, Eq, Clone, Copy, Structural)]
pub struct VoteResults {
    /// How many votes are for the proposal.
    pub yay: u64,
    /// How many votes are against it.
    pub nay: u64,
    /// How many voters abstained.
    pub abstain: u64,
    /// The storage power behind the votes for the proposal.
    pub yay_storage_size: u128,
    /// The storage power behind the votes against it.
    pub nay_storage_size: u128,
    /// The storage power of those who abstained.
    pub abstain_storage_size: u128,
}

/// Whether the vote list of the proposal and the power behind each choice
/// are well-formed.
pub open spec fn results_known(db: Records, fip: u32, ntw: Network) -> bool {
    &&& votes(db, fip, ntw) is Some
    &&& power(db, VoteOption::Yay, ntw, fip) is Some
    &&& power(db, VoteOption::Nay, ntw, fip) is Some
    &&& power(db, VoteOption::Abstain, ntw, fip) is Some
}

/// The tally of a proposal: the votes counted by choice, and the power
/// recorded behind each choice.
pub open spec fn vote_results_of(db: Records, fip: u32, ntw: Network) -> VoteResults {
    VoteResults {
        yay: tally(votes(db, fip, ntw).unwrap(), VoteOption::Yay) as u64,
        nay: tally(votes(db, fip, ntw).unwrap(), VoteOption::Nay) as u64,
        abstain: tally(votes(db, fip, ntw).unwrap(), VoteOption::Abstain) as u64,
        yay_storage_size: power(db, VoteOption::Yay, ntw, fip).unwrap(),
        nay_storage_size: power(db, VoteOption::Nay, ntw, fip).unwrap(),
        abstain_storage_size: power(db, VoteOption::Abstain, ntw, fip).unwrap(),
    }
}

/// The addresses that may start votes on every network without having been
/// registered as vote starters.
pub fn authorized_voters() -> (list: Vec<Address>)
    ensures
        address_views(list@) == bootstrap_starters(),
{
    let mut list: Vec<Address> = Vec::new();
    list.push(
        Address(
            [
                0x3B, 0x97, 0x05, 0xF0, 0xEF, 0x88, 0xEE, 0x74, 0xB9, 0x92, 0x4e, 0x34, 0xA5, 0xAf,
                0x57, 0x8d, 0x2E, 0x24, 0xF3, 0x00,
            ],
        ),
    );
    list.push(
        Address(
            [
                0xf2, 0x36, 0x1d, 0x2a, 0x9a, 0x06, 0x77, 0xe8, 0xff, 0xd1, 0x51, 0x5d, 0x65, 0xcf,
                0x51, 0x90, 0xea, 0x20, 0xeb, 0x56,
            ],
        ),
    );
    list.push(
        Address(
            [
                0x47, 0xf0, 0x33, 0xEd, 0x0F, 0x94, 0x85, 0x67, 0x70, 0x08, 0xdC, 0x30, 0x50, 0x72,
                0x73, 0x60, 0x7A, 0x74, 0xE9, 0x2C,
            ],
        ),
    );
    list.push(
        Address(
            [
                0xe6, 0x62, 0xD7, 0x7E, 0x7e, 0x30, 0x96, 0x68, 0x3B, 0xAC, 0x8f, 0x1A, 0xd5, 0x26,
                0xFB, 0x03, 0x3E, 0x38, 0x10, 0xeB,
            ],
        ),
    );
    proof {
        let views = address_views(list@);
        let want = bootstrap_starters();
        assert(views.len() == want.len());
        assert(views[0] =~= want[0]);
        assert(views[1] =~= want[1]);
        assert(views[2] =~= want[2]);
        assert(views[3] =~= want[3]);
        assert(views =~= want);
    }
    list
}

/// Whether the list holds the ballot of `vote`: a vote by the same address
/// on the same proposal.
pub fn holds_ballot(list: &Vec<Vote>, vote: &Vote) -> (found: bool)
    ensures
        found == has_ballot(vote_views(list@), vote@),
{
    let mut i: usize = 0;
    while i < list.len()
        invariant
            i <= list@.len(),
            forall|j: int| 0 <= j < i ==> !same_ballot(#[trigger] vote_views(list@)[j], vote@),
        decreases list@.len() - i,
    {
        if list[i].voter().same(&vote.voter()) && list[i].fip() == vote.fip() {
            assert(same_ballot(vote_views(list@)[i as int], vote@));
            return true;
        }
        i += 1;
    }
    false
}

/// The addresses of `list` in ascending order, each once.
pub fn sort_unique(list: &Vec<Address>) -> (sorted: Vec<Address>)
    ensures
        address_views(sorted@) == sorted_set(address_views(list@)),
{
    let ghost views = address_views(list@);
    let mut sorted: Vec<Address> = Vec::new();
    let mut i: usize = 0;
    assert(views.subrange(0, 0) =~= Seq::<Seq<u8>>::empty());
    assert(address_views(sorted@) =~= Seq::<Seq<u8>>::empty());
    while i < list.len()
        invariant
            i <= list@.len(),
            views == address_views(list@),
            address_views(sorted@) == sorted_set(views.subrange(0, i as int)),
        decreases list@.len() - i,
    {
        proof {
            assert(views.subrange(0, i + 1).drop_last() =~= views.subrange(0, i as int));
            assert(views.subrange(0, i + 1).last() == views[i as int]);
        }
        insert_in_order(&mut sorted, list[i]);
        i += 1;
    }
    assert(views.subrange(0, list@.len() as int) =~= views);
    sorted
}

/// Puts the address in its place in a list: behind the last address that
/// comes before it. Nothing changes where the address is met on the way.
fn insert_in_order(sorted: &mut Vec<Address>, a: Address)
    ensures
        address_views(final(sorted)@) == insert_sorted(address_views(old(sorted)@), a@),
{
    let ghost views = address_views(sorted@);
    let mut i: usize = sorted.len();
    assert(views.subrange(0, i as int) =~= views);
    assert(views.subrange(i as int, views.len() as int) =~= Seq::<Seq<u8>>::empty());
    assert(insert_sorted(views, a@) =~= insert_sorted(views.subrange(0, i as int), a@)
        + views.subrange(i as int, views.len() as int));
    while i > 0 && !sorted[i - 1].precedes(&a)
        invariant
            i <= sorted@.len(),
            sorted@ == old(sorted)@,
            views == address_views(sorted@),
            insert_sorted(views, a@) == insert_sorted(views.subrange(0, i as int), a@)
                + views.subrange(i as int, views.len() as int),
        decreases i,
    {
        let ghost upto = views.subrange(0, i as int);
        assert(upto.last() == views[i - 1]);
        if sorted[i - 1].same(&a) {
            assert(upto + views.subrange(i as int, views.len() as int) =~= views);
            return ;
        }
        proof {
            assert(upto.drop_last() =~= views.subrange(0, i - 1));
            assert(insert_sorted(upto.drop_last(), a@).push(upto.last()) + views.subrange(
                i as int,
                views.len() as int,
            ) =~= insert_sorted(upto.drop_last(), a@) + views.subrange(
                i - 1,
                views.len() as int,
            ));
        }
        i -= 1;
    }
    proof {
        let upto = views.subrange(0, i as int);
        if i > 0 {
            assert(upto.last() == views[i - 1]);
        }
        assert(address_views(sorted@.insert(i as int, a)) =~= upto.push(a@) + views.subrange(
            i as int,
            views.len() as int,
        ));
    }
    sorted.insert(i, a);
}

/// Counting answers stops at the first that is missing.
proof fn lemma_answered_stops(powers: Seq<Option<u128>>, count: nat, limit: nat)
    requires
        count <= limit,
        answered(powers, count) == count,
        count == limit || count >= powers.len() || powers[count as int] is None,
    ensures
        answered(powers, limit) == count,
    decreases limit,
{
    if limit > count {
        lemma_answered_stops(powers, count, (limit - 1) as nat);
    }
}

/// The time on the system's clock, in whole seconds since the start of
/// 1970; zero where the clock stands before that. Nothing is claimed of the
/// value: the clock is read anew at each call.
#[verifier::external_body]
fn unix_now() -> (now: u64) {
    match std::time::SystemTime::now().duration_since(std::time::UNIX_EPOCH) {
        Ok(since) => since.as_secs(),
        Err(_) => 0,
    }
}

} // verus!
