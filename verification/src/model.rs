use crate::address::{addresses_bytes, bytes_addresses, lex_lt};
use crate::codec::{be_bytes, be_value, bytes_u32s, u32s_bytes};
use crate::errors::LedgerError;
use crate::keys::{
    active_key, concluded_key, network_key, starters_key, storage_key, timestamp_key, voter_key,
    votes_key,
};
use crate::messages::votes::{bytes_votes, has_ballot, vote_record, VoteOption, VoteView};
use crate::redis::VoteStatus;
use crate::seqs::kept;
use crate::storage::Network;
use vstd::prelude::*;

verus! {

/// What a store holds: a value for each key that has one.
pub type Records = Map<Seq<u8>, Seq<u8>>;

/// The bytes that stand for a network in a voter's network record.
pub open spec fn network_name(ntw: Network) -> Seq<u8> {
    match ntw {
        Network::Mainnet => seq![109u8, 97u8, 105u8, 110u8, 110u8, 101u8, 116u8],
        Network::Testnet => seq![116u8, 101u8, 115u8, 116u8, 110u8, 101u8, 116u8],
    }
}

/// The addresses that may start votes on every network without being in its
/// list of vote starters.
pub open spec fn bootstrap_starters() -> Seq<Seq<u8>> {
    seq![
        seq![
            0x3Bu8, 0x97u8, 0x05u8, 0xF0u8, 0xEFu8, 0x88u8, 0xEEu8, 0x74u8, 0xB9u8, 0x92u8, 0x4eu8,
            0x34u8, 0xA5u8, 0xAfu8, 0x57u8, 0x8du8, 0x2Eu8, 0x24u8, 0xF3u8, 0x00u8,
        ],
        seq![
            0xf2u8, 0x36u8, 0x1du8, 0x2au8, 0x9au8, 0x06u8, 0x77u8, 0xe8u8, 0xffu8, 0xd1u8, 0x51u8,
            0x5du8, 0x65u8, 0xcfu8, 0x51u8, 0x90u8, 0xeau8, 0x20u8, 0xebu8, 0x56u8,
        ],
        seq![
            0x47u8, 0xf0u8, 0x33u8, 0xEdu8, 0x0Fu8, 0x94u8, 0x85u8, 0x67u8, 0x70u8, 0x08u8, 0xdCu8,
            0x30u8, 0x50u8, 0x72u8, 0x73u8, 0x60u8, 0x7Au8, 0x74u8, 0xE9u8, 0x2Cu8,
        ],
        seq![
            0xe6u8, 0x62u8, 0xD7u8, 0x7Eu8, 0x7eu8, 0x30u8, 0x96u8, 0x68u8, 0x3Bu8, 0xACu8, 0x8fu8,
            0x1Au8, 0xd5u8, 0x26u8, 0xFBu8, 0x03u8, 0x3Eu8, 0x38u8, 0x10u8, 0xeBu8,
        ],
    ]
}

/// The bytes stored under `key`, none where nothing is stored.
pub open spec fn stored_bytes(db: Records, key: Seq<u8>) -> Seq<u8> {
    if db.contains_key(key) {
        db[key]
    } else {
        Seq::empty()
    }
}

/// The list of 32-bit numbers stored under `key`: empty where nothing is
/// stored, `None` where what is stored is no such list.
pub open spec fn stored_u32s(db: Records, key: Seq<u8>) -> Option<Seq<u32>> {
    bytes_u32s(stored_bytes(db, key))
}

/// The vote starters of a network, in stored order.
pub open spec fn starters(db: Records, ntw: Network) -> Option<Seq<Seq<u8>>> {
    bytes_addresses(stored_bytes(db, starters_key(ntw)))
}

/// The proposals listed as in progress on a network, in stored order.
pub open spec fn active(db: Records, ntw: Network) -> Option<Seq<u32>> {
    stored_u32s(db, active_key(ntw))
}

/// The proposals listed as concluded on a network, in stored order.
pub open spec fn concluded(db: Records, ntw: Network) -> Option<Seq<u32>> {
    stored_u32s(db, concluded_key(ntw))
}

/// The storage providers that a voter is registered for on a network.
pub open spec fn delegates(db: Records, voter: Seq<u8>, ntw: Network) -> Option<Seq<u32>> {
    stored_u32s(db, voter_key(ntw, voter))
}

/// The votes cast on a proposal, in the order in which they were cast.
pub open spec fn votes(db: Records, fip: u32, ntw: Network) -> Option<Seq<VoteView>> {
    bytes_votes(stored_bytes(db, votes_key(fip, ntw)))
}

/// Whether the proposal was started: whether it has a start time on record.
pub open spec fn started(db: Records, fip: u32, ntw: Network) -> bool {
    db.contains_key(timestamp_key(fip, ntw))
}

/// When voting on the proposal started, in seconds since the epoch; `None`
/// where there is no record or it is not eight bytes long.
pub open spec fn start_time(db: Records, fip: u32, ntw: Network) -> Option<u64> {
    if started(db, fip, ntw) && db[timestamp_key(fip, ntw)].len() == 8 {
        Some(be_value(db[timestamp_key(fip, ntw)]) as u64)
    } else {
        None
    }
}

/// The storage power recorded behind a choice on a proposal: zero where
/// nothing or an empty value is stored, `None` where the value is not 16
/// bytes long.
pub open spec fn power(db: Records, choice: VoteOption, ntw: Network, fip: u32) -> Option<u128> {
    let raw = stored_bytes(db, storage_key(choice, ntw, fip));
    if raw.len() == 0 {
        Some(0)
    } else if raw.len() == 16 {
        Some(be_value(raw) as u128)
    } else {
        None
    }
}

/// The network that a voter registered on.
pub open spec fn voter_network(db: Records, voter: Seq<u8>) -> Result<Network, LedgerError> {
    if !db.contains_key(network_key(voter)) {
        Err(LedgerError::VoterNotRegistered)
    } else if db[network_key(voter)] == network_name(Network::Mainnet) {
        Ok(Network::Mainnet)
    } else if db[network_key(voter)] == network_name(Network::Testnet) {
        Ok(Network::Testnet)
    } else {
        Err(LedgerError::Decode)
    }
}

/// Whether the voter is registered for at least one storage provider on the
/// network.
pub open spec fn registered(db: Records, voter: Seq<u8>, ntw: Network) -> bool {
    delegates(db, voter, ntw) matches Some(ids) && ids.len() > 0
}

/// Whether the address may start votes on the network: it is in the
/// network's list of vote starters or among the bootstrap addresses.
pub open spec fn may_start(list: Seq<Seq<u8>>, signer: Seq<u8>) -> bool {
    list.contains(signer) || bootstrap_starters().contains(signer)
}

/// The records after a voter was registered: the voter's network and the
/// providers the voter stands for, each in place of what was there.
pub open spec fn register_voter_records(
    db: Records,
    voter: Seq<u8>,
    ntw: Network,
    sp_ids: Seq<u32>,
) -> Records {
    db.insert(network_key(voter), network_name(ntw)).insert(
        voter_key(ntw, voter),
        u32s_bytes(sp_ids),
    )
}

/// The records after a voter was unregistered from a network: neither the
/// voter's network nor the registration on that network is left.
pub open spec fn unregister_voter_records(db: Records, voter: Seq<u8>, ntw: Network) -> Records {
    db.remove(network_key(voter)).remove(voter_key(ntw, voter))
}

/// `sorted` with `a` put in its place: after all that come before it. Where
/// `a` is there already, nothing changes.
pub open spec fn insert_sorted(sorted: Seq<Seq<u8>>, a: Seq<u8>) -> Seq<Seq<u8>>
    decreases sorted.len(),
{
    if sorted.len() == 0 || lex_lt(sorted.last(), a) {
        sorted.push(a)
    } else if sorted.last() == a {
        sorted
    } else {
        insert_sorted(sorted.drop_last(), a).push(sorted.last())
    }
}

/// The addresses of `list` in ascending order, each once.
pub open spec fn sorted_set(list: Seq<Seq<u8>>) -> Seq<Seq<u8>>
    decreases list.len(),
{
    if list.len() == 0 {
        Seq::empty()
    } else {
        insert_sorted(sorted_set(list.drop_last()), list.last())
    }
}

/// Whether the addresses ascend strictly.
pub open spec fn strictly_sorted(list: Seq<Seq<u8>>) -> bool {
    forall|i: int, j: int|
        0 <= i < j < list.len() ==> lex_lt(#[trigger] list[i], #[trigger] list[j])
}

/// The records after `voter` was added to the vote starters of a network:
/// the list is stored sorted, each address once. Nothing changes where the
/// stored list is malformed.
pub open spec fn register_starter_records(db: Records, voter: Seq<u8>, ntw: Network) -> Records {
    match starters(db, ntw) {
        Some(list) => db.insert(starters_key(ntw), addresses_bytes(sorted_set(list.push(voter)))),
        None => db,
    }
}

/// The records after `voter` was removed from the vote starters of a
/// network. Nothing changes where the voter is not in the list.
pub open spec fn remove_starter_records(db: Records, voter: Seq<u8>, ntw: Network) -> Records {
    match starters(db, ntw) {
        Some(list) => if list.contains(voter) {
            db.insert(starters_key(ntw), addresses_bytes(kept(list, |a: Seq<u8>| a != voter)))
        } else {
            db
        },
        None => db,
    }
}

/// Whether a request to start a vote is granted, and if not, why.
pub open spec fn start_vote_result(
    db: Records,
    fip: u32,
    signer: Seq<u8>,
    ntw: Network,
) -> Result<(), LedgerError> {
    match starters(db, ntw) {
        None => Err(LedgerError::Decode),
        Some(list) => if !may_start(list, signer) {
            Err(LedgerError::NotAuthorized)
        } else if started(db, fip, ntw) {
            Err(LedgerError::AlreadyExists)
        } else if active(db, ntw) is None {
            Err(LedgerError::Decode)
        } else {
            Ok(())
        },
    }
}

/// The records after a request to start a vote at time `now`: where it is
/// granted, the proposal has its start time and is listed last among the
/// proposals in progress.
pub open spec fn start_vote_records(
    db: Records,
    fip: u32,
    signer: Seq<u8>,
    ntw: Network,
    now: u64,
) -> Records {
    if start_vote_result(db, fip, signer, ntw) is Ok {
        db.insert(timestamp_key(fip, ntw), be_bytes(now as nat, 8)).insert(
            active_key(ntw),
            u32s_bytes(active(db, ntw).unwrap().push(fip)),
        )
    } else {
        db
    }
}

/// The seconds from `start` to `now`; none where the clock went backwards.
pub open spec fn elapsed(now: u64, start: u64) -> u64 {
    if now >= start {
        (now - start) as u64
    } else {
        0
    }
}

/// Whether voting on the proposal has run its length at time `now`.
pub open spec fn expired(db: Records, ntw: Network, fip: u32, vote_length: u64, now: u64) -> bool {
    start_time(db, fip, ntw) matches Some(start) && elapsed(now, start) >= vote_length
}

/// Whether each of the proposals has a well-formed start time.
pub open spec fn all_timed(db: Records, ntw: Network, fips: Seq<u32>) -> bool {
    forall|i: int| 0 <= i < fips.len() ==> start_time(db, #[trigger] fips[i], ntw) is Some
}

/// Of `fips`, the proposals whose voting has run its length at time `now`.
pub open spec fn run_out(
    db: Records,
    ntw: Network,
    fips: Seq<u32>,
    vote_length: u64,
    now: u64,
) -> Seq<u32> {
    kept(fips, |fip: u32| expired(db, ntw, fip, vote_length, now))
}

/// Of `fips`, the proposals whose voting is still open at time `now`.
pub open spec fn still_open(
    db: Records,
    ntw: Network,
    fips: Seq<u32>,
    vote_length: u64,
    now: u64,
) -> Seq<u32> {
    kept(fips, |fip: u32| !expired(db, ntw, fip, vote_length, now))
}

/// What a sweep of a network at time `now` returns: the proposals that stay
/// in progress. It fails where the list of proposals in progress is
/// malformed, where one of them has no well-formed start time, or where one
/// has run out and the list of concluded proposals is malformed.
pub open spec fn sweep_result(
    db: Records,
    ntw: Network,
    vote_length: u64,
    now: u64,
) -> Result<Seq<u32>, LedgerError> {
    match active(db, ntw) {
        None => Err(LedgerError::Decode),
        Some(fips) => if !all_timed(db, ntw, fips) {
            Err(LedgerError::Decode)
        } else if run_out(db, ntw, fips, vote_length, now).len() > 0 && concluded(db, ntw)
            is None {
            Err(LedgerError::Decode)
        } else {
            Ok(still_open(db, ntw, fips, vote_length, now))
        },
    }
}

/// The records after a sweep of a network at time `now`: the proposals that
/// have run out leave the list of those in progress and join, in their order,
/// the end of the list of concluded ones. A list of proposals in progress
/// that becomes empty is removed. Nothing changes where the sweep fails or
/// no proposal has run out.
pub open spec fn sweep_records(db: Records, ntw: Network, vote_length: u64, now: u64) -> Records {
    if sweep_result(db, ntw, vote_length, now) is Ok && run_out(
        db,
        ntw,
        active(db, ntw).unwrap(),
        vote_length,
        now,
    ).len() > 0 {
        let fips = active(db, ntw).unwrap();
        let open = still_open(db, ntw, fips, vote_length, now);
        let out = run_out(db, ntw, fips, vote_length, now);
        let swept = if open.len() == 0 {
            db.remove(active_key(ntw))
        } else {
            db.insert(active_key(ntw), u32s_bytes(open))
        };
        swept.insert(concluded_key(ntw), u32s_bytes(concluded(db, ntw).unwrap() + out))
    } else {
        db
    }
}

/// What a query for the proposals in progress returns: with a vote length,
/// what the sweep returns; without, the stored list.
pub open spec fn active_votes_result(
    db: Records,
    ntw: Network,
    vote_length: Option<u64>,
    now: u64,
) -> Result<Seq<u32>, LedgerError> {
    match vote_length {
        Some(length) => sweep_result(db, ntw, length, now),
        None => match active(db, ntw) {
            Some(fips) => Ok(fips),
            None => Err(LedgerError::Decode),
        },
    }
}

/// The records after a query for the proposals in progress: swept where a
/// vote length was given.
pub open spec fn active_votes_records(
    db: Records,
    ntw: Network,
    vote_length: Option<u64>,
    now: u64,
) -> Records {
    match vote_length {
        Some(length) => sweep_records(db, ntw, length, now),
        None => db,
    }
}

/// Where a proposal stands at time `now`.
pub open spec fn vote_status_result(
    db: Records,
    fip: u32,
    vote_length: u64,
    ntw: Network,
    now: u64,
) -> Result<VoteStatus, LedgerError> {
    if !started(db, fip, ntw) {
        Ok(VoteStatus::DoesNotExist)
    } else {
        match sweep_result(db, ntw, vote_length, now) {
            Err(e) => Err(e),
            Ok(open) => if open.contains(fip) {
                Ok(
                    VoteStatus::InProgress(
                        (vote_length - elapsed(now, start_time(db, fip, ntw).unwrap())) as u64,
                    ),
                )
            } else {
                Ok(VoteStatus::Concluded)
            },
        }
    }
}

/// The records after a status query: swept, where the proposal was started.
pub open spec fn vote_status_records(
    db: Records,
    fip: u32,
    vote_length: u64,
    ntw: Network,
    now: u64,
) -> Records {
    if started(db, fip, ntw) {
        sweep_records(db, ntw, vote_length, now)
    } else {
        db
    }
}

/// How many of the first `limit` answers come before the first one that is
/// missing.
pub open spec fn answered(powers: Seq<Option<u128>>, limit: nat) -> nat
    decreases limit,
{
    if limit == 0 {
        0
    } else {
        let before = answered(powers, (limit - 1) as nat);
        if before == limit - 1 && limit <= powers.len() && powers[limit - 1] is Some {
            limit
        } else {
            before
        }
    }
}

/// The sum of the first `count` answers, a missing one counting as zero.
pub open spec fn power_sum(powers: Seq<Option<u128>>, count: nat) -> nat
    decreases count,
{
    if count == 0 || count > powers.len() {
        0
    } else {
        power_sum(powers, (count - 1) as nat) + match powers[count - 1] {
            Some(p) => p as nat,
            None => 0,
        }
    }
}

/// A total of storage power, held at the largest value that fits.
pub open spec fn capped(total: int) -> u128 {
    if total > u128::MAX {
        u128::MAX
    } else {
        total as u128
    }
}

/// Whether a vote is admitted, and if not, why. The checks come in this
/// order: the voter's network, the sweep and the proposal being in progress,
/// the voter's providers, the ballot being new, the recorded power, and an
/// answer for each provider.
pub open spec fn add_vote_result(
    db: Records,
    fip: u32,
    vote: VoteView,
    voter: Seq<u8>,
    vote_length: u64,
    now: u64,
    powers: Seq<Option<u128>>,
) -> Result<(), LedgerError> {
    match voter_network(db, voter) {
        Err(e) => Err(e),
        Ok(ntw) => {
            let swept = sweep_records(db, ntw, vote_length, now);
            match sweep_result(db, ntw, vote_length, now) {
                Err(e) => Err(e),
                Ok(open) => if !open.contains(fip) {
                    Err(LedgerError::VoteNotActive)
                } else if delegates(swept, voter, ntw) is None {
                    Err(LedgerError::Decode)
                } else if delegates(swept, voter, ntw).unwrap().len() == 0 {
                    Err(LedgerError::NoAuthorizedProviders)
                } else if votes(swept, fip, ntw) is None {
                    Err(LedgerError::Decode)
                } else if has_ballot(votes(swept, fip, ntw).unwrap(), vote) {
                    Err(LedgerError::DuplicateVote)
                } else if power(swept, vote.choice, ntw, fip) is None {
                    Err(LedgerError::Decode)
                } else if answered(powers, delegates(swept, voter, ntw).unwrap().len())
                    < delegates(swept, voter, ntw).unwrap().len() {
                    Err(LedgerError::OracleUnavailable)
                } else {
                    Ok(())
                },
            }
        },
    }
}

/// Whether vote admission gets as far as adding storage power: every check
/// before the answers of the oracle has passed.
pub open spec fn reaches_powers(
    db: Records,
    fip: u32,
    vote: VoteView,
    voter: Seq<u8>,
    vote_length: u64,
    now: u64,
    powers: Seq<Option<u128>>,
) -> bool {
    add_vote_result(db, fip, vote, voter, vote_length, now, powers) is Ok || add_vote_result(
        db,
        fip,
        vote,
        voter,
        vote_length,
        now,
        powers,
    ) == Err::<(), LedgerError>(LedgerError::OracleUnavailable)
}

/// The records after a request to admit a vote. The sweep of the voter's
/// network stays applied whatever follows. Where admission reaches the
/// oracle's answers, the power of each provider answered for before the first
/// missing answer is added to the power behind the vote's choice; where all
/// have answered, the vote joins the end of the proposal's vote list.
pub open spec fn add_vote_records(
    db: Records,
    fip: u32,
    vote: VoteView,
    voter: Seq<u8>,
    vote_length: u64,
    now: u64,
    powers: Seq<Option<u128>>,
) -> Records {
    match voter_network(db, voter) {
        Err(_) => db,
        Ok(ntw) => {
            let swept = sweep_records(db, ntw, vote_length, now);
            if reaches_powers(db, fip, vote, voter, vote_length, now, powers) {
                let count = answered(powers, delegates(swept, voter, ntw).unwrap().len());
                let total = capped(
                    power(swept, vote.choice, ntw, fip).unwrap() + power_sum(powers, count),
                );
                let weighed = if count > 0 {
                    swept.insert(storage_key(vote.choice, ntw, fip), be_bytes(total as nat, 16))
                } else {
                    swept
                };
                if add_vote_result(db, fip, vote, voter, vote_length, now, powers) is Ok {
                    weighed.insert(
                        votes_key(fip, ntw),
                        stored_bytes(swept, votes_key(fip, ntw)) + vote_record(vote),
                    )
                } else {
                    weighed
                }
            } else {
                swept
            }
        },
    }
}

/// How many of the votes are for the choice.
pub open spec fn tally(votes: Seq<VoteView>, choice: VoteOption) -> nat {
    kept(votes, |v: VoteView| v.choice == choice).len()
}

/// Whether the two lists of a network share no proposal and every proposal
/// on either has a start time on record.
pub open spec fn network_consistent(db: Records, ntw: Network) -> bool {
    forall|fip: u32|
        #![trigger listed(db, active_key(ntw), fip)]
        #![trigger listed(db, concluded_key(ntw), fip)]
        {
            &&& listed(db, active_key(ntw), fip) ==> started(db, fip, ntw) && !listed(
                db,
                concluded_key(ntw),
                fip,
            )
            &&& listed(db, concluded_key(ntw), fip) ==> started(db, fip, ntw)
        }
}

/// Whether the list stored under `key` is well-formed and holds `fip`.
pub open spec fn listed(db: Records, key: Seq<u8>, fip: u32) -> bool {
    stored_u32s(db, key) matches Some(list) && list.contains(fip)
}

/// The invariant of the proposal lifecycle: on each network, no proposal is
/// listed both as in progress and as concluded, and every listed proposal
/// was started.
pub open spec fn consistent(db: Records) -> bool {
    network_consistent(db, Network::Mainnet) && network_consistent(db, Network::Testnet)
}

} // verus!
