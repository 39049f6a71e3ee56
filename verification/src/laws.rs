use crate::address::{
    lemma_addresses_roundtrip, lemma_decoded_addresses_width, lemma_lex_lt_total,
    lemma_lex_lt_transitive, lex_lt,
};
use crate::codec::{
    be_bytes, bytes_u32s, lemma_be_bytes_len, lemma_be_value_of_bytes, lemma_pow256_widths,
    lemma_u32s_roundtrip, u32s_bytes,
};
use crate::errors::LedgerError;
use crate::keys::{
    active_key, concluded_key, lemma_key_shape, lemma_storage_tags, network_key, starters_key,
    storage_key, storage_tag, timestamp_key, voter_key, votes_key, LookupKey,
};
use crate::messages::votes::{
    has_ballot, lemma_votes_appended, same_ballot, vote_record, VoteOption, VoteView,
};
use crate::model::{
    active, add_vote_records, add_vote_result, answered, capped, concluded, consistent, delegates,
    expired, insert_sorted, listed, network_consistent, network_name, power, power_sum,
    register_starter_records, register_voter_records, registered, remove_starter_records, run_out,
    sorted_set, start_vote_records, start_vote_result, started, starters, still_open, stored_bytes,
    stored_u32s, strictly_sorted, sweep_records, sweep_result, unregister_voter_records,
    vote_status_records, vote_status_result, voter_network, votes, Records,
};
use crate::redis::VoteStatus;
use crate::seqs::{lemma_kept_all, lemma_kept_contains};
use crate::storage::Network;
use vstd::prelude::*;

verus! {

/// A request that changes the records of the ledger, with its arguments.
pub enum Operation {
    /// Register a voter on a network for some storage providers.
    RegisterVoter { voter: Seq<u8>, ntw: Network, sp_ids: Seq<u32> },
    /// Unregister a voter from a network.
    UnregisterVoter { voter: Seq<u8>, ntw: Network },
    /// Add an address to the vote starters of a network.
    RegisterStarter { voter: Seq<u8>, ntw: Network },
    /// Remove an address from the vote starters of a network.
    RemoveStarter { voter: Seq<u8>, ntw: Network },
    /// Start voting on a proposal.
    StartVote { fip: u32, signer: Seq<u8>, ntw: Network, now: u64 },
    /// Sweep a network, which a query for its proposals in progress does too.
    Sweep { ntw: Network, vote_length: u64, now: u64 },
    /// Ask where a proposal stands, which sweeps its network.
    VoteStatus { fip: u32, vote_length: u64, ntw: Network, now: u64 },
    /// Hand in a vote.
    AddVote {
        fip: u32,
        vote: VoteView,
        voter: Seq<u8>,
        vote_length: u64,
        now: u64,
        powers: Seq<Option<u128>>,
    },
    /// Remove the votes cast on a proposal.
    FlushVote { fip: u32, ntw: Network },
    /// Remove every record.
    FlushAll,
}

impl Operation {
    /// Whether each address among the arguments has 20 bytes.
    pub open spec fn well_formed(self) -> bool {
        match self {
            Operation::RegisterVoter { voter, .. } => voter.len() == 20,
            Operation::UnregisterVoter { voter, .. } => voter.len() == 20,
            Operation::RegisterStarter { voter, .. } => voter.len() == 20,
            Operation::RemoveStarter { voter, .. } => voter.len() == 20,
            Operation::StartVote { signer, .. } => signer.len() == 20,
            Operation::AddVote { vote, voter, .. } => voter.len() == 20 && vote.voter.len() == 20,
            _ => true,
        }
    }
}

/// The records after a request was served.
pub open spec fn apply(db: Records, op: Operation) -> Records {
    match op {
        Operation::RegisterVoter { voter, ntw, sp_ids } => register_voter_records(
            db,
            voter,
            ntw,
            sp_ids,
        ),
        Operation::UnregisterVoter { voter, ntw } => unregister_voter_records(db, voter, ntw),
        Operation::RegisterStarter { voter, ntw } => register_starter_records(db, voter, ntw),
        Operation::RemoveStarter { voter, ntw } => remove_starter_records(db, voter, ntw),
        Operation::StartVote { fip, signer, ntw, now } => start_vote_records(
            db,
            fip,
            signer,
            ntw,
            now,
        ),
        Operation::Sweep { ntw, vote_length, now } => sweep_records(db, ntw, vote_length, now),
        Operation::VoteStatus { fip, vote_length, ntw, now } => vote_status_records(
            db,
            fip,
            vote_length,
            ntw,
            now,
        ),
        Operation::AddVote { fip, vote, voter, vote_length, now, powers } => add_vote_records(
            db,
            fip,
            vote,
            voter,
            vote_length,
            now,
            powers,
        ),
        Operation::FlushVote { fip, ntw } => db.remove(votes_key(fip, ntw)),
        Operation::FlushAll => Map::empty(),
    }
}

/// Whether a key belongs to none of the tables of the proposal lifecycle:
/// it is no key of a start time, of a list of proposals in progress or of a
/// list of concluded proposals.
pub open spec fn off_lifecycle(key: Seq<u8>) -> bool {
    &&& key != active_key(Network::Mainnet)
    &&& key != active_key(Network::Testnet)
    &&& key != concluded_key(Network::Mainnet)
    &&& key != concluded_key(Network::Testnet)
    &&& forall|fip: u32, ntw: Network| key != #[trigger] timestamp_key(fip, ntw)
}

/// Whether two sets of records agree on the lists of the proposal lifecycle
/// and the second has a start time wherever the first has one.
pub open spec fn lifecycle_kept(a: Records, b: Records) -> bool {
    &&& stored_bytes(b, active_key(Network::Mainnet)) == stored_bytes(
        a,
        active_key(Network::Mainnet),
    )
    &&& stored_bytes(b, active_key(Network::Testnet)) == stored_bytes(
        a,
        active_key(Network::Testnet),
    )
    &&& stored_bytes(b, concluded_key(Network::Mainnet)) == stored_bytes(
        a,
        concluded_key(Network::Mainnet),
    )
    &&& stored_bytes(b, concluded_key(Network::Testnet)) == stored_bytes(
        a,
        concluded_key(Network::Testnet),
    )
    &&& forall|fip: u32, ntw: Network| started(a, fip, ntw) ==> #[trigger] started(b, fip, ntw)
}

/// The keys of the tables of votes, storage power, registrations, voter
/// networks and vote starters are none of the proposal lifecycle.
pub proof fn lemma_tables_off_lifecycle(fip: u32, ntw: Network, choice: VoteOption, voter: Seq<u8>)
    requires
        voter.len() == 20,
    ensures
        off_lifecycle(votes_key(fip, ntw)),
        off_lifecycle(storage_key(choice, ntw, fip)),
        off_lifecycle(voter_key(ntw, voter)),
        off_lifecycle(network_key(voter)),
        off_lifecycle(starters_key(ntw)),
{
    lemma_be_bytes_len(fip as nat, 4);
    lemma_storage_tags();
    let admin = seq![
        active_key(Network::Mainnet),
        active_key(Network::Testnet),
        concluded_key(Network::Mainnet),
        concluded_key(Network::Testnet),
    ];
    assert(admin[0].len() == 8 && admin[1].len() == 8 && admin[2].len() == 8 && admin[3].len()
        == 8);
    assert(admin[0][6] == 6 && admin[1][6] == 6 && admin[2][6] == 7 && admin[3][6] == 7);
    assert(starters_key(ntw)[6] == 5);
    assert(votes_key(fip, ntw).len() == 5 && storage_key(choice, ntw, fip).len() == 5);
    assert(voter_key(ntw, voter).len() == 21 && network_key(voter).len() == 21);
    assert(starters_key(ntw).len() == 8);
    assert forall|f: u32, n: Network|
        votes_key(fip, ntw) != #[trigger] timestamp_key(f, n) && storage_key(choice, ntw, fip)
            != timestamp_key(f, n) && voter_key(ntw, voter) != timestamp_key(f, n) && network_key(
            voter,
        ) != timestamp_key(f, n) && starters_key(ntw) != timestamp_key(f, n) by {
        lemma_be_bytes_len(f as nat, 4);
        let t = timestamp_key(f, n);
        assert(t.len() == 5 && t[4] == 9 + n.code());
        assert(votes_key(fip, ntw)[4] == ntw.code());
        assert(storage_key(choice, ntw, fip)[4] != 9 && storage_key(choice, ntw, fip)[4] != 10);
    }
}

/// The keys of the proposal lifecycle differ from one another.
pub proof fn lemma_lifecycle_keys_apart()
    ensures
        active_key(Network::Mainnet) != active_key(Network::Testnet),
        concluded_key(Network::Mainnet) != concluded_key(Network::Testnet),
        forall|a: Network, b: Network| #[trigger] active_key(a) != #[trigger] concluded_key(b),
        forall|fip: u32, ntw: Network, a: Network|
            #![trigger timestamp_key(fip, ntw), active_key(a)]
            #![trigger timestamp_key(fip, ntw), concluded_key(a)]
            active_key(a) != timestamp_key(fip, ntw) && concluded_key(a) != timestamp_key(
                fip,
                ntw,
            ),
{
    assert(active_key(Network::Mainnet)[7] != active_key(Network::Testnet)[7]);
    assert(concluded_key(Network::Mainnet)[7] != concluded_key(Network::Testnet)[7]);
    assert forall|a: Network, b: Network| #[trigger]
        active_key(a) != #[trigger] concluded_key(b) by {
        assert(active_key(a)[6] != concluded_key(b)[6]);
    }
    assert forall|fip: u32, ntw: Network, a: Network|
        #![trigger timestamp_key(fip, ntw), active_key(a)]
        #![trigger timestamp_key(fip, ntw), concluded_key(a)]
        active_key(a) != timestamp_key(fip, ntw) && concluded_key(a) != timestamp_key(
            fip,
            ntw,
        ) by {
        lemma_be_bytes_len(fip as nat, 4);
        assert(active_key(a).len() == 8 && concluded_key(a).len() == 8);
        assert(timestamp_key(fip, ntw).len() == 5);
    }
}

/// Records that keep the lists of the proposal lifecycle and lose no start
/// time stay consistent.
pub proof fn lemma_lifecycle_kept_consistent(a: Records, b: Records)
    requires
        consistent(a),
        lifecycle_kept(a, b),
    ensures
        consistent(b),
{
    assert forall|ntw: Network| network_consistent(a, ntw) implies network_consistent(b, ntw) by {
        assert(stored_u32s(b, active_key(ntw)) == stored_u32s(a, active_key(ntw)));
        assert(stored_u32s(b, concluded_key(ntw)) == stored_u32s(a, concluded_key(ntw)));
        assert forall|fip: u32|
            #![trigger listed(b, active_key(ntw), fip)]
            #![trigger listed(b, concluded_key(ntw), fip)]
            {
                &&& listed(b, active_key(ntw), fip) ==> started(b, fip, ntw) && !listed(
                    b,
                    concluded_key(ntw),
                    fip,
                )
                &&& listed(b, concluded_key(ntw), fip) ==> started(b, fip, ntw)
            } by {
            assert(listed(b, active_key(ntw), fip) == listed(a, active_key(ntw), fip));
            assert(listed(b, concluded_key(ntw), fip) == listed(a, concluded_key(ntw), fip));
            if started(a, fip, ntw) {
                assert(started(b, fip, ntw));
            }
        }
    }
}

/// Storing a value under a key that is none of the proposal lifecycle keeps
/// the lifecycle as it is.
pub proof fn lemma_insert_off_lifecycle(db: Records, key: Seq<u8>, value: Seq<u8>)
    requires
        off_lifecycle(key),
    ensures
        lifecycle_kept(db, db.insert(key, value)),
{
    assert forall|fip: u32, ntw: Network| started(db, fip, ntw) implies #[trigger] started(
        db.insert(key, value),
        fip,
        ntw,
    ) by {
        assert(key != timestamp_key(fip, ntw));
    }
}

/// Removing what is stored under a key that is none of the proposal
/// lifecycle keeps the lifecycle as it is.
pub proof fn lemma_remove_off_lifecycle(db: Records, key: Seq<u8>)
    requires
        off_lifecycle(key),
    ensures
        lifecycle_kept(db, db.remove(key)),
{
    assert forall|fip: u32, ntw: Network| started(db, fip, ntw) implies #[trigger] started(
        db.remove(key),
        fip,
        ntw,
    ) by {
        assert(key != timestamp_key(fip, ntw));
    }
}

/// Keeping the lifecycle is transitive.
pub proof fn lemma_lifecycle_kept_transitive(a: Records, b: Records, c: Records)
    requires
        lifecycle_kept(a, b),
        lifecycle_kept(b, c),
    ensures
        lifecycle_kept(a, c),
{
    assert forall|fip: u32, ntw: Network| started(a, fip, ntw) implies #[trigger] started(
        c,
        fip,
        ntw,
    ) by {
        assert(started(b, fip, ntw));
    }
}

/// A sweep of a network touches nothing but the two lists of that network.
pub proof fn lemma_sweep_keeps_rest(
    db: Records,
    ntw: Network,
    vote_length: u64,
    now: u64,
    key: Seq<u8>,
)
    requires
        key != active_key(ntw),
        key != concluded_key(ntw),
    ensures
        sweep_records(db, ntw, vote_length, now).contains_key(key) == db.contains_key(key),
        sweep_records(db, ntw, vote_length, now).contains_key(key) ==> sweep_records(
            db,
            ntw,
            vote_length,
            now,
        )[key] == db[key],
        stored_bytes(sweep_records(db, ntw, vote_length, now), key) == stored_bytes(db, key),
{
}

/// What a sweep that succeeds leaves in the two lists of its network: the
/// proposals still open, and the concluded ones followed by those that ran
/// out.
pub proof fn lemma_sweep_lists(db: Records, ntw: Network, vote_length: u64, now: u64)
    requires
        sweep_result(db, ntw, vote_length, now) is Ok,
    ensures
        active(sweep_records(db, ntw, vote_length, now), ntw) == Some(
            still_open(db, ntw, active(db, ntw).unwrap(), vote_length, now),
        ),
        run_out(db, ntw, active(db, ntw).unwrap(), vote_length, now).len() > 0 ==> concluded(
            sweep_records(db, ntw, vote_length, now),
            ntw,
        ) == Some(
            concluded(db, ntw).unwrap() + run_out(
                db,
                ntw,
                active(db, ntw).unwrap(),
                vote_length,
                now,
            ),
        ),
        run_out(db, ntw, active(db, ntw).unwrap(), vote_length, now).len() == 0
            ==> sweep_records(db, ntw, vote_length, now) == db,
{
    let fips = active(db, ntw).unwrap();
    let open = still_open(db, ntw, fips, vote_length, now);
    let out = run_out(db, ntw, fips, vote_length, now);
    let after = sweep_records(db, ntw, vote_length, now);
    lemma_lifecycle_keys_apart();
    assert(active_key(ntw) != concluded_key(ntw));
    if out.len() > 0 {
        let done = concluded(db, ntw).unwrap();
        lemma_u32s_roundtrip(done + out);
        lemma_u32s_roundtrip(open);
        if open.len() == 0 {
            assert(!after.contains_key(active_key(ntw)));
            assert(open =~= Seq::<u32>::empty());
            lemma_u32s_roundtrip(Seq::<u32>::empty());
            assert(u32s_bytes(Seq::<u32>::empty()) =~= Seq::<u8>::empty());
        } else {
            assert(after[active_key(ntw)] == u32s_bytes(open));
        }
    } else {
        let stays = |fip: u32| !expired(db, ntw, fip, vote_length, now);
        let gone = |fip: u32| expired(db, ntw, fip, vote_length, now);
        assert forall|i: int| 0 <= i < fips.len() implies stays(#[trigger] fips[i]) by {
            if gone(fips[i]) {
                assert(fips.contains(fips[i]));
                lemma_kept_contains(fips, gone, fips[i]);
                assert(out.contains(fips[i]));
            }
        }
        lemma_kept_all(fips, stays);
    }
}

/// A sweep keeps the records consistent.
pub proof fn lemma_sweep_consistent(db: Records, ntw: Network, vote_length: u64, now: u64)
    requires
        consistent(db),
    ensures
        consistent(sweep_records(db, ntw, vote_length, now)),
{
    let after = sweep_records(db, ntw, vote_length, now);
    if after != db {
        let fips = active(db, ntw).unwrap();
        let open = still_open(db, ntw, fips, vote_length, now);
        let out = run_out(db, ntw, fips, vote_length, now);
        let done = concluded(db, ntw).unwrap();
        lemma_sweep_lists(db, ntw, vote_length, now);
        lemma_lifecycle_keys_apart();
        assert forall|fip: u32, n: Network| started(after, fip, n) == started(db, fip, n) by {
            lemma_sweep_keeps_rest(db, ntw, vote_length, now, timestamp_key(fip, n));
        }
        assert forall|n: Network| network_consistent(after, n) by {
            assert(network_consistent(db, n));
            if n == ntw {
                assert forall|fip: u32|
                    #![trigger listed(after, active_key(n), fip)]
                    #![trigger listed(after, concluded_key(n), fip)]
                    {
                        &&& listed(after, active_key(n), fip) ==> started(after, fip, n)
                            && !listed(after, concluded_key(n), fip)
                        &&& listed(after, concluded_key(n), fip) ==> started(after, fip, n)
                    } by {
                    lemma_kept_contains(
                        fips,
                        |f: u32| !expired(db, ntw, f, vote_length, now),
                        fip,
                    );
                    lemma_kept_contains(
                        fips,
                        |f: u32| expired(db, ntw, f, vote_length, now),
                        fip,
                    );
                    assert(listed(db, active_key(n), fip) == fips.contains(fip));
                    assert(listed(db, concluded_key(n), fip) == done.contains(fip));
                    assert(listed(after, active_key(n), fip) == open.contains(fip));
                    assert(listed(after, concluded_key(n), fip) == (done + out).contains(fip));
                    lemma_contains_add(done, out, fip);
                    assert(started(after, fip, n) == started(db, fip, n));
                }
            } else {
                assert(active_key(n) != active_key(ntw));
                assert(concluded_key(n) != concluded_key(ntw));
                lemma_sweep_keeps_rest(db, ntw, vote_length, now, active_key(n));
                lemma_sweep_keeps_rest(db, ntw, vote_length, now, concluded_key(n));
                assert forall|fip: u32|
                    #![trigger listed(after, active_key(n), fip)]
                    #![trigger listed(after, concluded_key(n), fip)]
                    {
                        &&& listed(after, active_key(n), fip) ==> started(after, fip, n)
                            && !listed(after, concluded_key(n), fip)
                        &&& listed(after, concluded_key(n), fip) ==> started(after, fip, n)
                    } by {
                    assert(listed(after, active_key(n), fip) == listed(db, active_key(n), fip));
                    assert(listed(after, concluded_key(n), fip) == listed(
                        db,
                        concluded_key(n),
                        fip,
                    ));
                    assert(started(after, fip, n) == started(db, fip, n));
                }
            }
        }
    }
}

/// An item is in the concatenation of two lists exactly when it is in one.
pub proof fn lemma_contains_add<T>(a: Seq<T>, b: Seq<T>, x: T)
    ensures
        (a + b).contains(x) <==> a.contains(x) || b.contains(x),
{
    if a.contains(x) {
        let i = choose|i: int| 0 <= i < a.len() && a[i] == x;
        assert((a + b)[i] == x);
    }
    if b.contains(x) {
        let i = choose|i: int| 0 <= i < b.len() && b[i] == x;
        assert((a + b)[a.len() + i] == x);
    }
    if (a + b).contains(x) {
        let i = choose|i: int| 0 <= i < (a + b).len() && (a + b)[i] == x;
        if i < a.len() {
            assert(a[i] == x);
        } else {
            assert(b[i - a.len()] == x);
        }
    }
}

/// Starting a vote keeps the records consistent.
pub proof fn lemma_start_vote_consistent(
    db: Records,
    fip: u32,
    signer: Seq<u8>,
    ntw: Network,
    now: u64,
)
    requires
        consistent(db),
    ensures
        consistent(start_vote_records(db, fip, signer, ntw, now)),
{
    let after = start_vote_records(db, fip, signer, ntw, now);
    if start_vote_result(db, fip, signer, ntw) is Ok {
        let fips = active(db, ntw).unwrap();
        lemma_u32s_roundtrip(fips.push(fip));
        lemma_lifecycle_keys_apart();
        assert(active_key(ntw) != timestamp_key(fip, ntw));
        assert(concluded_key(ntw) != timestamp_key(fip, ntw));
        assert(active_key(ntw) != concluded_key(ntw));
        assert forall|f: u32, n: Network| started(db, f, n) implies started(after, f, n) by {}
        assert(started(after, fip, ntw));
        assert forall|n: Network| network_consistent(after, n) by {
            assert(network_consistent(db, n));
            assert(concluded_key(n) != active_key(ntw));
            assert(concluded_key(n) != timestamp_key(fip, ntw));
            assert(stored_bytes(after, concluded_key(n)) == stored_bytes(db, concluded_key(n)));
            if n != ntw {
                assert(active_key(n) != active_key(ntw));
                assert(active_key(n) != timestamp_key(fip, ntw));
                assert(stored_bytes(after, active_key(n)) == stored_bytes(db, active_key(n)));
            }
            assert forall|f: u32|
                #![trigger listed(after, active_key(n), f)]
                #![trigger listed(after, concluded_key(n), f)]
                {
                    &&& listed(after, active_key(n), f) ==> started(after, f, n) && !listed(
                        after,
                        concluded_key(n),
                        f,
                    )
                    &&& listed(after, concluded_key(n), f) ==> started(after, f, n)
                } by {
                assert(listed(after, concluded_key(n), f) == listed(db, concluded_key(n), f));
                if n == ntw {
                    assert(listed(after, active_key(n), f) == fips.push(fip).contains(f));
                    if fips.push(fip).contains(f) {
                        let i = choose|i: int|
                            0 <= i < fips.push(fip).len() && fips.push(fip)[i] == f;
                        if i < fips.len() {
                            assert(fips[i] == f);
                            assert(listed(db, active_key(n), f));
                        } else {
                            assert(f == fip);
                            assert(!started(db, fip, ntw));
                        }
                    }
                } else {
                    assert(listed(after, active_key(n), f) == listed(db, active_key(n), f));
                }
                if started(db, f, n) {
                    assert(started(after, f, n));
                }
            }
        }
    }
}

/// No proposal is listed both as in progress and as concluded on a network,
/// in whatever consistent state the records are.
pub proof fn lemma_active_concluded_exclusive(db: Records, ntw: Network, fip: u32)
    requires
        consistent(db),
    ensures
        !(listed(db, active_key(ntw), fip) && listed(db, concluded_key(ntw), fip)),
{
    assert(network_consistent(db, ntw));
}

/// Records that hold nothing are consistent.
pub proof fn lemma_empty_consistent()
    ensures
        consistent(Map::<Seq<u8>, Seq<u8>>::empty()),
{
    let db = Map::<Seq<u8>, Seq<u8>>::empty();
    assert(bytes_u32s(Seq::<u8>::empty()) == Some(Seq::<u32>::empty()));
    assert forall|ntw: Network| network_consistent(db, ntw) by {
        assert(stored_bytes(db, active_key(ntw)) =~= Seq::<u8>::empty());
        assert(stored_bytes(db, concluded_key(ntw)) =~= Seq::<u8>::empty());
    }
}

/// Whatever request is served, consistent records stay consistent: at every
/// point, no proposal is listed both as in progress and as concluded on a
/// network.
pub proof fn lemma_consistent_preserved(db: Records, op: Operation)
    requires
        consistent(db),
        op.well_formed(),
    ensures
        consistent(apply(db, op)),
{
    match op {
        Operation::RegisterVoter { voter, ntw, sp_ids } => {
            lemma_tables_off_lifecycle(0, ntw, VoteOption::Yay, voter);
            let first = db.insert(network_key(voter), network_name(ntw));
            lemma_insert_off_lifecycle(db, network_key(voter), network_name(ntw));
            lemma_insert_off_lifecycle(first, voter_key(ntw, voter), u32s_bytes(sp_ids));
            lemma_lifecycle_kept_transitive(db, first, apply(db, op));
            lemma_lifecycle_kept_consistent(db, apply(db, op));
        },
        Operation::UnregisterVoter { voter, ntw } => {
            lemma_tables_off_lifecycle(0, ntw, VoteOption::Yay, voter);
            let first = db.remove(network_key(voter));
            lemma_remove_off_lifecycle(db, network_key(voter));
            lemma_remove_off_lifecycle(first, voter_key(ntw, voter));
            lemma_lifecycle_kept_transitive(db, first, apply(db, op));
            lemma_lifecycle_kept_consistent(db, apply(db, op));
        },
        Operation::RegisterStarter { voter, ntw } => {
            lemma_tables_off_lifecycle(0, ntw, VoteOption::Yay, voter);
            if apply(db, op) != db {
                lemma_insert_off_lifecycle(db, starters_key(ntw), apply(db, op)[starters_key(ntw)]);
                assert(apply(db, op) =~= db.insert(
                    starters_key(ntw),
                    apply(db, op)[starters_key(ntw)],
                ));
                lemma_lifecycle_kept_consistent(db, apply(db, op));
            }
        },
        Operation::RemoveStarter { voter, ntw } => {
            lemma_tables_off_lifecycle(0, ntw, VoteOption::Yay, voter);
            if apply(db, op) != db {
                lemma_insert_off_lifecycle(db, starters_key(ntw), apply(db, op)[starters_key(ntw)]);
                assert(apply(db, op) =~= db.insert(
                    starters_key(ntw),
                    apply(db, op)[starters_key(ntw)],
                ));
                lemma_lifecycle_kept_consistent(db, apply(db, op));
            }
        },
        Operation::StartVote { fip, signer, ntw, now } => {
            lemma_start_vote_consistent(db, fip, signer, ntw, now);
        },
        Operation::Sweep { ntw, vote_length, now } => {
            lemma_sweep_consistent(db, ntw, vote_length, now);
        },
        Operation::VoteStatus { fip, vote_length, ntw, now } => {
            lemma_sweep_consistent(db, ntw, vote_length, now);
        },
        Operation::AddVote { fip, vote, voter, vote_length, now, powers } => {
            lemma_add_vote_consistent(db, fip, vote, voter, vote_length, now, powers);
        },
        Operation::FlushVote { fip, ntw } => {
            lemma_tables_off_lifecycle(fip, ntw, VoteOption::Yay, Seq::new(20, |i: int| 0u8));
            lemma_remove_off_lifecycle(db, votes_key(fip, ntw));
            lemma_lifecycle_kept_consistent(db, apply(db, op));
        },
        Operation::FlushAll => {
            lemma_empty_consistent();
        },
    }
}

/// Admitting or refusing a vote keeps the records consistent.
pub proof fn lemma_add_vote_consistent(
    db: Records,
    fip: u32,
    vote: VoteView,
    voter: Seq<u8>,
    vote_length: u64,
    now: u64,
    powers: Seq<Option<u128>>,
)
    requires
        consistent(db),
        voter.len() == 20,
    ensures
        consistent(add_vote_records(db, fip, vote, voter, vote_length, now, powers)),
{
    let after = add_vote_records(db, fip, vote, voter, vote_length, now, powers);
    match voter_network(db, voter) {
        Err(_) => {},
        Ok(ntw) => {
            let swept = sweep_records(db, ntw, vote_length, now);
            lemma_sweep_consistent(db, ntw, vote_length, now);
            lemma_tables_off_lifecycle(fip, ntw, vote.choice, voter);
            if after != swept {
                let key = storage_key(vote.choice, ntw, fip);
                let weighed = if after.contains_key(key) {
                    swept.insert(key, after[key])
                } else {
                    swept
                };
                lemma_insert_off_lifecycle(swept, key, after[key]);
                lemma_insert_off_lifecycle(
                    weighed,
                    votes_key(fip, ntw),
                    after[votes_key(fip, ntw)],
                );
                if add_vote_result(db, fip, vote, voter, vote_length, now, powers) is Ok {
                    assert(after
                        =~= weighed.insert(votes_key(fip, ntw), after[votes_key(fip, ntw)]));
                    if weighed != swept {
                        lemma_lifecycle_kept_transitive(swept, weighed, after);
                    }
                } else {
                    assert(after =~= weighed);
                }
                lemma_lifecycle_kept_consistent(swept, after);
            }
        },
    }
}

/// Whether voting on a proposal is over: the proposal was started and is
/// not listed as in progress.
pub open spec fn voting_over(db: Records, fip: u32, ntw: Network) -> bool {
    started(db, fip, ntw) && !listed(db, active_key(ntw), fip)
}

/// A sweep that succeeds at a time when a started proposal has run its
/// length leaves voting on it over; where the proposal was in progress, it
/// is listed as concluded from then on.
pub proof fn lemma_sweep_concludes(
    db: Records,
    ntw: Network,
    vote_length: u64,
    now: u64,
    fip: u32,
)
    requires
        sweep_result(db, ntw, vote_length, now) is Ok,
        started(db, fip, ntw),
        expired(db, ntw, fip, vote_length, now),
    ensures
        voting_over(sweep_records(db, ntw, vote_length, now), fip, ntw),
        listed(db, active_key(ntw), fip) ==> listed(
            sweep_records(db, ntw, vote_length, now),
            concluded_key(ntw),
            fip,
        ),
{
    let fips = active(db, ntw).unwrap();
    lemma_sweep_lists(db, ntw, vote_length, now);
    lemma_lifecycle_keys_apart();
    lemma_sweep_keeps_rest(db, ntw, vote_length, now, timestamp_key(fip, ntw));
    lemma_kept_contains(fips, |f: u32| !expired(db, ntw, f, vote_length, now), fip);
    lemma_kept_contains(fips, |f: u32| expired(db, ntw, f, vote_length, now), fip);
    if listed(db, active_key(ntw), fip) {
        let out = run_out(db, ntw, fips, vote_length, now);
        assert(out.contains(fip));
        lemma_contains_add(concluded(db, ntw).unwrap(), out, fip);
    }
}

/// Once voting on a proposal is over, it stays over whatever request is
/// served next, short of one that removes every record.
pub proof fn lemma_voting_over_preserved(db: Records, op: Operation, fip: u32, ntw: Network)
    requires
        voting_over(db, fip, ntw),
        op.well_formed(),
        op != Operation::FlushAll,
    ensures
        voting_over(apply(db, op), fip, ntw),
{
    let after = apply(db, op);
    match op {
        Operation::RegisterVoter { voter, ntw: n, sp_ids } => {
            lemma_tables_off_lifecycle(0, n, VoteOption::Yay, voter);
            let first = db.insert(network_key(voter), network_name(n));
            lemma_insert_off_lifecycle(db, network_key(voter), network_name(n));
            lemma_insert_off_lifecycle(first, voter_key(n, voter), u32s_bytes(sp_ids));
            lemma_lifecycle_kept_transitive(db, first, after);
            lemma_lifecycle_kept_over(db, after, fip, ntw);
        },
        Operation::UnregisterVoter { voter, ntw: n } => {
            lemma_tables_off_lifecycle(0, n, VoteOption::Yay, voter);
            let first = db.remove(network_key(voter));
            lemma_remove_off_lifecycle(db, network_key(voter));
            lemma_remove_off_lifecycle(first, voter_key(n, voter));
            lemma_lifecycle_kept_transitive(db, first, after);
            lemma_lifecycle_kept_over(db, after, fip, ntw);
        },
        Operation::RegisterStarter { voter, ntw: n } => {
            lemma_tables_off_lifecycle(0, n, VoteOption::Yay, voter);
            if after != db {
                lemma_insert_off_lifecycle(db, starters_key(n), after[starters_key(n)]);
                assert(after =~= db.insert(starters_key(n), after[starters_key(n)]));
                lemma_lifecycle_kept_over(db, after, fip, ntw);
            }
        },
        Operation::RemoveStarter { voter, ntw: n } => {
            lemma_tables_off_lifecycle(0, n, VoteOption::Yay, voter);
            if after != db {
                lemma_insert_off_lifecycle(db, starters_key(n), after[starters_key(n)]);
                assert(after =~= db.insert(starters_key(n), after[starters_key(n)]));
                lemma_lifecycle_kept_over(db, after, fip, ntw);
            }
        },
        Operation::StartVote { fip: g, signer, ntw: n, now } => {
            if start_vote_result(db, g, signer, n) is Ok {
                let fips = active(db, n).unwrap();
                lemma_u32s_roundtrip(fips.push(g));
                lemma_lifecycle_keys_apart();
                assert(active_key(n) != timestamp_key(fip, ntw));
                assert(active_key(ntw) != timestamp_key(g, n));
                assert(started(after, fip, ntw));
                if n == ntw {
                    if fips.push(g).contains(fip) {
                        let i = choose|i: int|
                            0 <= i < fips.push(g).len() && fips.push(g)[i] == fip;
                        if i < fips.len() {
                            assert(fips[i] == fip);
                        }
                    }
                } else {
                    assert(active_key(n) != active_key(ntw));
                    assert(stored_bytes(after, active_key(ntw)) == stored_bytes(
                        db,
                        active_key(ntw),
                    ));
                }
            }
        },
        Operation::Sweep { ntw: n, vote_length, now } => {
            lemma_sweep_keeps_over(db, n, vote_length, now, fip, ntw);
        },
        Operation::VoteStatus { fip: g, vote_length, ntw: n, now } => {
            lemma_sweep_keeps_over(db, n, vote_length, now, fip, ntw);
        },
        Operation::AddVote { fip: g, vote, voter, vote_length, now, powers } => {
            match voter_network(db, voter) {
                Err(_) => {},
                Ok(n) => {
                    let swept = sweep_records(db, n, vote_length, now);
                    lemma_sweep_keeps_over(db, n, vote_length, now, fip, ntw);
                    lemma_add_vote_keeps_lifecycle(db, g, vote, voter, vote_length, now, powers);
                    lemma_lifecycle_kept_over(swept, after, fip, ntw);
                },
            }
        },
        Operation::FlushVote { fip: g, ntw: n } => {
            lemma_tables_off_lifecycle(g, n, VoteOption::Yay, Seq::new(20, |i: int| 0u8));
            lemma_remove_off_lifecycle(db, votes_key(g, n));
            lemma_lifecycle_kept_over(db, after, fip, ntw);
        },
        Operation::FlushAll => {},
    }
}

/// Records that keep the lifecycle keep voting over where it was.
pub proof fn lemma_lifecycle_kept_over(a: Records, b: Records, fip: u32, ntw: Network)
    requires
        lifecycle_kept(a, b),
        voting_over(a, fip, ntw),
    ensures
        voting_over(b, fip, ntw),
{
    assert(started(b, fip, ntw));
    assert(stored_u32s(b, active_key(ntw)) == stored_u32s(a, active_key(ntw)));
}

/// A sweep of any network leaves voting over where it was.
pub proof fn lemma_sweep_keeps_over(
    db: Records,
    swept: Network,
    vote_length: u64,
    now: u64,
    fip: u32,
    ntw: Network,
)
    requires
        voting_over(db, fip, ntw),
    ensures
        voting_over(sweep_records(db, swept, vote_length, now), fip, ntw),
{
    let after = sweep_records(db, swept, vote_length, now);
    if after != db {
        lemma_lifecycle_keys_apart();
        lemma_sweep_keeps_rest(db, swept, vote_length, now, timestamp_key(fip, ntw));
        if swept == ntw {
            lemma_sweep_lists(db, ntw, vote_length, now);
            lemma_kept_contains(
                active(db, ntw).unwrap(),
                |f: u32| !expired(db, ntw, f, vote_length, now),
                fip,
            );
        } else {
            assert(active_key(swept) != active_key(ntw));
            lemma_sweep_keeps_rest(db, swept, vote_length, now, active_key(ntw));
        }
    }
}

/// What the admission of a vote does after its sweep leaves the lifecycle
/// as the sweep left it.
pub proof fn lemma_add_vote_keeps_lifecycle(
    db: Records,
    fip: u32,
    vote: VoteView,
    voter: Seq<u8>,
    vote_length: u64,
    now: u64,
    powers: Seq<Option<u128>>,
)
    requires
        voter.len() == 20,
        voter_network(db, voter) is Ok,
    ensures
        lifecycle_kept(
            sweep_records(db, voter_network(db, voter).unwrap(), vote_length, now),
            add_vote_records(db, fip, vote, voter, vote_length, now, powers),
        ),
{
    let ntw = voter_network(db, voter).unwrap();
    let after = add_vote_records(db, fip, vote, voter, vote_length, now, powers);
    let swept = sweep_records(db, ntw, vote_length, now);
    lemma_tables_off_lifecycle(fip, ntw, vote.choice, voter);
    if after != swept {
        let key = storage_key(vote.choice, ntw, fip);
        let weighed = if after.contains_key(key) {
            swept.insert(key, after[key])
        } else {
            swept
        };
        lemma_insert_off_lifecycle(swept, key, after[key]);
        lemma_insert_off_lifecycle(weighed, votes_key(fip, ntw), after[votes_key(fip, ntw)]);
        if add_vote_result(db, fip, vote, voter, vote_length, now, powers) is Ok {
            assert(after =~= weighed.insert(votes_key(fip, ntw), after[votes_key(fip, ntw)]));
            if weighed != swept {
                lemma_lifecycle_kept_transitive(swept, weighed, after);
            }
        } else {
            assert(after =~= weighed);
        }
    }
}

/// Once voting on a proposal is over, a status query never reports it as in
/// progress again: it reports it as concluded, or fails on a malformed
/// record.
pub proof fn lemma_over_never_in_progress(
    db: Records,
    fip: u32,
    vote_length: u64,
    ntw: Network,
    now: u64,
)
    requires
        voting_over(db, fip, ntw),
    ensures
        vote_status_result(db, fip, vote_length, ntw, now) is Ok
            ==> vote_status_result(db, fip, vote_length, ntw, now) == Ok::<
            VoteStatus,
            LedgerError,
        >(VoteStatus::Concluded),
        vote_status_result(db, fip, vote_length, ntw, now) is Err
            ==> vote_status_result(db, fip, vote_length, ntw, now) == Err::<
            VoteStatus,
            LedgerError,
        >(LedgerError::Decode),
{
    if sweep_result(db, ntw, vote_length, now) is Ok {
        lemma_kept_contains(
            active(db, ntw).unwrap(),
            |f: u32| !expired(db, ntw, f, vote_length, now),
            fip,
        );
    }
}

/// Once voting on a proposal is over, no vote on it is admitted: a voter
/// of that network is told that the vote is not active, unless the sweep
/// fails on a malformed record.
pub proof fn lemma_over_refuses_votes(
    db: Records,
    fip: u32,
    vote: VoteView,
    voter: Seq<u8>,
    vote_length: u64,
    now: u64,
    powers: Seq<Option<u128>>,
    ntw: Network,
)
    requires
        voter_network(db, voter) == Ok::<Network, LedgerError>(ntw),
        voting_over(db, fip, ntw),
    ensures
        add_vote_result(db, fip, vote, voter, vote_length, now, powers) is Err,
        sweep_result(db, ntw, vote_length, now) is Ok ==> add_vote_result(
            db,
            fip,
            vote,
            voter,
            vote_length,
            now,
            powers,
        ) == Err::<(), LedgerError>(LedgerError::VoteNotActive),
        sweep_result(db, ntw, vote_length, now) is Err ==> add_vote_result(
            db,
            fip,
            vote,
            voter,
            vote_length,
            now,
            powers,
        ) == Err::<(), LedgerError>(LedgerError::Decode),
{
    if sweep_result(db, ntw, vote_length, now) is Ok {
        lemma_kept_contains(
            active(db, ntw).unwrap(),
            |f: u32| !expired(db, ntw, f, vote_length, now),
            fip,
        );
    }
}

/// A vote that was admitted is stored once, at the end of the proposal's
/// vote list, and a second vote with the same ballot, whatever it chooses
/// and whenever it comes, is refused and leaves the list as it is. While the
/// proposal is still in progress the second vote is refused as a duplicate.
pub proof fn lemma_duplicate_vote_rejected(
    db: Records,
    fip: u32,
    voter: Seq<u8>,
    first: VoteView,
    vote_length: u64,
    now: u64,
    powers: Seq<Option<u128>>,
    second: VoteView,
    later_length: u64,
    later_now: u64,
    later_powers: Seq<Option<u128>>,
)
    requires
        voter.len() == 20,
        first.voter.len() == 20,
        add_vote_result(db, fip, first, voter, vote_length, now, powers) is Ok,
        same_ballot(first, second),
    ensures
        ({
            let ntw = voter_network(db, voter).unwrap();
            let once = add_vote_records(db, fip, first, voter, vote_length, now, powers);
            let again = add_vote_result(
                once,
                fip,
                second,
                voter,
                later_length,
                later_now,
                later_powers,
            );
            let twice = add_vote_records(
                once,
                fip,
                second,
                voter,
                later_length,
                later_now,
                later_powers,
            );
            &&& votes(once, fip, ntw) == Some(
                votes(sweep_records(db, ntw, vote_length, now), fip, ntw).unwrap().push(
                    first,
                ),
            )
            &&& again is Err
            &&& (sweep_result(once, ntw, later_length, later_now) matches Ok(open)
                && open.contains(fip)) ==> again == Err::<(), LedgerError>(
                LedgerError::DuplicateVote,
            )
            &&& votes(twice, fip, ntw) == votes(once, fip, ntw)
        }),
{
    let ntw = voter_network(db, voter).unwrap();
    let swept = sweep_records(db, ntw, vote_length, now);
    let once = add_vote_records(db, fip, first, voter, vote_length, now, powers);
    let cast = votes(swept, fip, ntw).unwrap();
    let raw = stored_bytes(swept, votes_key(fip, ntw));
    lemma_tables_off_lifecycle(fip, ntw, first.choice, voter);
    lemma_tables_off_lifecycle(fip, ntw, second.choice, voter);
    lemma_table_keys_apart(fip, ntw, first.choice, voter);
    lemma_table_keys_apart(fip, ntw, second.choice, voter);
    lemma_votes_appended(raw, first);
    assert(once[votes_key(fip, ntw)] == raw + vote_record(first));
    assert(stored_bytes(once, network_key(voter)) == stored_bytes(db, network_key(voter))
        && once.contains_key(network_key(voter))) by {
        lemma_sweep_keeps_rest(db, ntw, vote_length, now, network_key(voter));
    }
    assert(stored_bytes(once, voter_key(ntw, voter)) == stored_bytes(swept, voter_key(ntw, voter)));
    // the second request
    let later = sweep_records(once, ntw, later_length, later_now);
    lemma_sweep_keeps_rest(once, ntw, later_length, later_now, votes_key(fip, ntw));
    lemma_sweep_keeps_rest(once, ntw, later_length, later_now, voter_key(ntw, voter));
    let cast_once = cast.push(first);
    assert(votes(later, fip, ntw) == Some(cast_once));
    assert(same_ballot(cast_once[cast.len() as int], second));
    assert(has_ballot(cast_once, second));
    let twice = add_vote_records(
        once,
        fip,
        second,
        voter,
        later_length,
        later_now,
        later_powers,
    );
    assert(twice == later);
}

/// The keys of the tables of votes, storage power, registrations and voter
/// networks differ from one another.
pub proof fn lemma_table_keys_apart(fip: u32, ntw: Network, choice: VoteOption, voter: Seq<u8>)
    requires
        voter.len() == 20,
    ensures
        votes_key(fip, ntw) != storage_key(choice, ntw, fip),
        votes_key(fip, ntw) != voter_key(ntw, voter),
        votes_key(fip, ntw) != network_key(voter),
        storage_key(choice, ntw, fip) != voter_key(ntw, voter),
        storage_key(choice, ntw, fip) != network_key(voter),
        voter_key(ntw, voter) != network_key(voter),
{
    lemma_be_bytes_len(fip as nat, 4);
    lemma_storage_tags();
    assert(votes_key(fip, ntw).len() == 5 && storage_key(choice, ntw, fip).len() == 5);
    assert(votes_key(fip, ntw)[4] == ntw.code());
    assert(storage_key(choice, ntw, fip)[4] >= 2);
    assert(voter_key(ntw, voter).len() == 21 && network_key(voter).len() == 21);
    assert(voter_key(ntw, voter)[0] == ntw.code() && network_key(voter)[0] == 2);
}

/// Registering a voter again on the same network replaces the first
/// registration: the records are those of the second registration alone,
/// and the voter stands for the providers of the second.
pub proof fn lemma_registration_replaced(
    db: Records,
    voter: Seq<u8>,
    ntw: Network,
    first: Seq<u32>,
    second: Seq<u32>,
)
    requires
        voter.len() == 20,
    ensures
        register_voter_records(register_voter_records(db, voter, ntw, first), voter, ntw, second)
            == register_voter_records(db, voter, ntw, second),
        delegates(register_voter_records(db, voter, ntw, second), voter, ntw)
            == Some(second),
        voter_network(register_voter_records(db, voter, ntw, second), voter) == Ok::<
            Network,
            LedgerError,
        >(ntw),
        registered(register_voter_records(db, voter, ntw, second), voter, ntw) == (
        second.len() > 0),
{
    lemma_table_keys_apart(0, ntw, VoteOption::Yay, voter);
    lemma_u32s_roundtrip(second);
    assert(register_voter_records(
        register_voter_records(db, voter, ntw, first),
        voter,
        ntw,
        second,
    ) =~= register_voter_records(db, voter, ntw, second));
    assert(network_name(Network::Mainnet)[0] != network_name(
        Network::Testnet,
    )[0]);
}

/// A voter who was unregistered from a network is not registered there and
/// has no network on record.
pub proof fn lemma_unregistered(db: Records, voter: Seq<u8>, ntw: Network)
    ensures
        !registered(unregister_voter_records(db, voter, ntw), voter, ntw),
        delegates(unregister_voter_records(db, voter, ntw), voter, ntw) == Some(
            Seq::<u32>::empty(),
        ),
        voter_network(unregister_voter_records(db, voter, ntw), voter) == Err::<
            Network,
            LedgerError,
        >(LedgerError::VoterNotRegistered),
{
    let after = unregister_voter_records(db, voter, ntw);
    assert(stored_bytes(after, voter_key(ntw, voter)) =~= Seq::<u8>::empty());
    assert(bytes_u32s(Seq::<u8>::empty()) == Some(Seq::<u32>::empty()));
    assert(voter_key(ntw, voter)[0] != network_key(voter)[0]);
}

/// Whether every address of the list has 20 bytes.
pub open spec fn all_addresses(list: Seq<Seq<u8>>) -> bool {
    forall|i: int| 0 <= i < list.len() ==> (#[trigger] list[i]).len() == 20
}

/// Putting an address in its place in a strictly ascending list leaves the
/// list strictly ascending, with that address and those that were there.
pub proof fn lemma_insert_sorted(sorted: Seq<Seq<u8>>, a: Seq<u8>)
    requires
        strictly_sorted(sorted),
        all_addresses(sorted),
        a.len() == 20,
    ensures
        strictly_sorted(insert_sorted(sorted, a)),
        all_addresses(insert_sorted(sorted, a)),
        forall|x: Seq<u8>|
            #[trigger] insert_sorted(sorted, a).contains(x) <==> sorted.contains(x)
                || x == a,
    decreases sorted.len(),
{
    let after = insert_sorted(sorted, a);
    if sorted.len() == 0 || lex_lt(sorted.last(), a) {
        assert forall|i: int, j: int| 0 <= i < j < after.len() implies lex_lt(
            #[trigger] after[i],
            #[trigger] after[j],
        ) by {
            if j == sorted.len() {
                if i < sorted.len() - 1 {
                    assert(lex_lt(sorted[i], sorted[sorted.len() - 1]));
                    lemma_lex_lt_transitive(sorted[i], sorted.last(), a);
                }
            } else {
                assert(lex_lt(sorted[i], sorted[j]));
            }
        }
        assert forall|x: Seq<u8>|
            #[trigger] after.contains(x) <==> sorted.contains(x) || x == a by {
            lemma_contains_add(sorted, seq![a], x);
            assert(after =~= sorted + seq![a]);
            assert(seq![a].contains(x) <==> x == a) by {
                if x == a {
                    assert(seq![a][0] == x);
                }
            }
        }
    } else if sorted.last() == a {
        assert forall|x: Seq<u8>|
            #[trigger] after.contains(x) <==> sorted.contains(x) || x == a by {
            assert(sorted[sorted.len() - 1] == a);
        }
    } else {
        let front = sorted.drop_last();
        let last = sorted.last();
        let inner = insert_sorted(front, a);
        assert(strictly_sorted(front)) by {
            assert forall|i: int, j: int| 0 <= i < j < front.len() implies lex_lt(
                #[trigger] front[i],
                #[trigger] front[j],
            ) by {
                assert(lex_lt(sorted[i], sorted[j]));
            }
        }
        assert(all_addresses(front)) by {
            assert forall|i: int| 0 <= i < front.len() implies (#[trigger] front[i]).len()
                == 20 by {
                assert(sorted[i].len() == 20);
            }
        }
        lemma_insert_sorted(front, a);
        assert(last.len() == 20) by {
            assert(sorted[sorted.len() - 1].len() == 20);
        }
        lemma_lex_lt_total(last, a);
        assert(lex_lt(a, last));
        assert forall|i: int, j: int| 0 <= i < j < after.len() implies lex_lt(
            #[trigger] after[i],
            #[trigger] after[j],
        ) by {
            if j == inner.len() {
                assert(inner.contains(inner[i]));
                if inner[i] != a {
                    let k = choose|k: int| 0 <= k < front.len() && front[k] == inner[i];
                    assert(lex_lt(sorted[k], sorted[sorted.len() - 1]));
                }
            } else {
                assert(lex_lt(inner[i], inner[j]));
            }
        }
        assert forall|i: int| 0 <= i < after.len() implies (#[trigger] after[i]).len() == 20 by {
            if i < inner.len() {
                assert(inner[i].len() == 20);
            }
        }
        assert forall|x: Seq<u8>|
            #[trigger] after.contains(x) <==> sorted.contains(x) || x == a by {
            assert(after =~= inner + seq![last]);
            lemma_contains_add(inner, seq![last], x);
            assert(sorted =~= front + seq![last]);
            lemma_contains_add(front, seq![last], x);
            assert(inner.contains(x) <==> front.contains(x) || x == a);
        }
    }
}

/// The sorted set of a list of addresses ascends strictly and holds exactly
/// the addresses of the list.
pub proof fn lemma_sorted_set(list: Seq<Seq<u8>>)
    requires
        all_addresses(list),
    ensures
        strictly_sorted(sorted_set(list)),
        all_addresses(sorted_set(list)),
        forall|x: Seq<u8>| #[trigger] sorted_set(list).contains(x) <==> list.contains(x),
    decreases list.len(),
{
    if list.len() > 0 {
        let front = list.drop_last();
        assert(all_addresses(front)) by {
            assert forall|i: int| 0 <= i < front.len() implies (#[trigger] front[i]).len()
                == 20 by {
                assert(list[i].len() == 20);
            }
        }
        assert(list[list.len() - 1].len() == 20);
        lemma_sorted_set(front);
        lemma_insert_sorted(sorted_set(front), list.last());
        assert forall|x: Seq<u8>| #[trigger]
            sorted_set(list).contains(x) <==> list.contains(x) by {
            assert(list =~= front + seq![list.last()]);
            lemma_contains_add(front, seq![list.last()], x);
            assert(seq![list.last()].contains(x) <==> x == list.last()) by {
                if x == list.last() {
                    assert(seq![list.last()][0] == x);
                }
            }
            assert(sorted_set(front).contains(x) <==> front.contains(x));
        }
    } else {
        assert forall|x: Seq<u8>| #[trigger]
            sorted_set(list).contains(x) <==> list.contains(x) by {}
    }
}

/// After an address was registered as a vote starter of a network, the
/// network's stored list ascends strictly, so holds each address once, and
/// holds that address and those that were there before.
pub proof fn lemma_starters_sorted(db: Records, voter: Seq<u8>, ntw: Network)
    requires
        voter.len() == 20,
        starters(db, ntw) is Some,
    ensures
        starters(register_starter_records(db, voter, ntw), ntw) == Some(
            sorted_set(starters(db, ntw).unwrap().push(voter)),
        ),
        strictly_sorted(
            sorted_set(starters(db, ntw).unwrap().push(voter)),
        ),
        forall|x: Seq<u8>| #[trigger]
            sorted_set(starters(db, ntw).unwrap().push(voter)).contains(
                x,
            ) <==> starters(db, ntw).unwrap().contains(x) || x == voter,
{
    let before = starters(db, ntw).unwrap();
    let more = before.push(voter);
    lemma_decoded_addresses_width(stored_bytes(db, starters_key(ntw)));
    assert(all_addresses(more)) by {
        assert forall|i: int| 0 <= i < more.len() implies (#[trigger] more[i]).len() == 20 by {
            if i < before.len() {
                assert(before[i].len() == 20);
            }
        }
    }
    lemma_sorted_set(more);
    lemma_addresses_roundtrip(sorted_set(more));
    assert forall|x: Seq<u8>| #[trigger]
        sorted_set(more).contains(x) <==> before.contains(x) || x == voter by {
        assert(more =~= before + seq![voter]);
        lemma_contains_add(before, seq![voter], x);
        assert(seq![voter].contains(x) <==> x == voter) by {
            if x == voter {
                assert(seq![voter][0] == x);
            }
        }
        assert(sorted_set(more).contains(x) <==> more.contains(x));
    }
}

/// The start time of a proposal never changes once it is on record,
/// whatever request is served, short of one that removes every record.
pub proof fn lemma_start_time_kept(db: Records, op: Operation, fip: u32, ntw: Network)
    requires
        started(db, fip, ntw),
        op.well_formed(),
        op != Operation::FlushAll,
    ensures
        started(apply(db, op), fip, ntw),
        apply(db, op)[timestamp_key(fip, ntw)] == db[timestamp_key(fip, ntw)],
{
    let after = apply(db, op);
    let key = timestamp_key(fip, ntw);
    lemma_lifecycle_keys_apart();
    match op {
        Operation::RegisterVoter { voter, ntw: n, .. } => {
            lemma_tables_off_lifecycle(0, n, VoteOption::Yay, voter);
        },
        Operation::UnregisterVoter { voter, ntw: n } => {
            lemma_tables_off_lifecycle(0, n, VoteOption::Yay, voter);
        },
        Operation::RegisterStarter { voter, ntw: n } => {
            lemma_tables_off_lifecycle(0, n, VoteOption::Yay, voter);
        },
        Operation::RemoveStarter { voter, ntw: n } => {
            lemma_tables_off_lifecycle(0, n, VoteOption::Yay, voter);
        },
        Operation::StartVote { fip: g, signer, ntw: n, now } => {
            assert(active_key(n) != key);
        },
        Operation::Sweep { ntw: n, vote_length, now } => {
            assert(active_key(n) != key && concluded_key(n) != key);
            lemma_sweep_keeps_rest(db, n, vote_length, now, key);
        },
        Operation::VoteStatus { fip: g, vote_length, ntw: n, now } => {
            assert(active_key(n) != key && concluded_key(n) != key);
            lemma_sweep_keeps_rest(db, n, vote_length, now, key);
        },
        Operation::AddVote { fip: g, vote, voter, vote_length, now, powers } => {
            match voter_network(db, voter) {
                Err(_) => {},
                Ok(n) => {
                    assert(active_key(n) != key && concluded_key(n) != key);
                    lemma_sweep_keeps_rest(db, n, vote_length, now, key);
                    lemma_tables_off_lifecycle(g, n, vote.choice, voter);
                },
            }
        },
        Operation::FlushVote { fip: g, ntw: n } => {
            lemma_tables_off_lifecycle(g, n, VoteOption::Yay, Seq::new(20, |i: int| 0u8));
        },
        Operation::FlushAll => {},
    }
}

/// The storage power on record behind a choice never falls when a vote is
/// handed in: it stays as it is or grows by what the oracle reported.
pub proof fn lemma_power_never_falls(
    db: Records,
    fip: u32,
    vote: VoteView,
    voter: Seq<u8>,
    vote_length: u64,
    now: u64,
    powers: Seq<Option<u128>>,
    choice: VoteOption,
    ntw: Network,
    of: u32,
)
    requires
        voter.len() == 20,
        power(db, choice, ntw, of) is Some,
    ensures
        power(
            add_vote_records(db, fip, vote, voter, vote_length, now, powers),
            choice,
            ntw,
            of,
        ) is Some,
        power(
            add_vote_records(db, fip, vote, voter, vote_length, now, powers),
            choice,
            ntw,
            of,
        ).unwrap() >= power(db, choice, ntw, of).unwrap(),
{
    let after = add_vote_records(db, fip, vote, voter, vote_length, now, powers);
    let key = storage_key(choice, ntw, of);
    match voter_network(db, voter) {
        Err(_) => {},
        Ok(n) => {
            let swept = sweep_records(db, n, vote_length, now);
            lemma_tables_off_lifecycle(of, ntw, choice, voter);
            lemma_sweep_keeps_rest(db, n, vote_length, now, key);
            lemma_table_keys_apart(fip, n, vote.choice, voter);
            lemma_be_bytes_len(fip as nat, 4);
            lemma_be_bytes_len(of as nat, 4);
            lemma_storage_tags();
            assert(votes_key(fip, n) != key) by {
                assert(votes_key(fip, n)[4] == n.code());
                assert(key[4] >= 2);
            }
            if after != swept {
                let written = storage_key(vote.choice, n, fip);
                let count = answered(
                    powers,
                    delegates(swept, voter, n).unwrap().len(),
                );
                let before = power(swept, vote.choice, n, fip).unwrap();
                let total = capped(before + power_sum(powers, count));
                if written == key && count > 0 {
                    lemma_pow256_widths();
                    lemma_be_value_of_bytes(total as nat, 16);
                    lemma_be_bytes_len(total as nat, 16);
                    assert(after[key] == be_bytes(total as nat, 16));
                } else {
                    assert(stored_bytes(after, key) == stored_bytes(swept, key));
                }
            }
        },
    }
}

/// The network that a record belongs to; none for the record of a voter's
/// network, which is kept for all networks together.
pub open spec fn record_network(key: LookupKey) -> Option<Network> {
    match key {
        LookupKey::Votes(_, ntw) => Some(ntw),
        LookupKey::Timestamp(_, ntw) => Some(ntw),
        LookupKey::Voter(ntw, _) => Some(ntw),
        LookupKey::VoteStarters(ntw) => Some(ntw),
        LookupKey::ActiveVotes(ntw) => Some(ntw),
        LookupKey::ConcludedVotes(ntw) => Some(ntw),
        LookupKey::Storage(_, ntw, _) => Some(ntw),
        LookupKey::Network(_) => None,
    }
}

/// The network on whose records a request works: the one it names, or for a
/// vote the one that the voter has on record.
pub open spec fn request_network(db: Records, op: Operation) -> Option<Network> {
    match op {
        Operation::RegisterVoter { ntw, .. } => Some(ntw),
        Operation::UnregisterVoter { ntw, .. } => Some(ntw),
        Operation::RegisterStarter { ntw, .. } => Some(ntw),
        Operation::RemoveStarter { ntw, .. } => Some(ntw),
        Operation::StartVote { ntw, .. } => Some(ntw),
        Operation::Sweep { ntw, .. } => Some(ntw),
        Operation::VoteStatus { ntw, .. } => Some(ntw),
        Operation::AddVote { voter, .. } => match voter_network(db, voter) {
            Ok(ntw) => Some(ntw),
            Err(_) => None,
        },
        Operation::FlushVote { ntw, .. } => Some(ntw),
        Operation::FlushAll => None,
    }
}

/// The key of a record of one network is no key of any table of the other
/// network, nor of a voter's network.
pub proof fn lemma_networks_apart(
    key: LookupKey,
    other: Network,
    fip: u32,
    choice: VoteOption,
    voter: Seq<u8>,
)
    requires
        record_network(key) is Some,
        record_network(key) != Some(other),
        voter.len() == 20,
    ensures
        key.spec_bytes() != votes_key(fip, other),
        key.spec_bytes() != timestamp_key(fip, other),
        key.spec_bytes() != storage_key(choice, other, fip),
        key.spec_bytes() != voter_key(other, voter),
        key.spec_bytes() != network_key(voter),
        key.spec_bytes() != starters_key(other),
        key.spec_bytes() != active_key(other),
        key.spec_bytes() != concluded_key(other),
{
    lemma_key_shape(key);
    lemma_storage_tags();
    lemma_be_bytes_len(fip as nat, 4);
    let bytes = key.spec_bytes();
    assert(votes_key(fip, other).len() == 5 && votes_key(fip, other)[4] == other.code());
    assert(timestamp_key(fip, other).len() == 5 && timestamp_key(fip, other)[4] == 9
        + other.code());
    assert(storage_key(choice, other, fip).len() == 5 && storage_key(choice, other, fip)[4]
        == storage_tag(choice, other));
    assert(voter_key(other, voter).len() == 21 && voter_key(other, voter)[0] == other.code());
    assert(network_key(voter).len() == 21 && network_key(voter)[0] == 2);
    assert(starters_key(other).len() == 8 && starters_key(other)[6] == 5 && starters_key(other)[7]
        == other.code());
    assert(active_key(other).len() == 8 && active_key(other)[6] == 6 && active_key(other)[7]
        == other.code());
    assert(concluded_key(other).len() == 8 && concluded_key(other)[6] == 7 && concluded_key(
        other,
    )[7] == other.code());
}

/// No request on one network touches a record of the other: whatever is
/// stored for the other network stays as it is.
pub proof fn lemma_other_network_untouched(db: Records, op: Operation, key: LookupKey)
    requires
        op.well_formed(),
        request_network(db, op) is Some,
        record_network(key) is Some,
        record_network(key) != request_network(db, op),
    ensures
        apply(db, op).contains_key(key.spec_bytes()) == db.contains_key(key.spec_bytes()),
        stored_bytes(apply(db, op), key.spec_bytes()) == stored_bytes(db, key.spec_bytes()),
{
    let ntw = request_network(db, op).unwrap();
    let nobody = Seq::new(20, |i: int| 0u8);
    match op {
        Operation::RegisterVoter { voter, .. } => {
            lemma_networks_apart(key, ntw, 0, VoteOption::Yay, voter);
        },
        Operation::UnregisterVoter { voter, .. } => {
            lemma_networks_apart(key, ntw, 0, VoteOption::Yay, voter);
        },
        Operation::RegisterStarter { .. } => {
            lemma_networks_apart(key, ntw, 0, VoteOption::Yay, nobody);
        },
        Operation::RemoveStarter { .. } => {
            lemma_networks_apart(key, ntw, 0, VoteOption::Yay, nobody);
        },
        Operation::StartVote { fip, .. } => {
            lemma_networks_apart(key, ntw, fip, VoteOption::Yay, nobody);
        },
        Operation::Sweep { vote_length, now, .. } => {
            lemma_networks_apart(key, ntw, 0, VoteOption::Yay, nobody);
            lemma_sweep_keeps_rest(db, ntw, vote_length, now, key.spec_bytes());
        },
        Operation::VoteStatus { vote_length, now, .. } => {
            lemma_networks_apart(key, ntw, 0, VoteOption::Yay, nobody);
            lemma_sweep_keeps_rest(db, ntw, vote_length, now, key.spec_bytes());
        },
        Operation::AddVote { fip, vote, voter, vote_length, now, powers } => {
            lemma_networks_apart(key, ntw, fip, vote.choice, nobody);
            lemma_sweep_keeps_rest(db, ntw, vote_length, now, key.spec_bytes());
        },
        Operation::FlushVote { fip, .. } => {
            lemma_networks_apart(key, ntw, fip, VoteOption::Yay, nobody);
        },
        Operation::FlushAll => {},
    }
}

} // verus!
