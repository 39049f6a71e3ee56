use crate::address::parsed_address;
use crate::errors::{
    LedgerError, ACTIVE_VOTES_ERROR, CONCLUDED_VOTES_ERROR, INVALID_ADDRESS, INVALID_NETWORK,
    STORAGE_ERROR, VOTER_DELEGATES_ERROR, VOTE_RESULTS_ERROR, VOTE_STARTERS_ERROR,
    VOTE_STATUS_ERROR, VOTING_POWER_ERROR,
};
use crate::model::{
    active_votes_records, active_votes_result, capped, concluded, consistent, delegates,
    starters,
    vote_status_records, vote_status_result, Records,
};
use crate::redis::{results_known, vote_results_of, Redis, VoteResults, VoteStatus};
use crate::reply::{failure, network_named, said, Body, BodyView, Reply, ReplyView};
use crate::storage::{provider_name, sp_id_format, Network, StorageFetchError};
use crate::text::{decimal, push_decimal, string_of};
use crate::{NtwAddrParams, NtwFipParams, NtwParams};
use vstd::prelude::*;

verus! {

/// What is said where an address in a query cannot be read.
pub open spec fn address_unreadable() -> Seq<char> {
    "not an address in hexadecimal digits"@
}

/// What is said where the oracle gave no answer.
pub open spec fn oracle_silent(e: StorageFetchError) -> Seq<char> {
    match e {
        StorageFetchError::Reqwest => "reqwest error"@,
        StorageFetchError::Serde => "serde error"@,
        StorageFetchError::NoResult => "no result"@,
    }
}

/// A sentence that says why the oracle gave no answer.
pub fn oracle_message(e: StorageFetchError) -> (text: &'static str)
    ensures
        text@ == oracle_silent(e),
{
    match e {
        StorageFetchError::Reqwest => "reqwest error",
        StorageFetchError::Serde => "serde error",
        StorageFetchError::NoResult => "no result",
    }
}

/// A number written out as a line of text.
fn number_text(n: u128) -> (text: String)
    ensures
        text@ == decimal(n as nat),
{
    let mut chars: Vec<char> = Vec::new();
    push_decimal(&mut chars, n);
    assert(chars@ =~= decimal(n as nat));
    string_of(&chars)
}

/// The reply to a request for the state of a vote: the seconds left while
/// the vote is in progress, the tally once it is concluded, and status 404
/// where the proposal was never started.
pub open spec fn votes_reply(
    db: Records,
    network: Seq<char>,
    fip: u32,
    vote_length: u64,
    now: u64,
) -> ReplyView {
    match network_named(network) {
        None => said(400, INVALID_NETWORK@),
        Some(ntw) => match vote_status_result(db, fip, vote_length, ntw, now) {
            Err(e) => failure(500, VOTE_STATUS_ERROR@, e.spec_message()),
            Ok(VoteStatus::InProgress(left)) => said(200, decimal(left as nat)),
            Ok(VoteStatus::DoesNotExist) => ReplyView { status: 404, body: BodyView::Empty },
            Ok(VoteStatus::Concluded) => {
                let swept = vote_status_records(db, fip, vote_length, ntw, now);
                if results_known(swept, fip, ntw) {
                    ReplyView {
                        status: 200,
                        body: BodyView::Results(vote_results_of(swept, fip, ntw)),
                    }
                } else {
                    failure(500, VOTE_RESULTS_ERROR@, LedgerError::Decode.spec_message())
                }
            },
        },
    }
}

/// Answers a request for the state of a vote at time `now`. The network is
/// swept on the way.
pub fn get_votes(redis: &mut Redis, params: &NtwFipParams, vote_length: u64, now: u64) -> (reply:
    Reply)
    ensures
        reply@ == votes_reply(old(redis)@, params.network@, params.fip_number, vote_length, now),
        final(redis)@ == match network_named(params.network@) {
            Some(ntw) => vote_status_records(
                old(redis)@,
                params.fip_number,
                vote_length,
                ntw,
                now,
            ),
            None => old(redis)@,
        },
        consistent(old(redis)@) ==> consistent(final(redis)@),
{
    let ntw = match params.network() {
        Some(ntw) => ntw,
        None => {
            return Reply::said(400, INVALID_NETWORK);
        },
    };
    let num: u32 = params.fip_number;
    match redis.vote_status_at(num, vote_length, ntw, now) {
        Err(e) => Reply::failure(500, VOTE_STATUS_ERROR, e.message()),
        Ok(VoteStatus::InProgress(left)) => {
            Reply { status: 200, body: Body::Text(number_text(left as u128)) }
        },
        Ok(VoteStatus::DoesNotExist) => Reply { status: 404, body: Body::Empty },
        Ok(VoteStatus::Concluded) => match redis.vote_results(num, ntw) {
            Ok(results) => Reply { status: 200, body: Body::Results(results) },
            Err(e) => Reply::failure(500, VOTE_RESULTS_ERROR, e.message()),
        },
    }
}

/// The names of storage providers on a network.
pub open spec fn provider_names(ntw: Network, ids: Seq<u32>) -> Seq<Seq<char>> {
    Seq::new(ids.len(), |i: int| provider_name(ntw, ids[i]))
}

/// The reply to a request for the storage providers of a voter: their
/// names on the network.
pub open spec fn delegates_reply(db: Records, network: Seq<char>, address: Seq<char>) -> ReplyView {
    match network_named(network) {
        None => said(400, INVALID_NETWORK@),
        Some(ntw) => match parsed_address(address) {
            None => failure(400, INVALID_ADDRESS@, address_unreadable()),
            Some(voter) => match delegates(db, voter, ntw) {
                None => failure(500, VOTER_DELEGATES_ERROR@, LedgerError::Decode.spec_message()),
                Some(ids) => ReplyView {
                    status: 200,
                    body: BodyView::Names(provider_names(ntw, ids)),
                },
            },
        },
    }
}

/// Answers a request for the storage providers of a voter.
pub fn get_delegates(redis: &Redis, params: &NtwAddrParams) -> (reply: Reply)
    ensures
        reply@ == delegates_reply(redis@, params.network@, params.address@),
{
    let ntw = match params.network() {
        Some(ntw) => ntw,
        None => {
            return Reply::said(400, INVALID_NETWORK);
        },
    };
    let address = match params.address() {
        Some(address) => address,
        None => {
            return Reply::failure(400, INVALID_ADDRESS, "not an address in hexadecimal digits");
        },
    };
    let ids = match redis.voter_delegates(address, ntw) {
        Ok(ids) => ids,
        Err(e) => {
            return Reply::failure(500, VOTER_DELEGATES_ERROR, e.message());
        },
    };
    let mut names: Vec<String> = Vec::new();
    let mut i: usize = 0;
    while i < ids.len()
        invariant
            i <= ids@.len(),
            names@.len() == i,
            forall|j: int| 0 <= j < i ==> (#[trigger] names@[j])@ == provider_name(ntw, ids@[j]),
        decreases ids@.len() - i,
    {
        names.push(sp_id_format(ntw, ids[i]));
        i += 1;
    }
    let reply = Reply { status: 200, body: Body::Names(names) };
    assert(reply@.body == BodyView::Names(provider_names(ntw, ids@))) by {
        assert(Seq::new(names@.len(), |i: int| names@[i]@) =~= provider_names(ntw, ids@));
    }
    reply
}

/// The sum of the first `count` answers of the oracle, an answer that
/// failed counting as zero.
pub open spec fn answers_sum(powers: Seq<Result<u128, StorageFetchError>>, count: nat) -> nat
    decreases count,
{
    if count == 0 || count > powers.len() {
        0
    } else {
        answers_sum(powers, (count - 1) as nat) + match powers[count - 1] {
            Ok(p) => p as nat,
            Err(_) => 0,
        }
    }
}

/// The first of the first `count` answers that failed, if any did.
pub open spec fn first_failure(powers: Seq<Result<u128, StorageFetchError>>, count: nat) -> Option<
    StorageFetchError,
>
    decreases count,
{
    if count == 0 || count > powers.len() {
        None
    } else {
        match first_failure(powers, (count - 1) as nat) {
            Some(e) => Some(e),
            None => match powers[count - 1] {
                Ok(_) => None,
                Err(e) => Some(e),
            },
        }
    }
}

/// The reply to a request for the storage power behind a voter, given the
/// answers of the oracle for the voter's providers, in their order: the sum
/// of the powers, held at the largest number of 128 bits. The first answer
/// that failed makes the reply an error, introduced by `what`; answers
/// beyond the number of providers are not looked at, and one that is not
/// there counts as no result.
pub open spec fn power_reply(
    db: Records,
    network: Seq<char>,
    address: Seq<char>,
    powers: Seq<Result<u128, StorageFetchError>>,
    what: Seq<char>,
) -> ReplyView {
    match network_named(network) {
        None => said(400, INVALID_NETWORK@),
        Some(ntw) => match parsed_address(address) {
            None => failure(400, INVALID_ADDRESS@, address_unreadable()),
            Some(voter) => match delegates(db, voter, ntw) {
                None => failure(500, VOTER_DELEGATES_ERROR@, LedgerError::Decode.spec_message()),
                Some(ids) => {
                    let count = if ids.len() <= powers.len() {
                        ids.len()
                    } else {
                        powers.len()
                    };
                    match first_failure(powers, count) {
                        Some(e) => failure(500, what, oracle_silent(e)),
                        None => if powers.len() < ids.len() {
                            failure(500, what, oracle_silent(StorageFetchError::NoResult))
                        } else {
                            said(200, decimal(capped(answers_sum(powers, count) as int) as nat))
                        },
                    }
                },
            },
        },
    }
}

#[verifier::loop_isolation(false)]
fn power_answer(
    redis: &Redis,
    params: &NtwAddrParams,
    powers: &Vec<Result<u128, StorageFetchError>>,
    what: &'static str,
) -> (reply: Reply)
    ensures
        reply@ == power_reply(redis@, params.network@, params.address@, powers@, what@),
{
    let ntw = match params.network() {
        Some(ntw) => ntw,
        None => {
            return Reply::said(400, INVALID_NETWORK);
        },
    };
    let address = match params.address() {
        Some(address) => address,
        None => {
            return Reply::failure(400, INVALID_ADDRESS, "not an address in hexadecimal digits");
        },
    };
    let ids = match redis.voter_delegates(address, ntw) {
        Ok(ids) => ids,
        Err(e) => {
            return Reply::failure(500, VOTER_DELEGATES_ERROR, e.message());
        },
    };
    let count: usize = if ids.len() <= powers.len() {
        ids.len()
    } else {
        powers.len()
    };
    let mut total: u128 = 0;
    let mut i: usize = 0;
    while i < count
        invariant
            i <= count <= powers@.len(),
            first_failure(powers@, i as nat) is None,
            total == capped(answers_sum(powers@, i as nat) as int),
        decreases count - i,
    {
        match powers[i] {
            Err(e) => {
                proof {
                    lemma_first_failure_stays(powers@, (i + 1) as nat, count as nat);
                }
                return Reply::failure(500, what, oracle_message(e));
            },
            Ok(p) => {
                total = if p > u128::MAX - total {
                    u128::MAX
                } else {
                    total + p
                };
            },
        }
        i += 1;
    }
    if powers.len() < ids.len() {
        return Reply::failure(500, what, oracle_message(StorageFetchError::NoResult));
    }
    Reply { status: 200, body: Body::Text(number_text(total)) }
}

/// A failure among the first answers is the first failure of any longer run.
proof fn lemma_first_failure_stays(
    powers: Seq<Result<u128, StorageFetchError>>,
    at: nat,
    count: nat,
)
    requires
        at <= count <= powers.len(),
        first_failure(powers, at) is Some,
    ensures
        first_failure(powers, count) == first_failure(powers, at),
    decreases count,
{
    if count > at {
        lemma_first_failure_stays(powers, at, (count - 1) as nat);
    }
}

/// Answers a request for the voting power of a voter, given the answers of
/// the oracle for the voter's providers.
pub fn get_voting_power(
    redis: &Redis,
    params: &NtwAddrParams,
    powers: &Vec<Result<u128, StorageFetchError>>,
) -> (reply: Reply)
    ensures
        reply@ == power_reply(
            redis@,
            params.network@,
            params.address@,
            powers@,
            VOTING_POWER_ERROR@,
        ),
{
    power_answer(redis, params, powers, VOTING_POWER_ERROR)
}

/// Answers a request for the storage behind a voter, given the answers of
/// the oracle for the voter's providers.
pub fn get_storage(
    redis: &Redis,
    params: &NtwAddrParams,
    powers: &Vec<Result<u128, StorageFetchError>>,
) -> (reply: Reply)
    ensures
        reply@ == power_reply(redis@, params.network@, params.address@, powers@, STORAGE_ERROR@),
{
    power_answer(redis, params, powers, STORAGE_ERROR)
}

/// The reply to a request for the vote starters of a network.
pub open spec fn starters_reply(db: Records, network: Seq<char>) -> ReplyView {
    match network_named(network) {
        None => said(400, INVALID_NETWORK@),
        Some(ntw) => match starters(db, ntw) {
            None => failure(500, VOTE_STARTERS_ERROR@, LedgerError::Decode.spec_message()),
            Some(list) => ReplyView { status: 200, body: BodyView::Addresses(list) },
        },
    }
}

/// Answers a request for the vote starters of a network.
pub fn get_vote_starters(redis: &Redis, params: &NtwParams) -> (reply: Reply)
    ensures
        reply@ == starters_reply(redis@, params.network@),
{
    let ntw = match params.network() {
        Some(ntw) => ntw,
        None => {
            return Reply::said(400, INVALID_NETWORK);
        },
    };
    match redis.voter_starters(ntw) {
        Ok(list) => Reply { status: 200, body: Body::Addresses(list) },
        Err(e) => Reply::failure(500, VOTE_STARTERS_ERROR, e.message()),
    }
}

/// The reply to a request for the proposals in progress on a network.
pub open spec fn active_reply(
    db: Records,
    network: Seq<char>,
    vote_length: u64,
    now: u64,
) -> ReplyView {
    match network_named(network) {
        None => said(400, INVALID_NETWORK@),
        Some(ntw) => match active_votes_result(db, ntw, Some(vote_length), now) {
            Err(e) => failure(500, ACTIVE_VOTES_ERROR@, e.spec_message()),
            Ok(list) => ReplyView { status: 200, body: BodyView::Numbers(list) },
        },
    }
}

/// Answers a request for the proposals in progress on a network at time
/// `now`. The network is swept on the way.
pub fn get_active_votes(
    redis: &mut Redis,
    params: &NtwParams,
    vote_length: u64,
    now: u64,
) -> (reply: Reply)
    ensures
        reply@ == active_reply(old(redis)@, params.network@, vote_length, now),
        final(redis)@ == match network_named(params.network@) {
            Some(ntw) => active_votes_records(old(redis)@, ntw, Some(vote_length), now),
            None => old(redis)@,
        },
        consistent(old(redis)@) ==> consistent(final(redis)@),
{
    let ntw = match params.network() {
        Some(ntw) => ntw,
        None => {
            return Reply::said(400, INVALID_NETWORK);
        },
    };
    match redis.active_votes_at(ntw, Some(vote_length), now) {
        Ok(list) => Reply { status: 200, body: Body::Numbers(list) },
        Err(e) => Reply::failure(500, ACTIVE_VOTES_ERROR, e.message()),
    }
}

/// The reply to a request for the concluded proposals of a network.
pub open spec fn concluded_reply(db: Records, network: Seq<char>) -> ReplyView {
    match network_named(network) {
        None => said(400, INVALID_NETWORK@),
        Some(ntw) => match concluded(db, ntw) {
            None => failure(500, CONCLUDED_VOTES_ERROR@, LedgerError::Decode.spec_message()),
            Some(list) => ReplyView { status: 200, body: BodyView::Numbers(list) },
        },
    }
}

/// Answers a request for the concluded proposals of a network.
pub fn get_concluded_votes(redis: &Redis, params: &NtwParams) -> (reply: Reply)
    ensures
        reply@ == concluded_reply(redis@, params.network@),
{
    let ntw = match params.network() {
        Some(ntw) => ntw,
        None => {
            return Reply::said(400, INVALID_NETWORK);
        },
    };
    match redis.concluded_votes(ntw) {
        Ok(list) => Reply { status: 200, body: Body::Numbers(list) },
        Err(e) => Reply::failure(500, CONCLUDED_VOTES_ERROR, e.message()),
    }
}

/// Whether the tally of each of the proposals is known.
pub open spec fn all_known(db: Records, ntw: Network, fips: Seq<u32>) -> bool {
    forall|i: int| 0 <= i < fips.len() ==> results_known(db, #[trigger] fips[i], ntw)
}

/// The tallies of the proposals, each with the proposal's number.
pub open spec fn tallies(db: Records, ntw: Network, fips: Seq<u32>) -> Seq<(u32, VoteResults)> {
    Seq::new(fips.len(), |i: int| (fips[i], vote_results_of(db, fips[i], ntw)))
}

/// The reply to a request for the tallies of all concluded proposals of a
/// network.
pub open spec fn all_concluded_reply(db: Records, network: Seq<char>) -> ReplyView {
    match network_named(network) {
        None => said(400, INVALID_NETWORK@),
        Some(ntw) => match concluded(db, ntw) {
            None => failure(500, CONCLUDED_VOTES_ERROR@, LedgerError::Decode.spec_message()),
            Some(list) => if all_known(db, ntw, list) {
                ReplyView { status: 200, body: BodyView::AllResults(tallies(db, ntw, list)) }
            } else {
                failure(500, VOTE_RESULTS_ERROR@, LedgerError::Decode.spec_message())
            },
        },
    }
}

/// Answers a request for the tallies of all concluded proposals of a
/// network.
#[verifier::loop_isolation(false)]
pub fn get_all_concluded_votes(redis: &Redis, params: &NtwParams) -> (reply: Reply)
    ensures
        reply@ == all_concluded_reply(redis@, params.network@),
{
    let ntw = match params.network() {
        Some(ntw) => ntw,
        None => {
            return Reply::said(400, INVALID_NETWORK);
        },
    };
    let list = match redis.concluded_votes(ntw) {
        Ok(list) => list,
        Err(e) => {
            return Reply::failure(500, CONCLUDED_VOTES_ERROR, e.message());
        },
    };
    let mut all: Vec<(u32, VoteResults)> = Vec::new();
    let mut i: usize = 0;
    while i < list.len()
        invariant
            i <= list@.len(),
            concluded(redis@, ntw) == Some(list@),
            all_known(redis@, ntw, list@.subrange(0, i as int)),
            all@ == tallies(redis@, ntw, list@.subrange(0, i as int)),
        decreases list@.len() - i,
    {
        let ghost upto = list@.subrange(0, i as int);
        let ghost next = list@.subrange(0, i + 1);
        match redis.vote_results(list[i], ntw) {
            Err(e) => {
                assert(!all_known(redis@, ntw, list@)) by {
                    assert(!results_known(redis@, list@[i as int], ntw));
                }
                return Reply::failure(500, VOTE_RESULTS_ERROR, e.message());
            },
            Ok(results) => {
                all.push((list[i], results));
                proof {
                    assert forall|j: int| 0 <= j < next.len() implies results_known(
                        redis@,
                        #[trigger] next[j],
                        ntw,
                    ) by {
                        if j < i {
                            assert(upto[j] == next[j]);
                        }
                    }
                    assert(all@ =~= tallies(redis@, ntw, next));
                }
            },
        }
        i += 1;
    }
    assert(list@.subrange(0, list@.len() as int) =~= list@);
    Reply { status: 200, body: Body::AllResults(all) }
}

} // verus!
