use crate::address::{hex_text, parsed_address, Address};
use crate::errors::{
    INVALID_NETWORK, LedgerError, VOTE_ADD_ERROR, VOTE_EXISTS_ERROR, VOTE_RECOVER_ERROR,
    VOTE_START_ERROR, VOTE_STATUS_ERROR, VOTER_AUTH_ERROR, VOTER_AUTH_RECOVER_ERROR,
    VOTER_NOT_AUTHORIZED_ERROR, VOTER_NOT_REGISTERED_NETWORK,
};
use crate::messages::auth::VoterAuthorization;
use crate::messages::signer::message_signer;
use crate::messages::vote_registration::{
    claimed, confirmed_ids, ReceivedVoterRegistration, VoteRegistrationError, VoterRegistration,
};
use crate::messages::vote_start::{started_fip, VoteStart};
use crate::messages::votes::{ballot, ReceivedVote, Vote, VoteView};
use crate::model::{
    add_vote_records, add_vote_result, consistent, delegates, register_starter_records,
    register_voter_records, start_vote_records, start_vote_result, started, starters,
    unregister_voter_records, vote_status_records, vote_status_result, voter_network, Records,
};
use crate::redis::{Redis, VoteStatus};
use crate::reply::{done, failure, network_named, said, Body, Reply, ReplyView};
use crate::storage::{Network, StorageFetchError};
use crate::text::{decimal, push_decimal, string_of};
use crate::NtwParams;
use vstd::prelude::*;
use vstd::utf8::encode_utf8;

verus! {

/// The words in front of the number of a proposal whose vote is over.
pub open spec fn concluded_words() -> Seq<char> {
    "Vote concluded for FIP"@
}

/// The network and the storage providers of a voter, which the oracle is
/// to be asked about before the voter's vote is handed in; `None` where the
/// voter has no network on record or a record is malformed.
pub fn voter_providers(redis: &Redis, voter: Address) -> (found: Option<(Network, Vec<u32>)>)
    ensures
        match voter_network(redis@, voter@) {
            Err(_) => found is None,
            Ok(ntw) => match delegates(redis@, voter@, ntw) {
                None => found is None,
                Some(ids) => found matches Some((n, v)) && n == ntw && v@ == ids,
            },
        },
{
    match redis.network(voter) {
        Err(_) => None,
        Ok(ntw) => match redis.voter_delegates(voter, ntw) {
            Err(_) => None,
            Ok(ids) => Some((ntw, ids)),
        },
    }
}

/// The reply to a vote that was handed in, once it is known what it says
/// and who signed it: the voter must have a network on record, and the
/// vote on the proposal must not be over there; then the vote is admitted
/// or refused as the ledger decides.
pub open spec fn admit_reply(
    db: Records,
    fip: u32,
    vote: VoteView,
    vote_length: u64,
    now: u64,
    powers: Seq<Option<u128>>,
) -> ReplyView {
    match voter_network(db, vote.voter) {
        Err(e) => failure(e.spec_status(), VOTER_NOT_REGISTERED_NETWORK@, e.spec_message()),
        Ok(ntw) => match vote_status_result(db, fip, vote_length, ntw, now) {
            Err(e) => failure(500, VOTE_STATUS_ERROR@, e.spec_message()),
            Ok(VoteStatus::Concluded) => failure(403, concluded_words(), decimal(fip as nat)),
            Ok(_) => match add_vote_result(
                vote_status_records(db, fip, vote_length, ntw, now),
                fip,
                vote,
                vote.voter,
                vote_length,
                now,
                powers,
            ) {
                Err(e) => failure(e.spec_status(), VOTE_ADD_ERROR@, e.spec_message()),
                Ok(_) => done(),
            },
        },
    }
}

/// The records after a vote was handed in.
pub open spec fn admit_records(
    db: Records,
    fip: u32,
    vote: VoteView,
    vote_length: u64,
    now: u64,
    powers: Seq<Option<u128>>,
) -> Records {
    match voter_network(db, vote.voter) {
        Err(_) => db,
        Ok(ntw) => {
            let swept = vote_status_records(db, fip, vote_length, ntw, now);
            match vote_status_result(db, fip, vote_length, ntw, now) {
                Err(_) => swept,
                Ok(VoteStatus::Concluded) => swept,
                Ok(_) => add_vote_records(swept, fip, vote, vote.voter, vote_length, now, powers),
            }
        },
    }
}

fn number_text(n: u128) -> (text: String)
    ensures
        text@ == decimal(n as nat),
{
    let mut chars: Vec<char> = Vec::new();
    push_decimal(&mut chars, n);
    assert(chars@ =~= decimal(n as nat));
    string_of(&chars)
}

/// Hands in a vote of which it is known what it says and who signed it, at
/// time `now`, with the answers of the oracle for the voter's providers.
pub fn admit_vote(
    redis: &mut Redis,
    fip_number: u32,
    vote: Vote,
    vote_length: u64,
    now: u64,
    powers: &Vec<Option<u128>>,
) -> (reply: Reply)
    ensures
        reply@ == admit_reply(old(redis)@, fip_number, vote@, vote_length, now, powers@),
        final(redis)@ == admit_records(old(redis)@, fip_number, vote@, vote_length, now, powers@),
        consistent(old(redis)@) ==> consistent(final(redis)@),
{
    let voter = vote.voter();
    let ntw = match redis.network(voter) {
        Ok(ntw) => ntw,
        Err(e) => {
            return Reply::failure(e.status(), VOTER_NOT_REGISTERED_NETWORK, e.message());
        },
    };
    match redis.vote_status_at(fip_number, vote_length, ntw, now) {
        Err(e) => {
            return Reply::failure(500, VOTE_STATUS_ERROR, e.message());
        },
        Ok(VoteStatus::Concluded) => {
            return Reply::failure(
                403,
                "Vote concluded for FIP",
                number_text(fip_number as u128).as_str(),
            );
        },
        Ok(_) => {},
    }
    match redis.add_vote_at(fip_number, vote, voter, vote_length, now, powers) {
        Ok(_) => Reply::done(),
        Err(e) => Reply::failure(e.status(), VOTE_ADD_ERROR, e.message()),
    }
}

/// Hands in a received ballot at time `now`, with the answers of the oracle
/// for the providers of its signer. A ballot that cannot be read or whose
/// signer cannot be recovered is answered with status 400 and changes
/// nothing; any other is handed in as [`admit_vote`] describes.
pub fn register_vote(
    redis: &mut Redis,
    fip_number: u32,
    vote: &ReceivedVote,
    vote_length: u64,
    now: u64,
    powers: &Vec<Option<u128>>,
) -> (reply: Reply)
    ensures
        match (ballot(vote.message@), message_signer(vote.signature@, encode_utf8(vote.message@))) {
            (Ok((choice, fip)), Some(voter)) => {
                &&& reply@ == admit_reply(
                    old(redis)@,
                    fip_number,
                    VoteView { choice, voter, fip },
                    vote_length,
                    now,
                    powers@,
                )
                &&& final(redis)@ == admit_records(
                    old(redis)@,
                    fip_number,
                    VoteView { choice, voter, fip },
                    vote_length,
                    now,
                    powers@,
                )
            },
            _ => reply.status == 400 && reply.body is Text && final(redis)@ == old(redis)@,
        },
        consistent(old(redis)@) ==> consistent(final(redis)@),
{
    match vote.vote() {
        Err(e) => Reply::failure(400, VOTE_RECOVER_ERROR, e.message().as_str()),
        Ok(cast) => admit_vote(redis, fip_number, cast, vote_length, now, powers),
    }
}

/// The reply to a request to start a vote, once it is known who signed it
/// and which proposal it names: the seconds that the vote will last, or why
/// it was not started.
pub open spec fn open_reply(
    db: Records,
    ntw: Network,
    starter: Seq<u8>,
    fip: u32,
    vote_length: u64,
) -> ReplyView {
    if started(db, fip, ntw) {
        failure(403, VOTE_EXISTS_ERROR@, decimal(fip as nat))
    } else {
        match start_vote_result(db, fip, starter, ntw) {
            Err(e) => failure(e.spec_status(), VOTE_START_ERROR@, e.spec_message()),
            Ok(_) => said(200, decimal(vote_length as nat)),
        }
    }
}

/// Starts a vote at time `now` on behalf of a request of which it is known
/// who signed it and which proposal it names.
pub fn open_vote(
    redis: &mut Redis,
    ntw: Network,
    starter: Address,
    fip: u32,
    vote_length: u64,
    now: u64,
) -> (reply: Reply)
    ensures
        reply@ == open_reply(old(redis)@, ntw, starter@, fip, vote_length),
        final(redis)@ == start_vote_records(old(redis)@, fip, starter@, ntw, now),
        consistent(old(redis)@) ==> consistent(final(redis)@),
{
    if redis.vote_exists(ntw, fip) {
        assert(start_vote_records(redis@, fip, starter@, ntw, now) == redis@);
        return Reply::failure(403, VOTE_EXISTS_ERROR, number_text(fip as u128).as_str());
    }
    match redis.start_vote_at(fip, starter, ntw, now) {
        Ok(_) => Reply { status: 200, body: Body::Text(number_text(vote_length as u128)) },
        Err(e) => Reply::failure(e.status(), VOTE_START_ERROR, e.message()),
    }
}

/// Answers a received request to start a vote at time `now`. A query that
/// names no network, a signature that yields no signer and a message that
/// names no proposal are answered with status 400 and change nothing; any
/// other request is served as [`open_vote`] describes.
pub fn start_vote(
    redis: &mut Redis,
    params: &NtwParams,
    start: &VoteStart,
    vote_length: u64,
    now: u64,
) -> (reply: Reply)
    ensures
        match network_named(params.network@) {
            None => {
                &&& reply@ == failure(400, INVALID_NETWORK@, params.network@)
                &&& final(redis)@ == old(redis)@
            },
            Some(ntw) => match (
                message_signer(start.signature@, encode_utf8(start.message@)),
                started_fip(start.message@),
            ) {
                (Some(starter), Some(fip)) => {
                    &&& reply@ == open_reply(old(redis)@, ntw, starter, fip, vote_length)
                    &&& final(redis)@ == start_vote_records(old(redis)@, fip, starter, ntw, now)
                },
                _ => reply.status == 400 && reply.body is Text && final(redis)@ == old(redis)@,
            },
        },
        consistent(old(redis)@) ==> consistent(final(redis)@),
{
    let ntw = match params.network() {
        Some(ntw) => ntw,
        None => {
            return Reply::failure(400, INVALID_NETWORK, params.network.as_str());
        },
    };
    match start.auth() {
        Err(e) => Reply::failure(400, VOTER_AUTH_ERROR, e.message().as_str()),
        Ok((starter, fip)) => open_vote(redis, ntw, starter, fip, vote_length, now),
    }
}

/// The reply to a request to add a vote starter, once it is known who
/// signed it and whom it names: the signer must be in the network's list of
/// vote starters.
pub open spec fn add_starter_reply(
    db: Records,
    ntw: Network,
    signer: Seq<u8>,
    new_signer: Seq<u8>,
) -> ReplyView {
    match starters(db, ntw) {
        None => failure(500, VOTER_AUTH_ERROR@, LedgerError::Decode.spec_message()),
        Some(list) => if list.contains(signer) {
            done()
        } else {
            failure(400, VOTER_NOT_AUTHORIZED_ERROR@, seq!['0', 'x'] + hex_text(signer))
        },
    }
}

/// The records after a request to add a vote starter.
pub open spec fn add_starter_records(
    db: Records,
    ntw: Network,
    signer: Seq<u8>,
    new_signer: Seq<u8>,
) -> Records {
    match starters(db, ntw) {
        Some(list) => if list.contains(signer) {
            register_starter_records(db, new_signer, ntw)
        } else {
            db
        },
        None => db,
    }
}

/// Adds a vote starter on behalf of a request of which it is known who
/// signed it and whom it names.
pub fn add_starter(redis: &mut Redis, ntw: Network, signer: Address, new_signer: Address) -> (reply:
    Reply)
    ensures
        reply@ == add_starter_reply(old(redis)@, ntw, signer@, new_signer@),
        final(redis)@ == add_starter_records(old(redis)@, ntw, signer@, new_signer@),
        consistent(old(redis)@) ==> consistent(final(redis)@),
{
    match redis.is_authorized_starter(signer, ntw) {
        Ok(true) => {},
        Ok(false) => {
            return Reply::failure(400, VOTER_NOT_AUTHORIZED_ERROR, signer.to_hex().as_str());
        },
        Err(e) => {
            return Reply::failure(500, VOTER_AUTH_ERROR, e.message());
        },
    }
    match redis.register_voter_starter(new_signer, ntw) {
        Ok(_) => Reply::done(),
        Err(e) => Reply::failure(500, VOTE_ADD_ERROR, e.message()),
    }
}

/// Answers a received request to add a vote starter. A query that names no
/// network, a signature that yields no signer and a message that is no
/// address are answered with status 400 and change nothing; any other
/// request is served as [`add_starter`] describes.
pub fn register_vote_starter(
    redis: &mut Redis,
    params: &NtwParams,
    auth: &VoterAuthorization,
) -> (reply: Reply)
    ensures
        match network_named(params.network@) {
            None => reply@ == said(400, INVALID_NETWORK@) && final(redis)@ == old(redis)@,
            Some(ntw) => match (
                message_signer(auth.signature@, encode_utf8(auth.message@)),
                parsed_address(auth.message@),
            ) {
                (Some(signer), Some(new_signer)) => {
                    &&& reply@ == add_starter_reply(old(redis)@, ntw, signer, new_signer)
                    &&& final(redis)@ == add_starter_records(old(redis)@, ntw, signer, new_signer)
                },
                _ => reply.status == 400 && reply.body is Text && final(redis)@ == old(redis)@,
            },
        },
        consistent(old(redis)@) ==> consistent(final(redis)@),
{
    let ntw = match params.network() {
        Some(ntw) => ntw,
        None => {
            return Reply::said(400, INVALID_NETWORK);
        },
    };
    match auth.auth() {
        Err(e) => Reply::failure(400, VOTER_AUTH_RECOVER_ERROR, e.message().as_str()),
        Ok((signer, new_signer)) => add_starter(redis, ntw, signer, new_signer),
    }
}

/// What a received registration comes to, with the answers of the oracle.
pub open spec fn registration_of(
    signature: Seq<char>,
    worker_address: Seq<char>,
    message: Seq<char>,
    checks: Seq<Result<bool, StorageFetchError>>,
) -> Result<(Seq<u8>, Network, Seq<u32>), VoteRegistrationError> {
    match claimed(encode_utf8(signature), worker_address, encode_utf8(message)) {
        Err(e) => Err(e),
        Ok(claim) => match confirmed_ids(claim.providers, checks, claim.providers.len()) {
            Err(e) => Err(e),
            Ok(ids) => Ok((claim.voter, claim.network, ids)),
        },
    }
}

/// Registers a voter as a received registration asks, with the answers of
/// the oracle for the providers that it names. A registration that is not
/// accepted is answered with status 400 and changes nothing.
pub fn register_voter(
    redis: &mut Redis,
    reg: &ReceivedVoterRegistration,
    checks: &Vec<Result<bool, StorageFetchError>>,
) -> (reply: Reply)
    ensures
        match registration_of(reg.signature@, reg.worker_address@, reg.message@, checks@) {
            Err(e) => {
                &&& reply@ == failure(400, VOTE_RECOVER_ERROR@, e.spec_message())
                &&& final(redis)@ == old(redis)@
            },
            Ok((voter, ntw, ids)) => {
                &&& reply@ == done()
                &&& final(redis)@ == register_voter_records(old(redis)@, voter, ntw, ids)
            },
        },
        consistent(old(redis)@) ==> consistent(final(redis)@),
{
    let registration: VoterRegistration = match reg.recover_vote_registration(checks) {
        Ok(registration) => registration,
        Err(e) => {
            return Reply::failure(400, VOTE_RECOVER_ERROR, e.message());
        },
    };
    match redis.register_voter(registration.address(), registration.ntw(), registration.sp_ids()) {
        Ok(_) => Reply::done(),
        Err(e) => Reply::failure(500, VOTE_ADD_ERROR, e.message()),
    }
}

/// Unregisters a voter as a received registration asks, with the answers of
/// the oracle for the providers that it names. A registration that is not
/// accepted is answered with status 400 and changes nothing.
pub fn unregister_voter(
    redis: &mut Redis,
    reg: &ReceivedVoterRegistration,
    checks: &Vec<Result<bool, StorageFetchError>>,
) -> (reply: Reply)
    ensures
        match registration_of(reg.signature@, reg.worker_address@, reg.message@, checks@) {
            Err(e) => {
                &&& reply@ == failure(400, VOTE_RECOVER_ERROR@, e.spec_message())
                &&& final(redis)@ == old(redis)@
            },
            Ok((voter, ntw, ids)) => {
                &&& reply@ == done()
                &&& final(redis)@ == unregister_voter_records(old(redis)@, voter, ntw)
            },
        },
        consistent(old(redis)@) ==> consistent(final(redis)@),
{
    let registration: VoterRegistration = match reg.recover_vote_registration(checks) {
        Ok(registration) => registration,
        Err(e) => {
            return Reply::failure(400, VOTE_RECOVER_ERROR, e.message());
        },
    };
    match redis.unregister_voter(registration.address(), registration.ntw()) {
        Ok(_) => Reply::done(),
        Err(e) => Reply::failure(500, VOTE_ADD_ERROR, e.message()),
    }
}

} // verus!
