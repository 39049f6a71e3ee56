use vstd::prelude::*;

verus! {

/// Why an operation on the ledger was refused or could not be carried out.
#[derive(Debug, Clone, Copy, PartialEq, Eq, Structural)]
pub enum LedgerError {
    /// The signer may not start votes on the network.
    NotAuthorized,
    /// The proposal was started before.
    AlreadyExists,
    /// The proposal was never started.
    DoesNotExist,
    /// The voter is registered on no network.
    VoterNotRegistered,
    /// Voting on the proposal is not in progress.
    VoteNotActive,
    /// The voter controls no storage provider.
    NoAuthorizedProviders,
    /// The voter has voted on the proposal before.
    DuplicateVote,
    /// The storage power of a provider could not be fetched.
    OracleUnavailable,
    /// A stored record does not have the layout of its table.
    Decode,
}

impl LedgerError {
    /// The sentence that describes the error.
    pub open spec fn spec_message(self) -> Seq<char> {
        match self {
            LedgerError::NotAuthorized => "Signer is not authorized to start a vote"@,
            LedgerError::AlreadyExists => "Vote already exists"@,
            LedgerError::DoesNotExist => "Vote does not exist"@,
            LedgerError::VoterNotRegistered => "Voter is not registered"@,
            LedgerError::VoteNotActive => "Vote is not active"@,
            LedgerError::NoAuthorizedProviders =>
                "Voter is not authorized for any storage providers"@,
            LedgerError::DuplicateVote => "Voter has already voted"@,
            LedgerError::OracleUnavailable => "Error fetching storage amount"@,
            LedgerError::Decode => "Stored record is malformed"@,
        }
    }

    /// A sentence that describes the error.
    pub fn message(&self) -> (text: &'static str)
        ensures
            text@ == self.spec_message(),
    {
        match self {
            LedgerError::NotAuthorized => "Signer is not authorized to start a vote",
            LedgerError::AlreadyExists => "Vote already exists",
            LedgerError::DoesNotExist => "Vote does not exist",
            LedgerError::VoterNotRegistered => "Voter is not registered",
            LedgerError::VoteNotActive => "Vote is not active",
            LedgerError::NoAuthorizedProviders => {
                "Voter is not authorized for any storage providers"
            },
            LedgerError::DuplicateVote => "Voter has already voted",
            LedgerError::OracleUnavailable => "Error fetching storage amount",
            LedgerError::Decode => "Stored record is malformed",
        }
    }

    /// The HTTP status that reports the error: 403 for a request that is
    /// not allowed, 404 for a proposal that does not exist, and 500 where
    /// the oracle or the store failed.
    pub open spec fn spec_status(self) -> u16 {
        match self {
            LedgerError::NotAuthorized => 403,
            LedgerError::AlreadyExists => 403,
            LedgerError::DoesNotExist => 404,
            LedgerError::VoterNotRegistered => 403,
            LedgerError::VoteNotActive => 403,
            LedgerError::NoAuthorizedProviders => 403,
            LedgerError::DuplicateVote => 403,
            LedgerError::OracleUnavailable => 500,
            LedgerError::Decode => 500,
        }
    }

    /// Executable form of [`LedgerError::spec_status`].
    pub fn status(&self) -> (code: u16)
        ensures
            code == self.spec_status(),
    {
        match self {
            LedgerError::NotAuthorized => 403,
            LedgerError::AlreadyExists => 403,
            LedgerError::DoesNotExist => 404,
            LedgerError::VoterNotRegistered => 403,
            LedgerError::VoteNotActive => 403,
            LedgerError::NoAuthorizedProviders => 403,
            LedgerError::DuplicateVote => 403,
            LedgerError::OracleUnavailable => 500,
            LedgerError::Decode => 500,
        }
    }
}

/// What a reply says where the connection to the store cannot be opened.
pub const OPEN_CONNECTION_ERROR: &'static str = "Error opening connection to in-memory database";

/// What a reply says where the state of a vote cannot be told.
pub const VOTE_STATUS_ERROR: &'static str = "Error getting vote status";

/// What a reply says where the tally of a vote cannot be told.
pub const VOTE_RESULTS_ERROR: &'static str = "Error getting vote results";

/// What a reply says where the body of a request cannot be read.
pub const VOTE_DESERIALIZE_ERROR: &'static str = "Error deserializing vote";

/// What a reply says where a signed request is not accepted.
pub const VOTE_RECOVER_ERROR: &'static str = "Error recovering vote";

/// What a reply says where the ledger refuses a change.
pub const VOTE_ADD_ERROR: &'static str = "Error adding vote";

/// What a reply says where the body of a request to add a vote starter cannot
/// be read.
pub const VOTER_AUTH_DESERIALIZE_ERROR: &'static str = "Error deserializing voter authorization";

/// What a reply says where a signed request to add a vote starter is not
/// accepted.
pub const VOTER_AUTH_RECOVER_ERROR: &'static str = "Error recovering voter authorization";

/// What a reply says where the signer may not add vote starters.
pub const VOTER_NOT_AUTHORIZED_ERROR: &'static str = "Voter not authorized to add new signers";

/// What a reply says where it cannot be told who may start votes.
pub const VOTER_AUTH_ERROR: &'static str = "Error getting voter authorization";

/// What a reply says where the storage providers of a voter cannot be told.
pub const VOTER_DELEGATES_ERROR: &'static str = "Error getting voter delegates";

/// What a reply says where a vote is not started.
pub const VOTE_START_ERROR: &'static str = "Error starting vote";

/// What a reply says where the proposal was started before.
pub const VOTE_EXISTS_ERROR: &'static str = "Error checking if vote exists";

/// What a reply says where the vote starters cannot be told.
pub const VOTE_STARTERS_ERROR: &'static str = "Error getting vote starters";

/// What a reply says where the voting power of a voter cannot be told.
pub const VOTING_POWER_ERROR: &'static str = "Error getting voting power";

/// What a reply says where the storage behind a voter cannot be told.
pub const STORAGE_ERROR: &'static str = "Error getting storage";

/// What a reply says where a value cannot be written or read as JSON.
pub const SERDE_ERROR: &'static str = "Error serializing/deserializing";

/// What a reply says where the proposals in progress cannot be told.
pub const ACTIVE_VOTES_ERROR: &'static str = "Error getting active votes";

/// What a reply says where the vote on a proposal is in progress already.
pub const VOTE_IS_ALREADY_STARTED: &'static str = "Vote is already started";

/// What a reply says where a proposal exists already.
pub const VOTE_ALREADY_EXISTS: &'static str = "Vote already exists";

/// What a reply says where the concluded proposals cannot be told.
pub const CONCLUDED_VOTES_ERROR: &'static str = "Error getting concluded votes";

/// What a reply says where the voter has no network on record.
pub const VOTER_NOT_REGISTERED_NETWORK: &'static str = "Voter is not registered for this network";

/// What a reply says where a query names no network.
pub const INVALID_NETWORK: &'static str = "Voter is not registered for this network";

/// What a reply says where a query names no address.
pub const INVALID_ADDRESS: &'static str = "Invalid address";

} // verus!
