pub mod auth;
pub mod signer;
pub mod vote_registration;
pub mod vote_start;
pub mod votes;
