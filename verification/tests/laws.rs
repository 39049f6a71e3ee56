use fip_voting::address::Address;
use fip_voting::authorized_voters;
use fip_voting::errors::LedgerError;
use fip_voting::keys::LookupKey;
use fip_voting::messages::votes::{Vote, VoteOption};
use fip_voting::redis::{Redis, VoteResults, VoteStatus};
use fip_voting::storage::Network;
use fip_voting::store::Store;

fn address(last: u8) -> Address {
    let mut bytes = [0x42u8; 20];
    bytes[19] = last;
    Address(bytes)
}

fn starter() -> Address {
    authorized_voters()[0]
}

fn ledger() -> Redis {
    Redis::new(Store::new())
}

/// No proposal is on both lists of a network.
fn exclusive(redis: &Redis) {
    assert!(redis.is_consistent());
    for ntw in [Network::Mainnet, Network::Testnet] {
        let active = redis.list_active(ntw).unwrap();
        let concluded = redis.concluded_votes(ntw).unwrap();
        for fip in active.iter() {
            assert!(!concluded.contains(fip));
            assert!(redis.vote_exists(ntw, *fip));
        }
        for fip in concluded.iter() {
            assert!(redis.vote_exists(ntw, *fip));
        }
    }
}

#[test]
fn duplicate_vote_is_rejected() {
    let mut redis = ledger();
    let voter = address(1);
    redis.register_voter(voter, Network::Testnet, vec![100]).unwrap();
    redis.start_vote_at(7, starter(), Network::Testnet, 100).unwrap();
    let first = Vote::new(VoteOption::Yay, voter, 7);
    let second = Vote::new(VoteOption::Nay, voter, 7);
    assert!(first == second);
    assert_eq!(redis.add_vote_at(7, first, voter, 60, 110, &vec![Some(5)]), Ok(()));
    assert_eq!(
        redis.add_vote_at(7, second, voter, 60, 120, &vec![Some(5)]),
        Err(LedgerError::DuplicateVote)
    );
    let cast = redis.votes(7, Network::Testnet).unwrap();
    assert_eq!(cast.len(), 1);
    assert_eq!(cast[0].choice(), VoteOption::Yay);
    assert_eq!(cast[0].voter(), voter);
    assert_eq!(cast[0].fip(), 7);
    let results = redis.vote_results(7, Network::Testnet).unwrap();
    assert_eq!(results.yay, 1);
    assert_eq!(results.nay, 0);
    assert_eq!(results.yay_storage_size, 5);
    assert_eq!(results.nay_storage_size, 0);
    // once the vote is over the second ballot is refused as not active
    assert_eq!(
        redis.add_vote_at(7, second, voter, 60, 160, &vec![Some(5)]),
        Err(LedgerError::VoteNotActive)
    );
    assert_eq!(redis.votes(7, Network::Testnet).unwrap().len(), 1);
}

#[test]
fn concluded_votes_stay_concluded() {
    let mut redis = ledger();
    let voter = address(1);
    redis.register_voter(voter, Network::Mainnet, vec![1]).unwrap();
    redis.start_vote_at(3, starter(), Network::Mainnet, 1_000).unwrap();
    assert_eq!(
        redis.vote_status_at(3, 60, Network::Mainnet, 1_059),
        Ok(VoteStatus::InProgress(1))
    );
    assert_eq!(redis.vote_status_at(3, 60, Network::Mainnet, 1_060), Ok(VoteStatus::Concluded));
    exclusive(&redis);
    // neither an earlier time nor a longer vote brings it back
    assert_eq!(redis.vote_status_at(3, 60, Network::Mainnet, 1_000), Ok(VoteStatus::Concluded));
    assert_eq!(redis.vote_status_at(3, 6_000, Network::Mainnet, 1_060), Ok(VoteStatus::Concluded));
    assert_eq!(redis.active_votes_at(Network::Mainnet, Some(6_000), 1_001), Ok(vec![]));
    assert_eq!(
        redis.add_vote_at(3, Vote::new(VoteOption::Yay, voter, 3), voter, 6_000, 1_001, &vec![Some(1)]),
        Err(LedgerError::VoteNotActive)
    );
    assert_eq!(
        redis.start_vote_at(3, starter(), Network::Mainnet, 2_000),
        Err(LedgerError::AlreadyExists)
    );
    assert_eq!(redis.vote_start(3, Network::Mainnet), Ok(1_000));
    assert_eq!(redis.concluded_votes(Network::Mainnet), Ok(vec![3]));
    assert_eq!(redis.list_active(Network::Mainnet), Ok(vec![]));
    assert_eq!(redis.votes(3, Network::Mainnet).unwrap().len(), 0);
    exclusive(&redis);
}

#[test]
fn registration_is_replaced() {
    let mut redis = ledger();
    let voter = address(9);
    redis.register_voter(voter, Network::Testnet, vec![1, 2, 3]).unwrap();
    redis.register_voter(voter, Network::Testnet, vec![7, 8]).unwrap();
    assert_eq!(redis.voter_delegates(voter, Network::Testnet), Ok(vec![7, 8]));
    assert_eq!(redis.network(voter), Ok(Network::Testnet));
    assert!(redis.is_registered(voter, Network::Testnet));
    assert!(!redis.is_registered(voter, Network::Mainnet));
    assert_eq!(redis.store().keys().len(), 2);

    redis.unregister_voter(voter, Network::Testnet).unwrap();
    assert!(!redis.is_registered(voter, Network::Testnet));
    assert_eq!(redis.voter_delegates(voter, Network::Testnet), Ok(vec![]));
    assert_eq!(redis.network(voter), Err(LedgerError::VoterNotRegistered));
    assert!(redis.store().keys().is_empty());
}

#[test]
fn registration_without_providers_is_none() {
    let mut redis = ledger();
    let voter = address(9);
    redis.register_voter(voter, Network::Mainnet, vec![]).unwrap();
    assert!(!redis.is_registered(voter, Network::Mainnet));
    assert_eq!(redis.network(voter), Ok(Network::Mainnet));
    redis.start_vote_at(1, starter(), Network::Mainnet, 0).unwrap();
    assert_eq!(
        redis.add_vote_at(1, Vote::new(VoteOption::Yay, voter, 1), voter, 10, 0, &vec![]),
        Err(LedgerError::NoAuthorizedProviders)
    );
}

#[test]
fn last_registration_decides_the_network() {
    let mut redis = ledger();
    let voter = address(9);
    redis.register_voter(voter, Network::Mainnet, vec![1]).unwrap();
    redis.register_voter(voter, Network::Testnet, vec![2]).unwrap();
    assert_eq!(redis.network(voter), Ok(Network::Testnet));
    assert_eq!(redis.voter_delegates(voter, Network::Mainnet), Ok(vec![1]));
    assert_eq!(redis.voter_delegates(voter, Network::Testnet), Ok(vec![2]));
    // unregistering from one network drops the network on record all the same
    redis.unregister_voter(voter, Network::Mainnet).unwrap();
    assert_eq!(redis.network(voter), Err(LedgerError::VoterNotRegistered));
    assert!(redis.is_registered(voter, Network::Testnet));
}

#[test]
fn power_of_two_voters_adds_up() {
    let mut redis = ledger();
    let one = address(1);
    let two = address(2);
    let first_power: u128 = 1_000_000_007;
    let second_power: u128 = 5_000;
    redis.register_voter(one, Network::Mainnet, vec![10, 11]).unwrap();
    redis.register_voter(two, Network::Mainnet, vec![20]).unwrap();
    redis.start_vote_at(12, starter(), Network::Mainnet, 50).unwrap();
    assert_eq!(
        redis.add_vote_at(
            12,
            Vote::new(VoteOption::Yay, one, 12),
            one,
            60,
            51,
            &vec![Some(first_power - 7), Some(7)]
        ),
        Ok(())
    );
    assert_eq!(
        redis.add_vote_at(12, Vote::new(VoteOption::Yay, two, 12), two, 60, 52, &vec![Some(second_power)]),
        Ok(())
    );
    let results = redis.vote_results(12, Network::Mainnet).unwrap();
    assert_eq!(
        results,
        VoteResults {
            yay: 2,
            nay: 0,
            abstain: 0,
            yay_storage_size: first_power + second_power,
            nay_storage_size: 0,
            abstain_storage_size: 0,
        }
    );
    assert_eq!(redis.get_storage(12, VoteOption::Yay, Network::Mainnet), Ok(first_power + second_power));
}

#[test]
fn end_to_end() {
    let mut redis = ledger();
    let s = address(0x50);
    let v = address(0x56);
    // (1) register starter S
    redis.register_voter_starter(s, Network::Testnet).unwrap();
    assert_eq!(redis.is_authorized_starter(s, Network::Testnet), Ok(true));
    // (2) S starts proposal 42 on Testnet
    redis.start_vote_at(42, s, Network::Testnet, 1_000_000).unwrap();
    exclusive(&redis);
    // (3) register voter V with provider id 100; the oracle reports 5000
    redis.register_voter(v, Network::Testnet, vec![100]).unwrap();
    // (4) V casts Yay on 42
    assert_eq!(
        redis.add_vote_at(42, Vote::new(VoteOption::Yay, v, 42), v, 60, 1_000_000, &vec![Some(5000)]),
        Ok(())
    );
    exclusive(&redis);
    // (5) in progress with about 60 s left
    assert_eq!(
        redis.vote_status_at(42, 60, Network::Testnet, 1_000_000),
        Ok(VoteStatus::InProgress(60))
    );
    assert_eq!(
        redis.vote_status_at(42, 60, Network::Testnet, 1_000_001),
        Ok(VoteStatus::InProgress(59))
    );
    // (6) concluded after 60 s
    assert_eq!(
        redis.vote_status_at(42, 60, Network::Testnet, 1_000_060),
        Ok(VoteStatus::Concluded)
    );
    exclusive(&redis);
    // (7) the tally
    assert_eq!(
        redis.vote_results(42, Network::Testnet),
        Ok(VoteResults {
            yay: 1,
            nay: 0,
            abstain: 0,
            yay_storage_size: 5000,
            nay_storage_size: 0,
            abstain_storage_size: 0,
        })
    );
    // the other network knows nothing of it
    assert_eq!(redis.vote_status_at(42, 60, Network::Mainnet, 1_000_060), Ok(VoteStatus::DoesNotExist));
    assert_eq!(redis.votes(42, Network::Mainnet).unwrap().len(), 0);
}

#[test]
fn lists_stay_apart_over_many_steps() {
    let mut redis = ledger();
    let voter = address(3);
    redis.register_voter(voter, Network::Mainnet, vec![1]).unwrap();
    exclusive(&redis);
    for (step, fip) in [5u32, 6, 7, 8].iter().enumerate() {
        let now = 100 * step as u64;
        redis.start_vote_at(*fip, starter(), Network::Mainnet, now).unwrap();
        exclusive(&redis);
        redis.start_vote_at(*fip, starter(), Network::Testnet, now + 50).unwrap();
        exclusive(&redis);
        let _ = redis.add_vote_at(*fip, Vote::new(VoteOption::Nay, voter, *fip), voter, 150, now + 1, &vec![Some(1)]);
        exclusive(&redis);
        let _ = redis.vote_status_at(*fip, 150, Network::Testnet, now + 60);
        exclusive(&redis);
    }
    assert_eq!(redis.list_active(Network::Mainnet), Ok(vec![7, 8]));
    assert_eq!(redis.concluded_votes(Network::Mainnet), Ok(vec![5, 6]));
    assert_eq!(redis.sweep_expired_at(Network::Mainnet, 150, 10_000), Ok(vec![]));
    assert_eq!(redis.concluded_votes(Network::Mainnet), Ok(vec![5, 6, 7, 8]));
    assert!(!redis.store().contains(&LookupKey::ActiveVotes(Network::Mainnet).to_bytes()));
    exclusive(&redis);
    redis.flush_vote(5, Network::Mainnet).unwrap();
    exclusive(&redis);
    assert_eq!(redis.votes(5, Network::Mainnet).unwrap().len(), 0);
    assert_eq!(redis.votes(6, Network::Mainnet).unwrap().len(), 1);
}

#[test]
fn sweep_moves_only_what_ran_out() {
    let mut redis = ledger();
    redis.start_vote_at(1, starter(), Network::Testnet, 100).unwrap();
    redis.start_vote_at(2, starter(), Network::Testnet, 200).unwrap();
    redis.start_vote_at(3, starter(), Network::Testnet, 150).unwrap();
    assert_eq!(redis.sweep_expired_at(Network::Testnet, 100, 199), Ok(vec![1, 2, 3]));
    assert_eq!(redis.concluded_votes(Network::Testnet), Ok(vec![]));
    assert_eq!(redis.sweep_expired_at(Network::Testnet, 100, 250), Ok(vec![2]));
    assert_eq!(redis.concluded_votes(Network::Testnet), Ok(vec![1, 3]));
    assert_eq!(redis.list_active(Network::Testnet), Ok(vec![2]));
    // a clock that went backwards counts as no time passed
    assert_eq!(redis.vote_status_at(2, 100, Network::Testnet, 10), Ok(VoteStatus::InProgress(100)));
    // a vote of no length is over at once
    assert_eq!(redis.vote_status_at(2, 0, Network::Testnet, 200), Ok(VoteStatus::Concluded));
    assert_eq!(redis.concluded_votes(Network::Testnet), Ok(vec![1, 3, 2]));
}

#[test]
fn power_stays_added_when_the_oracle_fails() {
    let mut redis = ledger();
    let voter = address(4);
    redis.register_voter(voter, Network::Mainnet, vec![1, 2, 3]).unwrap();
    redis.start_vote_at(8, starter(), Network::Mainnet, 0).unwrap();
    let vote = Vote::new(VoteOption::Abstain, voter, 8);
    assert_eq!(
        redis.add_vote_at(8, vote, voter, 60, 1, &vec![Some(10), Some(20), None]),
        Err(LedgerError::OracleUnavailable)
    );
    assert_eq!(redis.get_storage(8, VoteOption::Abstain, Network::Mainnet), Ok(30));
    assert_eq!(redis.votes(8, Network::Mainnet).unwrap().len(), 0);
    // an answer that is not there counts as missing
    assert_eq!(
        redis.add_vote_at(8, vote, voter, 60, 1, &vec![Some(1)]),
        Err(LedgerError::OracleUnavailable)
    );
    assert_eq!(redis.get_storage(8, VoteOption::Abstain, Network::Mainnet), Ok(31));
    // no answer at all leaves the record as it is
    assert_eq!(
        redis.add_vote_at(8, vote, voter, 60, 1, &vec![None, Some(5), Some(5)]),
        Err(LedgerError::OracleUnavailable)
    );
    assert_eq!(redis.get_storage(8, VoteOption::Abstain, Network::Mainnet), Ok(31));
    // answers beyond the providers are not looked at
    assert_eq!(
        redis.add_vote_at(8, vote, voter, 60, 1, &vec![Some(1), Some(1), Some(1), Some(1000)]),
        Ok(())
    );
    assert_eq!(redis.get_storage(8, VoteOption::Abstain, Network::Mainnet), Ok(34));
    let results = redis.vote_results(8, Network::Mainnet).unwrap();
    assert_eq!(results.abstain, 1);
    assert_eq!(results.abstain_storage_size, 34);
}

#[test]
fn power_is_held_at_the_largest_number() {
    let mut redis = ledger();
    let voter = address(4);
    redis.register_voter(voter, Network::Mainnet, vec![1, 2]).unwrap();
    redis.start_vote_at(8, starter(), Network::Mainnet, 0).unwrap();
    assert_eq!(
        redis.add_vote_at(
            8,
            Vote::new(VoteOption::Nay, voter, 8),
            voter,
            60,
            1,
            &vec![Some(u128::MAX - 1), Some(5)]
        ),
        Ok(())
    );
    assert_eq!(redis.get_storage(8, VoteOption::Nay, Network::Mainnet), Ok(u128::MAX));
}

#[test]
fn power_is_kept_apart_by_choice_and_network() {
    let mut redis = ledger();
    let voter = address(4);
    redis.register_voter(voter, Network::Testnet, vec![1]).unwrap();
    redis.start_vote_at(8, starter(), Network::Testnet, 0).unwrap();
    redis
        .add_vote_at(8, Vote::new(VoteOption::Yay, voter, 8), voter, 60, 1, &vec![Some(77)])
        .unwrap();
    for choice in [VoteOption::Yay, VoteOption::Nay, VoteOption::Abstain] {
        for ntw in [Network::Mainnet, Network::Testnet] {
            for fip in [7u32, 8, 9] {
                let expected = if (choice, ntw, fip) == (VoteOption::Yay, Network::Testnet, 8) {
                    77
                } else {
                    0
                };
                assert_eq!(redis.get_storage(fip, choice, ntw), Ok(expected));
            }
        }
    }
}

#[test]
fn votes_need_a_registered_voter_and_an_open_proposal() {
    let mut redis = ledger();
    let voter = address(4);
    let vote = Vote::new(VoteOption::Yay, voter, 1);
    assert_eq!(
        redis.add_vote_at(1, vote, voter, 60, 1, &vec![Some(1)]),
        Err(LedgerError::VoterNotRegistered)
    );
    redis.register_voter(voter, Network::Testnet, vec![1]).unwrap();
    assert_eq!(
        redis.add_vote_at(1, vote, voter, 60, 1, &vec![Some(1)]),
        Err(LedgerError::VoteNotActive)
    );
    // started on the other network only
    redis.start_vote_at(1, starter(), Network::Mainnet, 0).unwrap();
    assert_eq!(
        redis.add_vote_at(1, vote, voter, 60, 1, &vec![Some(1)]),
        Err(LedgerError::VoteNotActive)
    );
    assert!(redis.store().keys().len() == 4);
}

#[test]
fn starting_needs_an_authorized_starter() {
    let mut redis = ledger();
    let nobody = address(0x77);
    assert_eq!(
        redis.start_vote_at(1, nobody, Network::Mainnet, 5),
        Err(LedgerError::NotAuthorized)
    );
    assert_eq!(redis.vote_status_at(1, 60, Network::Mainnet, 5), Ok(VoteStatus::DoesNotExist));
    assert_eq!(redis.vote_start(1, Network::Mainnet), Err(LedgerError::DoesNotExist));
    assert!(redis.store().keys().is_empty());
    redis.register_voter_starter(nobody, Network::Mainnet).unwrap();
    assert_eq!(
        redis.start_vote_at(1, nobody, Network::Testnet, 5),
        Err(LedgerError::NotAuthorized)
    );
    assert_eq!(redis.start_vote_at(1, nobody, Network::Mainnet, 5), Ok(()));
    assert_eq!(
        redis.start_vote_at(1, nobody, Network::Mainnet, 6),
        Err(LedgerError::AlreadyExists)
    );
    assert_eq!(redis.vote_start(1, Network::Mainnet), Ok(5));
    for bootstrap in authorized_voters() {
        assert_eq!(redis.is_authorized_starter(bootstrap, Network::Mainnet), Ok(false));
    }
    assert_eq!(redis.start_vote_at(2, authorized_voters()[3], Network::Testnet, 5), Ok(()));
    redis.remove_voter_starters(nobody, Network::Mainnet).unwrap();
    assert_eq!(
        redis.start_vote_at(3, nobody, Network::Mainnet, 5),
        Err(LedgerError::NotAuthorized)
    );
}

#[test]
fn bootstrap_addresses() {
    let list = authorized_voters();
    assert_eq!(list.len(), 4);
    let written = [
        "0x3B9705F0EF88Ee74B9924e34A5Af578d2E24F300",
        "0xf2361d2a9a0677e8ffd1515d65cf5190ea20eb56",
        "0x47f033Ed0F9485677008dC30507273607A74E92C",
        "0xe662D77E7e3096683BAC8f1Ad526FB033E3810eB",
    ];
    for (address, text) in list.iter().zip(written.iter()) {
        assert_eq!(Some(*address), Address::parse(text));
        assert_eq!(address.to_hex(), text.to_lowercase());
    }
}

#[test]
fn starters_are_kept_sorted_and_once() {
    let mut redis = ledger();
    let ntw = Network::Mainnet;
    for last in [9u8, 3, 200, 3, 0, 9, 77] {
        redis.register_voter_starter(address(last), ntw).unwrap();
    }
    assert_eq!(
        redis.voter_starters(ntw),
        Ok(vec![address(0), address(3), address(9), address(77), address(200)])
    );
    assert_eq!(redis.voter_starters(Network::Testnet), Ok(vec![]));
    let mut high = [0u8; 20];
    high[0] = 0x43;
    let mut low = [0xffu8; 20];
    low[0] = 0x41;
    redis.register_voter_starter(Address(high), ntw).unwrap();
    redis.register_voter_starter(Address(low), ntw).unwrap();
    let list = redis.voter_starters(ntw).unwrap();
    assert_eq!(list.first(), Some(&Address(low)));
    assert_eq!(list.last(), Some(&Address(high)));
    assert_eq!(list.len(), 7);
    let raw = redis.store().get(&LookupKey::VoteStarters(ntw).to_bytes()).unwrap();
    assert_eq!(raw.len(), 140);
    assert_eq!(&raw[0..20], &low[..]);

    redis.remove_voter_starters(address(9), ntw).unwrap();
    redis.remove_voter_starters(address(10), ntw).unwrap();
    assert_eq!(redis.is_authorized_starter(address(9), ntw), Ok(false));
    assert_eq!(redis.is_authorized_starter(address(77), ntw), Ok(true));
    assert_eq!(redis.voter_starters(ntw).unwrap().len(), 6);
    assert!(address(3).precedes(&address(9)));
    assert!(!address(9).precedes(&address(9)));
    assert!(!address(9).precedes(&address(3)));
}

#[test]
fn malformed_records_are_decode_errors() {
    let ntw = Network::Mainnet;
    let voter = address(1);
    let mut store = Store::new();
    store.set(LookupKey::VoteStarters(ntw).to_bytes(), vec![1, 2, 3]);
    store.set(LookupKey::ActiveVotes(ntw).to_bytes(), vec![0, 0, 0]);
    store.set(LookupKey::ConcludedVotes(ntw).to_bytes(), vec![0; 5]);
    store.set(LookupKey::Voter(ntw, voter).to_bytes(), vec![0; 7]);
    store.set(LookupKey::Network(voter).to_bytes(), b"nonet".to_vec());
    store.set(LookupKey::Votes(1, ntw).to_bytes(), vec![0; 24]);
    store.set(LookupKey::Votes(2, ntw).to_bytes(), vec![3; 25]);
    store.set(LookupKey::Timestamp(1, ntw).to_bytes(), vec![0; 7]);
    store.set(LookupKey::Storage(VoteOption::Nay, ntw, 1).to_bytes(), vec![0; 15]);
    let mut redis = Redis::new(store);
    let decode = LedgerError::Decode;
    assert_eq!(redis.voter_starters(ntw), Err(decode));
    assert_eq!(redis.is_authorized_starter(voter, ntw), Err(decode));
    assert_eq!(redis.register_voter_starter(voter, ntw), Err(decode));
    assert_eq!(redis.remove_voter_starters(voter, ntw), Err(decode));
    assert_eq!(redis.start_vote_at(9, starter(), ntw, 0), Err(decode));
    assert_eq!(redis.list_active(ntw), Err(decode));
    assert_eq!(redis.active_votes_at(ntw, None, 0), Err(decode));
    assert_eq!(redis.sweep_expired_at(ntw, 1, 0), Err(decode));
    assert_eq!(redis.concluded_votes(ntw), Err(decode));
    assert_eq!(redis.voter_delegates(voter, ntw), Err(decode));
    assert!(!redis.is_registered(voter, ntw));
    assert_eq!(redis.network(voter), Err(decode));
    assert_eq!(redis.votes(1, ntw).err(), Some(decode));
    assert_eq!(redis.votes(2, ntw).err(), Some(decode));
    assert_eq!(redis.vote_start(1, ntw), Err(decode));
    assert_eq!(redis.vote_status_at(1, 60, ntw, 0), Err(decode));
    assert_eq!(redis.get_storage(1, VoteOption::Nay, ntw), Err(decode));
    assert_eq!(redis.vote_results(1, ntw), Err(decode));
    assert_eq!(redis.store().keys().len(), 9);
}

#[test]
fn a_proposal_in_progress_needs_its_start_time() {
    let ntw = Network::Testnet;
    let mut store = Store::new();
    store.set(LookupKey::ActiveVotes(ntw).to_bytes(), vec![0, 0, 0, 5]);
    let mut redis = Redis::new(store);
    assert_eq!(redis.list_active(ntw), Ok(vec![5]));
    assert_eq!(redis.sweep_expired_at(ntw, 60, 100), Err(LedgerError::Decode));
    assert_eq!(redis.vote_status_at(5, 60, ntw, 100), Ok(VoteStatus::DoesNotExist));
    assert_eq!(redis.list_active(ntw), Ok(vec![5]));
}

#[test]
fn stored_layouts() {
    let mut redis = ledger();
    let voter = address(1);
    redis.register_voter(voter, Network::Testnet, vec![1, 0x0a0b0c0d]).unwrap();
    redis.start_vote_at(258, starter(), Network::Testnet, 0x0102030405060708).unwrap();
    redis
        .add_vote_at(258, Vote::new(VoteOption::Nay, voter, 258), voter, 60, 0x0102030405060708, &vec![Some(1), Some(0x0300)])
        .unwrap();
    let store = redis.store();
    assert_eq!(
        store.get(&LookupKey::Voter(Network::Testnet, voter).to_bytes()),
        Some(vec![0, 0, 0, 1, 0x0a, 0x0b, 0x0c, 0x0d])
    );
    assert_eq!(store.get(&LookupKey::Network(voter).to_bytes()), Some(b"testnet".to_vec()));
    assert_eq!(
        store.get(&LookupKey::Timestamp(258, Network::Testnet).to_bytes()),
        Some(vec![1, 2, 3, 4, 5, 6, 7, 8])
    );
    assert_eq!(
        store.get(&LookupKey::ActiveVotes(Network::Testnet).to_bytes()),
        Some(vec![0, 0, 1, 2])
    );
    let mut power = vec![0u8; 16];
    power[14] = 3;
    power[15] = 1;
    assert_eq!(
        store.get(&LookupKey::Storage(VoteOption::Nay, Network::Testnet, 258).to_bytes()),
        Some(power)
    );
    let mut record = vec![1u8];
    record.extend_from_slice(&voter.0);
    record.extend_from_slice(&[0, 0, 1, 2]);
    assert_eq!(record.len(), 25);
    assert_eq!(store.get(&LookupKey::Votes(258, Network::Testnet).to_bytes()), Some(record));
    let mut other = ledger();
    other.register_voter(voter, Network::Mainnet, vec![]).unwrap();
    assert_eq!(other.store().get(&LookupKey::Network(voter).to_bytes()), Some(b"mainnet".to_vec()));
}

#[test]
fn votes_write_redis_args_vote() {
    let vote = Vote::new(VoteOption::Yay, address(1), 1);

    let mut args = Vec::new();
    vote.write_record(&mut args);

    assert_eq!(args.len(), 25);
}

#[test]
fn votes_from_redis_value_vote() {
    let real_addr = Address::parse("0xf2361d2a9a0677e8ffd1515d65cf5190ea20eb56").unwrap();
    let vote = Vote::new(VoteOption::Yay, real_addr, 1u32);

    let mut args = vec![9u8, 9];
    vote.write_record(&mut args);

    let res = Vote::read_record(&args, 2);

    assert!(res.is_some());

    let recovered_vote = res.unwrap();

    assert_eq!(recovered_vote.choice(), VoteOption::Yay);
    assert_eq!(recovered_vote.voter(), real_addr);
    assert_eq!(recovered_vote.fip(), 1u32);
}

#[test]
fn reopening_the_ledger_keeps_the_records() {
    let mut redis = ledger();
    redis.start_vote_at(1, starter(), Network::Mainnet, 10).unwrap();
    let store = redis.into_store();
    let mut copy = Store::new();
    for key in store.keys() {
        copy.set(key.clone(), store.get(&key).unwrap());
    }
    let mut again = Redis::new(copy);
    assert_eq!(again.vote_status_at(1, 5, Network::Mainnet, 12), Ok(VoteStatus::InProgress(3)));
}

#[test]
fn damaged_records_are_told_apart() {
    let ntw = Network::Testnet;
    assert!(ledger().is_consistent());
    // a proposal on both lists
    let mut store = Store::new();
    store.set(LookupKey::Timestamp(5, ntw).to_bytes(), vec![0; 8]);
    store.set(LookupKey::ActiveVotes(ntw).to_bytes(), vec![0, 0, 0, 5]);
    assert!(Redis::new(Store::new()).is_consistent());
    store.set(LookupKey::ConcludedVotes(ntw).to_bytes(), vec![0, 0, 0, 4, 0, 0, 0, 5]);
    store.set(LookupKey::Timestamp(4, ntw).to_bytes(), vec![0; 8]);
    assert!(!Redis::new(store).is_consistent());
    // a listed proposal without a start time
    let mut store = Store::new();
    store.set(LookupKey::ActiveVotes(ntw).to_bytes(), vec![0, 0, 0, 5]);
    assert!(!Redis::new(store).is_consistent());
    let mut store = Store::new();
    store.set(LookupKey::ConcludedVotes(Network::Mainnet).to_bytes(), vec![0, 0, 0, 5]);
    store.set(LookupKey::Timestamp(5, ntw).to_bytes(), vec![0; 8]);
    assert!(!Redis::new(store).is_consistent());
    // apart on the two networks
    let mut store = Store::new();
    store.set(LookupKey::Timestamp(5, Network::Mainnet).to_bytes(), vec![0; 8]);
    store.set(LookupKey::Timestamp(5, ntw).to_bytes(), vec![0; 8]);
    store.set(LookupKey::ActiveVotes(ntw).to_bytes(), vec![0, 0, 0, 5]);
    store.set(LookupKey::ConcludedVotes(Network::Mainnet).to_bytes(), vec![0, 0, 0, 5]);
    assert!(Redis::new(store).is_consistent());
}
