use fip_voting::address::Address;
use fip_voting::authorized_voters;
use fip_voting::errors::LedgerError;
use fip_voting::messages::vote_registration::ReceivedVoterRegistration;
use fip_voting::messages::votes::{ReceivedVote, Vote, VoteOption};
use fip_voting::redis::{Redis, VoteResults, VoteStatus};
use fip_voting::storage::Network;
use fip_voting::store::Store;

fn test_reg() -> ReceivedVoterRegistration {
    ReceivedVoterRegistration::new(
        "0299f5c42a957809d0bd80cb29986b811fbacd1ed84b5995f1d21c6a7063cada725fe0c643bbcdc4082b078d1420fc9e7d08f9c28c9dbf4597183dd92c2fa2ff7727eee2e6f84fb24134051005ea93b3bfe5e294d2e1413bf111440afdadfa0744".to_string(),
        "t3qejyqmrirddrsb2w2thbaco3q6emuljumlhuonp3al35g3kkzx4zpeecycw7gim2meegemwot3gp3qr6alpa".to_string(),
        "2030784632333631443241394130363737653866664431353135643635434635313930654132306542353620743036303234".to_string(),
    )
}

fn yay(num: u32) -> ReceivedVote {
    let (signature, message) = match num {
        1 => ("0x67ae6539cd110b9a043e3836303771d8a8ec13c7c688f369cc1a8a9f997128bf207319c7e94a60f9739c51510cb483c8f0c2efa32147690ae8221c08d34352ec1b", "YAY: FIP-1"),
        2 => ("0xc5e380ff34eda4c028e100ad808c42a0d304a31d27f40a32ec4ecc864df29fac00b130de1ef08e362a89c3349d2e00eb793fe1e3c4b4fb6a676e393646caf3291b", "YAY: FIP-2"),
        3 => ("0x4080a0f4a2a137827af25ac40c7891a42fe92f05385eecc6d7c2bf0bfbbd2552525215c7ccd32f97b7b1a5a22bd812ca2277642b4c038e8aab9b3801fae400521c", "YAY: FIP-3"),
        4 => ("0x6ca909939f925a502e4311b4b351276e534e93b09ec710dbf817df54c3fb6e1a782fd88091facdea51138fb3a2282ab01b8caa54f3ba486827add40bb953b3b11c", "YAY: FIP-4"),
        5 => ("0x6aded16a76903fc3a957ee0704a3599bb577b848381930c4bf06c5dd5e4cb87a39f8fe07f80bee085188a2e4e151dacac45f63b1da891d6d0bf7337a6a3834571b", "YAY: FIP-5"),
        _ => panic!("Invalid vote number"),
    };
    ReceivedVote::new(signature.to_string(), message.to_string())
}

/// The power that the oracle is taken to report for provider 6024.
const POWER: u128 = 10240000;

fn redis() -> Redis {
    let mut redis = Redis::new(Store::new());

    redis.flush_all().unwrap();

    let vote_reg = test_reg().recover_vote_registration(&vec![Ok(true)]).unwrap();
    redis
        .register_voter(vote_reg.address(), vote_reg.ntw(), vote_reg.sp_ids())
        .unwrap();

    redis
}

fn voter() -> Address {
    Address::parse("0xf2361d2a9a0677e8ffd1515d65cf5190ea20eb56").unwrap()
}

fn vote_starter() -> Address {
    authorized_voters()[0]
}

fn networks() -> Vec<Network> {
    vec![Network::Mainnet, Network::Testnet]
}

#[test]
fn redis_votes() {
    let redis = redis();

    let res = redis.votes(5u32, Network::Testnet);

    assert!(res.is_ok());
}

#[test]
fn redis_start_vote() {
    let mut redis = redis();

    let starter = voter();

    for ntw in networks() {
        let res = redis.start_vote_at(5u32, starter, ntw, 1_000);

        assert!(res.is_ok());

        let res = redis.vote_status_at(5u32, 60u64, ntw, 1_000);

        assert!(res.is_ok());

        let status = res.unwrap();

        assert_eq!(status, VoteStatus::InProgress(60u64));

        let res = redis.active_votes(ntw, None);
        assert!(res.is_ok());

        let active_votes = res.unwrap();
        assert!(active_votes.contains(&5u32));
    }
}

#[test]
fn redis_register_active_vote() {
    let mut redis = redis();

    for ntw in networks() {
        let res = redis.active_votes(ntw, None);

        assert!(res.is_ok());

        let res = redis.start_vote_at(5u32, vote_starter(), ntw, 10);

        assert!(res.is_ok());

        let res = redis.active_votes(ntw, None);
        assert!(res.is_ok());

        let active_votes = res.unwrap();
        assert!(active_votes.contains(&5u32));
    }
}

#[test]
fn redis_register_voter() {
    let mut redis = redis();

    let res = redis.register_voter(vote_starter(), Network::Mainnet, vec![1u32]);

    assert!(res.is_ok());

    let ntw = redis.network(vote_starter());

    assert!(ntw.is_ok());
    assert_eq!(ntw, Ok(Network::Mainnet));

    let delegates = redis.voter_delegates(vote_starter(), Network::Mainnet);

    assert!(delegates.is_ok());

    let delegates = delegates.unwrap();

    assert_eq!(delegates, vec![1u32]);
}

#[test]
fn redis_unregister_voter() {
    let mut redis = redis();

    redis
        .register_voter(vote_starter(), Network::Mainnet, vec![1u32])
        .unwrap();

    let res = redis.unregister_voter(vote_starter(), Network::Mainnet);

    assert!(res.is_ok());

    let ntw = redis.network(vote_starter());

    assert!(ntw.is_err());
    assert_eq!(ntw, Err(LedgerError::VoterNotRegistered));

    let delegates = redis.voter_delegates(vote_starter(), Network::Mainnet);

    assert!(delegates.is_ok());
    assert!(delegates.unwrap().is_empty());
}

#[test]
fn redis_register_voter_starter() {
    let mut redis = redis();

    for ntw in networks() {
        let res = redis.register_voter_starter(voter(), ntw);

        assert!(res.is_ok());

        let res = redis.voter_starters(ntw);

        assert!(res.is_ok());
        assert!(res.unwrap().contains(&voter()));
    }
}

#[test]
fn redis_is_registered() {
    let mut redis = redis();

    for ntw in networks() {
        let res = redis.is_registered(vote_starter(), ntw);

        assert!(!res);

        let res = redis.register_voter(vote_starter(), ntw, vec![1u32]);
        assert!(res.is_ok());

        let res = redis.is_registered(vote_starter(), ntw);

        assert!(res);

        let res = redis.unregister_voter(vote_starter(), ntw);

        assert!(res.is_ok());

        let res = redis.is_registered(vote_starter(), ntw);

        assert!(!res);
    }
}

#[test]
fn redis_test_active_vote() {
    let mut redis = redis();

    for ntw in networks() {
        let res = redis.active_votes(ntw, None);

        assert!(res.is_ok());
        assert!(res.unwrap().is_empty());

        let res = redis.start_vote_at(87, vote_starter(), ntw, 500);

        assert!(res.is_ok());

        let res = redis.active_votes(ntw, None);

        assert!(res.is_ok());

        let votes = res.unwrap();
        assert!(votes.contains(&87));

        let res = redis.sweep_expired_at(ntw, 10, 510);

        assert!(res.is_ok());

        let res = redis.active_votes(ntw, None);

        assert!(res.is_ok());
        assert!(!res.unwrap().contains(&87));
    }
}

#[test]
fn redis_test_concluded_vote() {
    let mut redis = redis();

    for ntw in networks() {
        redis.start_vote_at(89, vote_starter(), ntw, 500).unwrap();
        let res = redis.sweep_expired_at(ntw, 10, 600);

        assert!(res.is_ok());

        let res = redis.concluded_votes(ntw);

        assert!(res.is_ok());

        let votes = res.unwrap();
        assert!(votes.contains(&89));
    }
}

#[test]
fn redis_test_vote() {
    let mut redis = redis();

    let fip = 5u32;
    let vote_length = 1u64;
    let ntw = Network::Testnet;
    let start = 1_700_000_000u64;

    redis.start_vote_at(fip, vote_starter(), ntw, start).unwrap();

    let active = redis.active_votes(ntw, None).unwrap();
    println!("{:?}", active);

    assert!(active.contains(&fip));

    let vote = yay(fip).vote().unwrap();

    redis
        .add_vote_at(fip, vote, voter(), vote_length, start, &vec![Some(POWER)])
        .unwrap();

    // one second after the vote has run its length
    let active = redis
        .active_votes_at(ntw, Some(vote_length), start + vote_length + 1)
        .unwrap();

    assert!(!active.contains(&fip));

    let concluded = redis.concluded_votes(ntw).unwrap();

    assert!(concluded.contains(&fip));
}

#[test]
fn redis_get_storage() {
    let redis = redis();

    let res = redis.get_storage(49u32, VoteOption::Yay, Network::Testnet);

    println!("{:?}", res);

    assert!(res.is_ok());
    assert_eq!(res, Ok(0));
}

#[test]
fn redis_add_storage() {
    let mut redis = redis();
    redis.start_vote_at(5u32, vote_starter(), Network::Testnet, 0).unwrap();

    let res = redis.add_vote_at(
        5u32,
        Vote::new(VoteOption::Yay, voter(), 5u32),
        voter(),
        60,
        0,
        &vec![Some(POWER)],
    );

    assert!(res.is_ok());
}

#[test]
fn redis_storage() {
    let mut redis = redis();
    redis.start_vote_at(831u32, vote_starter(), Network::Testnet, 0).unwrap();

    let res = redis.add_vote_at(
        831u32,
        Vote::new(VoteOption::Yay, voter(), 831u32),
        voter(),
        60,
        0,
        &vec![Some(POWER)],
    );

    assert!(res.is_ok());

    let res = redis.get_storage(831u32, VoteOption::Yay, Network::Testnet);

    assert!(res.is_ok());
    assert_eq!(res.unwrap(), 10240000u128);
}

#[test]
fn redis_vote_start() {
    let mut redis = redis();

    let vote = yay(4u32).vote().unwrap();

    redis.start_vote(4u32, vote_starter(), Network::Testnet).unwrap();
    let res = redis.add_vote(4u32, vote, voter(), 60, &vec![Some(POWER)]);
    println!("{:?}", res);
    assert!(res.is_ok());

    let res = redis.vote_start(4u32, Network::Testnet);

    match res {
        Ok(_) => {}
        Err(e) => panic!("Error: {}", e.message()),
    }
}

#[test]
fn redis_vote_status() {
    let mut redis = redis();

    let vote = yay(3u32).vote().unwrap();
    let vote_start = 1_700_000_000u64;

    redis
        .start_vote_at(3u32, vote_starter(), Network::Testnet, vote_start)
        .unwrap();
    let res = redis.add_vote_at(3u32, vote, voter(), 60, vote_start, &vec![Some(POWER)]);
    assert!(res.is_ok());

    assert_eq!(redis.vote_start(3u32, Network::Testnet), Ok(vote_start));

    // two seconds later
    let time_now = vote_start + 2;

    let ongoing = time_now - vote_start + 1;
    let concluded = time_now - vote_start - 1;

    let res = redis.vote_status_at(3u32, ongoing, Network::Testnet, time_now);

    match res {
        Ok(_) => {}
        Err(e) => panic!("Error: {}", e.message()),
    }
    assert_eq!(res.unwrap(), VoteStatus::InProgress(1));

    let res = redis.vote_status_at(3u32, concluded, Network::Testnet, time_now);

    match res {
        Ok(_) => {}
        Err(e) => panic!("Error: {}", e.message()),
    }
    assert_eq!(res.unwrap(), VoteStatus::Concluded);

    let res = redis.vote_status_at(1234089398u32, concluded, Network::Testnet, time_now);

    match res {
        Ok(_) => {}
        Err(e) => panic!("Error: {}", e.message()),
    }
    assert_eq!(res.unwrap(), VoteStatus::DoesNotExist);
}

#[test]
fn redis_add_vote() {
    let mut redis = redis();

    let vote = yay(2u32).vote().unwrap();

    redis.start_vote(2u32, vote_starter(), Network::Testnet).unwrap();

    let res = redis.add_vote(2u32, vote, voter(), 60, &vec![Some(POWER)]);

    match res {
        Ok(_) => {}
        Err(e) => panic!("Error: {}", e.message()),
    }

    let res = redis.vote_results(2u32, Network::Testnet);

    assert!(res.is_ok());

    let results: VoteResults = res.unwrap();

    assert_eq!(results.yay, 1);
    assert_eq!(results.yay_storage_size, 10240000u128);
}

#[test]
fn redis_vote_results() {
    let mut redis = redis();
    let vote = yay(1u32).vote().unwrap();

    redis.start_vote(1u32, vote_starter(), Network::Testnet).unwrap();

    let res = redis.add_vote(1u32, vote, voter(), 60, &vec![Some(POWER)]);
    println!("{:?}", res);
    assert!(res.is_ok());

    let res = redis.vote_results(1u32, Network::Testnet);

    match res {
        Ok(_) => {}
        Err(e) => panic!("Error: {}", e.message()),
    }
}

#[test]
fn redis_flush_database() {
    let mut redis = redis();
    redis.flush_all().unwrap();
    assert!(redis.store().keys().is_empty());
}

#[test]
fn clock_is_read_for_status() {
    let mut redis = redis();
    redis.start_vote(9, vote_starter(), Network::Mainnet).unwrap();
    match redis.vote_status(9, 60, Network::Mainnet).unwrap() {
        VoteStatus::InProgress(left) => assert!(58 <= left && left <= 60),
        other => panic!("{:?}", other),
    }
    assert_eq!(redis.active_votes(Network::Mainnet, Some(60)), Ok(vec![9]));
    assert_eq!(redis.sweep_expired(Network::Mainnet, 0), Ok(vec![]));
    assert_eq!(redis.vote_status(9, 60, Network::Mainnet), Ok(VoteStatus::Concluded));
    let started = redis.vote_start(9, Network::Mainnet).unwrap();
    assert!(started > 1_600_000_000);
}
