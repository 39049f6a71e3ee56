use fip_voting::address::Address;
use fip_voting::messages::votes::{ReceivedVote, VoteError, VoteOption};

fn fixture(signature: &str, message: &str) -> ReceivedVote {
    ReceivedVote::new(signature.to_string(), message.to_string())
}

fn yay(num: u32) -> ReceivedVote {
    match num {
        1 => fixture(
            "0x67ae6539cd110b9a043e3836303771d8a8ec13c7c688f369cc1a8a9f997128bf207319c7e94a60f9739c51510cb483c8f0c2efa32147690ae8221c08d34352ec1b",
            "YAY: FIP-1",
        ),
        2 => fixture(
            "0xc5e380ff34eda4c028e100ad808c42a0d304a31d27f40a32ec4ecc864df29fac00b130de1ef08e362a89c3349d2e00eb793fe1e3c4b4fb6a676e393646caf3291b",
            "YAY: FIP-2",
        ),
        3 => fixture(
            "0x4080a0f4a2a137827af25ac40c7891a42fe92f05385eecc6d7c2bf0bfbbd2552525215c7ccd32f97b7b1a5a22bd812ca2277642b4c038e8aab9b3801fae400521c",
            "YAY: FIP-3",
        ),
        4 => fixture(
            "0x6ca909939f925a502e4311b4b351276e534e93b09ec710dbf817df54c3fb6e1a782fd88091facdea51138fb3a2282ab01b8caa54f3ba486827add40bb953b3b11c",
            "YAY: FIP-4",
        ),
        5 => fixture(
            "0x6aded16a76903fc3a957ee0704a3599bb577b848381930c4bf06c5dd5e4cb87a39f8fe07f80bee085188a2e4e151dacac45f63b1da891d6d0bf7337a6a3834571b",
            "YAY: FIP-5",
        ),
        _ => panic!("Invalid vote number"),
    }
}

fn nay(num: u32) -> ReceivedVote {
    match num {
        1 => fixture(
            "0x66b3478b3ff31992bdc6c9755bca8a3a40975fddf96f884981ca596a33186f677eef3b8d97dbae93602ae7e7d1c6b7d25efb08105fde5286fd4d6f45dc2558f81c",
            "NAY: FIP-1",
        ),
        2 => fixture(
            "0x84c865fc1e1cc9b8fe582867143501da107a70a7bd4a9c1d32dec8acd1832c634c1ae6475ee7f525d18a361d8b9bfd15ec8e6c32f8dc83980b8e7d73c0983f931b",
            "NAY: FIP-2",
        ),
        3 => fixture(
            "0xcf1667e86a3be597aba7aa9a513862c3321e311e62b70705ab21e1637c016efc43664ee5f130f3815cbcf89ee50fb71435848299f6e72f5b8258bad15a81f1f91c",
            "NAY: FIP-3",
        ),
        4 => fixture(
            "0x7e8b227fdd90b14e88b95060955d454bec53d3953e01d65682e8457f85706235680af102dacc9a5ddea05017255a6c8a3b52ebb1f75ab5fb8b7f54d71701fdac1c",
            "NAY: FIP-4",
        ),
        5 => fixture(
            "0x3ad40ddaa8198e0d114e1551a629bf3b5dc84f31d9245cf9da483c073f8d21f405f1650e86e857bf7c7ad08c3e5b43086066fd8efb54be23f739efd0d7ee98971b",
            "NAY: FIP-5",
        ),
        _ => panic!("Invalid vote number"),
    }
}

fn abstain(num: u32) -> ReceivedVote {
    match num {
        1 => fixture(
            "0x4bbe43a386b903e730896ce976ca2e02dfa32e1208399f028554d121301ccca96b8fba474343e422bc949aa5b6d662ad5026dd8b04cfe58847b6d4f3d500b3e81b",
            "ABSTAIN: FIP-1",
        ),
        2 => fixture(
            "0x27d5186976e4c23b4d7d2e4fb5a7d5118b3f838d45fdc0e8e47682fbf6d2d8df0a25f2704cfe2845f9cc1eba982db7c14751bc61a9784b27f7968a6def56f1de1b",
            "ABSTAIN: FIP-2",
        ),
        3 => fixture(
            "0x8783fb87eab644b324e3e7361139448bd3a7826103c6f8eff7f6ca8141af92ee7d297529f52e795a76f37a7628d54e8bed5b0e91213994083c4666449c3d594b1c",
            "ABSTAIN: FIP-3",
        ),
        4 => fixture(
            "0xe7a637ed491d8257716342ad10b2655da54f8f5c3abe16ef104d3701e4c4e1b24da8486bf5d728c33a3450c2ce4cae69a1c2cb9a4c2f1f762c0ca99c307f8a921b",
            "ABSTAIN: FIP-4",
        ),
        5 => fixture(
            "0xc0dfd2291c2ba5223937b9af815c8a6f1042ecfa046a63471a74354055b871b22d802192d8409d4b974fe462fcf78e99120f344dfb3e728b5cf339e6210cb7d91c",
            "ABSTAIN: FIP-5",
        ),
        _ => panic!("Invalid vote number"),
    }
}

pub fn test_vote(choice: VoteOption, num: u32) -> ReceivedVote {
    match choice {
        VoteOption::Yay => yay(num),
        VoteOption::Nay => nay(num),
        VoteOption::Abstain => abstain(num),
    }
}

#[test]
fn votes_pub_key() {
    let vote = test_vote(VoteOption::Yay, 1u32);

    let res = vote.pub_key();

    assert!(res.is_ok());

    let res = vote.msg_details();

    assert!(res.is_ok());
}

#[test]
fn votes_msg_details() {
    let options = vec![VoteOption::Yay, VoteOption::Nay, VoteOption::Abstain];
    let fip_nums = 1..=5;
    for option in options {
        for num in fip_nums.clone() {
            let vote = test_vote(option.clone(), num);

            let res = vote.msg_details();

            assert!(res.is_ok());

            let (option1, fip) = res.unwrap();

            assert_eq!(option1, option);
            assert_eq!(fip, num);
        }
    }
}

#[test]
fn votes_recover_vote() {
    let real_addr = Address::parse("0xf2361d2a9a0677e8ffd1515d65cf5190ea20eb56").unwrap();

    let vote = test_vote(VoteOption::Yay, 1u32);

    let res = vote.vote();

    assert!(res.is_ok());

    let recovered_vote = res.unwrap();

    assert_eq!(recovered_vote.choice(), VoteOption::Yay);
    assert_eq!(recovered_vote.voter(), real_addr);
    assert_eq!(recovered_vote.fip(), 1u32);

    println!("{:?}", recovered_vote.voter());

    let vote = test_vote(VoteOption::Nay, 1u32);

    let res = vote.vote();

    assert!(res.is_ok());

    let recovered_vote = res.unwrap();

    assert_eq!(recovered_vote.choice(), VoteOption::Nay);
    assert_eq!(recovered_vote.voter(), real_addr);
    assert_eq!(recovered_vote.fip(), 1u32);

    let vote = test_vote(VoteOption::Abstain, 1u32);

    let res = vote.vote();

    assert!(res.is_ok());

    let recovered_vote = res.unwrap();

    assert_eq!(recovered_vote.choice(), VoteOption::Abstain);
    assert_eq!(recovered_vote.voter(), real_addr);
    assert_eq!(recovered_vote.fip(), 1u32);
}

#[test]
fn ballot_with_three_words_is_malformed() {
    let vote = fixture("0x00", "YAY: FIP-1 now");
    assert!(matches!(vote.msg_details(), Err(VoteError::InvalidMessageFormat)));
}

#[test]
fn ballot_with_unknown_choice_is_refused() {
    let vote = fixture("0x00", "MAYBE: FIP-1");
    assert!(matches!(vote.msg_details(), Err(VoteError::InvalidVoteOption)));
}

#[test]
fn ballot_with_bad_number_is_malformed() {
    for message in ["YAY: FIP-", "YAY: FIP-x", "YAY: fip-1", "YAY: FIP-4294967296", "YAY: FIP--1"] {
        let vote = fixture("0x00", message);
        assert!(matches!(vote.msg_details(), Err(VoteError::InvalidMessageFormat)));
    }
    let vote = fixture("0x00", " NAY:\t FIP-4294967295 \n");
    assert!(matches!(vote.msg_details(), Ok((VoteOption::Nay, 4294967295))));
    let vote = fixture("0x00", "ABSTAIN: FIP-+007");
    assert!(matches!(vote.msg_details(), Ok((VoteOption::Abstain, 7))));
}

#[test]
fn bad_signature_is_reported() {
    let vote = fixture("zz", "YAY: FIP-1");
    assert!(matches!(vote.vote(), Err(VoteError::SignatureError(_))));
    assert!(matches!(vote.pub_key(), Err(VoteError::SignatureError(_))));
}

#[test]
fn errors_describe_themselves() {
    assert_eq!(VoteError::InvalidMessageFormat.message(), "Invalid message format");
    assert_eq!(VoteError::InvalidVoteOption.message(), "Invalid vote option");
    let error = fixture("zz", "YAY: FIP-1").pub_key().unwrap_err();
    assert!(matches!(error, VoteError::SignatureError(_)));
    assert!(!error.message().is_empty());
    let short = fixture("0x1234", "YAY: FIP-1").pub_key().unwrap_err();
    assert!(short.message().contains("65"));
}

#[test]
fn signer_depends_on_the_message() {
    let signed = test_vote(VoteOption::Yay, 1);
    let other = fixture(&signed.signature, "YAY: FIP-2");
    let signer = signed.pub_key().unwrap();
    match other.pub_key() {
        Ok(address) => assert_ne!(address, signer),
        Err(e) => assert!(matches!(e, VoteError::SignatureError(_))),
    }
    for num in 1..=5 {
        for choice in [VoteOption::Yay, VoteOption::Nay, VoteOption::Abstain] {
            assert_eq!(test_vote(choice, num).pub_key().unwrap(), signer);
        }
    }
    assert_eq!(signer.to_hex(), "0xf2361d2a9a0677e8ffd1515d65cf5190ea20eb56");
}

#[test]
fn addresses_are_read_from_hexadecimal_digits() {
    let address = Address::parse("0x000102030405060708090a0b0c0d0e0f10111213").unwrap();
    assert_eq!(address.0, [0, 1, 2, 3, 4, 5, 6, 7, 8, 9, 10, 11, 12, 13, 14, 15, 16, 17, 18, 19]);
    assert_eq!(Address::parse("000102030405060708090A0B0C0D0E0F10111213"), Some(address));
    assert_eq!(address.to_hex(), "0x000102030405060708090a0b0c0d0e0f10111213");
    assert_eq!(Address::parse("0x0001"), None);
    assert_eq!(Address::parse(""), None);
    assert_eq!(Address::parse("0x000102030405060708090a0b0c0d0e0f1011121g"), None);
    assert_eq!(Address::parse("0x000102030405060708090a0b0c0d0e0f1011121314"), None);
}
