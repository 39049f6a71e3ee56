use fip_voting::address::Address;
use fip_voting::keys::LookupKey;
use fip_voting::messages::votes::VoteOption;
use fip_voting::storage::Network;

fn address(last: u8) -> Address {
    let mut bytes = [0x11u8; 20];
    bytes[19] = last;
    Address(bytes)
}

fn all_keys() -> Vec<(String, Vec<u8>)> {
    let mut keys = Vec::new();
    let networks = [Network::Mainnet, Network::Testnet];
    let choices = [VoteOption::Yay, VoteOption::Nay, VoteOption::Abstain];
    let fips = [0u32, 1, 2, 9, 10, 255, 256, 65536, 0x0100_0000, u32::MAX];
    let voters = [address(0), address(1), address(2), Address([0u8; 20]), Address([0xffu8; 20])];
    for ntw in networks {
        keys.push((format!("starters {:?}", ntw), LookupKey::VoteStarters(ntw).to_bytes()));
        keys.push((format!("active {:?}", ntw), LookupKey::ActiveVotes(ntw).to_bytes()));
        keys.push((format!("concluded {:?}", ntw), LookupKey::ConcludedVotes(ntw).to_bytes()));
        for fip in fips {
            keys.push((format!("votes {} {:?}", fip, ntw), LookupKey::Votes(fip, ntw).to_bytes()));
            keys.push((
                format!("timestamp {} {:?}", fip, ntw),
                LookupKey::Timestamp(fip, ntw).to_bytes(),
            ));
            for choice in choices {
                keys.push((
                    format!("storage {:?} {} {:?}", choice, fip, ntw),
                    LookupKey::Storage(choice, ntw, fip).to_bytes(),
                ));
            }
        }
        for voter in voters {
            keys.push((format!("voter {:?} {:?}", voter, ntw), LookupKey::Voter(ntw, voter).to_bytes()));
        }
    }
    for voter in voters {
        keys.push((format!("network {:?}", voter), LookupKey::Network(voter).to_bytes()));
    }
    keys
}

#[test]
fn keys_are_unique_across_tables_and_networks() {
    let keys = all_keys();
    for (i, (name, key)) in keys.iter().enumerate() {
        for (other_name, other_key) in keys.iter().skip(i + 1) {
            assert_ne!(key, other_key, "{} and {}", name, other_name);
        }
    }
}

#[test]
fn key_layouts() {
    assert_eq!(LookupKey::Votes(1423, Network::Mainnet).to_bytes(), vec![0, 0, 5, 143, 0]);
    assert_eq!(LookupKey::Votes(1423, Network::Testnet).to_bytes(), vec![0, 0, 5, 143, 1]);
    assert_eq!(LookupKey::Timestamp(1423, Network::Mainnet).to_bytes(), vec![0, 0, 5, 143, 9]);
    assert_eq!(LookupKey::Timestamp(1423, Network::Testnet).to_bytes(), vec![0, 0, 5, 143, 10]);
    assert_eq!(
        LookupKey::Timestamp(0x0102_0304, Network::Testnet).to_bytes(),
        vec![1, 2, 3, 4, 10]
    );
    assert_eq!(LookupKey::VoteStarters(Network::Mainnet).to_bytes(), vec![8, 0, 0, 8, 1, 3, 5, 0]);
    assert_eq!(LookupKey::ActiveVotes(Network::Testnet).to_bytes(), vec![8, 0, 0, 8, 1, 3, 6, 1]);
    assert_eq!(LookupKey::ConcludedVotes(Network::Testnet).to_bytes(), vec![8, 0, 0, 8, 1, 3, 7, 1]);
    let voter = address(7);
    let mut forward = vec![1u8];
    forward.extend_from_slice(&voter.0);
    assert_eq!(LookupKey::Voter(Network::Testnet, voter).to_bytes(), forward);
    assert_eq!(forward.len(), 21);
    let mut reverse = vec![2u8];
    reverse.extend_from_slice(&voter.0);
    assert_eq!(LookupKey::Network(voter).to_bytes(), reverse);
}

#[test]
fn storage_tags_are_choice_times_network() {
    let tag = |choice, ntw| LookupKey::Storage(choice, ntw, 7).to_bytes()[4];
    assert_eq!(tag(VoteOption::Yay, Network::Mainnet), 2);
    assert_eq!(tag(VoteOption::Nay, Network::Mainnet), 3);
    assert_eq!(tag(VoteOption::Abstain, Network::Mainnet), 7);
    assert_eq!(tag(VoteOption::Yay, Network::Testnet), 4);
    assert_eq!(tag(VoteOption::Nay, Network::Testnet), 6);
    assert_eq!(tag(VoteOption::Abstain, Network::Testnet), 14);
    assert_eq!(
        LookupKey::Storage(VoteOption::Abstain, Network::Testnet, 1423).to_bytes(),
        vec![0, 0, 5, 143, 14]
    );
}

#[test]
fn votes_vote_option_to_bytes() {
    let yay = VoteOption::Yay;
    let nay = VoteOption::Nay;
    let abstain = VoteOption::Abstain;

    assert_eq!(yay.to_bytes(1423), [0, 0, 0, 5, 143]);
    assert_eq!(nay.to_bytes(1423), [1, 0, 0, 5, 143]);
    assert_eq!(abstain.to_bytes(1423), [2, 0, 0, 5, 143]);
}

#[test]
fn vote_option_bytes() {
    assert_eq!(VoteOption::from_byte(0), Some(VoteOption::Yay));
    assert_eq!(VoteOption::from_byte(1), Some(VoteOption::Nay));
    assert_eq!(VoteOption::from_byte(2), Some(VoteOption::Abstain));
    assert_eq!(VoteOption::from_byte(3), None);
    assert_eq!(VoteOption::from_byte(255), None);
    assert_eq!(VoteOption::Abstain.to_byte(), 2);
    assert_eq!(u8::from(VoteOption::Yay), 0);
    assert_eq!(u8::from(VoteOption::Nay), 1);
    let byte: u8 = VoteOption::Abstain.into();
    assert_eq!(byte, 2);
}
