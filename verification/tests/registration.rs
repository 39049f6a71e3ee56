use fip_voting::address::Address;
use fip_voting::messages::vote_registration::{
    PublicKey, ReceivedVoterRegistration, Signature, VoteRegistrationError,
};
use fip_voting::storage::{Network, StorageFetchError};

use bls_signatures::{PrivateKey, Serialize};

fn test_reg() -> ReceivedVoterRegistration {
    ReceivedVoterRegistration::new(
        "0299f5c42a957809d0bd80cb29986b811fbacd1ed84b5995f1d21c6a7063cada725fe0c643bbcdc4082b078d1420fc9e7d08f9c28c9dbf4597183dd92c2fa2ff7727eee2e6f84fb24134051005ea93b3bfe5e294d2e1413bf111440afdadfa0744".to_string(),
        "t3qejyqmrirddrsb2w2thbaco3q6emuljumlhuonp3al35g3kkzx4zpeecycw7gim2meegemwot3gp3qr6alpa".to_string(),
        "2030784632333631443241394130363737653866664431353135643635434635313930654132306542353620743036303234".to_string(),
    )
}

#[test]
fn vote_registration_sig() {
    let reg = test_reg();
    let sig = reg.sig();

    assert!(sig.is_ok());
}

#[test]
fn vote_registration_pub_key() {
    let reg = test_reg();
    let pub_key = reg.pub_key();

    assert!(pub_key.is_ok());

    let (_, ntw) = pub_key.unwrap();

    assert_eq!(ntw, Network::Testnet);
}

#[test]
fn vote_registration_recover() {
    let reg = test_reg();

    let res = reg.recover_vote_registration(&vec![Ok(true)]);

    println!("{:?}", res);
    assert!(res.is_ok());
    let registration = res.unwrap();
    assert_eq!(
        registration.address(),
        Address::parse("0xf2361d2a9a0677e8ffd1515d65cf5190ea20eb56").unwrap()
    );
    assert_eq!(registration.ntw(), Network::Testnet);
    assert_eq!(registration.sp_ids(), vec![6024u32]);
}

#[test]
fn registration_claim_lists_what_to_confirm() {
    let claim = test_reg().claim().unwrap();
    assert_eq!(claim.network(), Network::Testnet);
    assert_eq!(claim.provider_count(), 1);
    assert_eq!(claim.provider(0).as_str(), "t06024");
    assert_eq!(
        claim.voter(),
        Address::parse("0xf2361d2a9a0677e8ffd1515d65cf5190ea20eb56").unwrap()
    );
}

#[test]
fn registration_needs_every_provider_confirmed() {
    let reg = test_reg();
    assert_eq!(
        reg.recover_vote_registration(&vec![Ok(false)]).err(),
        Some(VoteRegistrationError::NotStorageProvider)
    );
    assert_eq!(
        reg.recover_vote_registration(&vec![]).err(),
        Some(VoteRegistrationError::NotStorageProvider)
    );
    assert_eq!(
        reg.recover_vote_registration(&vec![Err(StorageFetchError::NoResult)]).err(),
        Some(VoteRegistrationError::StorageFetchError(StorageFetchError::NoResult))
    );
}

#[test]
fn registration_with_wrong_message_is_a_mismatch() {
    let good = test_reg();
    // the same text with another provider: the signature no longer fits
    let message = good.message.replace("743036303234", "743036303235");
    let reg = ReceivedVoterRegistration::new(good.signature, good.worker_address, message);
    assert_eq!(reg.claim().err(), Some(VoteRegistrationError::SignatureMismatch));
}

#[test]
fn registration_errors_by_field() {
    let good = test_reg();
    let bad_worker = ReceivedVoterRegistration::new(
        good.signature.clone(),
        "x3qejyqmrirddrsb2w2thbaco3q6emuljumlhuonp3al35g3kkzx4zpeecycw7gim2meegemwot3gp3qr6alpa"
            .to_string(),
        good.message.clone(),
    );
    assert_eq!(bad_worker.pub_key().err(), Some(VoteRegistrationError::InvalidWorkerAddress));
    let short_worker =
        ReceivedVoterRegistration::new(good.signature.clone(), "t3abc".to_string(), good.message.clone());
    assert_eq!(short_worker.claim().err(), Some(VoteRegistrationError::InvalidWorkerAddress));
    let not_a_key = ReceivedVoterRegistration::new(
        good.signature.clone(),
        "t3aaaaaaaaaaaaaaaaaaaaaaaaaaaaaaaaaaaaaaaaaaaaaaaaaaaaaaaaaaaaaaaaaaaaaaaaaaaaaaaaaaaaaaaaaaaaa7"
            .to_string()
            .chars()
            .take(86)
            .collect(),
        good.message.clone(),
    );
    assert_eq!(not_a_key.pub_key().err(), Some(VoteRegistrationError::InvalidBlsEncoding));
    let bad_hex = ReceivedVoterRegistration::new(
        good.signature.clone(),
        good.worker_address.clone(),
        "zz".to_string(),
    );
    assert_eq!(bad_hex.claim().err(), Some(VoteRegistrationError::InvalidHexEncoding));
    let bad_sig = ReceivedVoterRegistration::new(
        "0".to_string(),
        good.worker_address.clone(),
        good.message.clone(),
    );
    assert_eq!(bad_sig.sig().err(), Some(VoteRegistrationError::InvalidHexEncoding));
    let odd_sig = ReceivedVoterRegistration::new(
        "02abc".to_string(),
        good.worker_address.clone(),
        good.message.clone(),
    );
    assert_eq!(odd_sig.sig().err(), Some(VoteRegistrationError::InvalidHexEncoding));
    let short_sig = ReceivedVoterRegistration::new(
        "02abcd".to_string(),
        good.worker_address.clone(),
        good.message.clone(),
    );
    assert_eq!(short_sig.sig().err(), Some(VoteRegistrationError::InvalidBlsEncoding));
}

#[test]
fn bls_types_check_their_bytes() {
    assert_eq!(
        PublicKey::from_bytes(vec![0u8; 10]).err(),
        Some(VoteRegistrationError::InvalidBlsEncoding)
    );
    assert_eq!(
        Signature::from_bytes(vec![0u8; 96]).err(),
        Some(VoteRegistrationError::InvalidBlsEncoding)
    );
    let (key, _) = test_reg().pub_key().unwrap();
    assert_eq!(key.as_bytes().len(), 48);
    let sig = test_reg().sig().unwrap();
    assert_eq!(sig.as_bytes().len(), 96);
    assert!(!key.verify(&sig, &vec![1, 2, 3]));
}

#[test]
fn registration_errors_describe_themselves() {
    assert_eq!(VoteRegistrationError::SignatureMismatch.message(), "Signature does not match message");
    assert_eq!(VoteRegistrationError::InvalidMessageFormat.message(), "Invalid message format");
    assert_eq!(VoteRegistrationError::NotStorageProvider.message(), "Not a storage provider");
    assert_eq!(VoteRegistrationError::InvalidWorkerAddress.message(), "Invalid worker address");
    assert_eq!(VoteRegistrationError::InvalidAddress.message(), "Invalid address");
    assert_eq!(
        VoteRegistrationError::InvalidStorageProviderId.message(),
        "Invalid storage provider id"
    );
}

/// A registration with the given text, signed by a worker whose key is made
/// from a fixed seed. `prefix` is the letter of the network.
fn signed(prefix: char, text: &str) -> ReceivedVoterRegistration {
    let key = PrivateKey::new([7u8; 32]);
    let signature = key.sign(text.as_bytes());
    let mut payload = key.public_key().as_bytes();
    payload.extend_from_slice(&[0u8; 4]);
    let worker = format!(
        "{}3{}",
        prefix,
        base32::encode(base32::Alphabet::RFC4648 { padding: false }, &payload).to_lowercase()
    );
    assert_eq!(worker.len(), 86);
    ReceivedVoterRegistration::new(
        format!("02{}", hex::encode(signature.as_bytes())),
        worker,
        hex::encode(text.as_bytes()),
    )
}

const VOTER: &str = "0xf2361d2a9a0677e8ffd1515d65cf5190ea20eb56";

#[test]
fn registration_on_either_network() {
    let reg = signed('f', &format!("{} f01240 f07 f0007", VOTER));
    let claim = reg.claim().unwrap();
    assert_eq!(claim.network(), Network::Mainnet);
    assert_eq!(claim.provider_count(), 3);
    assert_eq!(claim.provider(2).as_str(), "f0007");
    let registration = reg.recover_vote_registration(&vec![Ok(true), Ok(true), Ok(true)]).unwrap();
    assert_eq!(registration.ntw(), Network::Mainnet);
    assert_eq!(registration.sp_ids(), vec![1240, 7, 7]);
    assert_eq!(registration.address(), Address::parse(VOTER).unwrap());

    let upper = signed('T', &format!("{}   T06024\n", VOTER.to_uppercase().replace("0X", "0x")));
    let registration = upper.recover_vote_registration(&vec![Ok(true)]).unwrap();
    assert_eq!(registration.ntw(), Network::Testnet);
    assert_eq!(registration.sp_ids(), vec![6024]);
    assert_eq!(registration.address(), Address::parse(VOTER).unwrap());
    assert_eq!(upper.claim().unwrap().provider(0).as_str(), "t06024");

    let none = signed('t', VOTER);
    let registration = none.recover_vote_registration(&vec![]).unwrap();
    assert!(registration.sp_ids().is_empty());
}

#[test]
fn registration_errors_of_the_message() {
    assert_eq!(signed('t', "").claim().err(), Some(VoteRegistrationError::InvalidMessageFormat));
    assert_eq!(signed('t', "  \t ").claim().err(), Some(VoteRegistrationError::InvalidMessageFormat));
    assert_eq!(
        signed('t', "nobody t01").claim().err(),
        Some(VoteRegistrationError::InvalidAddress)
    );
    for name in ["t0x1", "t", "6024x", "t-1", "t4294967296"] {
        let reg = signed('t', &format!("{} t01 {}", VOTER, name));
        assert!(reg.claim().is_ok());
        assert_eq!(
            reg.recover_vote_registration(&vec![Ok(true), Ok(true)]).err(),
            Some(VoteRegistrationError::InvalidStorageProviderId),
            "{:?}",
            name
        );
        // an answer of the oracle comes before the name
        assert_eq!(
            reg.recover_vote_registration(&vec![Ok(true), Ok(false)]).err(),
            Some(VoteRegistrationError::NotStorageProvider)
        );
        assert_eq!(
            reg.recover_vote_registration(&vec![Err(StorageFetchError::Serde), Ok(false)]).err(),
            Some(VoteRegistrationError::StorageFetchError(StorageFetchError::Serde))
        );
    }
    // the first error in the order of the providers is reported
    let reg = signed('t', &format!("{} tx t02", VOTER));
    assert_eq!(
        reg.recover_vote_registration(&vec![Ok(true), Ok(false)]).err(),
        Some(VoteRegistrationError::InvalidStorageProviderId)
    );
}

#[test]
fn registration_signed_by_another_worker() {
    let good = signed('t', &format!("{} t01", VOTER));
    let other = PrivateKey::new([8u8; 32]);
    let forged = ReceivedVoterRegistration::new(
        format!("02{}", hex::encode(other.sign(format!("{} t01", VOTER).as_bytes()).as_bytes())),
        good.worker_address.clone(),
        good.message.clone(),
    );
    assert_eq!(forged.claim().err(), Some(VoteRegistrationError::SignatureMismatch));
    assert!(good.claim().is_ok());
    let (key, _) = good.pub_key().unwrap();
    assert!(key.verify(&good.sig().unwrap(), &format!("{} t01", VOTER).into_bytes()));
    assert!(!key.verify(&forged.sig().unwrap(), &format!("{} t01", VOTER).into_bytes()));
}
