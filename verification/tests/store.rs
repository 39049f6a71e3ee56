use fip_voting::address::{decode_addresses, encode_addresses, Address};
use fip_voting::codec::{bytes_eq, decode_u32s, encode_u32s, put_be, put_slice, read_be};
use fip_voting::messages::vote_start::{find_hyphen, VoteStart};
use fip_voting::messages::votes::{decode_votes, read_choice, read_fip, Vote, VoteError, VoteOption};
use fip_voting::store::Store;
use fip_voting::text::{chars_of, is_whitespace, parse_number, parse_u32, push_decimal, split_words};

#[test]
fn store_keeps_the_last_value() {
    let mut store = Store::new();
    assert_eq!(store.get(&vec![1]), None);
    assert!(!store.contains(&vec![1]));
    store.set(vec![1], vec![10]);
    store.set(vec![2], vec![20, 21]);
    store.set(vec![1], vec![11]);
    store.set(vec![], vec![]);
    assert_eq!(store.get(&vec![1]), Some(vec![11]));
    assert_eq!(store.get(&vec![2]), Some(vec![20, 21]));
    assert_eq!(store.get(&vec![]), Some(vec![]));
    assert!(store.contains(&vec![]));
    let mut keys = store.keys();
    keys.sort();
    assert_eq!(keys, vec![vec![], vec![1], vec![2]]);
    store.del(&vec![1]);
    store.del(&vec![7]);
    assert_eq!(store.get(&vec![1]), None);
    assert_eq!(store.keys().len(), 2);
    store.clear();
    assert!(store.keys().is_empty());
    assert_eq!(store.get(&vec![2]), None);
}

#[test]
fn big_endian_numbers() {
    let mut out = vec![7u8];
    put_be(&mut out, 1423, 4);
    assert_eq!(out, vec![7, 0, 0, 5, 143]);
    put_be(&mut out, 0x0102, 1);
    assert_eq!(out, vec![7, 0, 0, 5, 143, 2]);
    put_be(&mut out, 5, 0);
    assert_eq!(out.len(), 6);
    let mut wide = Vec::new();
    put_be(&mut wide, u128::MAX - 1, 16);
    assert_eq!(wide.len(), 16);
    assert_eq!(wide[15], 0xfe);
    assert_eq!(read_be(&wide, 0, 16), u128::MAX - 1);
    assert_eq!(read_be(&out, 1, 4), 1423);
    assert_eq!(read_be(&out, 3, 2), 5 * 256 + 143);
    assert_eq!(read_be(&out, 3, 0), 0);
    let mut stamp = Vec::new();
    put_be(&mut stamp, 1_700_000_000, 8);
    assert_eq!(stamp, 1_700_000_000u64.to_be_bytes().to_vec());
}

#[test]
fn byte_helpers() {
    assert!(bytes_eq(&vec![], &vec![]));
    assert!(bytes_eq(&vec![1, 2], &vec![1, 2]));
    assert!(!bytes_eq(&vec![1, 2], &vec![1, 3]));
    assert!(!bytes_eq(&vec![1, 2], &vec![1]));
    let mut out = vec![0u8];
    put_slice(&mut out, &vec![1, 2, 3, 4], 1, 3);
    assert_eq!(out, vec![0, 2, 3]);
}

#[test]
fn lists_of_numbers() {
    assert_eq!(encode_u32s(&vec![]), Vec::<u8>::new());
    assert_eq!(encode_u32s(&vec![1, 0x01020304]), vec![0, 0, 0, 1, 1, 2, 3, 4]);
    assert_eq!(decode_u32s(&vec![0, 0, 0, 1, 1, 2, 3, 4]), Some(vec![1, 0x01020304]));
    assert_eq!(decode_u32s(&vec![]), Some(vec![]));
    assert_eq!(decode_u32s(&vec![0, 0, 0]), None);
    assert_eq!(decode_u32s(&vec![0; 5]), None);
    let list = vec![u32::MAX, 0, 77];
    assert_eq!(decode_u32s(&encode_u32s(&list)), Some(list));
}

#[test]
fn lists_of_addresses() {
    let a = Address([1u8; 20]);
    let b = Address([2u8; 20]);
    let raw = encode_addresses(&vec![a, b]);
    assert_eq!(raw.len(), 40);
    assert_eq!(raw[19], 1);
    assert_eq!(raw[20], 2);
    assert_eq!(decode_addresses(&raw), Some(vec![a, b]));
    assert_eq!(decode_addresses(&vec![]), Some(vec![]));
    assert_eq!(decode_addresses(&vec![0; 21]), None);
    assert_eq!(Address::from_slice(&raw, 10).0[9], 1);
    assert_eq!(Address::from_slice(&raw, 10).0[10], 2);
    assert_eq!(a.to_vec(), vec![1u8; 20]);
    assert!(a.same(&Address([1u8; 20])));
    assert!(!a.same(&b));
}

#[test]
fn lists_of_votes() {
    let a = Vote::new(VoteOption::Abstain, Address([1u8; 20]), 300);
    let b = Vote::new(VoteOption::Nay, Address([2u8; 20]), 4);
    let mut raw = Vec::new();
    a.write_record(&mut raw);
    b.write_record(&mut raw);
    assert_eq!(raw.len(), 50);
    assert_eq!(raw[0], 2);
    assert_eq!(&raw[21..25], &[0, 0, 1, 44]);
    assert_eq!(raw[25], 1);
    let list = decode_votes(&raw).unwrap();
    assert_eq!(list.len(), 2);
    assert_eq!(list[0].choice(), VoteOption::Abstain);
    assert_eq!(list[0].fip(), 300);
    assert_eq!(list[1].voter(), Address([2u8; 20]));
    raw[25] = 3;
    assert!(decode_votes(&raw).is_none());
    raw[25] = 0;
    raw.push(0);
    assert!(decode_votes(&raw).is_none());
    assert_eq!(decode_votes(&vec![]).map(|votes| votes.len()), Some(0));
    assert_eq!(
        a.to_text(),
        "0x0101010101010101010101010101010101010101 voted Abstain on FIP-300"
    );
    assert_eq!(b.to_text(), "0x0202020202020202020202020202020202020202 voted Nay on FIP-4");
    // the choice does not count for equality
    assert!(a == Vote::new(VoteOption::Yay, Address([1u8; 20]), 300));
    assert!(a != Vote::new(VoteOption::Abstain, Address([1u8; 20]), 301));
    assert!(a != Vote::new(VoteOption::Abstain, Address([2u8; 20]), 300));
}

#[test]
fn words_of_a_text() {
    let words = |text: &str| -> Vec<String> {
        split_words(&chars_of(text))
            .into_iter()
            .map(|word| word.into_iter().collect())
            .collect()
    };
    assert_eq!(words(""), Vec::<String>::new());
    assert_eq!(words("   "), Vec::<String>::new());
    assert_eq!(words("YAY: FIP-1"), vec!["YAY:", "FIP-1"]);
    assert_eq!(words("  a\tbc \n d  "), vec!["a", "bc", "d"]);
    assert_eq!(words("a\u{a0}b\u{2003}c\u{3000}d\u{85}e"), vec!["a", "b", "c", "d", "e"]);
    assert_eq!(words("a\u{200b}b"), vec!["a\u{200b}b"]);
    for text in ["", " a b ", "a\u{1680}b\u{2028}", "x  y\u{205f}z", "\u{feff}q"] {
        let expected: Vec<String> = text.split_whitespace().map(|word| word.to_string()).collect();
        assert_eq!(words(text), expected);
    }
    for code in 0..0x3100u32 {
        if let Some(c) = char::from_u32(code) {
            assert_eq!(is_whitespace(c), c.is_whitespace(), "{:x}", code);
        }
    }
    assert_eq!(chars_of("héllo"), vec!['h', 'é', 'l', 'l', 'o']);
}

#[test]
fn numbers_in_text() {
    let parse = |text: &str| {
        let chars = chars_of(text);
        parse_u32(&chars, 0, chars.len())
    };
    for text in ["0", "7", "007", "+7", "4294967295", "4294967296", "", "+", "-1", " 1", "1 ", "1_0", "++1", "٣", "99999999999999999999999999999999999999999", "0000000000000000000000000000000000000000001"] {
        assert_eq!(parse(text), text.parse::<u32>().ok(), "{:?}", text);
    }
    let chars = chars_of("ab123cd");
    assert_eq!(parse_u32(&chars, 2, 5), Some(123));
    assert_eq!(parse_u32(&chars, 2, 6), None);
    assert_eq!(parse_u32(&chars, 2, 2), None);
    assert_eq!(parse_number(&chars, 2, 5, 122), None);
    assert_eq!(parse_number(&chars, 2, 5, 123), Some(123));
    let big = chars_of("340282366920938463463374607431768211455");
    assert_eq!(parse_number(&big, 0, big.len(), u128::MAX), Some(u128::MAX));
    let bigger = chars_of("340282366920938463463374607431768211456");
    assert_eq!(parse_number(&bigger, 0, bigger.len(), u128::MAX), None);
    for n in [0u128, 9, 10, 11, 99, 100, 4294967295, u128::MAX] {
        let mut out = vec!['x'];
        push_decimal(&mut out, n);
        assert_eq!(out.into_iter().collect::<String>(), format!("x{}", n));
    }
}

#[test]
fn words_of_a_ballot() {
    assert_eq!(read_choice(&chars_of("YAY:")), Some(VoteOption::Yay));
    assert_eq!(read_choice(&chars_of("NAY:")), Some(VoteOption::Nay));
    assert_eq!(read_choice(&chars_of("ABSTAIN:")), Some(VoteOption::Abstain));
    assert_eq!(read_choice(&chars_of("YAY")), None);
    assert_eq!(read_choice(&chars_of("yay:")), None);
    assert_eq!(read_choice(&chars_of("")), None);
    assert_eq!(read_fip(&chars_of("FIP-12")), Some(12));
    assert_eq!(read_fip(&chars_of("FIP-")), None);
    assert_eq!(read_fip(&chars_of("FIP12")), None);
    assert_eq!(read_fip(&chars_of("FIP")), None);
    assert_eq!(read_fip(&chars_of("XFIP-1")), None);
}

#[test]
fn proposal_of_a_start_request() {
    let fip = |message: &str| VoteStart::new("0x00".to_string(), message.to_string()).fip();
    assert!(matches!(fip("FIP-12"), Ok(12)));
    assert!(matches!(fip("FIP-12-13"), Ok(12)));
    assert!(matches!(fip("-5"), Ok(5)));
    assert!(matches!(fip("anything-0042-"), Ok(42)));
    assert!(matches!(fip("FIP12"), Err(VoteError::InvalidMessageFormat)));
    assert!(matches!(fip("FIP-"), Err(VoteError::InvalidMessageFormat)));
    assert!(matches!(fip("FIP--1"), Err(VoteError::InvalidMessageFormat)));
    assert!(matches!(fip("FIP- 1"), Err(VoteError::InvalidMessageFormat)));
    assert!(matches!(fip(""), Err(VoteError::InvalidMessageFormat)));
    for message in ["FIP-1", "a-b-c", "12", "-", "x-7-", "é-3"] {
        let expected = message.split('-').nth(1).and_then(|part| part.parse::<u32>().ok());
        assert_eq!(fip(message).ok(), expected, "{:?}", message);
    }
    let text = chars_of("ab-cd-");
    assert_eq!(find_hyphen(&text, 0), 2);
    assert_eq!(find_hyphen(&text, 3), 5);
    assert_eq!(find_hyphen(&text, 6), 6);
    assert_eq!(find_hyphen(&chars_of("abc"), 0), 3);
}
