use crate::codec::{
    decode_records, encode_records, lemma_decode_encoded_records, lemma_decode_records_len,
    lemma_encode_records_len, lemma_encode_records_push, put_slice,
};
use crate::text::string_of;
use std::str::FromStr;
use vstd::prelude::*;

verus! {

/// A 20-byte account address: the identity of a voter or of a vote starter.
#[derive(Copy, Clone, Debug, PartialEq, Eq, Hash)]
pub struct Address(pub [u8; 20]);

impl View for Address {
    type V = Seq<u8>;

    open spec fn view(&self) -> Seq<u8> {
        self.0@
    }
}

/// The address that a text denotes in hexadecimal digits, with or without a
/// leading `0x`; `None` where the text denotes none. This names what
/// `ethers::types::Address::from_str` returns for the text.
pub uninterp spec fn parsed_address(text: Seq<char>) -> Option<Seq<u8>>;

/// Calls `ethers::types::Address::from_str`. The contract names its result:
/// the call succeeds exactly when [`parsed_address`] of the text is some
/// address, and then returns that address.
#[verifier::external_body]
fn address_from_str(text: &str) -> (parsed: Option<Address>)
    ensures
        parsed is Some <==> parsed_address(text@) is Some,
        parsed matches Some(a) ==> a@ == parsed_address(text@).unwrap(),
{
    match ethers::types::Address::from_str(text) {
        Ok(a) => Some(Address(a.0)),
        Err(_) => None,
    }
}

/// Whether `a` comes before `b` when both are compared byte by byte from the
/// front, a shorter sequence coming before its extensions.
pub open spec fn lex_lt(a: Seq<u8>, b: Seq<u8>) -> bool
    decreases a.len(),
{
    if b.len() == 0 {
        false
    } else if a.len() == 0 {
        true
    } else if a[0] != b[0] {
        a[0] < b[0]
    } else {
        lex_lt(a.drop_first(), b.drop_first())
    }
}

/// What comes before something that comes before a third comes before the
/// third.
pub proof fn lemma_lex_lt_transitive(a: Seq<u8>, b: Seq<u8>, c: Seq<u8>)
    requires
        lex_lt(a, b),
        lex_lt(b, c),
    ensures
        lex_lt(a, c),
    decreases a.len(),
{
    if a.len() > 0 && b.len() > 0 && c.len() > 0 && a[0] == b[0] && b[0] == c[0] {
        lemma_lex_lt_transitive(a.drop_first(), b.drop_first(), c.drop_first());
    }
}

/// Of two different byte strings of one length, one comes before the other.
pub proof fn lemma_lex_lt_total(a: Seq<u8>, b: Seq<u8>)
    requires
        a.len() == b.len(),
        a != b,
    ensures
        lex_lt(a, b) || lex_lt(b, a),
    decreases a.len(),
{
    if a.len() == 0 {
        assert(a =~= b);
    } else if a[0] == b[0] {
        if a.drop_first() == b.drop_first() {
            assert(a =~= seq![a[0]] + a.drop_first());
            assert(b =~= seq![b[0]] + b.drop_first());
        }
        lemma_lex_lt_total(a.drop_first(), b.drop_first());
    }
}

/// The character of a hexadecimal digit, in lower case.
pub open spec fn hex_char(digit: int) -> char {
    if digit < 10 {
        (48 + digit) as u8 as char
    } else {
        (87 + digit) as u8 as char
    }
}

/// Bytes written in hexadecimal digits, two to a byte, in lower case.
pub open spec fn hex_text(bytes: Seq<u8>) -> Seq<char> {
    Seq::new(
        2 * bytes.len(),
        |i: int|
            if i % 2 == 0 {
                hex_char(bytes[i / 2] as int / 16)
            } else {
                hex_char(bytes[i / 2] as int % 16)
            },
    )
}

impl Address {
    /// Addresses with the same bytes are the same address.
    pub proof fn lemma_view_injective(a: Address, b: Address)
        requires
            a@ == b@,
        ensures
            a == b,
    {
        assert(a.0@ =~= b.0@);
        assert(a.0 == b.0);
    }

    /// Reads an address written in hexadecimal digits.
    pub fn parse(text: &str) -> (parsed: Option<Address>)
        ensures
            parsed is Some <==> parsed_address(text@) is Some,
            parsed matches Some(a) ==> a@ == parsed_address(text@).unwrap(),
    {
        address_from_str(text)
    }

    /// The address whose bytes are the 20 bytes of `bytes` that start at `at`.
    pub fn from_slice(bytes: &Vec<u8>, at: usize) -> (a: Address)
        requires
            at + 20 <= bytes@.len(),
        ensures
            a@ == bytes@.subrange(at as int, at + 20),
    {
        let total: usize = bytes.len();
        let mut raw: [u8; 20] = [0u8; 20];
        let mut i: usize = 0;
        while i < 20
            invariant
                i <= 20,
                at + 20 <= total,
                total == bytes@.len(),
                forall|j: int| 0 <= j < i ==> raw@[j] == bytes@[at + j],
            decreases 20 - i,
        {
            raw[i] = bytes[at + i];
            i += 1;
        }
        let a = Address(raw);
        assert(a@ =~= bytes@.subrange(at as int, at + 20));
        a
    }

    /// The 20 bytes of the address.
    pub fn to_vec(&self) -> (bytes: Vec<u8>)
        ensures
            bytes@ == self@,
    {
        let mut bytes: Vec<u8> = Vec::new();
        let mut i: usize = 0;
        while i < 20
            invariant
                i <= 20,
                bytes@ == self@.subrange(0, i as int),
            decreases 20 - i,
        {
            bytes.push(self.0[i]);
            assert(bytes@ =~= self@.subrange(0, i + 1));
            i += 1;
        }
        assert(self@.subrange(0, 20) =~= self@);
        bytes
    }

    /// The address written out: `0x` and its 40 hexadecimal digits.
    pub fn to_hex(&self) -> (text: String)
        ensures
            text@ == seq!['0', 'x'] + hex_text(self@),
    {
        let mut chars: Vec<char> = Vec::new();
        chars.push('0');
        chars.push('x');
        let mut i: usize = 0;
        while i < 20
            invariant
                i <= 20,
                chars@ == seq!['0', 'x'] + hex_text(self@).subrange(0, 2 * i),
            decreases 20 - i,
        {
            let b: u8 = self.0[i];
            let high: u8 = b / 16;
            let low: u8 = b % 16;
            chars.push(
                if high < 10 {
                    (48 + high) as char
                } else {
                    (87 + high) as char
                },
            );
            chars.push(
                if low < 10 {
                    (48 + low) as char
                } else {
                    (87 + low) as char
                },
            );
            assert(chars@ =~= seq!['0', 'x'] + hex_text(self@).subrange(0, 2 * i + 2));
            i += 1;
        }
        assert(hex_text(self@).subrange(0, 40) =~= hex_text(self@));
        string_of(&chars)
    }

    /// Whether two addresses are the same.
    pub fn same(&self, other: &Address) -> (eq: bool)
        ensures
            eq == (*self == *other),
            eq == (self@ == other@),
    {
        let mut i: usize = 0;
        while i < 20
            invariant
                i <= 20,
                forall|j: int| 0 <= j < i ==> self@[j] == other@[j],
            decreases 20 - i,
        {
            if self.0[i] != other.0[i] {
                return false;
            }
            i += 1;
        }
        assert(self@ =~= other@);
        proof {
            Address::lemma_view_injective(*self, *other);
        }
        true
    }

    /// Whether this address sorts before `other`.
    pub fn precedes(&self, other: &Address) -> (before: bool)
        ensures
            before == lex_lt(self@, other@),
    {
        let mut i: usize = 0;
        assert(self@.subrange(0, 20) =~= self@ && other@.subrange(0, 20) =~= other@);
        while i < 20
            invariant
                i <= 20,
                lex_lt(self@, other@) == lex_lt(
                    self@.subrange(i as int, 20),
                    other@.subrange(i as int, 20),
                ),
            decreases 20 - i,
        {
            let ghost a = self@.subrange(i as int, 20);
            let ghost b = other@.subrange(i as int, 20);
            assert(a[0] == self@[i as int] && b[0] == other@[i as int]);
            if self.0[i] != other.0[i] {
                return self.0[i] < other.0[i];
            }
            assert(a.drop_first() =~= self@.subrange(i + 1, 20));
            assert(b.drop_first() =~= other@.subrange(i + 1, 20));
            i += 1;
        }
        false
    }
}

/// The byte strings of a list of addresses, in order.
pub open spec fn address_views(items: Seq<Address>) -> Seq<Seq<u8>> {
    Seq::new(items.len(), |i: int| items[i]@)
}

/// The stored form of a list of addresses: their bytes back to back.
pub open spec fn addresses_bytes(items: Seq<Seq<u8>>) -> Seq<u8> {
    encode_records(items, |a: Seq<u8>| a)
}

/// The list of addresses that `bytes` holds, or `None` where the length is
/// no multiple of 20.
pub open spec fn bytes_addresses(bytes: Seq<u8>) -> Option<Seq<Seq<u8>>> {
    decode_records(bytes, 20, |r: Seq<u8>| Some(r))
}

/// A stored list of addresses reads back as it was written.
pub proof fn lemma_addresses_roundtrip(items: Seq<Seq<u8>>)
    requires
        forall|i: int| 0 <= i < items.len() ==> (#[trigger] items[i]).len() == 20,
    ensures
        bytes_addresses(addresses_bytes(items)) == Some(items),
        addresses_bytes(items).len() == items.len() * 20,
{
    let encode = |a: Seq<u8>| a;
    let decode = |r: Seq<u8>| Some(r);
    assert forall|i: int| 0 <= i < items.len() implies (#[trigger] encode(items[i])).len() == 20
        && decode(encode(items[i])) == Some(items[i]) by {
        assert(items[i].len() == 20);
    }
    lemma_decode_encoded_records(items, 20, encode, decode);
    lemma_encode_records_len(items, 20, encode);
}

/// Every address in a decoded list has 20 bytes.
pub proof fn lemma_decoded_addresses_width(bytes: Seq<u8>)
    requires
        bytes_addresses(bytes) is Some,
    ensures
        forall|i: int|
            0 <= i < bytes_addresses(bytes).unwrap().len() ==> (#[trigger] bytes_addresses(
                bytes,
            ).unwrap()[i]).len() == 20,
    decreases bytes.len(),
{
    if bytes.len() > 0 {
        let cut = bytes.len() - 20;
        lemma_decoded_addresses_width(bytes.subrange(0, cut));
    }
}

/// Reads a stored list of addresses.
pub fn decode_addresses(bytes: &Vec<u8>) -> (items: Option<Vec<Address>>)
    ensures
        items is Some <==> bytes_addresses(bytes@) is Some,
        items matches Some(v) ==> address_views(v@) == bytes_addresses(bytes@).unwrap(),
{
    let total: usize = bytes.len();
    let ghost decode = |r: Seq<u8>| Some(r);
    if total % 20 != 0 {
        proof {
            if bytes_addresses(bytes@) is Some {
                lemma_decode_records_len(bytes@, 20, decode);
            }
        }
        return None;
    }
    let count: usize = total / 20;
    let mut items: Vec<Address> = Vec::new();
    let mut i: usize = 0;
    assert(bytes@.subrange(0, 0) =~= Seq::<u8>::empty());
    assert(address_views(items@) =~= Seq::<Seq<u8>>::empty());
    while i < count
        invariant
            i <= count,
            total == bytes@.len(),
            total == count * 20,
            decode == (|r: Seq<u8>| Some(r)),
            decode_records(bytes@.subrange(0, 20 * i), 20, decode) == Some(address_views(items@)),
        decreases count - i,
    {
        let a = Address::from_slice(bytes, 20 * i);
        proof {
            let upto = bytes@.subrange(0, 20 * i + 20);
            assert(upto.subrange(0, upto.len() - 20) =~= bytes@.subrange(0, 20 * i));
            assert(upto.subrange(upto.len() - 20, upto.len() as int) =~= bytes@.subrange(
                20 * i,
                20 * i + 20,
            ));
            assert(address_views(items@.push(a)) =~= address_views(items@).push(a@));
        }
        items.push(a);
        i += 1;
    }
    assert(bytes@.subrange(0, 20 * count) =~= bytes@);
    Some(items)
}

/// Writes a list of addresses in its stored form.
pub fn encode_addresses(items: &Vec<Address>) -> (bytes: Vec<u8>)
    ensures
        bytes@ == addresses_bytes(address_views(items@)),
{
    let ghost encode = |a: Seq<u8>| a;
    let ghost views = address_views(items@);
    let mut bytes: Vec<u8> = Vec::new();
    let mut i: usize = 0;
    assert(views.subrange(0, 0) =~= Seq::<Seq<u8>>::empty());
    while i < items.len()
        invariant
            i <= items@.len(),
            views == address_views(items@),
            encode == (|a: Seq<u8>| a),
            bytes@ == encode_records(views.subrange(0, i as int), encode),
        decreases items@.len() - i,
    {
        let raw = items[i].to_vec();
        put_slice(&mut bytes, &raw, 0, 20);
        proof {
            assert(raw@.subrange(0, 20) =~= views[i as int]);
            assert(views.subrange(0, i + 1) =~= views.subrange(0, i as int).push(views[i as int]));
            lemma_encode_records_push(views.subrange(0, i as int), views[i as int], encode);
        }
        i += 1;
    }
    assert(views.subrange(0, items@.len() as int) =~= views);
    bytes
}

} // verus!
