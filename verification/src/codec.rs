use vstd::prelude::*;

verus! {

/// `256^n`, the number of values that `n` bytes can tell apart.
pub open spec fn pow256(n: nat) -> nat
    decreases n,
{
    if n == 0 {
        1
    } else {
        256 * pow256((n - 1) as nat)
    }
}

/// The big-endian encoding of `value` in exactly `width` bytes: the most
/// significant byte comes first, and the value is taken modulo `256^width`.
pub open spec fn be_bytes(value: nat, width: nat) -> Seq<u8>
    decreases width,
{
    if width == 0 {
        Seq::empty()
    } else {
        be_bytes(value / 256, (width - 1) as nat).push((value % 256) as u8)
    }
}

/// The number that a sequence of bytes denotes when read big-endian.
pub open spec fn be_value(bytes: Seq<u8>) -> nat
    decreases bytes.len(),
{
    if bytes.len() == 0 {
        0
    } else {
        be_value(bytes.drop_last()) * 256 + bytes.last() as nat
    }
}

/// The big-endian encoding has the width that was asked for.
pub proof fn lemma_be_bytes_len(value: nat, width: nat)
    ensures
        be_bytes(value, width).len() == width,
    decreases width,
{
    if width > 0 {
        lemma_be_bytes_len(value / 256, (width - 1) as nat);
    }
}

/// A value read from `n` bytes is below `256^n`.
pub proof fn lemma_be_value_bound(bytes: Seq<u8>)
    ensures
        be_value(bytes) < pow256(bytes.len()),
    decreases bytes.len(),
{
    if bytes.len() > 0 {
        lemma_be_value_bound(bytes.drop_last());
    }
}

/// Reading back an encoded value returns it, provided it fits the width.
pub proof fn lemma_be_value_of_bytes(value: nat, width: nat)
    requires
        value < pow256(width),
    ensures
        be_value(be_bytes(value, width)) == value,
    decreases width,
{
    if width > 0 {
        let rest = be_bytes(value / 256, (width - 1) as nat);
        lemma_be_value_of_bytes(value / 256, (width - 1) as nat);
        assert(be_bytes(value, width).drop_last() =~= rest);
        assert(be_bytes(value, width).last() == (value % 256) as u8);
    }
}

/// Two values that fit the width and encode alike are the same value.
pub proof fn lemma_be_bytes_injective(a: nat, b: nat, width: nat)
    requires
        a < pow256(width),
        b < pow256(width),
        be_bytes(a, width) == be_bytes(b, width),
    ensures
        a == b,
{
    lemma_be_value_of_bytes(a, width);
    lemma_be_value_of_bytes(b, width);
}

/// The sizes of the fixed-width integers that the store holds.
pub proof fn lemma_pow256_widths()
    ensures
        pow256(4) == 0x1_0000_0000,
        pow256(8) == 0x1_0000_0000_0000_0000,
        pow256(16) == 0x1_0000_0000_0000_0000_0000_0000_0000_0000,
{
    reveal_with_fuel(pow256, 17);
}

/// `256^n` grows with `n`.
pub proof fn lemma_pow256_monotonic(a: nat, b: nat)
    requires
        a <= b,
    ensures
        pow256(a) <= pow256(b),
        pow256(a) >= 1,
    decreases b,
{
    if a < b {
        lemma_pow256_monotonic(a, (b - 1) as nat);
    } else if a > 0 {
        lemma_pow256_monotonic((a - 1) as nat, (a - 1) as nat);
    }
}

/// Appends the big-endian encoding of `value` in `width` bytes to `out`.
pub fn put_be(out: &mut Vec<u8>, value: u128, width: usize)
    requires
        width <= 16,
    ensures
        final(out)@ == old(out)@ + be_bytes(value as nat, width as nat),
{
    let mut buf: Vec<u8> = Vec::new();
    let mut n: usize = 0;
    while n < width
        invariant
            n <= width,
            buf@.len() == n,
        decreases width - n,
    {
        buf.push(0u8);
        n += 1;
    }
    let mut rest: u128 = value;
    let mut i: usize = width;
    while i > 0
        invariant
            i <= width,
            buf@.len() == width,
            be_bytes(value as nat, width as nat) =~= be_bytes(rest as nat, i as nat)
                + buf@.subrange(i as int, width as int),
        decreases i,
    {
        let ghost before = buf@;
        i -= 1;
        buf[i] = (rest % 256) as u8;
        proof {
            assert(buf@.subrange(i as int, width as int) =~= seq![(rest % 256) as u8]
                + before.subrange(i + 1, width as int));
            assert(be_bytes(rest as nat, (i + 1) as nat) =~= be_bytes(
                (rest / 256) as nat,
                i as nat,
            ).push((rest % 256) as u8));
        }
        rest = rest / 256;
    }
    proof {
        assert(be_bytes(rest as nat, 0) =~= Seq::<u8>::empty());
        assert(buf@.subrange(0, width as int) =~= buf@);
    }
    out.append(&mut buf);
}

/// Reads the `width` bytes that start at `at` as a big-endian number.
pub fn read_be(bytes: &Vec<u8>, at: usize, width: usize) -> (value: u128)
    requires
        width <= 16,
        at + width <= bytes@.len(),
    ensures
        value as nat == be_value(bytes@.subrange(at as int, at + width)),
        (value as nat) < pow256(width as nat),
{
    let total: usize = bytes.len();
    let mut acc: u128 = 0;
    let mut i: usize = 0;
    while i < width
        invariant
            i <= width,
            width <= 16,
            at + width <= total,
            total == bytes@.len(),
            acc as nat == be_value(bytes@.subrange(at as int, at + i)),
        decreases width - i,
    {
        let b: u8 = bytes[at + i];
        proof {
            let taken = bytes@.subrange(at as int, at + i);
            let next = bytes@.subrange(at as int, at + i + 1);
            assert(next.drop_last() =~= taken);
            assert(next.last() == b);
            lemma_be_value_bound(taken);
            lemma_be_value_bound(next);
            lemma_pow256_monotonic((i + 1) as nat, 16);
            lemma_pow256_widths();
        }
        acc = acc * 256 + b as u128;
        i += 1;
    }
    proof {
        lemma_be_value_bound(bytes@.subrange(at as int, at + width));
    }
    acc
}

/// Whether two byte strings hold the same bytes.
pub fn bytes_eq(a: &Vec<u8>, b: &Vec<u8>) -> (same: bool)
    ensures
        same == (a@ == b@),
{
    if a.len() != b.len() {
        return false;
    }
    let mut i: usize = 0;
    while i < a.len()
        invariant
            i <= a@.len(),
            a@.len() == b@.len(),
            a@.subrange(0, i as int) == b@.subrange(0, i as int),
        decreases a@.len() - i,
    {
        if a[i] != b[i] {
            return false;
        }
        proof {
            assert(a@.subrange(0, i + 1) =~= a@.subrange(0, i as int).push(a@[i as int]));
            assert(b@.subrange(0, i + 1) =~= b@.subrange(0, i as int).push(b@[i as int]));
        }
        i += 1;
    }
    proof {
        assert(a@.subrange(0, a@.len() as int) =~= a@);
        assert(b@.subrange(0, b@.len() as int) =~= b@);
    }
    true
}

/// Appends a stretch of `src` to `out`.
pub fn put_slice(out: &mut Vec<u8>, src: &Vec<u8>, from: usize, to: usize)
    requires
        from <= to <= src@.len(),
    ensures
        final(out)@ == old(out)@ + src@.subrange(from as int, to as int),
{
    let mut i: usize = from;
    while i < to
        invariant
            from <= i <= to,
            to <= src@.len(),
            out@ == old(out)@ + src@.subrange(from as int, i as int),
        decreases to - i,
    {
        out.push(src[i]);
        proof {
            assert(src@.subrange(from as int, i + 1) =~= src@.subrange(from as int, i as int).push(
                src@[i as int],
            ));
            assert(out@ =~= old(out)@ + src@.subrange(from as int, i + 1));
        }
        i += 1;
    }
}

/// The concatenation of the encodings of `items`, in order.
pub open spec fn encode_records<T>(items: Seq<T>, encode: spec_fn(T) -> Seq<u8>) -> Seq<u8>
    decreases items.len(),
{
    if items.len() == 0 {
        Seq::empty()
    } else {
        encode_records(items.drop_last(), encode) + encode(items.last())
    }
}

/// The items that `bytes` holds as back-to-back records of `width` bytes
/// each, or `None` where the length is no multiple of `width` or a record
/// does not decode.
pub open spec fn decode_records<T>(
    bytes: Seq<u8>,
    width: nat,
    decode: spec_fn(Seq<u8>) -> Option<T>,
) -> Option<Seq<T>>
    decreases bytes.len(),
{
    if bytes.len() == 0 {
        Some(Seq::empty())
    } else if width == 0 || bytes.len() < width {
        None
    } else {
        let cut = bytes.len() - width;
        match (decode_records(bytes.subrange(0, cut), width, decode), decode(
            bytes.subrange(cut, bytes.len() as int),
        )) {
            (Some(front), Some(item)) => Some(front.push(item)),
            _ => None,
        }
    }
}

/// Encoded records take `width` bytes each.
pub proof fn lemma_encode_records_len<T>(
    items: Seq<T>,
    width: nat,
    encode: spec_fn(T) -> Seq<u8>,
)
    requires
        forall|i: int| 0 <= i < items.len() ==> (#[trigger] encode(items[i])).len() == width,
    ensures
        encode_records(items, encode).len() == items.len() * width,
    decreases items.len(),
{
    if items.len() > 0 {
        let front = items.drop_last();
        assert forall|i: int| 0 <= i < front.len() implies (#[trigger] encode(front[i])).len()
            == width by {
            assert(front[i] == items[i]);
        }
        lemma_encode_records_len(front, width, encode);
        assert(encode(items[items.len() - 1]).len() == width);
        assert(items.len() * width == (items.len() - 1) * width + width) by (nonlinear_arith);
    } else {
        assert(items.len() * width == 0) by (nonlinear_arith)
            requires
                items.len() == 0,
        ;
    }
}

/// Encoding a list with one more item appends that item's record.
pub proof fn lemma_encode_records_push<T>(items: Seq<T>, item: T, encode: spec_fn(T) -> Seq<u8>)
    ensures
        encode_records(items.push(item), encode) == encode_records(items, encode) + encode(item),
{
    assert(items.push(item).drop_last() =~= items);
}

/// Decoding what was encoded gives the items back, provided each single
/// record has the right width and decodes to its item.
pub proof fn lemma_decode_encoded_records<T>(
    items: Seq<T>,
    width: nat,
    encode: spec_fn(T) -> Seq<u8>,
    decode: spec_fn(Seq<u8>) -> Option<T>,
)
    requires
        width > 0,
        forall|i: int|
            0 <= i < items.len() ==> (#[trigger] encode(items[i])).len() == width && decode(
                encode(items[i]),
            ) == Some(items[i]),
    ensures
        decode_records(encode_records(items, encode), width, decode) == Some(items),
    decreases items.len(),
{
    if items.len() > 0 {
        let front = items.drop_last();
        let bytes = encode_records(items, encode);
        assert forall|i: int| 0 <= i < front.len() implies (#[trigger] encode(front[i])).len()
            == width && decode(encode(front[i])) == Some(front[i]) by {
            assert(front[i] == items[i]);
        }
        lemma_decode_encoded_records(front, width, encode, decode);
        lemma_encode_records_len(front, width, encode);
        assert(encode(items[items.len() - 1]).len() == width);
        let cut = bytes.len() - width;
        assert(bytes.subrange(0, cut) =~= encode_records(front, encode));
        assert(bytes.subrange(cut, bytes.len() as int) =~= encode(items.last()));
        assert(front.push(items.last()) =~= items);
    } else {
        assert(items =~= Seq::<T>::empty());
    }
}

/// Bytes that decode hold a whole number of records, one per item.
pub proof fn lemma_decode_records_len<T>(
    bytes: Seq<u8>,
    width: nat,
    decode: spec_fn(Seq<u8>) -> Option<T>,
)
    requires
        width > 0,
        decode_records(bytes, width, decode) is Some,
    ensures
        bytes.len() == decode_records(bytes, width, decode).unwrap().len() * width,
    decreases bytes.len(),
{
    if bytes.len() > 0 {
        let cut = bytes.len() - width;
        let front = bytes.subrange(0, cut);
        lemma_decode_records_len(front, width, decode);
        let n = decode_records(front, width, decode).unwrap().len();
        assert((n + 1) * width == n * width + width) by (nonlinear_arith);
    } else {
        assert(0 * width == 0) by (nonlinear_arith);
    }
}

/// The record of a 32-bit number: four bytes, big-endian.
pub open spec fn u32_record(x: u32) -> Seq<u8> {
    be_bytes(x as nat, 4)
}

/// The 32-bit number that a four-byte record holds.
pub open spec fn record_u32(record: Seq<u8>) -> Option<u32> {
    Some(be_value(record) as u32)
}

/// The stored form of a list of 32-bit numbers.
pub open spec fn u32s_bytes(items: Seq<u32>) -> Seq<u8> {
    encode_records(items, |x: u32| u32_record(x))
}

/// The list of 32-bit numbers that `bytes` holds, or `None` where the length
/// is no multiple of four.
pub open spec fn bytes_u32s(bytes: Seq<u8>) -> Option<Seq<u32>> {
    decode_records(bytes, 4, |r: Seq<u8>| record_u32(r))
}

/// A stored list of 32-bit numbers reads back as it was written.
pub proof fn lemma_u32s_roundtrip(items: Seq<u32>)
    ensures
        bytes_u32s(u32s_bytes(items)) == Some(items),
        u32s_bytes(items).len() == items.len() * 4,
{
    let encode = |x: u32| u32_record(x);
    let decode = |r: Seq<u8>| record_u32(r);
    assert forall|i: int| 0 <= i < items.len() implies (#[trigger] encode(items[i])).len() == 4
        && decode(encode(items[i])) == Some(items[i]) by {
        lemma_be_bytes_len(items[i] as nat, 4);
        lemma_pow256_widths();
        lemma_be_value_of_bytes(items[i] as nat, 4);
    }
    lemma_decode_encoded_records(items, 4, encode, decode);
    lemma_encode_records_len(items, 4, encode);
}

/// Reads a stored list of 32-bit numbers.
pub fn decode_u32s(bytes: &Vec<u8>) -> (items: Option<Vec<u32>>)
    ensures
        items is Some <==> bytes_u32s(bytes@) is Some,
        items matches Some(v) ==> v@ == bytes_u32s(bytes@).unwrap(),
{
    let total: usize = bytes.len();
    let ghost decode = |r: Seq<u8>| record_u32(r);
    if total % 4 != 0 {
        proof {
            if bytes_u32s(bytes@) is Some {
                lemma_decode_records_len(bytes@, 4, decode);
            }
        }
        return None;
    }
    let count: usize = total / 4;
    let mut items: Vec<u32> = Vec::new();
    let mut i: usize = 0;
    assert(bytes@.subrange(0, 0) =~= Seq::<u8>::empty());
    while i < count
        invariant
            i <= count,
            total == bytes@.len(),
            total == count * 4,
            decode == (|r: Seq<u8>| record_u32(r)),
            decode_records(bytes@.subrange(0, 4 * i), 4, decode) == Some(items@),
        decreases count - i,
    {
        let value: u128 = read_be(bytes, 4 * i, 4);
        proof {
            lemma_pow256_widths();
            let upto = bytes@.subrange(0, 4 * i + 4);
            assert(upto.subrange(0, upto.len() - 4) =~= bytes@.subrange(0, 4 * i));
            assert(upto.subrange(upto.len() - 4, upto.len() as int) =~= bytes@.subrange(
                4 * i,
                4 * i + 4,
            ));
        }
        items.push(value as u32);
        i += 1;
    }
    assert(bytes@.subrange(0, 4 * count) =~= bytes@);
    Some(items)
}

/// Writes a list of 32-bit numbers in its stored form.
pub fn encode_u32s(items: &Vec<u32>) -> (bytes: Vec<u8>)
    ensures
        bytes@ == u32s_bytes(items@),
{
    let ghost encode = |x: u32| u32_record(x);
    let mut bytes: Vec<u8> = Vec::new();
    let mut i: usize = 0;
    assert(items@.subrange(0, 0) =~= Seq::<u32>::empty());
    while i < items.len()
        invariant
            i <= items@.len(),
            encode == (|x: u32| u32_record(x)),
            bytes@ == encode_records(items@.subrange(0, i as int), encode),
        decreases items@.len() - i,
    {
        put_be(&mut bytes, items[i] as u128, 4);
        proof {
            assert(items@.subrange(0, i + 1)
                =~= items@.subrange(0, i as int).push(items@[i as int]));
            lemma_encode_records_push(items@.subrange(0, i as int), items@[i as int], encode);
        }
        i += 1;
    }
    assert(items@.subrange(0, items@.len() as int) =~= items@);
    bytes
}

} // verus!
