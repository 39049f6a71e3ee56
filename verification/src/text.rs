use vstd::prelude::*;

verus! {

/// The characters of a string, in order.
pub fn chars_of(text: &str) -> (chars: Vec<char>)
    ensures
        chars@ == text@,
{
    broadcast use vstd::string::axiom_spec_iter;

    let mut chars: Vec<char> = Vec::new();
    for c in it: text.chars()
        invariant
            it.seq() == text@,
            chars@ == it.seq().subrange(0, it.index() as int),
    {
        chars.push(c);
        assert(chars@ =~= it.seq().subrange(0, it.index() + 1));
    }
    assert(text@.subrange(0, text@.len() as int) =~= text@);
    chars
}

/// The string made of the given characters. The body collects the characters
/// with `String::from_iter`; the contract says that the string holds exactly
/// them, in order.
#[verifier::external_body]
pub(crate) fn string_of(chars: &Vec<char>) -> (text: String)
    ensures
        text@ == chars@,
{
    String::from_iter(chars.iter())
}

/// Whether a character separates words: a character with the Unicode
/// property White_Space.
pub open spec fn is_space(c: char) -> bool {
    let n = c as u32;
    ||| 0x09 <= n <= 0x0D
    ||| n == 0x20
    ||| n == 0x85
    ||| n == 0xA0
    ||| n == 0x1680
    ||| 0x2000 <= n <= 0x200A
    ||| n == 0x2028
    ||| n == 0x2029
    ||| n == 0x202F
    ||| n == 0x205F
    ||| n == 0x3000
}

/// Executable form of [`is_space`].
pub fn is_whitespace(c: char) -> (space: bool)
    ensures
        space == is_space(c),
{
    let n: u32 = c as u32;
    (0x09 <= n && n <= 0x0D) || n == 0x20 || n == 0x85 || n == 0xA0 || n == 0x1680 || (0x2000 <= n
        && n <= 0x200A) || n == 0x2028 || n == 0x2029 || n == 0x202F || n == 0x205F || n == 0x3000
}

/// The words of a text: its longest stretches without a separating
/// character, in order.
pub open spec fn words(text: Seq<char>) -> Seq<Seq<char>>
    decreases text.len(),
{
    if text.len() == 0 {
        Seq::empty()
    } else {
        let before = words(text.drop_last());
        if is_space(text.last()) {
            before
        } else if text.len() >= 2 && !is_space(text[text.len() - 2]) {
            before.drop_last().push(before.last().push(text.last()))
        } else {
            before.push(seq![text.last()])
        }
    }
}

/// Whether a word is not empty and holds no separating character.
pub open spec fn is_word(word: Seq<char>) -> bool {
    word.len() > 0 && forall|j: int| 0 <= j < word.len() ==> !is_space(#[trigger] word[j])
}

/// Every word of a text is a word: it is not empty and holds no separating
/// character. A text that ends in another character has a last word.
pub proof fn lemma_words_are_words(text: Seq<char>)
    ensures
        forall|i: int| 0 <= i < words(text).len() ==> is_word(#[trigger] words(text)[i]),
        text.len() > 0 && !is_space(text.last()) ==> words(text).len() > 0,
    decreases text.len(),
{
    if text.len() > 0 {
        let front = text.drop_last();
        let before = words(front);
        let c = text.last();
        lemma_words_are_words(front);
        if !is_space(c) {
            if text.len() >= 2 && !is_space(text[text.len() - 2]) {
                assert(front.last() == text[text.len() - 2]);
                assert(before.len() > 0);
                let grown = before.last().push(c);
                assert(is_word(before[before.len() - 1]));
                assert(is_word(grown)) by {
                    assert forall|j: int| 0 <= j < grown.len() implies !is_space(
                        #[trigger] grown[j],
                    ) by {
                        if j < before.last().len() {
                            assert(grown[j] == before.last()[j]);
                        }
                    }
                }
                assert forall|i: int| 0 <= i < words(text).len() implies is_word(
                    #[trigger] words(text)[i],
                ) by {
                    if i < before.len() - 1 {
                        assert(words(text)[i] == before[i]);
                    }
                }
            } else {
                assert(is_word(seq![c]));
                assert forall|i: int| 0 <= i < words(text).len() implies is_word(
                    #[trigger] words(text)[i],
                ) by {
                    if i < before.len() {
                        assert(words(text)[i] == before[i]);
                    }
                }
            }
        }
    }
}

/// The character sequences of a list of words.
pub open spec fn word_views(list: Seq<Vec<char>>) -> Seq<Seq<char>> {
    Seq::new(list.len(), |i: int| list[i]@)
}

/// Splits a text into its words.
pub fn split_words(text: &Vec<char>) -> (list: Vec<Vec<char>>)
    ensures
        word_views(list@) == words(text@),
{
    let mut list: Vec<Vec<char>> = Vec::new();
    let mut word: Vec<char> = Vec::new();
    let mut i: usize = 0;
    assert(text@.subrange(0, 0) =~= Seq::<char>::empty());
    assert(word_views(list@) =~= Seq::<Seq<char>>::empty());
    while i < text.len()
        invariant
            i <= text@.len(),
            word@.len() > 0 <==> i > 0 && !is_space(text@[i - 1]),
            words(text@.subrange(0, i as int)) == if word@.len() > 0 {
                word_views(list@).push(word@)
            } else {
                word_views(list@)
            },
        decreases text@.len() - i,
    {
        let c: char = text[i];
        let ghost upto = text@.subrange(0, i as int);
        let ghost next = text@.subrange(0, i + 1);
        proof {
            assert(next.drop_last() =~= upto);
            assert(next.last() == c);
            if i > 0 {
                assert(next[next.len() - 2] == text@[i - 1]);
            }
        }
        if is_whitespace(c) {
            if word.len() > 0 {
                let ghost before = list@;
                let ghost finished = word@;
                list.push(word);
                word = Vec::new();
                assert(word_views(list@) =~= word_views(before).push(finished));
            }
        } else {
            let ghost before = word@;
            word.push(c);
            proof {
                if before.len() > 0 {
                    assert(word_views(list@).push(before).drop_last() =~= word_views(list@));
                } else {
                    assert(word@ =~= seq![c]);
                }
            }
        }
        i += 1;
    }
    assert(text@.subrange(0, text@.len() as int) =~= text@);
    if word.len() > 0 {
        let ghost before = list@;
        let ghost finished = word@;
        list.push(word);
        assert(word_views(list@) =~= word_views(before).push(finished));
    }
    list
}

/// The character of a decimal digit.
pub open spec fn digit_char(d: nat) -> char {
    (48 + d % 10) as u8 as char
}

/// The decimal digit that a character stands for, if it is one of `0` to `9`.
pub open spec fn digit_value(c: char) -> Option<nat> {
    if 48 <= c as u32 <= 57 {
        Some((c as u32 - 48) as nat)
    } else {
        None
    }
}

/// A number written in decimal digits, without sign or leading zeros.
pub open spec fn decimal(n: nat) -> Seq<char>
    decreases n,
{
    if n < 10 {
        seq![digit_char(n)]
    } else {
        decimal(n / 10).push(digit_char(n % 10))
    }
}

/// The number that a sequence of decimal digits denotes; `None` where the
/// sequence is empty or holds another character.
pub open spec fn digits_value(digits: Seq<char>) -> Option<nat>
    decreases digits.len(),
{
    if digits.len() == 0 {
        None
    } else if digits.len() == 1 {
        digit_value(digits[0])
    } else {
        match (digits_value(digits.drop_last()), digit_value(digits.last())) {
            (Some(high), Some(low)) => Some(high * 10 + low),
            _ => None,
        }
    }
}

/// The number that a text denotes: an optional `+`, then decimal digits and
/// nothing else. `None` where the text is not of that form or the number is
/// above `max`.
pub open spec fn parsed_number(text: Seq<char>, max: nat) -> Option<nat> {
    let digits = if text.len() > 0 && text[0] == '+' {
        text.drop_first()
    } else {
        text
    };
    match digits_value(digits) {
        Some(n) => if n <= max {
            Some(n)
        } else {
            None
        },
        None => None,
    }
}

/// The 32-bit number that a text denotes, if it denotes one.
pub open spec fn parsed_u32(text: Seq<char>) -> Option<u32> {
    match parsed_number(text, u32::MAX as nat) {
        Some(n) => Some(n as u32),
        None => None,
    }
}

/// The value of a digit sequence grows with its length: it is at least the
/// value of any of its front parts.
proof fn lemma_digits_value_grows(digits: Seq<char>, cut: int)
    requires
        1 <= cut <= digits.len(),
        digits_value(digits) is Some,
    ensures
        digits_value(digits.subrange(0, cut)) is Some,
        digits_value(digits.subrange(0, cut)).unwrap() <= digits_value(digits).unwrap(),
    decreases digits.len(),
{
    if cut == digits.len() {
        assert(digits.subrange(0, cut) =~= digits);
    } else {
        assert(digits.drop_last().subrange(0, cut) =~= digits.subrange(0, cut));
        lemma_digits_value_grows(digits.drop_last(), cut);
    }
}

/// A digit sequence with a front part that is none has no value.
proof fn lemma_digits_value_none(digits: Seq<char>, cut: int)
    requires
        1 <= cut <= digits.len(),
        digits_value(digits.subrange(0, cut)) is None,
    ensures
        digits_value(digits) is None,
{
    if digits_value(digits) is Some {
        lemma_digits_value_grows(digits, cut);
    }
}

/// Reads the number that the characters from `from` up to `to` denote, as
/// [`parsed_number`] describes.
pub fn parse_number(text: &Vec<char>, from: usize, to: usize, max: u128) -> (number: Option<u128>)
    requires
        from <= to <= text@.len(),
    ensures
        number is Some <==> parsed_number(text@.subrange(from as int, to as int), max as nat)
            is Some,
        number matches Some(n) ==> n as nat == parsed_number(
            text@.subrange(from as int, to as int),
            max as nat,
        ).unwrap(),
{
    let ghost whole = text@.subrange(from as int, to as int);
    let mut start: usize = from;
    if from < to && text[from] == '+' {
        start = from + 1;
    }
    let ghost digits = text@.subrange(start as int, to as int);
    proof {
        if start > from {
            assert(whole[0] == '+');
            assert(whole.drop_first() =~= digits);
        } else {
            assert(whole =~= digits);
            if whole.len() > 0 {
                assert(whole[0] == text@[from as int]);
            }
        }
    }
    if start == to {
        return None;
    }
    let mut value: u128 = 0;
    let mut i: usize = start;
    while i < to
        invariant
            start <= i <= to,
            to <= text@.len(),
            whole == text@.subrange(from as int, to as int),
            digits == text@.subrange(start as int, to as int),
            digits == (if whole.len() > 0 && whole[0] == '+' {
                whole.drop_first()
            } else {
                whole
            }),
            value <= max,
            i > start ==> digits_value(digits.subrange(0, i - start)) == Some(value as nat),
            i == start ==> value == 0,
        decreases to - i,
    {
        let c: char = text[i];
        let code: u32 = c as u32;
        let ghost upto = digits.subrange(0, i - start);
        let ghost next = digits.subrange(0, i - start + 1);
        proof {
            assert(next.drop_last() =~= upto);
            assert(next.last() == c);
            if i == start {
                assert(next[0] == c);
            }
        }
        if code < 48 || code > 57 {
            proof {
                lemma_digits_value_none(digits, i - start + 1);
            }
            return None;
        }
        let digit: u128 = (code - 48) as u128;
        if value > max / 10 || digit > max - value * 10 {
            proof {
                assert(value * 10 + digit > max);
                if digits_value(digits) is Some {
                    lemma_digits_value_grows(digits, i - start + 1);
                }
            }
            return None;
        }
        value = value * 10 + digit;
        i += 1;
    }
    assert(digits.subrange(0, to - start) =~= digits);
    Some(value)
}

/// Reads the 32-bit number that the characters from `from` up to `to`
/// denote.
pub fn parse_u32(text: &Vec<char>, from: usize, to: usize) -> (number: Option<u32>)
    requires
        from <= to <= text@.len(),
    ensures
        number == parsed_u32(text@.subrange(from as int, to as int)),
{
    match parse_number(text, from, to, 0xFFFF_FFFF) {
        Some(n) => Some(n as u32),
        None => None,
    }
}

/// Appends the decimal digits of a number to `out`.
pub fn push_decimal(out: &mut Vec<char>, n: u128)
    ensures
        final(out)@ == old(out)@ + decimal(n as nat),
    decreases n,
{
    if n >= 10 {
        push_decimal(out, n / 10);
    }
    out.push(((48 + n % 10) as u8) as char);
    assert(out@ =~= old(out)@ + decimal(n as nat));
}

} // verus!
