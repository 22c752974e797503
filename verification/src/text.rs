//! Characters and text: lossy decoding, decimal numbers, display-safe names.

use vstd::prelude::*;
use vstd::std_specs::iter::IteratorSpec;
use vstd::string::*;
use vstd::utf8::{decode_utf8, encode_scalar, encode_utf8, valid_utf8};

verus! {

/// What `String::from_utf8_lossy` makes of bytes.
pub uninterp spec fn utf8_lossy(bytes: Seq<u8>) -> Seq<char>;

/// `String::from_utf8_lossy`: the named text, which is the text that the bytes
/// encode where they are valid UTF-8. Where they are not, nothing is said here
/// of the replacement characters.
#[verifier::external_body]
pub(crate) fn from_utf8_lossy(bytes: &[u8]) -> (r: String)
    ensures
        r@ == utf8_lossy(bytes@),
        valid_utf8(bytes@) ==> r@ == decode_utf8(bytes@),
{
    String::from_utf8_lossy(bytes).into_owned()
}

/// `std::str::from_utf8`: the text that the bytes encode, if and only if they
/// are valid UTF-8.
#[verifier::external_body]
pub(crate) fn from_utf8(bytes: &[u8]) -> (r: Option<String>)
    ensures
        r is Some <==> valid_utf8(bytes@),
        r matches Some(text) ==> text@ == decode_utf8(bytes@),
{
    std::str::from_utf8(bytes).ok().map(str::to_owned)
}

/// The debug form of text, as `{:?}` writes it.
pub uninterp spec fn debug_form(text: Seq<char>) -> Seq<char>;

/// The `Debug` form of `str`: the named text, which stands in quotes and has
/// its quotes, backslashes and unprintable characters escaped. Which characters
/// those are is a table of std, and nothing more is said of it here.
#[verifier::external_body]
pub(crate) fn debug_text(text: &str) -> (r: String)
    ensures
        r@ == debug_form(text@),
{
    format!("{:?}", text)
}

/// `String::push` appends one character.
pub assume_specification[ String::push ](text: &mut String, c: char)
    ensures
        final(text)@ == old(text)@.push(c),
;

/// The characters of `text`, one by one.
pub fn to_chars(text: &str) -> (r: Vec<char>)
    ensures
        r@ == text@,
{
    broadcast use {vstd::string::axiom_spec_iter, vstd::string::next_postcondition};

    let mut out: Vec<char> = Vec::new();
    let mut chars = text.chars();
    assert(out@ + chars.remaining() =~= text@);
    loop
        invariant_except_break
            out@ + chars.remaining() == text@,
            chars.decrease() is Some,
        ensures
            out@ == text@,
        decreases chars.decrease()->0,
    {
        match chars.next() {
            Some(c) => {
                out.push(c);
                assert(out@ + chars.remaining() =~= text@);
            },
            None => {
                assert(out@ =~= text@);
                break;
            },
        }
    }
    out
}

/// The text made of `chars`.
pub fn from_chars(chars: &[char]) -> (r: String)
    ensures
        r@ == chars@,
{
    let mut out = String::new();
    let mut index: usize = 0;
    while index < chars.len()
        invariant
            index <= chars.len(),
            out@ == chars@.take(index as int),
        decreases chars.len() - index,
    {
        out.push(chars[index]);
        assert(out@ =~= chars@.take(index + 1));
        index = index + 1;
    }
    assert(out@ =~= chars@);
    out
}

/// The text `first` followed by `second`.
pub fn concat(first: &str, second: &str) -> (r: String)
    ensures
        r@ == first@ + second@,
{
    let mut out = first.to_owned();
    out.append(second);
    out
}

/// The decimal digit of a value under ten.
pub open spec fn decimal_digit(value: int) -> char {
    if value == 0 {
        '0'
    } else if value == 1 {
        '1'
    } else if value == 2 {
        '2'
    } else if value == 3 {
        '3'
    } else if value == 4 {
        '4'
    } else if value == 5 {
        '5'
    } else if value == 6 {
        '6'
    } else if value == 7 {
        '7'
    } else if value == 8 {
        '8'
    } else {
        '9'
    }
}

/// A number in decimal digits, without leading zeros.
pub open spec fn decimal(value: nat) -> Seq<char>
    decreases value,
{
    if value < 10 {
        seq![decimal_digit(value as int)]
    } else {
        decimal(value / 10).push(decimal_digit((value % 10) as int))
    }
}

fn digit_char(value: u64) -> (r: char)
    requires
        value < 10,
    ensures
        r == decimal_digit(value as int),
{
    match value {
        0 => '0',
        1 => '1',
        2 => '2',
        3 => '3',
        4 => '4',
        5 => '5',
        6 => '6',
        7 => '7',
        8 => '8',
        _ => '9',
    }
}

/// Appends `value` in decimal digits.
pub fn push_decimal(out: &mut String, value: u64)
    ensures
        final(out)@ == old(out)@ + decimal(value as nat),
    decreases value,
{
    if value >= 10 {
        push_decimal(out, value / 10);
    }
    out.push(digit_char(value % 10));
    assert(out@ =~= old(out)@ + decimal(value as nat));
}

/// Control characters, the Unicode category Cc.
pub open spec fn is_control(c: char) -> bool {
    (c as u32) < 0x20 || 0x7f <= (c as u32) <= 0x9f
}

/// Whether `c` is a control character.
pub fn is_control_char(c: char) -> (r: bool)
    ensures
        r == is_control(c),
{
    let code: u32 = c as u32;
    code < 0x20 || (0x7f <= code && code <= 0x9f)
}

/// White space, the Unicode property White_Space.
pub open spec fn is_whitespace(c: char) -> bool {
    let code = c as u32;
    ||| 0x09 <= code <= 0x0d
    ||| code == 0x20
    ||| code == 0x85
    ||| code == 0xa0
    ||| code == 0x1680
    ||| 0x2000 <= code <= 0x200a
    ||| code == 0x2028
    ||| code == 0x2029
    ||| code == 0x202f
    ||| code == 0x205f
    ||| code == 0x3000
}

/// Whether `c` is white space.
pub fn is_whitespace_char(c: char) -> (r: bool)
    ensures
        r == is_whitespace(c),
{
    let code: u32 = c as u32;
    matches!(
        code,
        0x09..=0x0d | 0x20 | 0x85 | 0xa0 | 0x1680 | 0x2000..=0x200a | 0x2028 | 0x2029 | 0x202f
            | 0x205f | 0x3000
    )
}

/// Whether two texts are the same.
pub fn same_text(first: &str, second: &str) -> (r: bool)
    ensures
        r == (first@ == second@),
{
    let left: Vec<char> = to_chars(first);
    let right: Vec<char> = to_chars(second);
    if left.len() != right.len() {
        return false;
    }
    let mut index: usize = 0;
    while index < left.len()
        invariant
            index <= left.len(),
            left.len() == right.len(),
            left@ == first@,
            right@ == second@,
            forall|i: int| 0 <= i < index ==> left@[i] == right@[i],
        decreases left.len() - index,
    {
        if left[index] != right[index] {
            return false;
        }
        index = index + 1;
    }
    assert(left@ =~= right@);
    true
}

/// Number of bytes that a character takes in UTF-8.
pub open spec fn char_width(c: char) -> nat {
    encode_scalar(c as u32).len()
}

/// Number of bytes that text takes in UTF-8.
pub open spec fn byte_len(chars: Seq<char>) -> nat {
    encode_utf8(chars).len()
}

/// Number of bytes that `c` takes in UTF-8.
pub fn char_len(c: char) -> (r: usize)
    ensures
        r == char_width(c),
        1 <= r <= 4,
{
    let code: u32 = c as u32;
    if code < 0x80 {
        1
    } else if code < 0x800 {
        2
    } else if code < 0x1_0000 {
        3
    } else {
        4
    }
}

/// Text followed by one more character takes that character's bytes more.
pub proof fn lemma_byte_len_push(chars: Seq<char>, c: char)
    ensures
        byte_len(chars.push(c)) == byte_len(chars) + char_width(c),
    decreases chars.len(),
{
    let more = chars.push(c);
    if chars.len() == 0 {
        assert(more.drop_first() =~= Seq::<char>::empty());
        assert(encode_utf8(more.drop_first()).len() == 0);
    } else {
        assert(more.drop_first() =~= chars.drop_first().push(c));
        lemma_byte_len_push(chars.drop_first(), c);
    }
}

/// The bytes of two texts add up.
pub proof fn lemma_byte_len_concat(first: Seq<char>, second: Seq<char>)
    ensures
        byte_len(first + second) == byte_len(first) + byte_len(second),
    decreases second.len(),
{
    if second.len() == 0 {
        assert(first + second =~= first);
        assert(encode_utf8(second).len() == 0);
    } else {
        lemma_byte_len_concat(first, second.drop_last());
        assert(first + second =~= (first + second.drop_last()).push(second.last()));
        lemma_byte_len_push(first + second.drop_last(), second.last());
        assert(second =~= second.drop_last().push(second.last()));
        lemma_byte_len_push(second.drop_last(), second.last());
    }
}

/// The longest front of `chars` that takes at most `limit` bytes.
pub open spec fn fitting_prefix(chars: Seq<char>, limit: int) -> Seq<char>
    decreases chars.len(),
{
    if chars.len() == 0 || byte_len(chars) <= limit {
        chars
    } else {
        fitting_prefix(chars.drop_last(), limit)
    }
}

/// The number of bytes that `chars` take in UTF-8, if the count fits.
pub fn encoded_len(chars: &[char]) -> (r: usize)
    requires
        4 * chars.len() <= usize::MAX,
    ensures
        r == byte_len(chars@),
{
    let mut total: usize = 0;
    let mut index: usize = 0;
    assert(encode_utf8(chars@.take(0)).len() == 0);
    while index < chars.len()
        invariant
            index <= chars.len(),
            4 * chars.len() <= usize::MAX,
            total <= 4 * index,
            total == byte_len(chars@.take(index as int)),
        decreases chars.len() - index,
    {
        proof {
            lemma_byte_len_push(chars@.take(index as int), chars@[index as int]);
            assert(chars@.take(index as int).push(chars@[index as int]) =~= chars@.take(index + 1));
        }
        total = total + char_len(chars[index]);
        index = index + 1;
    }
    assert(chars@.take(chars@.len() as int) =~= chars@);
    total
}

/// The number that decimal digits stand for.
pub open spec fn value_of(digits: Seq<char>) -> int
    decreases digits.len(),
{
    if digits.len() == 0 {
        0
    } else {
        10 * value_of(digits.drop_last()) + (digits.last() as int - '0' as int)
    }
}

/// A number in decimal digits reads back as that number: it has nothing but
/// digits, and no zero in front of others.
pub proof fn law_decimal_digits_read_back(value: nat)
    ensures
        value_of(decimal(value)) == value,
        decimal(value).len() > 0,
        forall|i: int|
            0 <= i < decimal(value).len() ==> '0' as int <= #[trigger] decimal(value)[i] as int
                <= '9' as int,
        decimal(value)[0] == '0' ==> decimal(value).len() == 1,
    decreases value,
{
    let digits = decimal(value);
    if value < 10 {
        assert(digits.drop_last().len() == 0);
        assert(value_of(digits.drop_last()) == 0);
        assert(digits.last() as int - '0' as int == value);
    } else {
        law_decimal_digits_read_back(value / 10);
        let last = value % 10;
        assert(digits.drop_last() =~= decimal(value / 10));
        assert(digits.last() as int - '0' as int == last);
        if digits[0] == '0' {
            assert(decimal(value / 10)[0] == '0');
            assert(value / 10 > 0);
            lemma_no_leading_zero(value / 10);
        }
    }
}

proof fn lemma_no_leading_zero(value: nat)
    requires
        value > 0,
    ensures
        decimal(value)[0] != '0',
    decreases value,
{
    if value >= 10 {
        lemma_no_leading_zero(value / 10);
    }
}

/// The front that fits is the longest: it takes at most the limit, and every
/// longer front takes more.
pub proof fn law_fitting_fronts_are_the_longest(chars: Seq<char>, limit: int, longer: int)
    requires
        limit >= 0,
    ensures
        ({
            let front = fitting_prefix(chars, limit);
            &&& front.len() <= chars.len()
            &&& front == chars.take(front.len() as int)
            &&& byte_len(front) <= limit
            &&& front.len() < longer <= chars.len() ==> byte_len(chars.take(longer)) > limit
        }),
    decreases chars.len(),
{
    let front = fitting_prefix(chars, limit);
    if chars.len() == 0 || byte_len(chars) <= limit {
        assert(front == chars.take(front.len() as int));
        if chars.len() == 0 {
            assert(encode_utf8(chars).len() == 0);
        }
    } else {
        let before = chars.drop_last();
        law_fitting_fronts_are_the_longest(before, limit, longer);
        assert(before.take(front.len() as int) =~= chars.take(front.len() as int));
        if front.len() < longer <= chars.len() {
            if longer == chars.len() {
                assert(chars.take(longer) =~= chars);
            } else {
                assert(chars.take(longer) =~= before.take(longer));
            }
        }
    }
}

/// Control characters are those below the space and the block from delete on:
/// no printable character of ASCII and none beyond that block is one.
pub proof fn law_printable_characters_are_no_controls(c: char)
    ensures
        0x20 <= (c as u32) < 0x7f ==> !is_control(c),
        (c as u32) > 0x9f ==> !is_control(c),
        (c as u32) < 0x20 ==> is_control(c),
        0x7f <= (c as u32) <= 0x9f ==> is_control(c),
        is_whitespace(c) && (c as u32) < 0x20 ==> 0x09 <= (c as u32) <= 0x0d,
        0x21 <= (c as u32) < 0x7f ==> !is_whitespace(c),
        c == ' ' ==> is_whitespace(c) && !is_control(c),
{
}

} // verus!
