//! Decimal numbers, white space and received bytes as text.

use vstd::prelude::*;
use vstd::string::*;
use vstd::utf8::*;

verus! {

/// One of the ten decimal digits.
pub open spec fn is_digit(c: char) -> bool {
    '0' <= c <= '9'
}

/// The number that a decimal digit stands for.
pub open spec fn digit_value(c: char) -> nat {
    (c as int - '0' as int) as nat
}

/// The decimal digit for a number below ten.
pub open spec fn digit_char(d: nat) -> char {
    (d + '0' as nat) as char
}

/// The decimal numeral of `n`, without leading zeros.
pub open spec fn decimal(n: nat) -> Seq<char>
    decreases n,
{
    if n < 10 {
        seq![digit_char(n)]
    } else {
        decimal(n / 10).push(digit_char(n % 10))
    }
}

/// The decimal numeral of `n`, with a minus sign in front of a negative number.
pub open spec fn signed_decimal(n: int) -> Seq<char> {
    if n < 0 {
        seq!['-'] + decimal((-n) as nat)
    } else {
        decimal(n as nat)
    }
}

/// The number that a sequence of decimal digits stands for.
pub open spec fn digits_value(digits: Seq<char>) -> nat
    decreases digits.len(),
{
    if digits.len() == 0 {
        0
    } else {
        digits_value(digits.drop_last()) * 10 + digit_value(digits.last())
    }
}

/// Only decimal digits.
pub open spec fn all_digits(s: Seq<char>) -> bool {
    forall|i: int| 0 <= i < s.len() ==> is_digit(#[trigger] s[i])
}

/// A text without the plus sign that it may start with.
pub open spec fn without_plus(s: Seq<char>) -> Seq<char> {
    if s.len() > 0 && s[0] == '+' {
        s.skip(1)
    } else {
        s
    }
}

/// The `u64` that a text denotes: an optional plus sign, then one or more
/// decimal digits and nothing else, with a value that a `u64` can hold.
pub open spec fn denoted_u64(s: Seq<char>) -> Option<u64> {
    let digits = without_plus(s);
    if digits.len() > 0 && all_digits(digits) && digits_value(digits) <= u64::MAX {
        Some(digits_value(digits) as u64)
    } else {
        None
    }
}

/// The characters with the Unicode property `White_Space`.
pub open spec fn is_white_space(c: char) -> bool {
    let u = c as u32;
    ||| 0x09 <= u <= 0x0d
    ||| u == 0x20
    ||| u == 0x85
    ||| u == 0xa0
    ||| u == 0x1680
    ||| 0x2000 <= u <= 0x200a
    ||| u == 0x2028
    ||| u == 0x2029
    ||| u == 0x202f
    ||| u == 0x205f
    ||| u == 0x3000
}

/// A text without the white space at its end.
pub open spec fn trimmed_end(s: Seq<char>) -> Seq<char>
    decreases s.len(),
{
    if s.len() > 0 && is_white_space(s.last()) {
        trimmed_end(s.drop_last())
    } else {
        s
    }
}

/// A text without the white space at its start.
pub open spec fn trimmed_start(s: Seq<char>) -> Seq<char>
    decreases s.len(),
{
    if s.len() > 0 && is_white_space(s[0]) {
        trimmed_start(s.skip(1))
    } else {
        s
    }
}

/// A text without the white space at either end.
pub open spec fn trimmed(s: Seq<char>) -> Seq<char> {
    trimmed_start(trimmed_end(s))
}

/// What `String::from_utf8_lossy` makes of bytes that are not valid UTF-8.
pub uninterp spec fn replaced_utf8(bytes: Seq<u8>) -> Seq<char>;

/// Bytes read as UTF-8, with replacement characters for what is not valid.
pub open spec fn lossy_utf8(bytes: Seq<u8>) -> Seq<char> {
    if valid_utf8(bytes) {
        decode_utf8(bytes)
    } else {
        replaced_utf8(bytes)
    }
}

/// Calls `String::from_utf8_lossy`. Valid UTF-8 is decoded as it stands. Other
/// bytes give a text that depends on them alone, and that holds a replacement
/// character for each part that is not valid, hence at least one; which bytes
/// make up one such part is not stated.
#[verifier::external_body]
pub(crate) fn lossy_text(bytes: &[u8]) -> (text: String)
    ensures
        text@ == (if valid_utf8(bytes@) {
            decode_utf8(bytes@)
        } else {
            replaced_utf8(bytes@)
        }),
        !valid_utf8(bytes@) ==> text@.contains('\u{FFFD}'),
{
    String::from_utf8_lossy(bytes).into_owned()
}

/// The decimal digit for a number below ten, as a text of one character.
fn digit_text(d: u64) -> (text: &'static str)
    requires
        d < 10,
    ensures
        text@ == seq![digit_char(d as nat)],
{
    proof {
        reveal_strlit("0");
        reveal_strlit("1");
        reveal_strlit("2");
        reveal_strlit("3");
        reveal_strlit("4");
        reveal_strlit("5");
        reveal_strlit("6");
        reveal_strlit("7");
        reveal_strlit("8");
        reveal_strlit("9");
    }
    match d {
        0 => "0",
        1 => "1",
        2 => "2",
        3 => "3",
        4 => "4",
        5 => "5",
        6 => "6",
        7 => "7",
        8 => "8",
        _ => "9",
    }
}

/// Appends the decimal numeral of `n`.
pub fn append_decimal(out: &mut String, n: u64)
    ensures
        final(out)@ == old(out)@ + decimal(n as nat),
    decreases n,
{
    if n >= 10 {
        append_decimal(out, n / 10);
    }
    out.append(digit_text(n % 10));
}

/// Appends the decimal numeral of `n`, with its minus sign if it has one.
pub fn append_signed_decimal(out: &mut String, n: i32)
    ensures
        final(out)@ == old(out)@ + signed_decimal(n as int),
{
    if n < 0 {
        proof {
            reveal_strlit("-");
        }
        out.append("-");
        append_decimal(out, (-(n as i64)) as u64);
    } else {
        append_decimal(out, n as u64);
    }
}

/// Whether `c` has the Unicode property `White_Space`.
fn white_space(c: char) -> (yes: bool)
    ensures
        yes == is_white_space(c),
{
    let u: u32 = c as u32;
    (0x09 <= u && u <= 0x0d) || u == 0x20 || u == 0x85 || u == 0xa0 || u == 0x1680 || (0x2000 <= u
        && u <= 0x200a) || u == 0x2028 || u == 0x2029 || u == 0x202f || u == 0x205f || u == 0x3000
}

/// The characters of a text.
fn chars_of(text: &str) -> (chars: Vec<char>)
    ensures
        chars@ == text@,
{
    let mut chars: Vec<char> = Vec::new();
    for c in iter: text.chars()
        invariant
            chars@ == text@.take(iter.index() as int),
            iter.seq() == text@,
    {
        chars.push(c);
    }
    chars
}

/// How many characters are left without the white space at the end.
fn end_of_text(chars: &Vec<char>) -> (end: usize)
    ensures
        end <= chars.len(),
        chars@.take(end as int) == trimmed_end(chars@),
{
    let mut end: usize = chars.len();
    assert(chars@.take(end as int) == chars@);
    while end > 0 && white_space(chars[end - 1])
        invariant
            end <= chars.len(),
            trimmed_end(chars@.take(end as int)) == trimmed_end(chars@),
        decreases end,
    {
        assert(chars@.take(end as int).drop_last() == chars@.take(end - 1));
        end = end - 1;
    }
    end
}

/// How many characters at the start are white space, up to `end`.
fn start_of_text(chars: &Vec<char>, end: usize) -> (start: usize)
    requires
        end <= chars.len(),
    ensures
        start <= end,
        chars@.subrange(start as int, end as int) == trimmed_start(chars@.take(end as int)),
{
    let mut start: usize = 0;
    assert(chars@.subrange(0, end as int) == chars@.take(end as int));
    while start < end && white_space(chars[start])
        invariant
            start <= end <= chars.len(),
            trimmed_start(chars@.subrange(start as int, end as int)) == trimmed_start(
                chars@.take(end as int),
            ),
        decreases end - start,
    {
        assert(chars@.subrange(start as int, end as int).skip(1) == chars@.subrange(
            start + 1,
            end as int,
        ));
        start = start + 1;
    }
    start
}

/// The text without the white space at its end.
pub fn trim_end(text: &str) -> (result: String)
    ensures
        result@ == trimmed_end(text@),
{
    let chars = chars_of(text);
    let end: usize = end_of_text(&chars);
    text.substring_char(0, end).to_owned()
}

/// The text without the white space at either end.
pub fn trim(text: &str) -> (result: String)
    ensures
        result@ == trimmed(text@),
{
    let chars = chars_of(text);
    let end: usize = end_of_text(&chars);
    let start: usize = start_of_text(&chars, end);
    text.substring_char(start, end).to_owned()
}

/// More digits never make a smaller number.
proof fn lemma_digits_value_grows(digits: Seq<char>, end: int)
    requires
        0 <= end <= digits.len(),
    ensures
        digits_value(digits.take(end)) <= digits_value(digits),
    decreases digits.len() - end,
{
    if end == digits.len() {
        assert(digits.take(end) == digits);
    } else {
        lemma_digits_value_grows(digits, end + 1);
        assert(digits.take(end + 1).drop_last() == digits.take(end));
    }
}

/// The number that the first `end` characters denote, if they denote one.
fn number_of(chars: &Vec<char>, end: usize) -> (number: Option<u64>)
    requires
        end <= chars.len(),
    ensures
        number == denoted_u64(chars@.take(end as int)),
{
    let ghost all = chars@.take(end as int);
    let start: usize = if end > 0 && chars[0] == '+' {
        1
    } else {
        0
    };
    let ghost digits = chars@.subrange(start as int, end as int);
    assert(digits == without_plus(all));
    if start == end {
        return None;
    }
    let mut value: u64 = 0;
    let mut i: usize = start;
    while i < end
        invariant
            start <= i <= end <= chars.len(),
            start <= 1,
            start < end,
            digits == chars@.subrange(start as int, end as int),
            digits == without_plus(chars@.take(end as int)),
            all_digits(digits.take(i - start)),
            value == digits_value(digits.take(i - start)),
        decreases end - i,
    {
        let c: char = chars[i];
        assert(c == digits[i - start]);
        if c < '0' || c > '9' {
            return None;
        }
        let digit: u64 = (c as u32 - 48) as u64;
        proof {
            assert(digits.take(i - start + 1).drop_last() == digits.take(i - start));
            lemma_digits_value_grows(digits, i - start + 1);
        }
        if value > (u64::MAX - digit) / 10 {
            return None;
        }
        value = value * 10 + digit;
        i = i + 1;
    }
    assert(digits.take(end - start) == digits);
    Some(value)
}

/// The number that the text denotes once the white space at its end is gone.
pub fn parse_text(text: &str) -> (number: Option<u64>)
    ensures
        number == denoted_u64(trimmed_end(text@)),
{
    let chars = chars_of(text);
    let end: usize = end_of_text(&chars);
    number_of(&chars, end)
}

/// Trimming the end keeps every character that is not white space.
pub(crate) proof fn lemma_trimmed_end_keeps(s: Seq<char>, c: char)
    requires
        s.contains(c),
        !is_white_space(c),
    ensures
        trimmed_end(s).contains(c),
    decreases s.len(),
{
    if s.len() > 0 && is_white_space(s.last()) {
        let i = s.index_of(c);
        assert(s.drop_last()[i] == c);
        lemma_trimmed_end_keeps(s.drop_last(), c);
    }
}

/// A text with a character that is neither a digit nor a plus sign denotes no
/// number.
pub(crate) proof fn lemma_foreign_char_denotes_nothing(s: Seq<char>, c: char)
    requires
        s.contains(c),
        !is_digit(c),
        c != '+',
    ensures
        denoted_u64(s) is None,
{
    let i = s.index_of(c);
    if s[0] == '+' {
        assert(without_plus(s)[i - 1] == c);
    } else {
        assert(without_plus(s)[i] == c);
    }
}

/// The numeral of a number consists of digits, is not empty and denotes that
/// number.
pub proof fn lemma_decimal_denotes(n: nat)
    ensures
        decimal(n).len() > 0,
        all_digits(decimal(n)),
        digits_value(decimal(n)) == n,
    decreases n,
{
    if n < 10 {
        assert(decimal(n).drop_last() == Seq::<char>::empty());
        assert(digits_value(Seq::<char>::empty()) == 0);
    } else {
        lemma_decimal_denotes(n / 10);
        assert(decimal(n).drop_last() == decimal(n / 10));
    }
}

/// The numeral of a `u64` has at most twenty digits.
pub proof fn lemma_decimal_length(n: u64)
    ensures
        decimal(n as nat).len() <= 20,
{
    reveal_with_fuel(decimal, 20);
}

/// The decimal digits are the characters from '0' to '9', in the order of the
/// numbers that they stand for.
pub proof fn lemma_digits_are_ascii(c: char, s: Seq<char>)
    ensures
        is_digit(c) <==> '0' <= c <= '9',
        is_digit(c) ==> digit_value(c) == c as u32 - 48,
        all_digits(s) <==> forall|i: int| 0 <= i < s.len() ==> '0' <= #[trigger] s[i] <= '9',
{
    if all_digits(s) {
        assert forall|i: int| 0 <= i < s.len() implies '0' <= #[trigger] s[i] <= '9' by {
            assert(is_digit(s[i]));
        }
    }
}

/// A further digit makes ten times the number, and adds its own value to it.
pub proof fn lemma_digit_by_digit(digits: Seq<char>, c: char)
    requires
        '0' <= c <= '9',
    ensures
        digits_value(Seq::<char>::empty()) == 0,
        digits_value(digits.push(c)) == 10 * digits_value(digits) + (c as u32 - 48),
{
    assert(digits.push(c).drop_last() == digits);
}

/// A numeral has no leading zero, and every sequence of digits without one is
/// the numeral of its value.
pub proof fn lemma_numerals_are_unique(digits: Seq<char>, n: nat)
    ensures
        decimal(n).len() == 1 || decimal(n)[0] != '0',
        digits.len() > 0 && all_digits(digits) && (digits.len() == 1 || digits[0] != '0')
            && digits_value(digits) == n ==> digits == decimal(n),
    decreases n + digits.len(),
{
    if n >= 10 {
        lemma_numerals_are_unique(Seq::empty(), n / 10);
        lemma_decimal_denotes(n / 10);
        if decimal(n / 10)[0] == '0' {
            assert(decimal(n / 10).drop_last() == Seq::<char>::empty());
            assert(digits_value(Seq::<char>::empty()) == 0);
            assert(n / 10 == 0);
        }
    }
    if digits.len() > 0 && all_digits(digits) && (digits.len() == 1 || digits[0] != '0')
        && digits_value(digits) == n {
        let rest = digits.drop_last();
        assert(is_digit(digits.last()));
        if digits.len() == 1 {
            assert(rest == Seq::<char>::empty());
            assert(digits_value(rest) == 0);
            assert(digits == decimal(n));
        } else {
            assert(digits_value(rest) == n / 10);
            assert(all_digits(rest)) by {
                assert forall|i: int| 0 <= i < rest.len() implies is_digit(#[trigger] rest[i]) by {
                    assert(is_digit(digits[i]));
                }
            }
            lemma_numerals_are_unique(rest, n / 10);
            assert(rest == decimal(n / 10));
            assert(digits == rest.push(digits.last()));
        }
    }
}

/// The numeral of a negative number is that of its opposite behind a minus sign.
pub proof fn lemma_sign_of_numeral(n: int)
    ensures
        n >= 0 ==> all_digits(signed_decimal(n)) && digits_value(signed_decimal(n)) == n,
        n < 0 ==> signed_decimal(n)[0] == '-' && signed_decimal(n).skip(1) == signed_decimal(-n),
{
    if n >= 0 {
        lemma_decimal_denotes(n as nat);
    } else {
        assert(signed_decimal(n).skip(1) == decimal((-n) as nat));
    }
}

/// A text denotes a number exactly if it consists of digits with that value,
/// with or without a plus sign before them.
pub proof fn lemma_what_denotes_a_number(s: Seq<char>, n: u64)
    ensures
        denoted_u64(s) == Some(n) <==> exists|digits: Seq<char>| #[trigger]
            all_digits(digits) && digits.len() > 0 && digits_value(digits) == n && (s == digits || s
                == seq!['+'] + digits),
{
    if denoted_u64(s) == Some(n) {
        let digits = without_plus(s);
        if s[0] == '+' {
            assert(s == seq!['+'] + digits);
        }
        assert(all_digits(digits));
    }
    if exists|digits: Seq<char>| #[trigger]
        all_digits(digits) && digits.len() > 0 && digits_value(digits) == n && (s == digits || s
            == seq!['+'] + digits) {
        let digits = choose|digits: Seq<char>| #[trigger]
            all_digits(digits) && digits.len() > 0 && digits_value(digits) == n && (s == digits
                || s == seq!['+'] + digits);
        assert(is_digit(digits[0]));
        assert(without_plus(s) == digits);
    }
}

/// Trimming the end takes away white space only, and all of it.
pub proof fn lemma_trimmed_end_is_what_is_left(s: Seq<char>)
    ensures
        trimmed_end(s).len() <= s.len(),
        trimmed_end(s) == s.take(trimmed_end(s).len() as int),
        forall|i: int| trimmed_end(s).len() <= i < s.len() ==> is_white_space(#[trigger] s[i]),
        trimmed_end(s).len() > 0 ==> !is_white_space(trimmed_end(s).last()),
    decreases s.len(),
{
    if s.len() > 0 && is_white_space(s.last()) {
        let rest = s.drop_last();
        lemma_trimmed_end_is_what_is_left(rest);
        assert forall|i: int| trimmed_end(s).len() <= i < s.len() implies is_white_space(
            #[trigger] s[i],
        ) by {
            if i < rest.len() {
                assert(rest[i] == s[i]);
            }
        }
    }
}

/// Trimming the start takes away white space only, and all of it.
pub proof fn lemma_trimmed_start_is_what_is_left(s: Seq<char>)
    ensures
        trimmed_start(s).len() <= s.len(),
        trimmed_start(s) == s.skip(s.len() - trimmed_start(s).len()),
        forall|i: int|
            0 <= i < s.len() - trimmed_start(s).len() ==> is_white_space(#[trigger] s[i]),
        trimmed_start(s).len() > 0 ==> !is_white_space(trimmed_start(s)[0]),
    decreases s.len(),
{
    if s.len() > 0 && is_white_space(s[0]) {
        let rest = s.skip(1);
        lemma_trimmed_start_is_what_is_left(rest);
        assert forall|i: int| 0 <= i < s.len() - trimmed_start(s).len() implies is_white_space(
            #[trigger] s[i],
        ) by {
            if i > 0 {
                assert(rest[i - 1] == s[i]);
            }
        }
    }
}

/// Trimming both ends leaves the part of the text between the first and the last
/// character that is not white space.
pub proof fn lemma_trimmed_is_what_is_left(s: Seq<char>)
    ensures
        exists|from: int, to: int| #[trigger]
            s.subrange(from, to) == trimmed(s) && 0 <= from <= to <= s.len() && (forall|i: int|
                0 <= i < from || to <= i < s.len() ==> is_white_space(#[trigger] s[i])),
        trimmed(s).len() > 0 ==> !is_white_space(trimmed(s)[0]) && !is_white_space(
            trimmed(s).last(),
        ),
{
    let head = trimmed_end(s);
    lemma_trimmed_end_is_what_is_left(s);
    lemma_trimmed_start_is_what_is_left(head);
    let to = head.len() as int;
    let from = to - trimmed(s).len();
    assert(s.subrange(from, to) == trimmed(s));
    assert forall|i: int| 0 <= i < from || to <= i < s.len() implies is_white_space(
        #[trigger] s[i],
    ) by {
        if i < from {
            assert(head[i] == s[i]);
        }
    }
}

/// Among the characters of ASCII, white space is the blank and the five that
/// start with the tabulator.
pub proof fn lemma_white_space_of_ascii(c: char)
    requires
        (c as u32) < 128,
    ensures
        is_white_space(c) <==> c == ' ' || '\t' <= c <= '\r',
{
}

/// Two texts that start with digits and go on with something else are the same
/// only if the digits are.
pub(crate) proof fn lemma_digits_end_where_they_end(
    one: Seq<char>,
    one_rest: Seq<char>,
    other: Seq<char>,
    other_rest: Seq<char>,
)
    requires
        all_digits(one),
        all_digits(other),
        one_rest.len() > 0,
        other_rest.len() > 0,
        !is_digit(one_rest[0]),
        !is_digit(other_rest[0]),
        one + one_rest == other + other_rest,
    ensures
        one == other,
        one_rest == other_rest,
{
    let whole = one + one_rest;
    if one.len() < other.len() {
        assert(whole[one.len() as int] == one_rest[0]);
        assert(whole[one.len() as int] == other[one.len() as int]);
    }
    if other.len() < one.len() {
        assert(whole[other.len() as int] == other_rest[0]);
        assert(whole[other.len() as int] == one[other.len() as int]);
    }
    assert(one == whole.take(one.len() as int));
    assert(other == whole.take(one.len() as int));
    assert(one_rest == whole.skip(one.len() as int));
    assert(other_rest == whole.skip(one.len() as int));
}

/// Valid UTF-8 is read as the text that it encodes, and other bytes as
/// `String::from_utf8_lossy` reads them.
pub proof fn lemma_bytes_as_text(t: Seq<char>, bytes: Seq<u8>)
    ensures
        lossy_utf8(encode_utf8(t)) == t,
        !valid_utf8(bytes) ==> lossy_utf8(bytes) == replaced_utf8(bytes),
{
    encode_utf8_valid_utf8(t);
    encode_utf8_decode_utf8(t);
}

/// There are twenty-five characters of white space.
pub proof fn lemma_all_white_space(c: char)
    ensures
        is_white_space(c) <==> seq![
            '\u{9}',
            '\u{a}',
            '\u{b}',
            '\u{c}',
            '\u{d}',
            ' ',
            '\u{85}',
            '\u{a0}',
            '\u{1680}',
            '\u{2000}',
            '\u{2001}',
            '\u{2002}',
            '\u{2003}',
            '\u{2004}',
            '\u{2005}',
            '\u{2006}',
            '\u{2007}',
            '\u{2008}',
            '\u{2009}',
            '\u{200a}',
            '\u{2028}',
            '\u{2029}',
            '\u{202f}',
            '\u{205f}',
            '\u{3000}',
        ].contains(c),
{
    let all = seq![
        '\u{9}',
        '\u{a}',
        '\u{b}',
        '\u{c}',
        '\u{d}',
        ' ',
        '\u{85}',
        '\u{a0}',
        '\u{1680}',
        '\u{2000}',
        '\u{2001}',
        '\u{2002}',
        '\u{2003}',
        '\u{2004}',
        '\u{2005}',
        '\u{2006}',
        '\u{2007}',
        '\u{2008}',
        '\u{2009}',
        '\u{200a}',
        '\u{2028}',
        '\u{2029}',
        '\u{202f}',
        '\u{205f}',
        '\u{3000}',
    ];
    assert(all[0] == '\u{9}');
    assert(all[1] == '\u{a}');
    assert(all[2] == '\u{b}');
    assert(all[3] == '\u{c}');
    assert(all[4] == '\u{d}');
    assert(all[5] == ' ');
    assert(all[6] == '\u{85}');
    assert(all[7] == '\u{a0}');
    assert(all[8] == '\u{1680}');
    assert(all[9] == '\u{2000}');
    assert(all[10] == '\u{2001}');
    assert(all[11] == '\u{2002}');
    assert(all[12] == '\u{2003}');
    assert(all[13] == '\u{2004}');
    assert(all[14] == '\u{2005}');
    assert(all[15] == '\u{2006}');
    assert(all[16] == '\u{2007}');
    assert(all[17] == '\u{2008}');
    assert(all[18] == '\u{2009}');
    assert(all[19] == '\u{200a}');
    assert(all[20] == '\u{2028}');
    assert(all[21] == '\u{2029}');
    assert(all[22] == '\u{202f}');
    assert(all[23] == '\u{205f}');
    assert(all[24] == '\u{3000}');
    if is_white_space(c) {
        let u = c as u32;
        let i = if u <= 0x0d {
            u - 0x09
        } else if 0x2000 <= u <= 0x200a {
            u - 0x2000 + 9
        } else if u == 0x20 {
            5
        } else if u == 0x85 {
            6
        } else if u == 0xa0 {
            7
        } else if u == 0x1680 {
            8
        } else if u == 0x2028 {
            20
        } else if u == 0x2029 {
            21
        } else if u == 0x202f {
            22
        } else if u == 0x205f {
            23
        } else {
            24
        };
        assert(all[i] == c);
    }
}

} // verus!
