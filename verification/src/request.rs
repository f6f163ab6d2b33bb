//! Requests on the wire: one decimal number and a line feed.

use crate::text;
use vstd::prelude::*;
use vstd::string::*;
use vstd::utf8::*;

verus! {

/// How many bytes of a connection the server reads at a time.
pub const READ_BUFFER_SIZE: usize = 1024;

/// The number that received bytes ask for: they are UTF-8, and without the
/// white space at their end they denote a `u64`.
pub open spec fn requested_number(received: Seq<u8>) -> Option<u64> {
    if valid_utf8(received) {
        text::denoted_u64(text::trimmed_end(decode_utf8(received)))
    } else {
        None
    }
}

/// The text of a request for the number `n`.
pub open spec fn request_text(n: u64) -> Seq<char> {
    text::decimal(n as nat).push('\n')
}

/// What the log says of a text that asks for no number.
pub open spec fn rejection_text(shard_id: usize, text: Seq<char>) -> Seq<char> {
    "Shard "@ + text::decimal(shard_id as nat) + " failed to parse '"@ + text + "' as u64"@
}

/// The number that the received bytes ask for. There is none if nothing was
/// received, or only white space, or anything but one number.
pub fn parse_request(received: &[u8]) -> (number: Option<u64>)
    ensures
        number == requested_number(received@),
{
    let text = text::lossy_text(received);
    proof {
        if !valid_utf8(received@) {
            text::lemma_trimmed_end_keeps(text@, '\u{FFFD}');
            text::lemma_foreign_char_denotes_nothing(text::trimmed_end(text@), '\u{FFFD}');
        }
    }
    text::parse_text(text.as_str())
}

/// The received bytes as text, without the white space at their end.
pub fn received_text(received: &[u8]) -> (text: String)
    ensures
        text@ == text::trimmed_end(text::lossy_utf8(received@)),
{
    text::trim_end(text::lossy_text(received).as_str())
}

/// The line for the log of a shard about received bytes that ask for no number.
/// There is none if they do, nor if nothing but white space was received.
pub fn rejection(shard_id: usize, received: &[u8]) -> (line: Option<String>)
    ensures
        line is Some <==> requested_number(received@) is None && text::trimmed_end(
            text::lossy_utf8(received@),
        ).len() > 0,
        line matches Some(line) ==> line@ == rejection_text(
            shard_id,
            text::trimmed_end(text::lossy_utf8(received@)),
        ),
{
    let text = received_text(received);
    if text.as_str().is_empty() || parse_request(received).is_some() {
        return None;
    }
    let mut line = String::new();
    line.append("Shard ");
    text::append_decimal(&mut line, shard_id as u64);
    line.append(" failed to parse '");
    line.append(text.as_str());
    line.append("' as u64");
    Some(line)
}

/// The line that asks for the number `n`.
pub fn request_line(n: u64) -> (line: String)
    ensures
        line@ == request_text(n),
{
    proof {
        reveal_strlit("\n");
    }
    let mut line = String::new();
    text::append_decimal(&mut line, n);
    line.append("\n");
    line
}

/// The server reads from a client's request line the number that the client
/// asked for.
pub proof fn lemma_request_round_trip(n: u64)
    ensures
        requested_number(encode_utf8(request_text(n))) == Some(n),
{
    let line = request_text(n);
    encode_utf8_valid_utf8(line);
    encode_utf8_decode_utf8(line);
    text::lemma_decimal_denotes(n as nat);
    let digits = text::decimal(n as nat);
    assert(line.drop_last() == digits);
    assert(text::is_digit(digits.last()));
    assert(text::trimmed_end(digits) == digits);
    assert(text::trimmed_end(line) == digits);
    assert(text::is_digit(digits[0]));
    assert(text::without_plus(digits) == digits);
}

/// Every request line fits into one read of the server.
pub proof fn lemma_request_fits_one_read(n: u64)
    ensures
        encode_utf8(request_text(n)).len() <= READ_BUFFER_SIZE,
        READ_BUFFER_SIZE == 1024,
{
    text::lemma_decimal_denotes(n as nat);
    text::lemma_decimal_length(n);
    assert forall|i: int| 0 <= i < request_text(n).len() implies (#[trigger] request_text(n)[i]) as u32
        <= 127 by {
        if i < text::decimal(n as nat).len() {
            assert(text::is_digit(text::decimal(n as nat)[i]));
        }
    }
    is_ascii_chars_encode_utf8(request_text(n));
}

/// White space behind a text does not change what is left when its end is
/// trimmed.
proof fn lemma_white_space_behind_is_trimmed(t: Seq<char>, blank: Seq<char>)
    requires
        forall|i: int| 0 <= i < blank.len() ==> text::is_white_space(#[trigger] blank[i]),
    ensures
        text::trimmed_end(t + blank) == text::trimmed_end(t),
    decreases blank.len(),
{
    if blank.len() == 0 {
        assert(t + blank == t);
    } else {
        assert(text::is_white_space(blank[blank.len() - 1]));
        assert((t + blank).drop_last() == t + blank.drop_last());
        lemma_white_space_behind_is_trimmed(t, blank.drop_last());
    }
}

/// The received bytes ask for `n` exactly if they are the UTF-8 form of: a plus
/// sign or nothing, then one or more digits with the value `n`, then white space
/// or nothing.
pub proof fn lemma_what_asks_for_a_number(received: Seq<u8>, n: u64)
    ensures
        requested_number(received) == Some(n) <==> exists|
            sign: Seq<char>,
            digits: Seq<char>,
            blank: Seq<char>,
        | #[trigger]
            encode_utf8(sign + digits + blank) == received && (sign == Seq::<char>::empty() || sign
                == seq!['+']) && text::all_digits(digits) && digits.len() > 0
                && text::digits_value(digits) == n && (forall|i: int|
                0 <= i < blank.len() ==> text::is_white_space(#[trigger] blank[i])),
{
    if requested_number(received) == Some(n) {
        let t = decode_utf8(received);
        let kept = text::trimmed_end(t);
        decode_utf8_encode_utf8(received);
        text::lemma_trimmed_end_is_what_is_left(t);
        text::lemma_what_denotes_a_number(kept, n);
        let digits = choose|digits: Seq<char>| #[trigger]
            text::all_digits(digits) && digits.len() > 0 && text::digits_value(digits) == n && (kept
                == digits || kept == seq!['+'] + digits);
        let sign = if kept == digits {
            Seq::<char>::empty()
        } else {
            seq!['+']
        };
        let blank = t.skip(kept.len() as int);
        assert(kept == sign + digits);
        assert(t == sign + digits + blank);
        assert(encode_utf8(sign + digits + blank) == received);
    }
    if exists|sign: Seq<char>, digits: Seq<char>, blank: Seq<char>| #[trigger]
        encode_utf8(sign + digits + blank) == received && (sign == Seq::<char>::empty() || sign
            == seq!['+']) && text::all_digits(digits) && digits.len() > 0 && text::digits_value(
            digits,
        ) == n && (forall|i: int|
            0 <= i < blank.len() ==> text::is_white_space(#[trigger] blank[i])) {
        let (sign, digits, blank) = choose|sign: Seq<char>, digits: Seq<char>, blank: Seq<char>|
         #[trigger]
            encode_utf8(sign + digits + blank) == received && (sign == Seq::<char>::empty() || sign
                == seq!['+']) && text::all_digits(digits) && digits.len() > 0
                && text::digits_value(digits) == n && (forall|i: int|
                0 <= i < blank.len() ==> text::is_white_space(#[trigger] blank[i]));
        let kept = sign + digits;
        encode_utf8_valid_utf8(kept + blank);
        encode_utf8_decode_utf8(kept + blank);
        lemma_white_space_behind_is_trimmed(kept, blank);
        assert(text::is_digit(digits[digits.len() - 1]));
        assert(kept.last() == digits.last());
        assert(text::trimmed_end(kept) == kept);
        assert(sign == Seq::<char>::empty() ==> kept == digits);
        text::lemma_what_denotes_a_number(kept, n);
    }
}

/// Bytes that are not the UTF-8 form of any text ask for nothing, and neither do
/// none at all or white space only.
pub proof fn lemma_what_asks_for_nothing(received: Seq<u8>, blank: Seq<char>)
    requires
        forall|i: int| 0 <= i < blank.len() ==> text::is_white_space(#[trigger] blank[i]),
    ensures
        !valid_utf8(received) ==> requested_number(received) is None,
        requested_number(Seq::<u8>::empty()) is None,
        requested_number(encode_utf8(blank)) is None,
{
    let nothing = Seq::<char>::empty();
    encode_utf8_valid_utf8(blank);
    encode_utf8_decode_utf8(blank);
    lemma_white_space_behind_is_trimmed(nothing, blank);
    assert(nothing + blank == blank);
    assert(text::trimmed_end(nothing) == nothing);
    assert(encode_utf8(nothing) == Seq::<u8>::empty());
    encode_utf8_decode_utf8(nothing);
}

/// A request line is a numeral without sign or leading zero, and a line feed.
pub proof fn lemma_request_is_one_line(n: u64)
    ensures
        request_text(n).last() == '\n',
        text::all_digits(request_text(n).drop_last()),
        text::digits_value(request_text(n).drop_last()) == n,
        request_text(n).len() == 2 || request_text(n)[0] != '0',
{
    assert(request_text(n).drop_last() == text::decimal(n as nat));
    text::lemma_decimal_denotes(n as nat);
    text::lemma_numerals_are_unique(Seq::empty(), n as nat);
}

/// A rejection quotes the text that was received and names the shard.
pub proof fn lemma_rejection_quotes_the_text(shard_id: usize, text: Seq<char>)
    ensures
        exists|digits: Seq<char>| #[trigger]
            text::all_digits(digits) && text::digits_value(digits) == shard_id && (digits.len() == 1
                || digits[0] != '0') && rejection_text(shard_id, text) == "Shard "@ + digits
                + " failed to parse '"@ + text + "' as u64"@,
{
    text::lemma_decimal_denotes(shard_id as nat);
    text::lemma_numerals_are_unique(Seq::empty(), shard_id as nat);
    assert(text::all_digits(text::decimal(shard_id as nat)));
}

} // verus!
