//! Portable identifiers and text helpers.

use crate::bytes::same_bytes;
use crate::order::Keyed;
use crate::primitives::BlockRange;
use vstd::prelude::*;
use vstd::utf8::encode_utf8;

verus! {

/// An ASCII letter or digit.
pub open spec fn is_alphanumeric(symbol: char) -> bool {
    ('0' <= symbol && symbol <= '9') || ('A' <= symbol && symbol <= 'Z') || ('a' <= symbol && symbol
        <= 'z')
}

/// A character of a portable identifier: a letter, a digit, `-` or `_`, and
/// `.` or `:` where these are allowed.
pub open spec fn is_portable_char(symbol: char, dots: bool, colons: bool) -> bool {
    is_alphanumeric(symbol) || symbol == '-' || symbol == '_' || (dots && symbol == '.') || (colons
        && symbol == ':')
}

/// A non-empty identifier of at most `maximum` portable characters.
pub open spec fn is_portable(text: Seq<char>, maximum: int, dots: bool, colons: bool) -> bool {
    0 < text.len() <= maximum && forall|index: int|
        0 <= index < text.len() ==> is_portable_char(#[trigger] text[index], dots, colons)
}

/// Whether `text` is a portable identifier.
pub fn portable(text: &str, maximum: usize, dots: bool, colons: bool) -> (valid: bool)
    ensures
        valid == is_portable(text@, maximum as int, dots, colons),
{
    if !text.is_ascii() {
        proof {
            let wrong = choose|index: int|
                0 <= index < text@.len() && !('\0' <= #[trigger] text@[index] && text@[index]
                    <= '\u{7f}');
            assert(!is_portable_char(text@[wrong], dots, colons));
        }
        return false;
    }
    proof {
        vstd::string::is_ascii_spec_bytes(text);
    }
    let bytes = text.as_bytes();
    if bytes.len() == 0 || bytes.len() > maximum {
        return false;
    }
    let mut index: usize = 0;
    while index < bytes.len()
        invariant
            index <= bytes@.len(),
            bytes@ =~= Seq::new(text@.len(), |k: int| text@[k] as u8),
            vstd::utf8::is_ascii_chars(text@),
            forall|k: int|
                0 <= k < index ==> is_portable_char(#[trigger] text@[k], dots, colons),
        decreases bytes@.len() - index,
    {
        let byte: u8 = bytes[index];
        let digit = 0x30 <= byte && byte <= 0x39;
        let upper = 0x41 <= byte && byte <= 0x5a;
        let lower = 0x61 <= byte && byte <= 0x7a;
        let dash = byte == 0x2d || byte == 0x5f;
        let allowed = digit || upper || lower || dash || (dots && byte == 0x2e) || (colons && byte
            == 0x3a);
        assert(allowed == is_portable_char(text@[index as int], dots, colons));
        if !allowed {
            return false;
        }
        index += 1;
    }
    true
}

/// Whether two texts are the same.
pub fn same_text(left: &str, right: &str) -> (same: bool)
    ensures
        same == (left@ == right@),
{
    let same = same_bytes(left.as_bytes(), right.as_bytes());
    proof {
        vstd::utf8::encode_utf8_decode_utf8(left@);
        vstd::utf8::encode_utf8_decode_utf8(right@);
    }
    same
}

impl Keyed for String {
    open spec fn key(&self) -> Seq<u8> {
        encode_utf8(self@)
    }

    fn key_bytes(&self) -> (bytes: Vec<u8>) {
        self.as_str().as_bytes_vec()
    }
}

/// The character of a decimal digit.
pub open spec fn digit(value: nat) -> char {
    (('0' as nat + value) as u8) as char
}

/// The decimal digits of a number, without leading zeros.
pub open spec fn decimal_digits(value: nat) -> Seq<char>
    decreases value,
{
    if value < 10 {
        seq![digit(value)]
    } else {
        decimal_digits(value / 10).push(digit(value % 10))
    }
}

fn digit_text(value: u64) -> (text: &'static str)
    requires
        value < 10,
    ensures
        text@ == seq![digit(value as nat)],
{
    proof {
        reveal_strlit("0");
        reveal_strlit("1");
        reveal_strlit("2");
        reveal_strlit("3");
        reveal_strlit("4");
        reveal_strlit("5");
        reveal_strlit("6");
        reveal_strlit("7");
        reveal_strlit("8");
        reveal_strlit("9");
    }
    let text: &'static str = if value == 0 {
        "0"
    } else if value == 1 {
        "1"
    } else if value == 2 {
        "2"
    } else if value == 3 {
        "3"
    } else if value == 4 {
        "4"
    } else if value == 5 {
        "5"
    } else if value == 6 {
        "6"
    } else if value == 7 {
        "7"
    } else if value == 8 {
        "8"
    } else {
        "9"
    };
    assert(text@ =~= seq![digit(value as nat)]);
    text
}

/// Appends the decimal digits of `value`.
pub fn push_decimal(output: &mut String, value: u64)
    ensures
        final(output)@ == old(output)@ + decimal_digits(value as nat),
    decreases value,
{
    if value >= 10 {
        push_decimal(output, value / 10);
    }
    output.append(digit_text(value % 10));
    assert(output@ =~= old(output)@ + decimal_digits(value as nat));
}

/// The decimal digits of a number, after a minus sign where it is negative.
pub open spec fn signed_digits(value: int) -> Seq<char> {
    if value < 0 {
        "-"@ + decimal_digits((-value) as nat)
    } else {
        decimal_digits(value as nat)
    }
}

/// Appends a number that may be negative.
pub fn push_signed(output: &mut String, value: i64)
    ensures
        final(output)@ == old(output)@ + signed_digits(value as int),
{
    if value < 0 {
        output.append("-");
        let magnitude: u64 = if value == i64::MIN {
            0x8000_0000_0000_0000
        } else {
            (-value) as u64
        };
        push_decimal(output, magnitude);
        assert(output@ =~= old(output)@ + signed_digits(value as int));
    } else {
        push_decimal(output, value as u64);
    }
}

/// The decimal digits of a number, with zeros before them up to a width.
pub open spec fn padded(value: nat, width: nat) -> Seq<char> {
    let digits = decimal_digits(value);
    if digits.len() >= width {
        digits
    } else {
        Seq::new((width - digits.len()) as nat, |i: int| '0') + digits
    }
}

/// Appends a number in at least `width` digits.
pub fn push_padded(output: &mut String, value: u64, width: usize)
    ensures
        final(output)@ == old(output)@ + padded(value as nat, width as nat),
{
    let mut digits: String = String::new();
    push_decimal(&mut digits, value);
    proof {
        assert(digits@ =~= decimal_digits(value as nat));
    }
    let length: usize = digits.as_str().unicode_len();
    let missing: usize = if length < width {
        width - length
    } else {
        0
    };
    let ghost before = output@;
    let mut index: usize = 0;
    proof {
        assert(before + Seq::new(0, |i: int| '0') =~= before);
    }
    while index < missing
        invariant
            index <= missing,
            output@ == before + Seq::new(index as nat, |i: int| '0'),
        decreases missing - index,
    {
        output.append("0");
        proof {
            reveal_strlit("0");
            assert(output@ =~= before + Seq::new((index + 1) as nat, |i: int| '0'));
        }
        index += 1;
    }
    output.append(digits.as_str());
    assert(output@ =~= before + padded(value as nat, width as nat));
}

/// The hexadecimal character of four bits.
pub open spec fn hex_digit(value: int) -> char {
    if value < 10 {
        ((0x30 + value) as u8) as char
    } else {
        ((0x61 + value - 10) as u8) as char
    }
}

/// Two lower-case hexadecimal characters for every byte, high bits first.
pub open spec fn hex_text(bytes: Seq<u8>) -> Seq<char>
    decreases bytes.len(),
{
    if bytes.len() == 0 {
        Seq::empty()
    } else {
        hex_text(bytes.drop_last()).push(hex_digit(bytes.last() as int / 16)).push(
            hex_digit(bytes.last() as int % 16),
        )
    }
}

/// Calls `hex::encode`. Claims that it writes every byte as two lower-case
/// hexadecimal characters.
#[verifier::external_body]
pub(crate) fn hex_encode(bytes: &[u8]) -> (text: String)
    ensures
        text@ == hex_text(bytes@),
{
    hex::encode(bytes)
}

/// The hexadecimal digits of a hash, after `0x`; that is how this library
/// chooses to write one.
pub open spec fn hash_text(bytes: Seq<u8>) -> Seq<char> {
    "0x"@ + hex_text(bytes)
}

/// Appends a hash in hexadecimal digits.
pub fn push_hash(output: &mut String, bytes: &[u8; 32])
    ensures
        final(output)@ == old(output)@ + hash_text(bytes@),
{
    output.append("0x");
    output.append(hex_encode(bytes.as_slice()).as_str());
    assert(output@ =~= old(output)@ + hash_text(bytes@));
}

/// A text between quotation marks.
pub open spec fn quoted(text: Seq<char>) -> Seq<char> {
    "\""@ + text + "\""@
}

/// The form in which a text is shown to a developer: between quotation marks,
/// with escapes.
pub uninterp spec fn debug_text(text: Seq<char>) -> Seq<char>;

/// Formats a text by the `Debug` of std's `str`. Claims that the result is a
/// function of the text.
#[verifier::external_body]
fn debug_form(text: &str) -> (shown: String)
    ensures
        shown@ == debug_text(text@),
{
    format!("{text:?}")
}

/// Appends a text as it is shown to a developer.
pub fn push_debug(output: &mut String, text: &str)
    ensures
        final(output)@ == old(output)@ + debug_text(text@),
{
    output.append(debug_form(text).as_str());
}

/// The form in which a character is shown to a developer: between apostrophes,
/// with escapes.
pub uninterp spec fn debug_symbol(symbol: char) -> Seq<char>;

/// Formats a character by the `Debug` of std's `char`. Claims that the result
/// is a function of the character.
#[verifier::external_body]
fn debug_symbol_form(symbol: char) -> (shown: String)
    ensures
        shown@ == debug_symbol(symbol),
{
    format!("{symbol:?}")
}

/// Appends a character as it is shown to a developer.
pub fn push_debug_symbol(output: &mut String, symbol: char)
    ensures
        final(output)@ == old(output)@ + debug_symbol(symbol),
{
    output.append(debug_symbol_form(symbol).as_str());
}

/// The text of bytes that may not be UTF-8.
pub uninterp spec fn lossy_text(bytes: Seq<u8>) -> Seq<char>;

/// Calls `String::from_utf8_lossy`. Claims that the text is a function of the
/// bytes, and that bytes that are UTF-8 are decoded.
#[verifier::external_body]
pub(crate) fn decode_lossy(bytes: &[u8]) -> (text: String)
    ensures
        text@ == lossy_text(bytes@),
        vstd::utf8::valid_utf8(bytes@) ==> text@ == vstd::utf8::decode_utf8(bytes@),
{
    String::from_utf8_lossy(bytes).into_owned()
}

/// A range as a pair of named heights.
pub open spec fn range_text(range: BlockRange) -> Seq<char> {
    "BlockRange { start: BlockNumber("@ + decimal_digits(range.start.0 as nat)
        + "), end: BlockNumber("@ + decimal_digits(range.end.0 as nat) + ") }"@
}

/// Appends a range as a pair of named heights.
pub fn push_range(output: &mut String, range: BlockRange)
    ensures
        final(output)@ == old(output)@ + range_text(range),
{
    output.append("BlockRange { start: BlockNumber(");
    push_decimal(output, range.start.0);
    output.append("), end: BlockNumber(");
    push_decimal(output, range.end.0);
    output.append(") }");
    assert(output@ =~= old(output)@ + range_text(range));
}

/// `text` ends with `suffix`.
pub open spec fn ends_with(text: Seq<char>, suffix: Seq<char>) -> bool {
    text.len() >= suffix.len() && text.skip(text.len() - suffix.len()) == suffix
}

/// The text before `suffix`, where it ends so.
pub fn strip_suffix<'a>(text: &'a str, suffix: &str) -> (stem: Option<&'a str>)
    ensures
        match stem {
            Some(stem) => ends_with(text@, suffix@) && text@ == stem@ + suffix@,
            None => !ends_with(text@, suffix@),
        },
{
    let length: usize = text.unicode_len();
    let tail: usize = suffix.unicode_len();
    if length < tail {
        return None;
    }
    let stem: &'a str = text.substring_char(0, length - tail);
    let end: &str = text.substring_char(length - tail, length);
    proof {
        assert(text@.skip(length - tail) =~= end@);
        assert(text@ =~= stem@ + end@);
    }
    if same_text(end, suffix) {
        Some(stem)
    } else {
        None
    }
}

/// The text, and then another.
pub fn joined(first: &str, second: &str) -> (text: String)
    ensures
        text@ == first@ + second@,
{
    let mut text: String = first.to_owned();
    text.append(second);
    text
}

/// The texts of a sequence of strings.
pub open spec fn texts(values: Seq<String>) -> Seq<Seq<char>> {
    values.map_values(|value: String| value@)
}

/// Copies a list of strings.
pub fn clone_texts(values: &Vec<String>) -> (copy: Vec<String>)
    ensures
        copy@ == values@,
{
    let mut copy: Vec<String> = Vec::new();
    let mut index: usize = 0;
    while index < values.len()
        invariant
            index <= values@.len(),
            copy@ == values@.take(index as int),
        decreases values@.len() - index,
    {
        copy.push(values[index].clone());
        assert(copy@ =~= values@.take(index + 1));
        index += 1;
    }
    assert(values@.take(index as int) =~= values@);
    copy
}

/// The items with commas between them.
pub open spec fn comma_separated(items: Seq<Seq<char>>) -> Seq<char>
    decreases items.len(),
{
    if items.len() == 0 {
        Seq::empty()
    } else if items.len() == 1 {
        items[0]
    } else {
        comma_separated(items.drop_last()) + ", "@ + items.last()
    }
}

/// The items in brackets.
pub open spec fn list_text(items: Seq<Seq<char>>) -> Seq<char> {
    "["@ + comma_separated(items) + "]"@
}

/// Appends the items in brackets.
pub fn push_list(output: &mut String, items: &Vec<String>)
    ensures
        final(output)@ == old(output)@ + list_text(texts(items@)),
{
    let ghost before = output@;
    let ghost all = texts(items@);
    output.append("[");
    let mut index: usize = 0;
    assert(output@ =~= before + "["@ + comma_separated(all.take(0)));
    while index < items.len()
        invariant
            index <= items@.len(),
            all == texts(items@),
            output@ == before + "["@ + comma_separated(all.take(index as int)),
        decreases items@.len() - index,
    {
        proof {
            let longer = all.take(index + 1);
            assert(longer.drop_last() =~= all.take(index as int));
            assert(longer.last() == items@[index as int]@);
        }
        if index > 0 {
            output.append(", ");
        }
        output.append(items[index].as_str());
        assert(output@ =~= before + "["@ + comma_separated(all.take(index + 1)));
        index += 1;
    }
    assert(all.take(index as int) =~= all);
    output.append("]");
    assert(output@ =~= before + list_text(all));
}

/// The pieces of a text between its separators.
pub open spec fn pieces(text: Seq<char>, separator: char) -> Seq<Seq<char>>
    decreases text.len(),
{
    if text.len() == 0 {
        seq![Seq::<char>::empty()]
    } else {
        let before = pieces(text.drop_last(), separator);
        if text.last() == separator {
            before.push(Seq::<char>::empty())
        } else {
            before.drop_last().push(before.last().push(text.last()))
        }
    }
}

/// Splits a text at every separator.
pub fn split(text: &str, separator: char) -> (parts: Vec<String>)
    ensures
        texts(parts@) == pieces(text@, separator),
        parts@.len() > 0,
{
    let length: usize = text.unicode_len();
    let mut parts: Vec<String> = Vec::new();
    let mut current: String = String::new();
    let mut index: usize = 0;
    proof {
        assert(text@.take(0) =~= Seq::<char>::empty());
        assert(texts(parts@).push(current@) =~= pieces(text@.take(0), separator));
    }
    while index < length
        invariant
            index <= length,
            length == text@.len(),
            texts(parts@).push(current@) == pieces(text@.take(index as int), separator),
        decreases length - index,
    {
        let ghost before = text@.take(index as int);
        let ghost longer = text@.take(index + 1);
        let ghost done = texts(parts@);
        let ghost held = current@;
        proof {
            assert(longer.drop_last() =~= before);
            assert(longer.last() == text@[index as int]);
            assert(pieces(before, separator) == done.push(held));
            assert(done.push(held).drop_last() =~= done);
            assert(done.push(held).last() == held);
        }
        if text.get_char(index) == separator {
            parts.push(current);
            current = String::new();
            proof {
                assert(texts(parts@) =~= done.push(held));
                assert(current@ =~= Seq::<char>::empty());
            }
        } else {
            current.append(text.substring_char(index, index + 1));
            assert(current@ =~= held.push(text@[index as int]));
        }
        index += 1;
    }
    let ghost done = texts(parts@);
    let ghost held = current@;
    parts.push(current);
    proof {
        assert(texts(parts@) =~= done.push(held));
        assert(text@.take(length as int) =~= text@);
    }
    parts
}

/// The symbol is a decimal digit.
pub open spec fn is_digit(symbol: char) -> bool {
    '0' <= symbol <= '9'
}

/// The number that decimal digits stand for.
pub open spec fn decimal_value(digits: Seq<char>) -> nat
    decreases digits.len(),
{
    if digits.len() == 0 {
        0
    } else {
        decimal_value(digits.drop_last()) * 10 + (digits.last() as nat - '0' as nat) as nat
    }
}

/// The digits of a number that a sign may precede.
pub open spec fn unsigned_digits(text: Seq<char>) -> Seq<char> {
    if text.len() > 1 && text[0] == '+' {
        text.skip(1)
    } else {
        text
    }
}

/// The number that a text writes, where it writes one no larger than
/// `maximum`.
pub open spec fn unsigned_value(text: Seq<char>, maximum: nat) -> Option<nat> {
    let digits = unsigned_digits(text);
    if digits.len() > 0 && (forall|i: int| 0 <= i < digits.len() ==> is_digit(#[trigger] digits[i]))
        && decimal_value(digits) <= maximum {
        Some(decimal_value(digits))
    } else {
        None
    }
}

/// Every character is a decimal digit.
pub open spec fn all_digits(text: Seq<char>) -> bool {
    forall|i: int| 0 <= i < text.len() ==> is_digit(#[trigger] text[i])
}

/// The digits of a number stand for it.
pub proof fn lemma_digits_stand_for(value: nat)
    ensures
        decimal_digits(value).len() > 0,
        all_digits(decimal_digits(value)),
        decimal_value(decimal_digits(value)) == value,
    decreases value,
{
    let low = value % 10;
    assert(digit(low) as nat == '0' as nat + low);
    if value < 10 {
        assert(decimal_digits(value).drop_last() =~= Seq::<char>::empty());
        assert(decimal_value(Seq::<char>::empty()) == 0);
    } else {
        lemma_digits_stand_for(value / 10);
        assert(decimal_digits(value).drop_last() =~= decimal_digits(value / 10));
    }
}

/// Zeros before digits change nothing.
proof fn lemma_zeros_count_nothing(zeros: nat, digits: Seq<char>)
    ensures
        decimal_value(Seq::new(zeros, |i: int| '0') + digits) == decimal_value(digits),
    decreases zeros + digits.len(),
{
    let front = Seq::new(zeros, |i: int| '0');
    let all = front + digits;
    if digits.len() > 0 {
        lemma_zeros_count_nothing(zeros, digits.drop_last());
        assert(all.drop_last() =~= front + digits.drop_last());
    } else if zeros > 0 {
        lemma_zeros_count_nothing((zeros - 1) as nat, digits);
        assert(all.drop_last() =~= Seq::new((zeros - 1) as nat, |i: int| '0') + digits);
    } else {
        assert(all =~= digits);
    }
}

/// A padded number is read back.
pub proof fn lemma_padded_is_read(value: nat, width: nat, maximum: nat)
    requires
        value <= maximum,
    ensures
        all_digits(padded(value, width)),
        unsigned_value(padded(value, width), maximum) == Some(value),
{
    let digits = decimal_digits(value);
    lemma_digits_stand_for(value);
    if digits.len() < width {
        lemma_zeros_count_nothing((width - digits.len()) as nat, digits);
    }
    assert(is_digit(padded(value, width)[0]));
    assert(padded(value, width)[0] != '+');
}

/// What follows a separator, up to the end, is the last piece.
pub proof fn lemma_last_piece(text: Seq<char>, tail: Seq<char>, separator: char)
    requires
        !tail.contains(separator),
    ensures
        pieces(text + seq![separator] + tail, separator) == pieces(text, separator).push(tail),
    decreases tail.len(),
{
    let all = text + seq![separator] + tail;
    if tail.len() == 0 {
        assert(all.drop_last() =~= text);
        assert(tail =~= Seq::<char>::empty());
    } else {
        let shorter = tail.drop_last();
        assert(!shorter.contains(separator)) by {
            if shorter.contains(separator) {
                let i = choose|i: int| 0 <= i < shorter.len() && shorter[i] == separator;
                assert(tail[i] == separator);
            }
        }
        lemma_last_piece(text, shorter, separator);
        assert(all.drop_last() =~= text + seq![separator] + shorter);
        assert(tail[tail.len() - 1] != separator);
        let before = pieces(text, separator).push(shorter);
        assert(before.drop_last() =~= pieces(text, separator));
        assert(shorter.push(tail.last()) =~= tail);
    }
}

/// A text without separators is one piece.
pub proof fn lemma_only_piece(text: Seq<char>, separator: char)
    requires
        !text.contains(separator),
    ensures
        pieces(text, separator) == seq![text],
    decreases text.len(),
{
    if text.len() > 0 {
        let shorter = text.drop_last();
        assert(!shorter.contains(separator)) by {
            if shorter.contains(separator) {
                let i = choose|i: int| 0 <= i < shorter.len() && shorter[i] == separator;
                assert(text[i] == separator);
            }
        }
        lemma_only_piece(shorter, separator);
        assert(text[text.len() - 1] != separator);
        assert(shorter.push(text.last()) =~= text);
        assert(pieces(text, separator) =~= seq![text]);
    } else {
        assert(text =~= Seq::<char>::empty());
    }
}

proof fn lemma_decimal_grows(digits: Seq<char>, count: int)
    requires
        0 <= count <= digits.len(),
    ensures
        decimal_value(digits.take(count)) <= decimal_value(digits),
    decreases digits.len(),
{
    if count < digits.len() {
        lemma_decimal_grows(digits.drop_last(), count);
        assert(digits.drop_last().take(count) =~= digits.take(count));
    } else {
        assert(digits.take(count) =~= digits);
    }
}

/// Reads an unsigned number.
pub fn parse_unsigned(text: &str, maximum: u64) -> (value: Option<u64>)
    requires
        maximum <= 0xffff_ffff,
    ensures
        match value {
            Some(value) => unsigned_value(text@, maximum as nat) == Some(value as nat),
            None => unsigned_value(text@, maximum as nat) is None,
        },
{
    let length: usize = text.unicode_len();
    let start: usize = if length > 1 && text.get_char(0) == '+' {
        1
    } else {
        0
    };
    let ghost digits = unsigned_digits(text@);
    if length == 0 {
        return None;
    }
    let mut value: u64 = 0;
    let mut index: usize = start;
    proof {
        assert(digits.take(0) =~= Seq::<char>::empty());
        assert(digits =~= text@.skip(start as int));
    }
    while index < length
        invariant
            start <= index <= length,
            start <= 1,
            length == text@.len(),
            maximum <= 0xffff_ffff,
            digits == unsigned_digits(text@),
            digits == text@.skip(start as int),
            value <= maximum,
            value == decimal_value(digits.take(index - start)),
            forall|i: int| 0 <= i < index - start ==> is_digit(#[trigger] digits[i]),
        decreases length - index,
    {
        let symbol: char = text.get_char(index);
        proof {
            assert(digits[index - start] == symbol);
        }
        if symbol < '0' || symbol > '9' {
            return None;
        }
        proof {
            let longer = digits.take(index - start + 1);
            assert(longer.drop_last() =~= digits.take(index - start));
            assert(longer.last() == symbol);
            lemma_decimal_grows(digits, index - start + 1);
        }
        value = value * 10 + (symbol as u64 - '0' as u64);
        if value > maximum {
            return None;
        }
        index += 1;
    }
    assert(digits.take(index - start) =~= digits);
    Some(value)
}

/// The value of a hexadecimal digit, given by its byte.
pub open spec fn hex_value(byte: u8) -> Option<u8> {
    if 0x30 <= byte <= 0x39 {
        Some((byte - 0x30) as u8)
    } else if 0x41 <= byte <= 0x46 {
        Some((byte - 0x41 + 10) as u8)
    } else if 0x61 <= byte <= 0x66 {
        Some((byte - 0x61 + 10) as u8)
    } else {
        None
    }
}

/// An even number of bytes, each a hexadecimal digit.
pub open spec fn is_hex(text: Seq<u8>) -> bool {
    &&& text.len() % 2 == 0
    &&& forall|i: int| 0 <= i < text.len() ==> hex_value(#[trigger] text[i]) is Some
}

/// The first byte from `from` on that is no hexadecimal digit.
pub open spec fn first_bad_digit(text: Seq<u8>, from: int) -> Option<int>
    decreases text.len() - from,
{
    if from < 0 || from >= text.len() {
        None
    } else if hex_value(text[from]) is None {
        Some(from)
    } else {
        first_bad_digit(text, from + 1)
    }
}

/// Finds the first byte that is no hexadecimal digit.
pub fn find_bad_digit(text: &[u8]) -> (at: Option<usize>)
    ensures
        match at {
            Some(at) => at < text@.len() && first_bad_digit(text@, 0) == Some(at as int),
            None => first_bad_digit(text@, 0) is None && forall|i: int|
                0 <= i < text@.len() ==> hex_value(#[trigger] text@[i]) is Some,
        },
{
    let mut index: usize = 0;
    while index < text.len()
        invariant
            index <= text@.len(),
            first_bad_digit(text@, 0) == first_bad_digit(text@, index as int),
            forall|i: int| 0 <= i < index ==> hex_value(#[trigger] text@[i]) is Some,
        decreases text@.len() - index,
    {
        let byte: u8 = text[index];
        if !(0x30 <= byte && byte <= 0x39 || 0x41 <= byte && byte <= 0x46 || 0x61 <= byte && byte
            <= 0x66) {
            return Some(index);
        }
        index += 1;
    }
    None
}

/// The bytes that hexadecimal digits stand for, high bits first.
pub open spec fn hex_bytes(text: Seq<u8>) -> Seq<u8> {
    Seq::new(
        text.len() / 2,
        |i: int| (hex_value(text[2 * i])->0 * 16 + hex_value(text[2 * i + 1])->0) as u8,
    )
}

#[verifier::external_type_specification]
#[verifier::external_body]
pub struct ExFromHexError(hex::FromHexError);

/// Calls `hex::decode`. Claims that it accepts exactly an even number of
/// hexadecimal digits of either case, and gives the bytes that they stand for.
#[verifier::external_body]
pub(crate) fn hex_decode(text: &[u8]) -> (outcome: Result<Vec<u8>, hex::FromHexError>)
    ensures
        match outcome {
            Ok(bytes) => is_hex(text@) && bytes@ == hex_bytes(text@),
            Err(_) => !is_hex(text@),
        },
{
    hex::decode(text)
}

} // verus!
