//! Colours as text: `#rrggbb` in hexadecimal, read and written.

use vstd::prelude::*;
use vstd::string::*;
use vstd::utf8::*;

verus! {

/// The value of a hexadecimal digit, upper or lower case.
pub open spec fn hex_value(byte: u8) -> Option<u8> {
    if 0x30 <= byte <= 0x39 {
        Some((byte - 0x30) as u8)
    } else if 0x61 <= byte <= 0x66 {
        Some((byte - 0x61 + 10) as u8)
    } else if 0x41 <= byte <= 0x46 {
        Some((byte - 0x41 + 10) as u8)
    } else {
        None
    }
}

/// The number that two characters spell in base sixteen: two digits, or a
/// plus sign and one digit.
pub open spec fn channel(first: u8, second: u8) -> Option<u8> {
    if first == 0x2b {
        hex_value(second)
    } else {
        match (hex_value(first), hex_value(second)) {
            (Some(high), Some(low)) => Some((high * 16 + low) as u8),
            _ => None,
        }
    }
}

/// The number of `#` signs at the front of a text.
pub open spec fn leading_hashes(bytes: Seq<u8>) -> nat
    decreases bytes.len(),
{
    if bytes.len() > 0 && bytes[0] == 0x23 {
        1 + leading_hashes(bytes.drop_first())
    } else {
        0
    }
}

/// The text behind its leading `#` signs.
pub open spec fn digits_of(bytes: Seq<u8>) -> Seq<u8> {
    bytes.skip(leading_hashes(bytes) as int)
}

/// The three channels that a colour text spells, where it is six characters
/// long behind its `#` signs; each channel stands alone and may fail to
/// spell a number.
pub open spec fn channels(bytes: Seq<u8>) -> Option<(Option<u8>, Option<u8>, Option<u8>)> {
    let digits = digits_of(bytes);
    if digits.len() == 6 {
        Some(
            (
                channel(digits[0], digits[1]),
                channel(digits[2], digits[3]),
                channel(digits[4], digits[5]),
            ),
        )
    } else {
        None
    }
}

/// The colour of a text, when all of it is well formed.
pub open spec fn strict_rgb(bytes: Seq<u8>) -> Option<(u8, u8, u8)> {
    match channels(bytes) {
        Some((Some(r), Some(g), Some(b))) => Some((r, g, b)),
        _ => None,
    }
}

/// The colour of a text, with 0 for each channel that is not well formed and
/// black for a text of the wrong length.
pub open spec fn lenient_rgb(bytes: Seq<u8>) -> (u8, u8, u8) {
    match channels(bytes) {
        Some((r, g, b)) => (
            match r {
                Some(v) => v,
                None => 0,
            },
            match g {
                Some(v) => v,
                None => 0,
            },
            match b {
                Some(v) => v,
                None => 0,
            },
        ),
        None => (0, 0, 0),
    }
}

/// The lower-case hexadecimal digit for a value below sixteen.
pub open spec fn hex_char(value: u8) -> char {
    if value < 10 {
        (0x30 + value) as char
    } else {
        (0x61 + value - 10) as char
    }
}

/// The text `#rrggbb` of a colour, in lower case.
pub open spec fn hex_text(r: u8, g: u8, b: u8) -> Seq<char> {
    seq![
        '#',
        hex_char(r / 16),
        hex_char(r % 16),
        hex_char(g / 16),
        hex_char(g % 16),
        hex_char(b / 16),
        hex_char(b % 16),
    ]
}

fn read_digit(byte: u8) -> (value: Option<u8>)
    ensures
        value == hex_value(byte),
        value matches Some(v) ==> v < 16,
{
    if 0x30 <= byte && byte <= 0x39 {
        Some(byte - 0x30)
    } else if 0x61 <= byte && byte <= 0x66 {
        Some(byte - 0x61 + 10)
    } else if 0x41 <= byte && byte <= 0x46 {
        Some(byte - 0x41 + 10)
    } else {
        None
    }
}

fn read_channel(first: u8, second: u8) -> (value: Option<u8>)
    ensures
        value == channel(first, second),
{
    if first == 0x2b {
        read_digit(second)
    } else {
        match (read_digit(first), read_digit(second)) {
            (Some(high), Some(low)) => Some(high * 16 + low),
            _ => None,
        }
    }
}

proof fn leading_hashes_found(bytes: Seq<u8>, n: int)
    requires
        0 <= n <= bytes.len(),
        forall|k: int| 0 <= k < n ==> bytes[k] == 0x23,
        n < bytes.len() ==> bytes[n] != 0x23,
    ensures
        leading_hashes(bytes) == n,
    decreases n,
{
    if n > 0 {
        let rest = bytes.drop_first();
        assert forall|k: int| 0 <= k < n - 1 implies rest[k] == 0x23 by {
            assert(rest[k] == bytes[k + 1]);
        }
        if n - 1 < rest.len() {
            assert(rest[n - 1] == bytes[n]);
        }
        leading_hashes_found(rest, n - 1);
    }
}

fn skip_hashes(bytes: &[u8]) -> (start: usize)
    ensures
        start == leading_hashes(bytes@),
        start <= bytes.len(),
{
    let mut start: usize = 0;
    while start < bytes.len() && bytes[start] == 0x23
        invariant
            start <= bytes.len(),
            forall|k: int| 0 <= k < start ==> bytes@[k] == 0x23,
        decreases bytes.len() - start,
    {
        start += 1;
    }
    proof {
        leading_hashes_found(bytes@, start as int);
    }
    start
}

/// Reads the channels of a colour text.
pub fn read_channels(hex: &str) -> (found: Option<(Option<u8>, Option<u8>, Option<u8>)>)
    ensures
        found == channels(hex.spec_bytes()),
{
    let bytes = hex.as_bytes();
    let start = skip_hashes(bytes);
    if bytes.len() - start == 6 {
        Some(
            (
                read_channel(bytes[start], bytes[start + 1]),
                read_channel(bytes[start + 2], bytes[start + 3]),
                read_channel(bytes[start + 4], bytes[start + 5]),
            ),
        )
    } else {
        None
    }
}

/// The colour that the first six characters behind the `#` signs spell,
/// whatever follows them.
pub open spec fn leading_rgb(bytes: Seq<u8>) -> Option<(u8, u8, u8)> {
    let digits = digits_of(bytes);
    if digits.len() >= 6 {
        match (
            channel(digits[0], digits[1]),
            channel(digits[2], digits[3]),
            channel(digits[4], digits[5]),
        ) {
            (Some(r), Some(g), Some(b)) => Some((r, g, b)),
            _ => None,
        }
    } else {
        None
    }
}

/// Reads the colour at the front of a text.
pub fn read_leading_rgb(hex: &str) -> (found: Option<(u8, u8, u8)>)
    ensures
        found == leading_rgb(hex.spec_bytes()),
{
    let bytes = hex.as_bytes();
    let start = skip_hashes(bytes);
    if bytes.len() - start >= 6 {
        match (
            read_channel(bytes[start], bytes[start + 1]),
            read_channel(bytes[start + 2], bytes[start + 3]),
            read_channel(bytes[start + 4], bytes[start + 5]),
        ) {
            (Some(r), Some(g), Some(b)) => Some((r, g, b)),
            _ => None,
        }
    } else {
        None
    }
}

pub(crate) fn digit_text(value: u8) -> (text: &'static str)
    requires
        value < 16,
    ensures
        text@ == seq![hex_char(value)],
{
    proof {
        reveal_strlit("0");
        reveal_strlit("1");
        reveal_strlit("2");
        reveal_strlit("3");
        reveal_strlit("4");
        reveal_strlit("5");
        reveal_strlit("6");
        reveal_strlit("7");
        reveal_strlit("8");
        reveal_strlit("9");
        reveal_strlit("a");
        reveal_strlit("b");
        reveal_strlit("c");
        reveal_strlit("d");
        reveal_strlit("e");
        reveal_strlit("f");
    }
    let text = match value {
        0 => "0",
        1 => "1",
        2 => "2",
        3 => "3",
        4 => "4",
        5 => "5",
        6 => "6",
        7 => "7",
        8 => "8",
        9 => "9",
        10 => "a",
        11 => "b",
        12 => "c",
        13 => "d",
        14 => "e",
        _ => "f",
    };
    assert(text@ =~= seq![hex_char(value)]);
    text
}

/// Writes a colour as `#rrggbb`, in lower case.
pub fn rgb_to_hex(r: u8, g: u8, b: u8) -> (hex: String)
    ensures
        hex@ == hex_text(r, g, b),
{
    proof {
        reveal_strlit("#");
    }
    let mut hex = String::from_str("#");
    hex.append(digit_text(r / 16));
    hex.append(digit_text(r % 16));
    hex.append(digit_text(g / 16));
    hex.append(digit_text(g % 16));
    hex.append(digit_text(b / 16));
    hex.append(digit_text(b % 16));
    assert(hex@ =~= hex_text(r, g, b));
    hex
}

/// What is written is read back: the text of a colour spells that colour.
pub proof fn written_colour_reads_back(r: u8, g: u8, b: u8)
    ensures
        strict_rgb(encode_utf8(hex_text(r, g, b))) == Some((r, g, b)),
        lenient_rgb(encode_utf8(hex_text(r, g, b))) == (r, g, b),
{
    let text = hex_text(r, g, b);
    hex_char_reads_back((r / 16) as u8);
    hex_char_reads_back((r % 16) as u8);
    hex_char_reads_back((g / 16) as u8);
    hex_char_reads_back((g % 16) as u8);
    hex_char_reads_back((b / 16) as u8);
    hex_char_reads_back((b % 16) as u8);
    assert(is_ascii_chars(text));
    is_ascii_chars_encode_utf8(text);
    let bytes = encode_utf8(text);
    assert(bytes.len() == 7);
    assert(bytes[0] == text[0] as u8);
    assert(bytes[1] == text[1] as u8);
    assert(bytes[2] == text[2] as u8);
    assert(bytes[3] == text[3] as u8);
    assert(bytes[4] == text[4] as u8);
    assert(bytes[5] == text[5] as u8);
    assert(bytes[6] == text[6] as u8);
    leading_hashes_found(bytes, 1);
    let digits = digits_of(bytes);
    assert(digits.len() == 6);
    assert(digits[0] == bytes[1] && digits[1] == bytes[2] && digits[2] == bytes[3] && digits[3]
        == bytes[4] && digits[4] == bytes[5] && digits[5] == bytes[6]);
}

proof fn hex_char_reads_back(value: u8)
    requires
        value < 16,
    ensures
        hex_value(hex_char(value) as u8) == Some(value),
        hex_char(value) as u8 != 0x2b,
        hex_char(value) as u8 != 0x23,
        '\0' <= hex_char(value) <= '\u{7f}',
{
}

} // verus!
