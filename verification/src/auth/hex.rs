//! Hexadecimal text for byte strings: two digits per byte, high nibble first.
use vstd::prelude::*;

verus! {

/// One of `0`-`9`, `a`-`f`, `A`-`F`.
pub open spec fn is_hex_digit(c: char) -> bool {
    ('0' <= c && c <= '9') || ('a' <= c && c <= 'f') || ('A' <= c && c <= 'F')
}

/// The number that a hexadecimal digit stands for.
pub open spec fn digit_value(c: char) -> int
    recommends
        is_hex_digit(c),
{
    if '0' <= c && c <= '9' {
        c as int - '0' as int
    } else if 'a' <= c && c <= 'f' {
        c as int - 'a' as int + 10
    } else {
        c as int - 'A' as int + 10
    }
}

/// The lower-case digit for a number below 16.
pub open spec fn lower_digit(value: int) -> char
    recommends
        0 <= value < 16,
{
    if value < 10 {
        ('0' as u8 + value) as char
    } else {
        ('a' as u8 + value - 10) as char
    }
}

/// Every character of `text` is a hexadecimal digit.
pub open spec fn is_hex(text: Seq<char>) -> bool {
    forall|i: int| 0 <= i < text.len() ==> is_hex_digit(#[trigger] text[i])
}

/// The lower-case hexadecimal text of `bytes`.
pub open spec fn to_hex(bytes: Seq<u8>) -> Seq<char> {
    Seq::new(
        2 * bytes.len(),
        |i: int|
            if i % 2 == 0 {
                lower_digit(bytes[i / 2] as int / 16)
            } else {
                lower_digit(bytes[i / 2] as int % 16)
            },
    )
}

/// The bytes that hexadecimal text of even length stands for.
pub open spec fn from_hex(text: Seq<char>) -> Seq<u8>
    recommends
        is_hex(text),
        text.len() % 2 == 0,
{
    Seq::new(
        text.len() / 2,
        |i: int| (16 * digit_value(text[2 * i]) + digit_value(text[2 * i + 1])) as u8,
    )
}

/// A lower-case digit is a hexadecimal digit and stands for its number.
pub proof fn lower_digit_value(value: int)
    requires
        0 <= value < 16,
    ensures
        is_hex_digit(lower_digit(value)),
        digit_value(lower_digit(value)) == value,
{
}

/// Hexadecimal text reads back as the bytes it was written from.
pub proof fn from_hex_of_to_hex(bytes: Seq<u8>)
    ensures
        to_hex(bytes).len() == 2 * bytes.len(),
        is_hex(to_hex(bytes)),
        from_hex(to_hex(bytes)) == bytes,
{
    let text = to_hex(bytes);
    assert forall|i: int| 0 <= i < text.len() implies is_hex_digit(#[trigger] text[i]) by {
        lower_digit_value(bytes[i / 2] as int / 16);
        lower_digit_value(bytes[i / 2] as int % 16);
    }
    assert forall|i: int| 0 <= i < bytes.len() implies from_hex(text)[i] == bytes[i] by {
        lower_digit_value(bytes[i] as int / 16);
        lower_digit_value(bytes[i] as int % 16);
        assert(text[2 * i] == lower_digit(bytes[i] as int / 16));
        assert(text[2 * i + 1] == lower_digit(bytes[i] as int % 16));
    }
    assert(from_hex(text) =~= bytes);
}

/// The number that `c` stands for as a hexadecimal digit of either case, or
/// `None` if it is no such digit. A sign is no digit.
pub fn hex_value(c: char) -> (value: Option<u8>)
    ensures
        value is Some <==> is_hex_digit(c),
        value matches Some(number) ==> number == digit_value(c) && number < 16,
{
    if '0' <= c && c <= '9' {
        Some(c as u8 - '0' as u8)
    } else if 'a' <= c && c <= 'f' {
        Some(c as u8 - 'a' as u8 + 10)
    } else if 'A' <= c && c <= 'F' {
        Some(c as u8 - 'A' as u8 + 10)
    } else {
        None
    }
}

/// The lower-case hexadecimal digit for `value`, as text.
pub fn lower_digit_text(value: u8) -> (text: &'static str)
    requires
        value < 16,
    ensures
        text@ == seq![lower_digit(value as int)],
{
    proof {
        reveal_strlit("0");
        reveal_strlit("1");
        reveal_strlit("2");
        reveal_strlit("3");
        reveal_strlit("4");
        reveal_strlit("5");
        reveal_strlit("6");
        reveal_strlit("7");
        reveal_strlit("8");
        reveal_strlit("9");
        reveal_strlit("a");
        reveal_strlit("b");
        reveal_strlit("c");
        reveal_strlit("d");
        reveal_strlit("e");
        reveal_strlit("f");
    }
    let text = match value {
        0 => "0",
        1 => "1",
        2 => "2",
        3 => "3",
        4 => "4",
        5 => "5",
        6 => "6",
        7 => "7",
        8 => "8",
        9 => "9",
        10 => "a",
        11 => "b",
        12 => "c",
        13 => "d",
        14 => "e",
        _ => "f",
    };
    assert(text@ =~= seq![lower_digit(value as int)]);
    text
}

} // verus!
