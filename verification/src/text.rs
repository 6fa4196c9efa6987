//! Text: decimal numbers and lower-case hexadecimal.

use vstd::prelude::*;
use vstd::string::*;

verus! {

/// `String::push` appends one character to the end of the string.
pub assume_specification[ String::push ](text: &mut String, c: char)
    ensures
        final(text)@ == old(text)@.push(c),
;

/// The character of a decimal or hexadecimal digit, letters in lower case.
pub open spec fn digit(value: nat) -> char {
    if value < 10 {
        (48 + value) as char
    } else {
        (87 + value) as char
    }
}

/// A number in decimal, without leading zeros.
pub open spec fn decimal(value: nat) -> Seq<char>
    decreases value,
{
    if value < 10 {
        seq![digit(value)]
    } else {
        decimal(value / 10).push(digit(value % 10))
    }
}

/// Bytes in lower-case hexadecimal, two digits each.
pub open spec fn hex(bytes: Seq<u8>) -> Seq<char>
    decreases bytes.len(),
{
    if bytes.len() == 0 {
        Seq::empty()
    } else {
        hex(bytes.drop_last()).push(digit((bytes.last() / 16) as nat)).push(
            digit((bytes.last() % 16) as nat),
        )
    }
}

/// Appends text.
pub fn push_text(out: &mut String, text: &str)
    ensures
        final(out)@ == old(out)@ + text@,
{
    out.append(text);
}

/// A copy of text.
pub fn copy_text(text: &str) -> (copy: String)
    ensures
        copy@ == text@,
{
    let mut copy = String::new();
    push_text(&mut copy, text);
    assert(copy@ =~= text@);
    copy
}

fn digit_char(value: u8) -> (c: char)
    requires
        value < 16,
    ensures
        c == digit(value as nat),
{
    if value < 10 {
        (48 + value) as char
    } else {
        (87 + value) as char
    }
}

/// Appends a number in decimal.
pub fn push_decimal(out: &mut String, value: u64)
    ensures
        final(out)@ == old(out)@ + decimal(value as nat),
    decreases value,
{
    if value < 10 {
        out.push(digit_char(value as u8));
        assert(out@ =~= old(out)@ + decimal(value as nat));
    } else {
        push_decimal(out, value / 10);
        out.push(digit_char((value % 10) as u8));
        assert(out@ =~= old(out)@ + decimal(value as nat));
    }
}

/// Appends bytes in lower-case hexadecimal.
pub fn push_hex(out: &mut String, bytes: &[u8])
    ensures
        final(out)@ == old(out)@ + hex(bytes@),
{
    let mut i: usize = 0;
    assert(out@ =~= old(out)@ + hex(bytes@.take(0)));
    while i < bytes.len()
        invariant
            i <= bytes@.len(),
            out@ == old(out)@ + hex(bytes@.take(i as int)),
        decreases bytes@.len() - i,
    {
        out.push(digit_char(bytes[i] / 16));
        out.push(digit_char(bytes[i] % 16));
        assert(bytes@.take(i + 1).drop_last() =~= bytes@.take(i as int));
        i += 1;
        assert(out@ =~= old(out)@ + hex(bytes@.take(i as int)));
    }
    assert(bytes@.take(i as int) =~= bytes@);
}

/// Bytes are written with two digits each, the higher half first, in small letters.
pub proof fn law_bytes_are_written_in_hexadecimal(bytes: Seq<u8>, i: int)
    requires
        0 <= i < bytes.len(),
    ensures
        hex(bytes).len() == 2 * bytes.len(),
        hex(bytes)[2 * i] == "0123456789abcdef"@[bytes[i] as int / 16],
        hex(bytes)[2 * i + 1] == "0123456789abcdef"@[bytes[i] as int % 16],
    decreases bytes.len(),
{
    reveal_strlit("0123456789abcdef");
    let rest = bytes.drop_last();
    if bytes.len() > 1 {
        law_bytes_are_written_in_hexadecimal(
            rest,
            if i < bytes.len() - 1 {
                i
            } else {
                0
            },
        );
    } else {
        assert(hex(rest).len() == 0);
    }
    if i < bytes.len() - 1 {
        assert(rest[i] == bytes[i]);
    }
}

} // verus!
