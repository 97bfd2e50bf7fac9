//! Hex color text: normalising what a user typed, reading it as red, green and
//! blue channels, and writing channels back as `#RRGGBB`.

use vstd::prelude::*;
use crate::text::{
    chars_of, trim_start_index, trim_end_index, trim_spec, trim_start_spec, trim_end_spec,
    is_hex_digit, is_ws, ascii_lower, hex_digit_char, lower_char, push_char,
};

verus! {

/// The text between optional whitespace and one optional leading `#`.
pub open spec fn hex_body(s: Seq<char>) -> Seq<char> {
    let t = trim_spec(s);
    if t.len() > 0 && t[0] == '#' {
        t.drop_first()
    } else {
        t
    }
}

/// Every character is an ASCII hex digit.
pub open spec fn all_hex(s: Seq<char>) -> bool {
    forall|i: int| 0 <= i < s.len() ==> is_hex_digit(#[trigger] s[i])
}

/// The six lowercase hex digits that a color text stands for: three digits are
/// each doubled, six are kept; any other text stands for no color.
pub open spec fn normalize_hex_spec(s: Seq<char>) -> Option<Seq<char>> {
    let b = hex_body(s);
    if b.len() == 3 && all_hex(b) {
        Some(
            seq![
                ascii_lower(b[0]),
                ascii_lower(b[0]),
                ascii_lower(b[1]),
                ascii_lower(b[1]),
                ascii_lower(b[2]),
                ascii_lower(b[2]),
            ],
        )
    } else if b.len() == 6 && all_hex(b) {
        Some(b.map_values(|c: char| ascii_lower(c)))
    } else {
        None
    }
}

/// The value of a hex digit.
pub open spec fn hex_value(c: char) -> int {
    if '0' <= c && c <= '9' {
        c as int - '0' as int
    } else if 'a' <= c && c <= 'f' {
        c as int - 'a' as int + 10
    } else if 'A' <= c && c <= 'F' {
        c as int - 'A' as int + 10
    } else {
        0
    }
}

/// The byte written by the hex digits `hi` and `lo`.
pub open spec fn hex_byte(hi: char, lo: char) -> u8 {
    (hex_value(hi) * 16 + hex_value(lo)) as u8
}

/// The red, green and blue channels of a color text.
pub open spec fn parse_hex_rgb_spec(s: Seq<char>) -> Option<(u8, u8, u8)> {
    match normalize_hex_spec(s) {
        Some(h) => Some((hex_byte(h[0], h[1]), hex_byte(h[2], h[3]), hex_byte(h[4], h[5]))),
        None => None,
    }
}

/// The uppercase hex digit of `d` (`0..16`).
pub open spec fn upper_hex_digit(d: int) -> char {
    if d < 10 {
        (('0' as int) + d) as char
    } else {
        (('A' as int) + d - 10) as char
    }
}

/// `n` as two uppercase hex digits (`{:02X}`).
pub open spec fn upper_hex2(n: u8) -> Seq<char> {
    seq![upper_hex_digit(n as int / 16), upper_hex_digit(n as int % 16)]
}

/// `#RRGGBB` with uppercase digits.
pub open spec fn format_rgb_hex_spec(red: u8, green: u8, blue: u8) -> Seq<char> {
    seq!['#'] + upper_hex2(red) + upper_hex2(green) + upper_hex2(blue)
}

/// Normalises a color text to six lowercase hex digits: surrounding whitespace
/// and one leading `#` are dropped, three digits are each doubled, six are
/// lowercased; anything else gives `None`.
pub fn normalize_hex(value: &str) -> (r: Option<String>)
    ensures
        match r {
            Some(h) => normalize_hex_spec(value@) == Some(h@),
            None => normalize_hex_spec(value@) is None,
        },
{
    let chars = chars_of(value);
    let lo = trim_start_index(&chars);
    let hi = trim_end_index(&chars, lo);
    proof {
        assert(chars@.skip(lo as int) =~= chars@.subrange(lo as int, chars@.len() as int));
        assert(trim_spec(value@) == chars@.subrange(lo as int, hi as int));
    }
    let mut start = lo;
    if start < hi && chars[start] == '#' {
        start = start + 1;
    }
    let ghost body = chars@.subrange(start as int, hi as int);
    proof {
        let t = chars@.subrange(lo as int, hi as int);
        if t.len() > 0 && t[0] == '#' {
            assert(body =~= t.drop_first());
        } else {
            assert(body =~= t);
        }
        assert(body == hex_body(value@));
    }
    let n = hi - start;
    if n != 3 && n != 6 {
        assert(body.len() == n);
        assert(normalize_hex_spec(value@) is None);
        return None;
    }
    let mut k = start;
    while k < hi
        invariant
            start <= k <= hi <= chars.len(),
            body == chars@.subrange(start as int, hi as int),
            body == hex_body(value@),
            forall|i: int| start <= i < k ==> is_hex_digit(chars@[i]),
        decreases hi - k,
    {
        if !hex_digit_char(chars[k]) {
            assert(!all_hex(body)) by {
                assert(body[k - start] == chars@[k as int]);
            }
            assert(normalize_hex_spec(value@) is None);
            return None;
        }
        k = k + 1;
    }
    assert(all_hex(body)) by {
        assert forall|i: int| 0 <= i < body.len() implies is_hex_digit(#[trigger] body[i]) by {
            assert(body[i] == chars@[start + i]);
        }
    }
    let mut out = String::new();
    if n == 3 {
        let a = lower_char(chars[start]);
        let b = lower_char(chars[start + 1]);
        let c = lower_char(chars[start + 2]);
        push_char(&mut out, a);
        push_char(&mut out, a);
        push_char(&mut out, b);
        push_char(&mut out, b);
        push_char(&mut out, c);
        push_char(&mut out, c);
        proof {
            assert(body[0] == chars@[start as int]);
            assert(body[1] == chars@[start + 1]);
            assert(body[2] == chars@[start + 2]);
            assert(out@ =~= seq![
                ascii_lower(body[0]),
                ascii_lower(body[0]),
                ascii_lower(body[1]),
                ascii_lower(body[1]),
                ascii_lower(body[2]),
                ascii_lower(body[2]),
            ]);
            assert(body.len() == 3);
            assert(normalize_hex_spec(value@) == Some(out@));
        }
    } else {
        let mut k = start;
        while k < hi
            invariant
                start <= k <= hi <= chars.len(),
                body == chars@.subrange(start as int, hi as int),
                out@ == body.subrange(0, k - start).map_values(|c: char| ascii_lower(c)),
            decreases hi - k,
        {
            let c = lower_char(chars[k]);
            push_char(&mut out, c);
            proof {
                assert(body[k - start] == chars@[k as int]);
                assert(body.subrange(0, k + 1 - start) =~= body.subrange(0, k - start).push(body[k - start]));
                assert(out@ =~= body.subrange(0, k + 1 - start).map_values(|c: char| ascii_lower(c)));
            }
            k = k + 1;
        }
        assert(body.subrange(0, hi - start) =~= body);
        assert(body.len() == 6);
        assert(normalize_hex_spec(value@) == Some(out@));
    }
    Some(out)
}

/// The value of a hex digit.
fn hex_val(c: char) -> (r: u8)
    requires
        is_hex_digit(c),
    ensures
        r == hex_value(c),
        r < 16,
{
    if '0' <= c && c <= '9' {
        (c as u32 - '0' as u32) as u8
    } else if 'a' <= c && c <= 'f' {
        (c as u32 - 'a' as u32 + 10) as u8
    } else {
        (c as u32 - 'A' as u32 + 10) as u8
    }
}

/// The lowercase form of a hex digit is a hex digit.
proof fn lemma_lower_hex(c: char)
    requires
        is_hex_digit(c),
    ensures
        is_hex_digit(ascii_lower(c)),
{
}

/// Reads a color text as red, green and blue channels: the text is normalised
/// as [`normalize_hex`] does and each pair of digits is one channel.
pub fn parse_hex_rgb(value: &str) -> (r: Option<(u8, u8, u8)>)
    ensures
        r == parse_hex_rgb_spec(value@),
{
    match normalize_hex(value) {
        Some(hex) => {
            let h = chars_of(hex.as_str());
            proof {
                let b = hex_body(value@);
                assert(all_hex(b));
                assert forall|i: int| 0 <= i < 6 implies is_hex_digit(#[trigger] h@[i]) by {
                    if b.len() == 3 {
                        lemma_lower_hex(b[i / 2]);
                    } else {
                        lemma_lower_hex(b[i]);
                    }
                }
            }
            let red = hex_val(h[0]) * 16 + hex_val(h[1]);
            let green = hex_val(h[2]) * 16 + hex_val(h[3]);
            let blue = hex_val(h[4]) * 16 + hex_val(h[5]);
            Some((red, green, blue))
        },
        None => None,
    }
}

/// The uppercase hex digit of `d`.
fn upper_digit(d: u8) -> (c: char)
    requires
        d < 16,
    ensures
        c == upper_hex_digit(d as int),
{
    if d < 10 {
        ('0' as u8 + d) as char
    } else {
        ('A' as u8 + d - 10) as char
    }
}

/// Writes red, green and blue channels as `#RRGGBB` with uppercase digits.
pub fn format_rgb_hex(red: u8, green: u8, blue: u8) -> (r: String)
    ensures
        r@ == format_rgb_hex_spec(red, green, blue),
{
    let mut out = String::new();
    push_char(&mut out, '#');
    push_char(&mut out, upper_digit(red / 16));
    push_char(&mut out, upper_digit(red % 16));
    push_char(&mut out, upper_digit(green / 16));
    push_char(&mut out, upper_digit(green % 16));
    push_char(&mut out, upper_digit(blue / 16));
    push_char(&mut out, upper_digit(blue % 16));
    assert(out@ =~= format_rgb_hex_spec(red, green, blue));
    out
}

/// An uppercase hex digit, lowercased, is read back as its value.
proof fn lemma_digit_round_trip(d: int)
    requires
        0 <= d < 16,
    ensures
        is_hex_digit(upper_hex_digit(d)),
        !is_ws(upper_hex_digit(d)),
        hex_value(ascii_lower(upper_hex_digit(d))) == d,
{
}

/// Writing channels as hex and reading the text back gives the same channels.
pub proof fn law_hex_round_trip(red: u8, green: u8, blue: u8)
    ensures
        parse_hex_rgb_spec(format_rgb_hex_spec(red, green, blue)) == Some((red, green, blue)),
{
    let s = format_rgb_hex_spec(red, green, blue);
    lemma_digit_round_trip(red as int / 16);
    lemma_digit_round_trip(red as int % 16);
    lemma_digit_round_trip(green as int / 16);
    lemma_digit_round_trip(green as int % 16);
    lemma_digit_round_trip(blue as int / 16);
    lemma_digit_round_trip(blue as int % 16);
    assert(trim_start_spec(s) == s);
    assert(trim_end_spec(s) == s);
    let b = hex_body(s);
    assert(b =~= s.drop_first());
    assert(all_hex(b));
    let h = b.map_values(|c: char| ascii_lower(c));
    assert(normalize_hex_spec(s) == Some(h));
}

} // verus!
