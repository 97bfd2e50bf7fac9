//! Text handling of the numeric input: keystroke sanitizing, digit grouping of a
//! formatted number, and the separator normalization that precedes parsing.

use vstd::prelude::*;
use crate::text::{
    chars_of, digit_char, is_digit, push_char, push_str, string_of_range, trim_end_index, trim_spec,
    trim_start_index,
};

verus! {

/// What sanitizing keeps of `s`, given what was kept so far and whether a decimal
/// separator or a minus sign was kept: a leading minus (when negatives are allowed),
/// the first decimal separator (when decimals are allowed), and ASCII digits.
pub open spec fn sanitize_from(
    s: Seq<char>,
    out: Seq<char>,
    seen_decimal: bool,
    seen_minus: bool,
    allow_decimal: bool,
    allow_negative: bool,
    decimal_char: char,
) -> Seq<char>
    decreases s.len(),
{
    if s.len() == 0 {
        out
    } else {
        let c = s[0];
        let rest = s.skip(1);
        if c == '-' && !seen_minus && out.len() == 0 && allow_negative {
            sanitize_from(rest, out.push(c), seen_decimal, true, allow_decimal, allow_negative, decimal_char)
        } else if c == decimal_char && !seen_decimal && allow_decimal {
            sanitize_from(rest, out.push(c), true, seen_minus, allow_decimal, allow_negative, decimal_char)
        } else if is_digit(c) {
            sanitize_from(rest, out.push(c), seen_decimal, seen_minus, allow_decimal, allow_negative, decimal_char)
        } else {
            sanitize_from(rest, out, seen_decimal, seen_minus, allow_decimal, allow_negative, decimal_char)
        }
    }
}

/// Filters typed text down to what a numeric input accepts.
pub fn sanitize(s: &str, allow_decimal: bool, allow_negative: bool, decimal_char: char) -> (r: String)
    ensures
        r@ == sanitize_from(s@, Seq::empty(), false, false, allow_decimal, allow_negative, decimal_char),
{
    let chars = chars_of(s);
    let mut out = String::new();
    let mut seen_decimal = false;
    let mut seen_minus = false;
    let mut i: usize = 0;
    let ghost target = sanitize_from(s@, Seq::empty(), false, false, allow_decimal, allow_negative, decimal_char);
    assert(chars@.skip(0) =~= chars@);
    while i < chars.len()
        invariant
            i <= chars.len(),
            chars@ == s@,
            sanitize_from(chars@.skip(i as int), out@, seen_decimal, seen_minus, allow_decimal, allow_negative, decimal_char)
                == target,
        decreases chars.len() - i,
    {
        let c = chars[i];
        assert(chars@.skip(i as int)[0] == c);
        assert(chars@.skip(i as int).skip(1) =~= chars@.skip(i + 1));
        let out_empty = out.as_str().is_empty();
        if c == '-' && !seen_minus && out_empty && allow_negative {
            seen_minus = true;
            push_char(&mut out, c);
        } else if c == decimal_char && !seen_decimal && allow_decimal {
            seen_decimal = true;
            push_char(&mut out, c);
        } else if digit_char(c) {
            push_char(&mut out, c);
        }
        i = i + 1;
    }
    assert(chars@.skip(i as int) =~= Seq::<char>::empty());
    out
}

/// `digits` with `sep` inserted between groups of three, counted from the right.
pub open spec fn grouped(digits: Seq<char>, sep: Seq<char>) -> Seq<char>
    decreases digits.len(),
{
    if digits.len() <= 3 {
        digits
    } else {
        grouped(digits.take(digits.len() - 3), sep) + sep + digits.skip(digits.len() - 3)
    }
}

/// Index of the first `c` in `s`.
pub open spec fn first_index_of(s: Seq<char>, c: char) -> Option<int>
    decreases s.len(),
{
    if s.len() == 0 {
        None
    } else if s[0] == c {
        Some(0)
    } else {
        match first_index_of(s.skip(1), c) {
            Some(i) => Some(i + 1),
            None => None,
        }
    }
}

/// The integer part of a formatted number grouped in thousands (a leading minus
/// stays in front), followed by the decimal separator and the fraction digits when
/// the text has a `.`.
pub open spec fn format_number_spec(raw: Seq<char>, decimal_sep: Seq<char>, thousands_sep: Seq<char>) -> Seq<char> {
    let (int_part, dec_part) = match first_index_of(raw, '.') {
        Some(p) => (raw.take(p), Some(raw.skip(p + 1))),
        None => (raw, None),
    };
    let int_fmt = if thousands_sep.len() > 0 {
        if int_part.len() > 0 && int_part[0] == '-' {
            seq!['-'] + grouped(int_part.skip(1), thousands_sep)
        } else {
            grouped(int_part, thousands_sep)
        }
    } else {
        int_part
    };
    match dec_part {
        Some(d) => int_fmt + decimal_sep + d,
        None => int_fmt,
    }
}

fn push_grouped(out: &mut String, digits: &Vec<char>, lo: usize, end: usize, sep: &str)
    requires
        lo <= end <= digits.len(),
    ensures
        final(out)@ == old(out)@ + grouped(digits@.subrange(lo as int, end as int), sep@),
    decreases end - lo,
{
    let ghost d = digits@.subrange(lo as int, end as int);
    if end - lo <= 3 {
        let part = string_of_range(digits, lo, end);
        push_str(out, part.as_str());
    } else {
        push_grouped(out, digits, lo, end - 3, sep);
        push_str(out, sep);
        let part = string_of_range(digits, end - 3, end);
        push_str(out, part.as_str());
        assert(d.take(d.len() - 3) =~= digits@.subrange(lo as int, end - 3));
        assert(d.skip(d.len() - 3) =~= digits@.subrange(end - 3, end as int));
    }
    assert(out@ =~= old(out)@ + grouped(d, sep@));
}

/// Groups the integer digits of a formatted number and applies the separators.
pub fn format_number_text(raw: &str, decimal_sep: &str, thousands_sep: &str) -> (r: String)
    ensures
        r@ == format_number_spec(raw@, decimal_sep@, thousands_sep@),
{
    let chars = chars_of(raw);
    let n = chars.len();
    let mut pos: usize = 0;
    assert(chars@.skip(0) =~= chars@);
    while pos < n && chars[pos] != '.'
        invariant
            pos <= n,
            n == chars@.len(),
            chars@ == raw@,
            first_index_of(raw@, '.') == match first_index_of(chars@.skip(pos as int), '.') {
                Some(i) => Some(i + pos),
                None => None::<int>,
            },
        decreases n - pos,
    {
        assert(chars@.skip(pos as int).skip(1) =~= chars@.skip(pos + 1));
        pos = pos + 1;
    }
    if pos == n {
        assert(chars@.skip(pos as int) =~= Seq::<char>::empty());
    }
    let int_end = pos;
    let mut out = String::new();
    if !thousands_sep.is_empty() {
        if int_end > 0 && chars[0] == '-' {
            push_char(&mut out, '-');
            push_grouped(&mut out, &chars, 1, int_end, thousands_sep);
            assert(chars@.take(int_end as int).skip(1) =~= chars@.subrange(1, int_end as int));
        } else {
            push_grouped(&mut out, &chars, 0, int_end, thousands_sep);
            assert(chars@.take(int_end as int) =~= chars@.subrange(0, int_end as int));
        }
    } else {
        let part = string_of_range(&chars, 0, int_end);
        push_str(&mut out, part.as_str());
        assert(chars@.take(int_end as int) =~= chars@.subrange(0, int_end as int));
    }
    if pos < n {
        push_str(&mut out, decimal_sep);
        let part = string_of_range(&chars, pos + 1, n);
        push_str(&mut out, part.as_str());
        assert(chars@.skip(pos + 1) =~= chars@.subrange(pos + 1, n as int));
    } else {
        assert(chars@.take(n as int) =~= chars@);
    }
    assert(out@ =~= format_number_spec(raw@, decimal_sep@, thousands_sep@));
    out
}

/// `s` with each occurrence of `p` replaced by `r` (`str::replace`): non-overlapping
/// occurrences from the left; an empty pattern matches before every character and
/// at the end.
pub open spec fn replace_spec(s: Seq<char>, p: Seq<char>, r: Seq<char>) -> Seq<char>
    decreases s.len(), p.len(),
{
    if p.len() == 0 {
        if s.len() == 0 {
            r
        } else {
            r + seq![s[0]] + replace_spec(s.skip(1), p, r)
        }
    } else if s.len() == 0 {
        s
    } else if s.len() >= p.len() && s.take(p.len() as int) == p {
        r + replace_spec(s.skip(p.len() as int), p, r)
    } else {
        seq![s[0]] + replace_spec(s.skip(1), p, r)
    }
}

/// Replaces each occurrence of `pattern` in `s` by `to`.
pub fn replace_text(s: &str, pattern: &str, to: &str) -> (r: String)
    ensures
        r@ == replace_spec(s@, pattern@, to@),
{
    let h = chars_of(s);
    let p = chars_of(pattern);
    let n = h.len();
    let m = p.len();
    let mut out = String::new();
    let mut i: usize = 0;
    let ghost target = replace_spec(s@, pattern@, to@);
    assert(h@.skip(0) =~= h@);
    assert(out@ + replace_spec(h@, p@, to@) =~= target);
    while i < n
        invariant
            i <= n,
            n == h@.len(),
            m == p@.len(),
            h@ == s@,
            p@ == pattern@,
            out@ + replace_spec(h@.skip(i as int), p@, to@) == target,
        decreases n - i,
    {
        let ghost rest = h@.skip(i as int);
        if m == 0 {
            push_str(&mut out, to);
            push_char(&mut out, h[i]);
            assert(rest[0] == h@[i as int]);
            assert(rest.skip(1) =~= h@.skip(i + 1));
            i = i + 1;
            continue;
        }
        let mut j: usize = 0;
        let mut matched = n - i >= m;
        if matched {
            while j < m
                invariant
                    j <= m,
                    i + m <= n,
                    n == h@.len(),
                    m == p@.len(),
                    matched == forall|k: int| 0 <= k < j ==> h@[i + k] == p@[k],
                decreases m - j,
            {
                if h[i + j] != p[j] {
                    matched = false;
                }
                j = j + 1;
            }
        }
        if matched {
            assert(rest.take(m as int) =~= p@);
            push_str(&mut out, to);
            assert(rest.skip(m as int) =~= h@.skip(i + m));
            i = i + m;
        } else {
            proof {
                if rest.len() >= p@.len() {
                    let k = choose|k: int| 0 <= k < m && h@[i + k] != p@[k];
                    assert(rest.take(m as int)[k] != p@[k]);
                }
            }
            push_char(&mut out, h[i]);
            assert(rest[0] == h@[i as int]);
            assert(rest.skip(1) =~= h@.skip(i + 1));
            i = i + 1;
        }
    }
    if m == 0 {
        push_str(&mut out, to);
    }
    assert(h@.skip(i as int) =~= Seq::<char>::empty());
    assert(out@ =~= target);
    out
}

/// Whether `s` ends with the non-empty separator `sep`.
pub open spec fn ends_with_sep(s: Seq<char>, sep: Seq<char>) -> bool {
    sep.len() > 0 && sep.len() <= s.len() && s.subrange(s.len() - sep.len(), s.len() as int) == sep
}

/// The text handed to the float parser: `None` for an incomplete input (empty,
/// a lone minus, or ending in the decimal separator, as `1.` does); otherwise
/// the input without thousands separators (when one is set) and with the
/// decimal separator replaced by `.` (when it is not `.`).
pub open spec fn normalize_number_spec(s: Seq<char>, decimal_sep: Seq<char>, thousands_sep: Seq<char>) -> Option<Seq<char>> {
    if s.len() == 0 || s == seq!['-'] || ends_with_sep(s, decimal_sep) {
        None
    } else {
        let t = if thousands_sep.len() > 0 { replace_spec(s, thousands_sep, Seq::empty()) } else { s };
        Some(if decimal_sep != seq!['.'] { replace_spec(t, decimal_sep, seq!['.']) } else { t })
    }
}

/// Whether `s` ends with the non-empty separator `sep`.
fn ends_with(s: &Vec<char>, sep: &Vec<char>) -> (b: bool)
    ensures
        b == ends_with_sep(s@, sep@),
{
    if sep.len() == 0 || sep.len() > s.len() {
        return false;
    }
    let off = s.len() - sep.len();
    let mut k: usize = 0;
    while k < sep.len()
        invariant
            k <= sep.len(),
            off + sep.len() == s.len(),
            forall|j: int| 0 <= j < k ==> s@[off + j] == sep@[j],
        decreases sep.len() - k,
    {
        if s[off + k] != sep[k] {
            assert(s@.subrange(off as int, s@.len() as int)[k as int] != sep@[k as int]);
            return false;
        }
        k = k + 1;
    }
    assert(s@.subrange(off as int, s@.len() as int) =~= sep@);
    true
}

/// Normalizes the separators of typed numeric text before it is parsed.
pub fn normalize_number_text(s: &str, decimal_sep: &str, thousands_sep: &str) -> (r: Option<String>)
    ensures
        opt_chars(r) == normalize_number_spec(s@, decimal_sep@, thousands_sep@),
{
    let cs = chars_of(s);
    if cs.len() == 0 || (cs.len() == 1 && cs[0] == '-') {
        proof {
            if cs@.len() == 1 && cs@[0] == '-' {
                assert(s@ =~= seq!['-']);
            }
        }
        return None;
    }
    assert(s@ != seq!['-']);
    let d0 = chars_of(decimal_sep);
    if ends_with(&cs, &d0) {
        return None;
    }
    let t = if !thousands_sep.is_empty() {
        replace_text(s, thousands_sep, "")
    } else {
        String::from_str(s)
    };
    proof {
        reveal_strlit("");
        assert(""@ =~= Seq::<char>::empty());
    }
    let d = chars_of(decimal_sep);
    let is_dot = d.len() == 1 && d[0] == '.';
    proof {
        if d@.len() == 1 && d@[0] == '.' {
            assert(decimal_sep@ =~= seq!['.']);
        }
    }
    let r = if !is_dot {
        replace_text(t.as_str(), decimal_sep, ".")
    } else {
        t
    };
    proof {
        reveal_strlit(".");
        assert("."@ =~= seq!['.']);
    }
    Some(r)
}

/// The characters of an optional string.
pub open spec fn opt_chars(o: Option<String>) -> Option<Seq<char>> {
    match o {
        Some(s) => Some(s@),
        None => None,
    }
}

/// `s` without one trailing decimal separator.
pub open spec fn drop_trailing_sep(s: Seq<char>, sep: Seq<char>) -> Seq<char> {
    if ends_with_sep(s, sep) {
        s.subrange(0, s.len() - sep.len())
    } else {
        s
    }
}

/// The text a blur of the field parses: the shown text completed by dropping a
/// trailing decimal separator (`1.` is read as `1`), then normalized; `None`
/// when that is still incomplete.
pub fn blur_number_text(shown: &str, decimal_sep: &str, thousands_sep: &str) -> (r: Option<String>)
    ensures
        opt_chars(r) == normalize_number_spec(drop_trailing_sep(shown@, decimal_sep@), decimal_sep@, thousands_sep@),
{
    let cs = chars_of(shown);
    let d = chars_of(decimal_sep);
    if ends_with(&cs, &d) {
        let cut = string_of_range(&cs, 0, cs.len() - d.len());
        normalize_number_text(cut.as_str(), decimal_sep, thousands_sep)
    } else {
        normalize_number_text(shown, decimal_sep, thousands_sep)
    }
}

/// Whether a blur that parses nothing clears the field and reports no value:
/// the shown text, trimmed, is empty or a lone minus.
pub fn blur_clears(shown: &str) -> (b: bool)
    ensures
        b == (trim_spec(shown@).len() == 0 || trim_spec(shown@) == seq!['-']),
{
    let cs = chars_of(shown);
    let lo = trim_start_index(&cs);
    let hi = trim_end_index(&cs, lo);
    proof {
        assert(cs@.skip(lo as int) =~= cs@.subrange(lo as int, cs@.len() as int));
        assert(trim_spec(shown@) == cs@.subrange(lo as int, hi as int));
    }
    if hi == lo {
        return true;
    }
    if hi == lo + 1 && cs[lo] == '-' {
        assert(cs@.subrange(lo as int, hi as int) =~= seq!['-']);
        return true;
    }
    proof {
        if cs@.subrange(lo as int, hi as int) == seq!['-'] {
            assert(cs@.subrange(lo as int, hi as int)[0] == cs@[lo as int]);
        }
    }
    false
}

/// No character of `s` is an ASCII digit or a minus.
pub open spec fn no_digit_or_minus(s: Seq<char>) -> bool {
    forall|i: int| 0 <= i < s.len() ==> !is_digit(#[trigger] s[i]) && s[i] != '-'
}

/// Every character of `s` is an ASCII digit.
pub open spec fn all_digits(s: Seq<char>) -> bool {
    forall|i: int| 0 <= i < s.len() ==> is_digit(#[trigger] s[i])
}

/// `p` occurs in `q`.
pub open spec fn occurs_in(p: Seq<char>, q: Seq<char>) -> bool {
    exists|i: int| 0 <= i && i + p.len() <= q.len() && #[trigger] q.subrange(i, i + p.len()) == p
}

/// Replacing in `q + b` changes nothing in `q` when no occurrence of `p` starts
/// in `q`: `p` does not occur in `q`, holds no digit, and `b` starts with a digit.
proof fn lemma_replace_skips_block(q: Seq<char>, b: Seq<char>, p: Seq<char>, r: Seq<char>)
    requires
        p.len() > 0,
        no_digit_or_minus(p),
        !occurs_in(p, q),
        b.len() == 0 || is_digit(b[0]),
    ensures
        replace_spec(q + b, p, r) == q + replace_spec(b, p, r),
    decreases q.len(),
{
    if q.len() > 0 {
        let s = q + b;
        if s.len() >= p.len() && s.take(p.len() as int) == p {
            if p.len() <= q.len() {
                let i: int = 0;
                assert(q.subrange(i, i + p.len()) =~= s.take(p.len() as int));
                assert(occurs_in(p, q));
            } else {
                assert(s[q.len() as int] == p[q.len() as int]);
                assert(s[q.len() as int] == b[0]);
            }
        }
        assert(s.skip(1) =~= q.skip(1) + b);
        assert forall|i: int| !(0 <= i && i + p.len() <= q.skip(1).len() && #[trigger] q.skip(1).subrange(i, i + p.len()) == p) by {
            if 0 <= i && i + p.len() <= q.skip(1).len() && q.skip(1).subrange(i, i + p.len()) == p {
                assert(q.subrange(i + 1, i + 1 + p.len()) =~= q.skip(1).subrange(i, i + p.len()));
                assert(occurs_in(p, q));
            }
        }
        lemma_replace_skips_block(q.skip(1), b, p, r);
        assert(seq![q[0]] + (q.skip(1) + replace_spec(b, p, r)) =~= q + replace_spec(b, p, r));
    } else {
        assert(q + b =~= b);
        assert(q + replace_spec(b, p, r) =~= replace_spec(b, p, r));
    }
}

/// Replacing in `a + b` keeps the digits `a`.
proof fn lemma_replace_skips_digits(a: Seq<char>, b: Seq<char>, p: Seq<char>, r: Seq<char>)
    requires
        p.len() > 0,
        no_digit_or_minus(p),
        all_digits(a),
    ensures
        replace_spec(a + b, p, r) == a + replace_spec(b, p, r),
    decreases a.len(),
{
    if a.len() > 0 {
        let s = a + b;
        assert(s[0] == a[0]);
        if s.len() >= p.len() && s.take(p.len() as int) == p {
            assert(s.take(p.len() as int)[0] == p[0]);
        }
        assert(s.skip(1) =~= a.skip(1) + b);
        lemma_replace_skips_digits(a.skip(1), b, p, r);
        assert(seq![a[0]] + (a.skip(1) + replace_spec(b, p, r)) =~= a + replace_spec(b, p, r));
    } else {
        assert(a + b =~= b);
        assert(a + replace_spec(b, p, r) =~= replace_spec(b, p, r));
    }
}

/// Removing the thousands separator from grouped digits gives the digits back.
proof fn lemma_ungroup(d: Seq<char>, b: Seq<char>, ts: Seq<char>)
    requires
        ts.len() > 0,
        no_digit_or_minus(ts),
        all_digits(d),
    ensures
        replace_spec(grouped(d, ts) + b, ts, Seq::empty()) == d + replace_spec(b, ts, Seq::empty()),
    decreases d.len(),
{
    if d.len() <= 3 {
        lemma_replace_skips_digits(d, b, ts, Seq::empty());
    } else {
        let head = d.take(d.len() - 3);
        let tail = d.skip(d.len() - 3);
        let b2 = ts + (tail + b);
        assert(grouped(d, ts) + b =~= grouped(head, ts) + b2);
        lemma_ungroup(head, b2, ts);
        assert(b2.take(ts.len() as int) =~= ts);
        assert(b2.skip(ts.len() as int) =~= tail + b);
        assert(replace_spec(b2, ts, Seq::empty()) == Seq::<char>::empty() + replace_spec(tail + b, ts, Seq::empty()));
        lemma_replace_skips_digits(tail, b, ts, Seq::empty());
        assert(head + (Seq::<char>::empty() + (tail + replace_spec(b, ts, Seq::empty()))) =~= d + replace_spec(b, ts, Seq::empty()));
    }
}

/// The first `.` of `a + "." + b` is after `a` when `a` holds none.
proof fn lemma_first_dot(a: Seq<char>, b: Seq<char>)
    requires
        forall|i: int| 0 <= i < a.len() ==> #[trigger] a[i] != '.',
    ensures
        first_index_of(a + seq!['.'] + b, '.') == Some(a.len() as int),
    decreases a.len(),
{
    if a.len() > 0 {
        let s = a + seq!['.'] + b;
        assert(s.skip(1) =~= a.skip(1) + seq!['.'] + b);
        lemma_first_dot(a.skip(1), b);
    }
}

/// `a` holds no `.`.
proof fn lemma_no_dot(a: Seq<char>)
    requires
        forall|i: int| 0 <= i < a.len() ==> #[trigger] a[i] != '.',
    ensures
        first_index_of(a, '.') is None,
    decreases a.len(),
{
    if a.len() > 0 {
        lemma_no_dot(a.skip(1));
    }
}

/// The plain text of a number: an optional minus, integer digits, and an
/// optional fraction after a `.`.
pub open spec fn plain_number(negative: bool, int_digits: Seq<char>, fraction: Option<Seq<char>>) -> Seq<char> {
    (if negative {
        seq!['-']
    } else {
        Seq::empty()
    }) + int_digits + (match fraction {
        Some(f) => seq!['.'] + f,
        None => Seq::empty(),
    })
}

/// The sign of a plain number.
pub open spec fn sign_of(negative: bool) -> Seq<char> {
    if negative {
        seq!['-']
    } else {
        Seq::empty()
    }
}

/// The decimal separator and fraction digits of a shown number, if any.
pub open spec fn shown_fraction(fraction: Option<Seq<char>>, decimal_sep: Seq<char>) -> Seq<char> {
    match fraction {
        Some(f) => decimal_sep + f,
        None => Seq::empty(),
    }
}

/// The text a plain number is shown as.
pub open spec fn shown_number(
    negative: bool,
    int_digits: Seq<char>,
    fraction: Option<Seq<char>>,
    decimal_sep: Seq<char>,
    thousands_sep: Seq<char>,
) -> Seq<char> {
    (if thousands_sep.len() > 0 {
        sign_of(negative) + grouped(int_digits, thousands_sep)
    } else {
        sign_of(negative) + int_digits
    }) + shown_fraction(fraction, decimal_sep)
}

proof fn lemma_format_shape(
    negative: bool,
    int_digits: Seq<char>,
    fraction: Option<Seq<char>>,
    decimal_sep: Seq<char>,
    thousands_sep: Seq<char>,
)
    requires
        all_digits(int_digits),
    ensures
        format_number_spec(plain_number(negative, int_digits, fraction), decimal_sep, thousands_sep)
            == shown_number(negative, int_digits, fraction, decimal_sep, thousands_sep),
{
    let sign = sign_of(negative);
    let int_part = sign + int_digits;
    let raw = plain_number(negative, int_digits, fraction);
    assert forall|i: int| 0 <= i < int_part.len() implies #[trigger] int_part[i] != '.' by {
        if negative && i == 0 {
        } else {
            assert(is_digit(int_digits[i - sign.len()]));
        }
    }
    match fraction {
        Some(f) => {
            assert(raw =~= int_part + seq!['.'] + f);
            lemma_first_dot(int_part, f);
            assert(raw.take(int_part.len() as int) =~= int_part);
            assert(raw.skip(int_part.len() as int + 1) =~= f);
        },
        None => {
            assert(raw =~= int_part);
            lemma_no_dot(int_part);
        },
    }
    if thousands_sep.len() > 0 && negative {
        assert(int_part[0] == '-');
        assert(int_part.skip(1) =~= int_digits);
    }
    if thousands_sep.len() > 0 && !negative {
        assert(int_part =~= int_digits);
        assert(sign + grouped(int_digits, thousands_sep) =~= grouped(int_digits, thousands_sep));
    }
}

/// `-` holds no separator that holds no minus.
proof fn lemma_minus_holds_no_sep(p: Seq<char>)
    requires
        p.len() > 0,
        no_digit_or_minus(p),
    ensures
        !occurs_in(p, seq!['-']),
{
    if occurs_in(p, seq!['-']) {
        let i = choose|i: int| 0 <= i && i + p.len() <= 1 && #[trigger] seq!['-'].subrange(i, i + p.len()) == p;
        assert(p[0] == seq!['-'].subrange(i, i + p.len())[0]);
    }
}

proof fn lemma_remove_thousands(
    negative: bool,
    int_digits: Seq<char>,
    fraction: Option<Seq<char>>,
    decimal_sep: Seq<char>,
    thousands_sep: Seq<char>,
)
    requires
        int_digits.len() > 0,
        all_digits(int_digits),
        fraction matches Some(f) ==> f.len() > 0 && all_digits(f),
        thousands_sep.len() > 0,
        no_digit_or_minus(thousands_sep),
        !occurs_in(thousands_sep, decimal_sep),
    ensures
        replace_spec(shown_number(negative, int_digits, fraction, decimal_sep, thousands_sep), thousands_sep, Seq::empty())
            == sign_of(negative) + int_digits + shown_fraction(fraction, decimal_sep),
{
    let dec = shown_fraction(fraction, decimal_sep);
    match fraction {
        Some(f) => {
            lemma_replace_skips_digits(f, Seq::empty(), thousands_sep, Seq::empty());
            assert(f + Seq::<char>::empty() =~= f);
            lemma_replace_skips_block(decimal_sep, f, thousands_sep, Seq::empty());
        },
        None => {},
    }
    assert(replace_spec(dec, thousands_sep, Seq::empty()) == dec);
    lemma_ungroup(int_digits, dec, thousands_sep);
    let g = grouped(int_digits, thousands_sep);
    if negative {
        lemma_minus_holds_no_sep(thousands_sep);
        lemma_grouped_starts_with_digit(int_digits, thousands_sep);
        lemma_replace_skips_block(seq!['-'], g + dec, thousands_sep, Seq::empty());
        assert(seq!['-'] + g + dec =~= seq!['-'] + (g + dec));
        assert(seq!['-'] + int_digits + dec =~= seq!['-'] + (int_digits + dec));
    } else {
        assert(Seq::<char>::empty() + g + dec =~= g + dec);
        assert(Seq::<char>::empty() + int_digits + dec =~= int_digits + dec);
    }
}

proof fn lemma_replace_decimal(
    negative: bool,
    int_digits: Seq<char>,
    fraction: Option<Seq<char>>,
    decimal_sep: Seq<char>,
)
    requires
        int_digits.len() > 0,
        all_digits(int_digits),
        fraction matches Some(f) ==> all_digits(f),
        decimal_sep.len() > 0,
        no_digit_or_minus(decimal_sep),
    ensures
        (if decimal_sep != seq!['.'] {
            replace_spec(sign_of(negative) + int_digits + shown_fraction(fraction, decimal_sep), decimal_sep, seq!['.'])
        } else {
            sign_of(negative) + int_digits + shown_fraction(fraction, decimal_sep)
        }) == plain_number(negative, int_digits, fraction),
{
    let dec = shown_fraction(fraction, decimal_sep);
    let raw = plain_number(negative, int_digits, fraction);
    if decimal_sep != seq!['.'] {
        lemma_replace_skips_digits(int_digits, dec, decimal_sep, seq!['.']);
        match fraction {
            Some(f) => {
                assert(dec.take(decimal_sep.len() as int) =~= decimal_sep);
                assert(dec.skip(decimal_sep.len() as int) =~= f);
                lemma_replace_skips_digits(f, Seq::empty(), decimal_sep, seq!['.']);
                assert(f + Seq::<char>::empty() =~= f);
                assert(replace_spec(dec, decimal_sep, seq!['.']) == seq!['.'] + f);
            },
            None => {},
        }
        if negative {
            lemma_minus_holds_no_sep(decimal_sep);
            assert((int_digits + dec)[0] == int_digits[0]);
            lemma_replace_skips_block(seq!['-'], int_digits + dec, decimal_sep, seq!['.']);
            assert(seq!['-'] + int_digits + dec =~= seq!['-'] + (int_digits + dec));
        } else {
            assert(Seq::<char>::empty() + int_digits + dec =~= int_digits + dec);
        }
        match fraction {
            Some(f) => assert(raw =~= sign_of(negative) + int_digits + (seq!['.'] + f)),
            None => assert(raw =~= sign_of(negative) + int_digits + Seq::<char>::empty()),
        }
    } else {
        match fraction {
            Some(f) => assert(raw =~= sign_of(negative) + int_digits + dec),
            None => assert(raw =~= sign_of(negative) + int_digits + dec),
        }
    }
}

proof fn lemma_shown_complete(
    negative: bool,
    int_digits: Seq<char>,
    fraction: Option<Seq<char>>,
    decimal_sep: Seq<char>,
    thousands_sep: Seq<char>,
)
    requires
        int_digits.len() > 0,
        all_digits(int_digits),
        fraction matches Some(f) ==> f.len() > 0 && all_digits(f),
        decimal_sep.len() > 0,
        no_digit_or_minus(decimal_sep),
    ensures
        ({
            let t = shown_number(negative, int_digits, fraction, decimal_sep, thousands_sep);
            t.len() > 0 && t != seq!['-'] && !ends_with_sep(t, decimal_sep)
        }),
{
    let t = shown_number(negative, int_digits, fraction, decimal_sep, thousands_sep);
    let dec = shown_fraction(fraction, decimal_sep);
    assert(is_digit(t.last())) by {
        match fraction {
            Some(f) => {
                assert(t.last() == f.last());
            },
            None => {
                assert(dec.len() == 0);
                if thousands_sep.len() > 0 {
                    lemma_grouped_ends_with_digit(int_digits, thousands_sep);
                    assert(t.last() == grouped(int_digits, thousands_sep).last());
                } else {
                    assert(t.last() == int_digits.last());
                }
            },
        }
    }
    if ends_with_sep(t, decimal_sep) {
        assert(t.subrange(t.len() - decimal_sep.len(), t.len() as int)[decimal_sep.len() - 1] == t.last());
    }
}

/// Law: reading back the text a number is shown as gives its plain text again,
/// when the separators hold no digit and no minus, the decimal separator is
/// not empty, and the thousands separator does not occur in the decimal one.
pub proof fn law_format_then_normalize(
    negative: bool,
    int_digits: Seq<char>,
    fraction: Option<Seq<char>>,
    decimal_sep: Seq<char>,
    thousands_sep: Seq<char>,
)
    requires
        int_digits.len() > 0,
        all_digits(int_digits),
        fraction matches Some(f) ==> f.len() > 0 && all_digits(f),
        decimal_sep.len() > 0,
        no_digit_or_minus(decimal_sep),
        no_digit_or_minus(thousands_sep),
        !occurs_in(thousands_sep, decimal_sep),
    ensures
        normalize_number_spec(
            format_number_spec(plain_number(negative, int_digits, fraction), decimal_sep, thousands_sep),
            decimal_sep,
            thousands_sep,
        ) == Some(plain_number(negative, int_digits, fraction)),
{
    lemma_format_shape(negative, int_digits, fraction, decimal_sep, thousands_sep);
    lemma_shown_complete(negative, int_digits, fraction, decimal_sep, thousands_sep);
    if thousands_sep.len() > 0 {
        lemma_remove_thousands(negative, int_digits, fraction, decimal_sep, thousands_sep);
    } else {
        assert(shown_number(negative, int_digits, fraction, decimal_sep, thousands_sep) == sign_of(negative)
            + int_digits + shown_fraction(fraction, decimal_sep));
    }
    lemma_replace_decimal(negative, int_digits, fraction, decimal_sep);
}

/// Grouped digits start with a digit.
proof fn lemma_grouped_starts_with_digit(d: Seq<char>, sep: Seq<char>)
    requires
        d.len() > 0,
        all_digits(d),
    ensures
        grouped(d, sep).len() > 0,
        is_digit(grouped(d, sep)[0]),
    decreases d.len(),
{
    if d.len() > 3 {
        let head = d.take(d.len() - 3);
        lemma_grouped_starts_with_digit(head, sep);
        assert((grouped(head, sep) + sep + d.skip(d.len() - 3))[0] == grouped(head, sep)[0]);
    }
}

/// Grouped digits end with a digit.
proof fn lemma_grouped_ends_with_digit(d: Seq<char>, sep: Seq<char>)
    requires
        d.len() > 0,
        all_digits(d),
    ensures
        grouped(d, sep).len() > 0,
        is_digit(grouped(d, sep).last()),
    decreases d.len(),
{
    if d.len() > 3 {
        let tail = d.skip(d.len() - 3);
        assert(tail.last() == d.last());
    }
}

/// The ASCII digits of a text, in order.
pub open spec fn ascii_digits(s: Seq<char>) -> Seq<char> {
    s.filter(|c: char| '0' <= c && c <= '9')
}

proof fn lemma_ascii_digits_one(c: char)
    ensures
        ascii_digits(seq![c]) == (if '0' <= c && c <= '9' {
            seq![c]
        } else {
            Seq::empty()
        }),
{
    reveal_with_fuel(Seq::filter, 2);
    assert(seq![c].drop_last() =~= Seq::<char>::empty());
    assert(Seq::<char>::empty().push(c) =~= seq![c]);
}

proof fn lemma_ascii_digits_add(a: Seq<char>, b: Seq<char>)
    ensures
        ascii_digits(a + b) == ascii_digits(a) + ascii_digits(b),
{
    Seq::filter_distributes_over_add(a, b, |c: char| '0' <= c && c <= '9');
}

proof fn lemma_sanitize_digits(
    s: Seq<char>,
    out: Seq<char>,
    seen_decimal: bool,
    seen_minus: bool,
    allow_decimal: bool,
    allow_negative: bool,
    decimal_char: char,
)
    ensures
        ascii_digits(sanitize_from(s, out, seen_decimal, seen_minus, allow_decimal, allow_negative, decimal_char))
            == ascii_digits(out) + ascii_digits(s),
        forall|i: int|
            0 <= i < sanitize_from(s, out, seen_decimal, seen_minus, allow_decimal, allow_negative, decimal_char).len()
                ==> ({
                let c = #[trigger] sanitize_from(
                    s,
                    out,
                    seen_decimal,
                    seen_minus,
                    allow_decimal,
                    allow_negative,
                    decimal_char,
                )[i];
                (i < out.len() && c == out[i]) || ('0' <= c && c <= '9') || (c == '-' && allow_negative) || (c
                    == decimal_char && allow_decimal)
            }),
        sanitize_from(s, out, seen_decimal, seen_minus, allow_decimal, allow_negative, decimal_char).len() >= out.len(),
        forall|i: int|
            0 <= i < out.len() ==> #[trigger] sanitize_from(
                s,
                out,
                seen_decimal,
                seen_minus,
                allow_decimal,
                allow_negative,
                decimal_char,
            )[i] == out[i],
        forall|i: int|
            out.len() <= i < sanitize_from(s, out, seen_decimal, seen_minus, allow_decimal, allow_negative, decimal_char).len()
                && #[trigger] sanitize_from(
                s,
                out,
                seen_decimal,
                seen_minus,
                allow_decimal,
                allow_negative,
                decimal_char,
            )[i] == '-' ==> i == 0 || (decimal_char == '-' && allow_decimal),
    decreases s.len(),
{
    if s.len() == 0 {
        reveal_with_fuel(Seq::filter, 1);
        assert(ascii_digits(out) + ascii_digits(s) =~= ascii_digits(out));
    } else {
        let c = s[0];
        let rest = s.skip(1);
        assert(s =~= seq![c] + rest);
        lemma_ascii_digits_add(seq![c], rest);
        lemma_ascii_digits_one(c);
        lemma_ascii_digits_add(out, seq![c]);
        assert(out.push(c) =~= out + seq![c]);
        let pushed = (c == '-' && !seen_minus && out.len() == 0 && allow_negative) || (c == decimal_char
            && !seen_decimal && allow_decimal) || is_digit(c);
        let (sd, sm) = if c == '-' && !seen_minus && out.len() == 0 && allow_negative {
            (seen_decimal, true)
        } else if c == decimal_char && !seen_decimal && allow_decimal {
            (true, seen_minus)
        } else {
            (seen_decimal, seen_minus)
        };
        let next = if pushed {
            out.push(c)
        } else {
            out
        };
        lemma_sanitize_digits(rest, next, sd, sm, allow_decimal, allow_negative, decimal_char);
        assert(sanitize_from(s, out, seen_decimal, seen_minus, allow_decimal, allow_negative, decimal_char)
            == sanitize_from(rest, next, sd, sm, allow_decimal, allow_negative, decimal_char));
        let res = sanitize_from(s, out, seen_decimal, seen_minus, allow_decimal, allow_negative, decimal_char);
        if pushed {
            assert(res[out.len() as int] == next[out.len() as int]);
            assert forall|i: int| 0 <= i < out.len() implies #[trigger] res[i] == out[i] by {
                assert(res[i] == next[i]);
            }
        }
        if pushed {
            assert(ascii_digits(out) + ascii_digits(seq![c]) + ascii_digits(rest) =~= ascii_digits(out) + (
            ascii_digits(seq![c]) + ascii_digits(rest)));
        } else {
            assert(ascii_digits(seq![c]) + ascii_digits(rest) =~= ascii_digits(rest));
        }
    }
}

/// Law: sanitizing keeps every ASCII digit of the typed text, in order, and adds
/// none: the digits of the result are exactly the digits of the input. Every
/// other character kept is a minus sign (when negatives are allowed) or the
/// decimal separator (when decimals are allowed), and a minus sign is kept only
/// as the first character (unless the decimal separator is itself `-`).
pub proof fn law_sanitize_keeps_digits(s: Seq<char>, allow_decimal: bool, allow_negative: bool, decimal_char: char)
    ensures
        ascii_digits(sanitize_from(s, Seq::empty(), false, false, allow_decimal, allow_negative, decimal_char))
            == ascii_digits(s),
        forall|i: int|
            0 <= i < sanitize_from(s, Seq::empty(), false, false, allow_decimal, allow_negative, decimal_char).len()
                ==> ({
                let c = #[trigger] sanitize_from(
                    s,
                    Seq::empty(),
                    false,
                    false,
                    allow_decimal,
                    allow_negative,
                    decimal_char,
                )[i];
                ('0' <= c && c <= '9') || (c == '-' && allow_negative) || (c == decimal_char && allow_decimal)
            }),
        forall|i: int|
            0 <= i < sanitize_from(s, Seq::empty(), false, false, allow_decimal, allow_negative, decimal_char).len()
                && #[trigger] sanitize_from(
                s,
                Seq::empty(),
                false,
                false,
                allow_decimal,
                allow_negative,
                decimal_char,
            )[i] == '-' ==> i == 0 || (decimal_char == '-' && allow_decimal),
{
    lemma_sanitize_digits(s, Seq::empty(), false, false, allow_decimal, allow_negative, decimal_char);
    reveal_with_fuel(Seq::filter, 1);
    assert(ascii_digits(Seq::<char>::empty()) + ascii_digits(s) =~= ascii_digits(s));
}

} // verus!
