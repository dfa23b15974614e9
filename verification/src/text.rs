//! Strings as sequences of characters, and the `std` string operations that
//! the matcher relies on.

use vstd::prelude::*;

verus! {

/// `String::push` appends the character to the end of the string.
pub assume_specification[ String::push ](s: &mut String, ch: char)
    ensures
        final(s)@ == old(s)@.push(ch),
;

/// What a character counts as when ASCII case is ignored: an ASCII upper
/// case letter counts as its lower case form, every other character as itself.
pub open spec fn ascii_folded(c: char) -> int {
    if 'A' <= c && c <= 'Z' {
        c as int + 32
    } else {
        c as int
    }
}

/// Two texts are equal up to ASCII case.
pub open spec fn eq_ignoring_ascii_case(a: Seq<char>, b: Seq<char>) -> bool {
    &&& a.len() == b.len()
    &&& forall|i: int| 0 <= i < a.len() ==> ascii_folded(a[i]) == ascii_folded(b[i])
}

/// `str::eq_ignore_ascii_case` compares the two strings as if every ASCII
/// upper case letter were replaced by its lower case form.
pub assume_specification[ str::eq_ignore_ascii_case ](a: &str, b: &str) -> (same: bool)
    ensures
        same == eq_ignoring_ascii_case(a@, b@),
;

/// `==` on `str` holds exactly when the two strings have the same characters.
pub assume_specification[ <str as PartialEq>::eq ](a: &str, b: &str) -> (same: bool)
    ensures
        same == (a@ == b@),
;

/// A text of one or more ASCII digits.
pub open spec fn is_digits(s: Seq<char>) -> bool {
    &&& s.len() > 0
    &&& forall|i: int| 0 <= i < s.len() ==> '0' <= #[trigger] s[i] <= '9'
}

/// The number that a text of digits denotes in base ten.
pub open spec fn decimal_value(s: Seq<char>) -> int
    decreases s.len(),
{
    if s.len() == 0 {
        0
    } else {
        decimal_value(s.drop_last()) * 10 + (s.last() as int - '0' as int)
    }
}

/// A text that denotes a 64-bit signed integer: digits, with a sign before
/// them or none, whose value is in range.
pub open spec fn is_i64_text(s: Seq<char>) -> bool {
    if s.len() > 0 && s[0] == '-' {
        is_digits(s.skip(1)) && decimal_value(s.skip(1)) <= 0x8000_0000_0000_0000
    } else if s.len() > 0 && s[0] == '+' {
        is_digits(s.skip(1)) && decimal_value(s.skip(1)) <= 0x7fff_ffff_ffff_ffff
    } else {
        is_digits(s) && decimal_value(s) <= 0x7fff_ffff_ffff_ffff
    }
}

/// The value of digits does not fall when more digits follow.
proof fn lemma_decimal_value_grows(s: Seq<char>, k: int)
    requires
        forall|i: int| 0 <= i < s.len() ==> '0' <= #[trigger] s[i] <= '9',
        0 <= k <= s.len(),
    ensures
        0 <= decimal_value(s.take(k)) <= decimal_value(s),
    decreases s.len() - k,
{
    if k == s.len() {
        assert(s.take(k) =~= s);
        lemma_decimal_value_is_natural(s);
    } else {
        lemma_decimal_value_grows(s, k + 1);
        assert(s.take(k + 1).drop_last() =~= s.take(k));
        lemma_decimal_value_is_natural(s.take(k));
    }
}

/// The value of digits is not negative.
proof fn lemma_decimal_value_is_natural(s: Seq<char>)
    requires
        forall|i: int| 0 <= i < s.len() ==> '0' <= #[trigger] s[i] <= '9',
    ensures
        0 <= decimal_value(s),
    decreases s.len(),
{
    if s.len() > 0 {
        lemma_decimal_value_is_natural(s.drop_last());
    }
}

/// Whether `text` denotes a 64-bit signed integer.
pub fn is_i64(text: &str) -> (ok: bool)
    ensures
        ok == is_i64_text(text@),
{
    let chars = to_chars(text);
    let negative = chars.len() > 0 && chars[0] == '-';
    let start: usize = if chars.len() > 0 && (chars[0] == '-' || chars[0] == '+') {
        1
    } else {
        0
    };
    let limit: u64 = if negative {
        0x8000_0000_0000_0000
    } else {
        0x7fff_ffff_ffff_ffff
    };
    let ghost body = text@.skip(start as int);
    assert(is_i64_text(text@) == (is_digits(body) && decimal_value(body) <= limit)) by {
        assert(text@.skip(0) =~= text@);
    }
    if start == chars.len() {
        return false;
    }
    let mut value: u64 = 0;
    let mut i: usize = start;
    assert(body.take(0).len() == 0);
    while i < chars.len()
        invariant
            start <= i <= chars.len(),
            chars@ == text@,
            body == text@.skip(start as int),
            0x7fff_ffff_ffff_ffff <= limit <= 0x8000_0000_0000_0000,
            is_i64_text(text@) == (is_digits(body) && decimal_value(body) <= limit),
            forall|j: int| 0 <= j < i - start ==> '0' <= #[trigger] body[j] <= '9',
            value == decimal_value(body.take(i - start)),
            value <= limit,
        decreases chars.len() - i,
    {
        let c = chars[i];
        if !('0' <= c && c <= '9') {
            assert(!('0' <= body[i - start] <= '9'));
            return false;
        }
        let digit: u64 = (c as u64) - ('0' as u64);
        assert(digit <= 9);
        proof {
            assert(body.take(i - start + 1).drop_last() =~= body.take(i - start));
            assert(body.take(i - start + 1).last() == c);
        }
        if value > (limit - digit) / 10 {
            proof {
                assert(decimal_value(body.take(i - start + 1)) > limit);
                if is_digits(body) {
                    lemma_decimal_value_grows(body, i - start + 1);
                }
            }
            return false;
        }
        value = value * 10 + digit;
        i += 1;
    }
    assert(body.take(body.len() as int) =~= body);
    true
}

/// The end of the run of ASCII digits that begins at `from`: the first place
/// at or after `from` that holds no digit, or the length of `s`.
pub open spec fn digits_end(s: Seq<char>, from: int) -> int
    decreases s.len() - from,
{
    if from < 0 || from >= s.len() || !('0' <= s[from] <= '9') {
        from
    } else {
        digits_end(s, from + 1)
    }
}

/// A decimal number: digits, then optionally `.` and digits, with at least
/// one digit so far; then optionally `e` or `E`, a sign or none, and at
/// least one digit. Nothing may follow.
pub open spec fn is_decimal_number(s: Seq<char>) -> bool {
    let whole = digits_end(s, 0);
    let mantissa = if whole < s.len() && s[whole] == '.' {
        digits_end(s, whole + 1)
    } else {
        whole
    };
    let digits = if mantissa > whole {
        mantissa - 1
    } else {
        mantissa
    };
    &&& digits > 0
    &&& mantissa == s.len() || {
        let sign = mantissa + 1;
        let exponent = if sign < s.len() && (s[sign] == '+' || s[sign] == '-') {
            sign + 1
        } else {
            sign
        };
        &&& s[mantissa] == 'e' || s[mantissa] == 'E'
        &&& digits_end(s, exponent) > exponent
        &&& digits_end(s, exponent) == s.len()
    }
}

/// A text that denotes a floating-point number: a sign or none, and then
/// `inf`, `infinity` or `nan` in any ASCII case, or a decimal number.
pub open spec fn is_float_text(s: Seq<char>) -> bool {
    let body = if s.len() > 0 && (s[0] == '+' || s[0] == '-') {
        s.skip(1)
    } else {
        s
    };
    ||| eq_ignoring_ascii_case(body, "inf"@)
    ||| eq_ignoring_ascii_case(body, "infinity"@)
    ||| eq_ignoring_ascii_case(body, "nan"@)
    ||| is_decimal_number(body)
}

/// The end of the run of ASCII digits of `chars` that begins at `from`.
fn skip_digits(chars: &Vec<char>, from: usize) -> (end: usize)
    requires
        from <= chars.len(),
    ensures
        end == digits_end(chars@, from as int),
        from <= end <= chars.len(),
{
    let mut at: usize = from;
    while at < chars.len() && '0' <= chars[at] && chars[at] <= '9'
        invariant
            from <= at <= chars.len(),
            digits_end(chars@, from as int) == digits_end(chars@, at as int),
        decreases chars.len() - at,
    {
        at += 1;
    }
    at
}

/// Whether `text` denotes a floating-point number.
pub fn is_float(text: &str) -> (float: bool)
    ensures
        float == is_float_text(text@),
{
    let all = to_chars(text);
    let start: usize = if all.len() > 0 && (all[0] == '+' || all[0] == '-') {
        1
    } else {
        0
    };
    let body = from_chars(&all, start, all.len());
    assert(body@ =~= if start == 1 {
        text@.skip(1)
    } else {
        text@
    });
    if body.as_str().eq_ignore_ascii_case("inf") || body.as_str().eq_ignore_ascii_case("infinity")
        || body.as_str().eq_ignore_ascii_case("nan") {
        return true;
    }
    let chars = to_chars(body.as_str());
    let whole = skip_digits(&chars, 0);
    let mantissa = if whole < chars.len() && chars[whole] == '.' {
        skip_digits(&chars, whole + 1)
    } else {
        whole
    };
    let digits = if mantissa > whole {
        mantissa - 1
    } else {
        mantissa
    };
    if digits == 0 {
        return false;
    }
    if mantissa == chars.len() {
        return true;
    }
    if !(chars[mantissa] == 'e' || chars[mantissa] == 'E') {
        return false;
    }
    let sign = mantissa + 1;
    let exponent = if sign < chars.len() && (chars[sign] == '+' || chars[sign] == '-') {
        sign + 1
    } else {
        sign
    };
    let end = skip_digits(&chars, exponent);
    end > exponent && end == chars.len()
}

/// The view of an optional string.
pub open spec fn opt_view(s: Option<String>) -> Option<Seq<char>> {
    match s {
        Some(s) => Some(s@),
        None => None,
    }
}

/// The views of a sequence of strings.
pub open spec fn views(strings: Seq<String>) -> Seq<Seq<char>> {
    strings.map_values(|s: String| s@)
}

/// The characters of a string, in order.
pub fn to_chars(s: &str) -> (chars: Vec<char>)
    ensures
        chars@ == s@,
{
    let mut chars: Vec<char> = Vec::new();
    for c in it: s.chars()
        invariant
            it.seq() == s@,
            chars@ == it.seq().take(it.index()),
    {
        chars.push(c);
    }
    chars
}

/// The string made of `chars[from..to]`.
pub fn from_chars(chars: &Vec<char>, from: usize, to: usize) -> (s: String)
    requires
        from <= to <= chars.len(),
    ensures
        s@ == chars@.subrange(from as int, to as int),
{
    let mut s = String::new();
    let mut i: usize = from;
    while i < to
        invariant
            from <= i <= to <= chars.len(),
            s@ == chars@.subrange(from as int, i as int),
        decreases to - i,
    {
        s.push(chars[i]);
        i += 1;
    }
    s
}

/// Appends the characters of `s` to `out`.
pub fn push_str(out: &mut Vec<char>, s: &str)
    ensures
        final(out)@ == old(out)@ + s@,
{
    let ghost before = out@;
    for c in it: s.chars()
        invariant
            it.seq() == s@,
            out@ == before + it.seq().take(it.index()),
    {
        out.push(c);
    }
}

/// Whether `chars[from..to]` begins with the characters of `prefix`.
pub fn starts_with(chars: &Vec<char>, from: usize, to: usize, prefix: &str) -> (found: bool)
    requires
        from <= to <= chars.len(),
    ensures
        found == prefix@.is_prefix_of(chars@.subrange(from as int, to as int)),
{
    let wanted = to_chars(prefix);
    if wanted.len() > to - from {
        return false;
    }
    let ghost span = chars@.subrange(from as int, to as int);
    let mut i: usize = 0;
    while i < wanted.len()
        invariant
            from <= to <= chars.len(),
            wanted@ == prefix@,
            wanted.len() <= to - from,
            span == chars@.subrange(from as int, to as int),
            i <= wanted.len(),
            forall|j: int| 0 <= j < i ==> wanted@[j] == chars@[from + j],
        decreases wanted.len() - i,
    {
        if wanted[i] != chars[from + i] {
            assert(wanted@[i as int] != span.subrange(0, wanted@.len() as int)[i as int]);
            return false;
        }
        i += 1;
    }
    assert(wanted@ =~= span.subrange(0, wanted@.len() as int));
    true
}

/// Equality up to ASCII case is an equivalence.
pub proof fn lemma_eq_ignoring_ascii_case_is_equivalence(a: Seq<char>, b: Seq<char>, c: Seq<char>)
    ensures
        eq_ignoring_ascii_case(a, a),
        eq_ignoring_ascii_case(a, b) ==> eq_ignoring_ascii_case(b, a),
        eq_ignoring_ascii_case(a, b) && eq_ignoring_ascii_case(b, c) ==> eq_ignoring_ascii_case(a, c),
{
}

} // verus!
