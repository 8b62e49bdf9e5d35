//! Characters, decimal numbers and case folding: the small text operations
//! that the rest of the crate is built on.
use vstd::prelude::*;

verus! {

/// Appends one character with `String::push`: afterwards the
/// string reads as before, followed by `c`. This is the only operation of the
/// crate whose contract is taken on trust.
#[verifier::external_body]
pub(crate) fn push_char(s: &mut String, c: char)
    ensures
        final(s)@ == old(s)@.push(c),
{
    s.push(c);
}

/// The characters of `s`, in order.
pub fn chars_of(s: &str) -> (v: Vec<char>)
    ensures
        v@ == s@,
{
    let mut v: Vec<char> = Vec::new();
    for c in it: s.chars()
        invariant
            v@ == it.seq().take(it.index() as int),
            it.seq() == s@,
    {
        v.push(c);
    }
    v
}

/// The string made of the characters of `v`, in order.
pub fn string_of(v: &Vec<char>) -> (s: String)
    ensures
        s@ == v@,
{
    let mut s = String::new();
    let mut i: usize = 0;
    while i < v.len()
        invariant
            i <= v.len(),
            s@ == v@.take(i as int),
        decreases v.len() - i,
    {
        push_char(&mut s, v[i]);
        i += 1;
    }
    s
}

/// Writes `part` at the end of `out`.
pub fn push_text(out: &mut Vec<char>, part: &str)
    ensures
        final(out)@ == old(out)@ + part@,
{
    let chars = chars_of(part);
    let mut i: usize = 0;
    while i < chars.len()
        invariant
            i <= chars.len(),
            chars@ == part@,
            out@ == old(out)@ + chars@.take(i as int),
        decreases chars.len() - i,
    {
        out.push(chars[i]);
        i += 1;
    }
    assert(chars@.take(chars.len() as int) == chars@);
}

/// `head` followed by `tail`.
pub fn join_texts(head: &str, tail: &str) -> (joined: String)
    ensures
        joined@ == head@ + tail@,
{
    let mut out: Vec<char> = Vec::new();
    push_text(&mut out, head);
    push_text(&mut out, tail);
    string_of(&out)
}

/// The lower-case form of an ASCII capital letter; every other character
/// stands for itself.
pub open spec fn ascii_lower(c: char) -> char {
    if 'A' <= c && c <= 'Z' {
        ((c as u8) + 32) as u8 as char
    } else {
        c
    }
}

/// Computes [`ascii_lower`].
pub fn to_ascii_lower(c: char) -> (r: char)
    ensures
        r == ascii_lower(c),
{
    if 'A' <= c && c <= 'Z' {
        let b: u8 = c as u8;
        (b + 32) as char
    } else {
        c
    }
}

/// Whether `a` and `b` are the same text once ASCII capitals are folded to
/// lower case.
pub open spec fn eq_ignoring_ascii_case(a: Seq<char>, b: Seq<char>) -> bool {
    &&& a.len() == b.len()
    &&& forall|i: int| 0 <= i < a.len() ==> ascii_lower(#[trigger] a[i]) == ascii_lower(b[i])
}

/// Decides [`eq_ignoring_ascii_case`].
pub fn same_ignoring_ascii_case(a: &str, b: &str) -> (same: bool)
    ensures
        same == eq_ignoring_ascii_case(a@, b@),
{
    let left = chars_of(a);
    let right = chars_of(b);
    if left.len() != right.len() {
        return false;
    }
    let mut i: usize = 0;
    while i < left.len()
        invariant
            left@ == a@,
            right@ == b@,
            left.len() == right.len(),
            i <= left.len(),
            forall|j: int| 0 <= j < i ==> ascii_lower(#[trigger] a@[j]) == ascii_lower(b@[j]),
        decreases left.len() - i,
    {
        if to_ascii_lower(left[i]) != to_ascii_lower(right[i]) {
            return false;
        }
        i += 1;
    }
    true
}

/// The character of a decimal digit.
pub open spec fn digit_char(d: int) -> char {
    if d == 0 {
        '0'
    } else if d == 1 {
        '1'
    } else if d == 2 {
        '2'
    } else if d == 3 {
        '3'
    } else if d == 4 {
        '4'
    } else if d == 5 {
        '5'
    } else if d == 6 {
        '6'
    } else if d == 7 {
        '7'
    } else if d == 8 {
        '8'
    } else {
        '9'
    }
}

/// The digit that a character stands for, if it is a decimal digit.
pub open spec fn digit_value(c: char) -> Option<int> {
    if c == '0' {
        Some(0)
    } else if c == '1' {
        Some(1)
    } else if c == '2' {
        Some(2)
    } else if c == '3' {
        Some(3)
    } else if c == '4' {
        Some(4)
    } else if c == '5' {
        Some(5)
    } else if c == '6' {
        Some(6)
    } else if c == '7' {
        Some(7)
    } else if c == '8' {
        Some(8)
    } else if c == '9' {
        Some(9)
    } else {
        None
    }
}

/// A number written out in decimal, without sign or leading zeros.
pub open spec fn decimal(n: nat) -> Seq<char>
    decreases n,
{
    if n < 10 {
        seq![digit_char(n as int)]
    } else {
        decimal(n / 10).push(digit_char((n % 10) as int))
    }
}

/// Whether every character of `s` is a decimal digit.
pub open spec fn all_digits(s: Seq<char>) -> bool {
    forall|i: int| 0 <= i < s.len() ==> digit_value(#[trigger] s[i]) is Some
}

/// The number that a series of decimal digits stands for; the empty series
/// stands for zero.
pub open spec fn digits_value(s: Seq<char>) -> nat
    decreases s.len(),
{
    if s.len() == 0 {
        0
    } else {
        match digit_value(s.last()) {
            Some(d) => (digits_value(s.drop_last()) * 10 + d) as nat,
            None => 0,
        }
    }
}

/// The number that `s` stands for, if `s` is a decimal number of at most
/// `max`: one or more digits, with leading zeros or without, after at most
/// one plus sign. A minus sign, a blank or any other character makes `s` no
/// number.
pub open spec fn parse_unsigned(s: Seq<char>, max: nat) -> Option<nat> {
    let digits = if s.len() > 0 && s[0] == '+' {
        s.skip(1)
    } else {
        s
    };
    if digits.len() > 0 && all_digits(digits) && digits_value(digits) <= max {
        Some(digits_value(digits))
    } else {
        None
    }
}

/// Reading more digits never gives a smaller number.
pub proof fn lemma_digits_value_grows(s: Seq<char>, k: int)
    requires
        0 <= k <= s.len(),
        all_digits(s),
    ensures
        digits_value(s.take(k)) <= digits_value(s),
    decreases s.len() - k,
{
    if k < s.len() {
        let longer = s.take(k + 1);
        assert(longer.drop_last() == s.take(k));
        assert(longer.last() == s[k]);
        lemma_digits_value_grows(s, k + 1);
    } else {
        assert(s.take(k) == s);
    }
}

/// A text that starts with a minus sign is no number.
pub proof fn lemma_negative_is_rejected(s: Seq<char>, max: nat)
    requires
        s.len() > 0,
        s[0] == '-',
    ensures
        parse_unsigned(s, max) is None,
{
    assert(digit_value(s[0]) is None);
}

/// The character of the digit `d`.
pub fn digit_to_char(d: u8) -> (c: char)
    requires
        d < 10,
    ensures
        c == digit_char(d as int),
{
    if d == 0 {
        '0'
    } else if d == 1 {
        '1'
    } else if d == 2 {
        '2'
    } else if d == 3 {
        '3'
    } else if d == 4 {
        '4'
    } else if d == 5 {
        '5'
    } else if d == 6 {
        '6'
    } else if d == 7 {
        '7'
    } else if d == 8 {
        '8'
    } else {
        '9'
    }
}

/// The digit that `c` stands for, if it is one.
pub fn char_to_digit(c: char) -> (d: Option<u8>)
    ensures
        match d {
            Some(v) => digit_value(c) == Some(v as int),
            None => digit_value(c) is None,
        },
{
    if c == '0' {
        Some(0)
    } else if c == '1' {
        Some(1)
    } else if c == '2' {
        Some(2)
    } else if c == '3' {
        Some(3)
    } else if c == '4' {
        Some(4)
    } else if c == '5' {
        Some(5)
    } else if c == '6' {
        Some(6)
    } else if c == '7' {
        Some(7)
    } else if c == '8' {
        Some(8)
    } else if c == '9' {
        Some(9)
    } else {
        None
    }
}

/// Writes `n` in decimal at the end of `out`.
pub fn push_decimal(out: &mut Vec<char>, n: u128)
    ensures
        final(out)@ == old(out)@ + decimal(n as nat),
    decreases n,
{
    if n >= 10 {
        push_decimal(out, n / 10);
    }
    out.push(digit_to_char((n % 10) as u8));
}

/// `n` written out in decimal.
pub fn decimal_string(n: u128) -> (s: String)
    ensures
        s@ == decimal(n as nat),
{
    let mut out: Vec<char> = Vec::new();
    push_decimal(&mut out, n);
    string_of(&out)
}

/// Reads a decimal number of at most `max`.
pub fn parse_number(s: &str, max: u64) -> (n: Option<u64>)
    ensures
        match n {
            Some(v) => parse_unsigned(s@, max as nat) == Some(v as nat),
            None => parse_unsigned(s@, max as nat) is None,
        },
{
    let chars = chars_of(s);
    let start: usize = if chars.len() > 0 && chars[0] == '+' {
        1
    } else {
        0
    };
    let ghost digits = chars@.skip(start as int);
    if chars.len() == start {
        return None;
    }
    let mut value: u64 = 0;
    let mut i: usize = start;
    assert(digits.take(0) =~= Seq::<char>::empty());
    while i < chars.len()
        invariant
            start <= i <= chars.len(),
            chars@ == s@,
            start == (if s@.len() > 0 && s@[0] == '+' {
                1int
            } else {
                0int
            }),
            start < chars.len(),
            digits == chars@.skip(start as int),
            all_digits(digits.take(i - start)),
            value == digits_value(digits.take(i - start)),
            value <= max,
        decreases chars.len() - i,
    {
        let ghost read = digits.take(i - start);
        let ghost longer = digits.take(i - start + 1);
        assert(longer.drop_last() == read);
        assert(longer.last() == chars@[i as int]);
        match char_to_digit(chars[i]) {
            Some(d) => {
                assert(all_digits(longer)) by {
                    assert forall|k: int| 0 <= k < longer.len() implies digit_value(
                        #[trigger] longer[k],
                    ) is Some by {
                        if k < read.len() {
                            assert(longer[k] == read[k]);
                        }
                    }
                }
                let wide: u128 = value as u128 * 10 + d as u128;
                assert(digits_value(longer) == wide);
                if wide > max as u128 {
                    proof {
                        assert(s@.skip(0) == s@);
                        if all_digits(digits) {
                            lemma_digits_value_grows(digits, i - start + 1);
                        }
                    }
                    return None;
                }
                value = wide as u64;
            },
            None => {
                assert(s@.skip(0) == s@);
                assert(digit_value(digits[i - start]) is None);
                return None;
            },
        }
        i += 1;
    }
    assert(digits.take(i - start) == digits);
    assert(digits == (if s@.len() > 0 && s@[0] == '+' {
        s@.skip(1)
    } else {
        s@
    })) by {
        assert(s@.skip(0) == s@);
    }
    Some(value)
}

} // verus!
