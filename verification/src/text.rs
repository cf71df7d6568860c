//! Character-level helpers on `str` and `String`.

use vstd::prelude::*;

verus! {

/// `String::push` appends one character to the string.
pub assume_specification[ std::string::String::push ](s: &mut std::string::String, c: char)
    ensures
        final(s)@ == old(s)@.push(c),
;

/// Whether two string slices hold the same characters.
pub fn str_eq(a: &str, b: &str) -> (r: bool)
    ensures
        r == (a@ == b@),
{
    let left = a.to_owned();
    let right = b.to_owned();
    left == right
}

/// The characters of `s`, in order.
pub fn chars_of(s: &str) -> (r: Vec<char>)
    ensures
        r@ == s@,
{
    let mut out: Vec<char> = Vec::new();
    for c in it: s.chars()
        invariant
            it.seq() == s@,
            out@ == s@.take(it.index() as int),
    {
        out.push(c);
        assert(s@.take(it.index() + 1) == s@.take(it.index() as int).push(c));
    }
    assert(s@.take(s@.len() as int) == s@);
    out
}

/// The string made of `chars[from..to]`.
pub fn string_of(chars: &Vec<char>, from: usize, to: usize) -> (r: String)
    requires
        from <= to <= chars@.len(),
    ensures
        r@ == chars@.subrange(from as int, to as int),
{
    let mut out = String::new();
    let mut i: usize = from;
    while i < to
        invariant
            from <= i <= to <= chars@.len(),
            out@ == chars@.subrange(from as int, i as int),
        decreases to - i,
    {
        out.push(chars[i]);
        assert(chars@.subrange(from as int, i + 1) == chars@.subrange(from as int, i as int).push(
            chars@[i as int],
        ));
        i += 1;
    }
    out
}

pub open spec fn is_lower(c: char) -> bool {
    'a' <= c && c <= 'z'
}

pub open spec fn is_upper(c: char) -> bool {
    'A' <= c && c <= 'Z'
}

pub open spec fn is_digit(c: char) -> bool {
    '0' <= c && c <= '9'
}

/// A character that may stand inside an identifier.
pub open spec fn is_word(c: char) -> bool {
    is_lower(c) || is_upper(c) || is_digit(c) || c == '_'
}

/// Blank characters: space, tab, line feed, vertical tab, form feed, carriage return.
pub open spec fn is_space(c: char) -> bool {
    c == ' ' || c == '\t' || c == '\n' || c == '\r' || c == '\u{b}' || c == '\u{c}'
}

pub fn char_is_lower(c: char) -> (r: bool)
    ensures
        r == is_lower(c),
{
    'a' <= c && c <= 'z'
}

pub fn char_is_upper(c: char) -> (r: bool)
    ensures
        r == is_upper(c),
{
    'A' <= c && c <= 'Z'
}

pub fn char_is_digit(c: char) -> (r: bool)
    ensures
        r == is_digit(c),
{
    '0' <= c && c <= '9'
}

pub fn char_is_word(c: char) -> (r: bool)
    ensures
        r == is_word(c),
{
    char_is_lower(c) || char_is_upper(c) || char_is_digit(c) || c == '_'
}

pub fn char_is_space(c: char) -> (r: bool)
    ensures
        r == is_space(c),
{
    c == ' ' || c == '\t' || c == '\n' || c == '\r' || c == '\u{b}' || c == '\u{c}'
}

/// The value of a decimal digit.
pub open spec fn digit_value(c: char) -> nat
    recommends
        is_digit(c),
{
    (c as u32 - '0' as u32) as nat
}

pub fn char_digit_value(c: char) -> (r: u32)
    requires
        is_digit(c),
    ensures
        r == digit_value(c),
        r <= 9,
{
    c as u32 - '0' as u32
}

/// The character that writes the digit `d`.
pub open spec fn digit_char(d: nat) -> char
    recommends
        d <= 9,
{
    if d == 0 {
        '0'
    } else if d == 1 {
        '1'
    } else if d == 2 {
        '2'
    } else if d == 3 {
        '3'
    } else if d == 4 {
        '4'
    } else if d == 5 {
        '5'
    } else if d == 6 {
        '6'
    } else if d == 7 {
        '7'
    } else if d == 8 {
        '8'
    } else {
        '9'
    }
}

pub fn char_of_digit(d: u64) -> (r: char)
    requires
        d <= 9,
    ensures
        r == digit_char(d as nat),
{
    if d == 0 {
        '0'
    } else if d == 1 {
        '1'
    } else if d == 2 {
        '2'
    } else if d == 3 {
        '3'
    } else if d == 4 {
        '4'
    } else if d == 5 {
        '5'
    } else if d == 6 {
        '6'
    } else if d == 7 {
        '7'
    } else if d == 8 {
        '8'
    } else {
        '9'
    }
}

/// The decimal digits of `n`, most significant first, without leading zeros.
pub open spec fn decimal(n: nat) -> Seq<char>
    decreases n,
{
    if n < 10 {
        seq![digit_char(n)]
    } else {
        decimal(n / 10).push(digit_char(n % 10))
    }
}

/// Appends the decimal digits of `n` to `s`.
pub fn push_decimal(s: &mut String, n: u64)
    ensures
        final(s)@ == old(s)@ + decimal(n as nat),
    decreases n,
{
    if n < 10 {
        s.push(char_of_digit(n));
        assert(old(s)@.push(digit_char(n as nat)) == old(s)@ + seq![digit_char(n as nat)]);
    } else {
        push_decimal(s, n / 10);
        s.push(char_of_digit(n % 10));
        assert((old(s)@ + decimal((n / 10) as nat)).push(digit_char((n % 10) as nat)) == old(s)@
            + decimal((n / 10) as nat).push(digit_char((n % 10) as nat)));
    }
}

/// Whether `s` starts with an upper-case letter and holds only upper-case
/// letters, digits and underscores: the shape of a peripheral's name.
pub open spec fn is_upper_ident(s: Seq<char>) -> bool {
    &&& s.len() > 0
    &&& is_upper(s[0])
    &&& forall|i: int| 0 <= i < s.len() ==> is_upper(#[trigger] s[i]) || is_digit(s[i]) || s[i] == '_'
}

/// Whether `s` starts with a lower-case letter and holds only lower-case
/// letters, digits and underscores: the shape of a variable's or function's name.
pub open spec fn is_lower_ident(s: Seq<char>) -> bool {
    &&& s.len() > 0
    &&& is_lower(s[0])
    &&& forall|i: int| 0 <= i < s.len() ==> is_lower(#[trigger] s[i]) || is_digit(s[i]) || s[i] == '_'
}

pub fn chars_are_upper_ident(chars: &Vec<char>) -> (r: bool)
    ensures
        r == is_upper_ident(chars@),
{
    if chars.len() == 0 || !char_is_upper(chars[0]) {
        return false;
    }
    let mut i: usize = 0;
    while i < chars.len()
        invariant
            i <= chars@.len(),
            forall|j: int| 0 <= j < i ==> is_upper(#[trigger] chars@[j]) || is_digit(chars@[j]) || chars@[j] == '_',
        decreases chars@.len() - i,
    {
        let c = chars[i];
        if !(char_is_upper(c) || char_is_digit(c) || c == '_') {
            return false;
        }
        i += 1;
    }
    true
}

pub fn chars_are_lower_ident(chars: &Vec<char>) -> (r: bool)
    ensures
        r == is_lower_ident(chars@),
{
    if chars.len() == 0 || !char_is_lower(chars[0]) {
        return false;
    }
    let mut i: usize = 0;
    while i < chars.len()
        invariant
            i <= chars@.len(),
            forall|j: int| 0 <= j < i ==> is_lower(#[trigger] chars@[j]) || is_digit(chars@[j]) || chars@[j] == '_',
        decreases chars@.len() - i,
    {
        let c = chars[i];
        if !(char_is_lower(c) || char_is_digit(c) || c == '_') {
            return false;
        }
        i += 1;
    }
    true
}

/// Whether `ident` has the shape of a peripheral's name.
pub fn is_uppercase_ident(ident: &str) -> (r: bool)
    ensures
        r == is_upper_ident(ident@),
{
    let chars = chars_of(ident);
    chars_are_upper_ident(&chars)
}

} // verus!
