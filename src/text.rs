//! The mathematical model of the text form of a code.
//!
//! A code is the marker `n` (either case), four decimal digits giving the
//! value modulo 9999, and a run of letters (either case) giving the value
//! divided by 9999 in base 26, most significant letter first.
use vstd::prelude::*;

verus! {

/// The value is split into a low part below this modulus and a high part.
pub const LOW_MODULUS: u32 = 9999;

/// Base of the alphabetic suffix.
pub const LETTER_BASE: u32 = 26;

pub open spec fn is_marker(c: char) -> bool {
    c == 'n' || c == 'N'
}

pub open spec fn is_digit(c: char) -> bool {
    '0' <= c <= '9'
}

pub open spec fn digit_value(c: char) -> nat {
    (c as nat - '0' as nat) as nat
}

pub open spec fn is_lower(c: char) -> bool {
    'a' <= c <= 'z'
}

pub open spec fn is_upper(c: char) -> bool {
    'A' <= c <= 'Z'
}

pub open spec fn is_letter(c: char) -> bool {
    is_lower(c) || is_upper(c)
}

/// Weight of a letter in the suffix: `a` and `A` are 0, `z` and `Z` are 25.
pub open spec fn letter_value(c: char) -> nat {
    if is_lower(c) {
        (c as nat - 'a' as nat) as nat
    } else {
        (c as nat - 'A' as nat) as nat
    }
}

/// Value of a run of decimal digits, most significant first.
pub open spec fn digits_value(s: Seq<char>) -> nat
    decreases s.len(),
{
    if s.len() == 0 {
        0
    } else {
        digits_value(s.drop_last()) * 10 + digit_value(s.last())
    }
}

/// Value of a run of letters in base 26, most significant first.
pub open spec fn letters_value(s: Seq<char>) -> nat
    decreases s.len(),
{
    if s.len() == 0 {
        0
    } else {
        letters_value(s.drop_last()) * 26 + letter_value(s.last())
    }
}

/// The text has the shape of a code: marker, four digits, letters.
pub open spec fn is_well_formed(s: Seq<char>) -> bool {
    &&& s.len() >= 5
    &&& is_marker(s[0])
    &&& forall|i: int| 1 <= i < 5 ==> is_digit(#[trigger] s[i])
    &&& forall|i: int| 5 <= i < s.len() ==> is_letter(#[trigger] s[i])
}

/// The number a well-formed text stands for, without any bound.
pub open spec fn code_value(s: Seq<char>) -> nat {
    digits_value(s.subrange(1, 5)) + letters_value(s.skip(5)) * 9999
}

/// What decoding a text gives: the identifier, when the text is well formed
/// and its number fits in 32 bits.
pub open spec fn decode_spec(s: Seq<char>) -> Option<u32> {
    if is_well_formed(s) && code_value(s) <= u32::MAX {
        Some(code_value(s) as u32)
    } else {
        None
    }
}

pub open spec fn digit_char(d: nat) -> char {
    ((d + 48) as u8) as char
}

pub open spec fn letter_char(d: nat) -> char {
    ((d + 97) as u8) as char
}

/// The last `width` decimal digits of `v`, padded with zeros.
pub open spec fn zero_padded(v: nat, width: nat) -> Seq<char>
    decreases width,
{
    if width == 0 {
        Seq::empty()
    } else {
        zero_padded(v / 10, (width - 1) as nat).push(digit_char(v % 10))
    }
}

/// `r` in base 26 with lowercase letters, most significant first; empty for 0.
pub open spec fn letter_suffix(r: nat) -> Seq<char>
    decreases r,
{
    if r == 0 {
        Seq::empty()
    } else {
        letter_suffix(r / 26).push(letter_char(r % 26))
    }
}

/// The canonical text of an identifier.
pub open spec fn encode_spec(n: u32) -> Seq<char> {
    seq!['n'] + zero_padded((n % 9999) as nat, 4) + letter_suffix((n / 9999) as nat)
}

/// The shape of every canonical text: lowercase marker, four digits, and
/// lowercase letters only.
pub open spec fn is_canonical(s: Seq<char>) -> bool {
    &&& s.len() >= 5
    &&& s[0] == 'n'
    &&& forall|i: int| 1 <= i < 5 ==> is_digit(#[trigger] s[i])
    &&& forall|i: int| 5 <= i < s.len() ==> is_lower(#[trigger] s[i])
}

pub open spec fn ascii_upper(c: char) -> char {
    if is_lower(c) {
        ((c as nat - 32) as u8) as char
    } else {
        c
    }
}

pub open spec fn ascii_lower(c: char) -> char {
    if is_upper(c) {
        ((c as nat + 32) as u8) as char
    } else {
        c
    }
}

/// The text with every ASCII letter made uppercase.
pub open spec fn upper_text(s: Seq<char>) -> Seq<char> {
    Seq::new(s.len(), |i: int| ascii_upper(s[i]))
}

/// The text with every ASCII letter made lowercase.
pub open spec fn lower_text(s: Seq<char>) -> Seq<char> {
    Seq::new(s.len(), |i: int| ascii_lower(s[i]))
}

pub proof fn lemma_digits_value_push(s: Seq<char>, c: char)
    ensures
        digits_value(s.push(c)) == digits_value(s) * 10 + digit_value(c),
{
    assert(s.push(c).drop_last() =~= s);
}

pub proof fn lemma_letters_value_push(s: Seq<char>, c: char)
    ensures
        letters_value(s.push(c)) == letters_value(s) * 26 + letter_value(c),
{
    assert(s.push(c).drop_last() =~= s);
}

/// A prefix of a run of letters is worth no more than the whole run.
pub proof fn lemma_letters_value_prefix(s: Seq<char>, k: int)
    requires
        0 <= k <= s.len(),
    ensures
        letters_value(s.take(k)) <= letters_value(s),
    decreases s.len(),
{
    if k < s.len() {
        lemma_letters_value_prefix(s.drop_last(), k);
        assert(s.drop_last().take(k) =~= s.take(k));
    } else {
        assert(s.take(k) =~= s);
    }
}

} // verus!
