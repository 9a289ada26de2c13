//! The identifier type and its two conversions to and from text.
use vstd::prelude::*;

use vstd::utf8::is_ascii_chars;

use crate::text::{
    decode_spec, digit_char, digit_value, digits_value, encode_spec, is_digit, is_letter,
    is_marker, is_well_formed, lemma_digits_value_push, lemma_letters_value_prefix,
    lemma_letters_value_push, letter_char, letter_suffix, letter_value, letters_value,
    zero_padded, LETTER_BASE, LOW_MODULUS,
};

verus! {

/// A numeric identifier of a catalog entry. Every `u32` is one.
#[derive(Debug, Clone, Copy, PartialEq, Eq, Structural, Ord)]
pub struct Ncode {
    pub(crate) value: u32,
}

/// The single error that decoding reports, whatever made the text invalid.
#[derive(Debug, Clone, Copy, PartialEq, Eq, Structural)]
pub struct ParseNcodeError {}

impl View for Ncode {
    type V = u32;

    open(crate) spec fn view(&self) -> u32 {
        self.value
    }
}

impl From<u32> for Ncode {
    fn from(x: u32) -> (r: Ncode) {
        Ncode { value: x }
    }
}

impl vstd::std_specs::convert::FromSpecImpl<u32> for Ncode {
    open(crate) spec fn obeys_from_spec() -> bool {
        true
    }

    open(crate) spec fn from_spec(v: u32) -> Ncode {
        Ncode { value: v }
    }
}

impl From<Ncode> for u32 {
    fn from(x: Ncode) -> (r: u32) {
        x.value
    }
}

impl vstd::std_specs::convert::FromSpecImpl<Ncode> for u32 {
    open(crate) spec fn obeys_from_spec() -> bool {
        true
    }

    open(crate) spec fn from_spec(v: Ncode) -> u32 {
        v.value
    }
}

impl AsRef<u32> for Ncode {
    fn as_ref(&self) -> (r: &u32)
        ensures
            *r == self@,
    {
        &self.value
    }
}

/// Identifiers are ordered by their numbers.
impl PartialOrd for Ncode {
    fn partial_cmp(&self, other: &Ncode) -> (r: Option<core::cmp::Ordering>) {
        if self.value < other.value {
            Some(core::cmp::Ordering::Less)
        } else if self.value == other.value {
            Some(core::cmp::Ordering::Equal)
        } else {
            Some(core::cmp::Ordering::Greater)
        }
    }
}

impl vstd::std_specs::cmp::PartialOrdSpecImpl for Ncode {
    open(crate) spec fn obeys_partial_cmp_spec() -> bool {
        true
    }

    open(crate) spec fn partial_cmp_spec(&self, other: &Ncode) -> Option<core::cmp::Ordering> {
        if self.value < other.value {
            Some(core::cmp::Ordering::Less)
        } else if self.value == other.value {
            Some(core::cmp::Ordering::Equal)
        } else {
            Some(core::cmp::Ordering::Greater)
        }
    }
}

/// The one-character text of a decimal digit.
fn digit_str(d: u32) -> (r: &'static str)
    requires
        d < 10,
    ensures
        r@ == seq![digit_char(d as nat)],
{
    let digits = "0123456789";
    proof {
        reveal_strlit("0123456789");
    }
    digits.substring_char(d as usize, d as usize + 1)
}

/// The one-character text of a lowercase letter.
fn letter_str(d: u32) -> (r: &'static str)
    requires
        d < 26,
    ensures
        r@ == seq![letter_char(d as nat)],
{
    let alphabet = "abcdefghijklmnopqrstuvwxyz";
    proof {
        reveal_strlit("abcdefghijklmnopqrstuvwxyz");
    }
    alphabet.substring_char(d as usize, d as usize + 1)
}

/// Appends the last `width` decimal digits of `v`, zero-padded.
fn push_zero_padded(out: &mut String, v: u32, width: u32)
    ensures
        final(out)@ == old(out)@ + zero_padded(v as nat, width as nat),
    decreases width,
{
    if width > 0 {
        push_zero_padded(out, v / 10, width - 1);
        out.append(digit_str(v % 10));
        assert(final(out)@ =~= old(out)@ + zero_padded(v as nat, width as nat));
    }
}

/// Appends `r` in base 26 with lowercase letters, most significant first.
fn push_letter_suffix(out: &mut String, r: u32)
    ensures
        final(out)@ == old(out)@ + letter_suffix(r as nat),
    decreases r,
{
    if r > 0 {
        push_letter_suffix(out, r / LETTER_BASE);
        out.append(letter_str(r % LETTER_BASE));
        assert(final(out)@ =~= old(out)@ + letter_suffix(r as nat));
    }
}

/// Weight of a decimal digit, or `None` for any other character.
fn digit_weight(ch: char) -> (r: Option<u32>)
    ensures
        r == (if is_digit(ch) {
            Some(digit_value(ch) as u32)
        } else {
            None
        }),
{
    if '0' <= ch && ch <= '9' {
        Some(ch as u32 - '0' as u32)
    } else {
        None
    }
}

/// Weight of a letter of the suffix (`a`/`A` is 0, `z`/`Z` is 25), or `None`
/// for a character that is not an ASCII letter.
pub fn char_weight(ch: char) -> (r: Option<u32>)
    ensures
        r == (if is_letter(ch) {
            Some(letter_value(ch) as u32)
        } else {
            None
        }),
{
    if 'a' <= ch && ch <= 'z' {
        Some(ch as u32 - 'a' as u32)
    } else if 'A' <= ch && ch <= 'Z' {
        Some(ch as u32 - 'A' as u32)
    } else {
        None
    }
}

impl Ncode {
    /// The number this identifier stands for.
    pub fn value(&self) -> (r: u32)
        ensures
            r == self@,
    {
        self.value
    }

    /// The canonical text: `n`, the value modulo 9999 in four zero-padded
    /// digits, then the value divided by 9999 in base 26 with lowercase
    /// letters, most significant first, and no letter at all when that is 0.
    pub fn to_string(&self) -> (r: String)
        ensures
            r@ == encode_spec(self@),
    {
        let mut out = String::new();
        let marker = "n";
        proof {
            reveal_strlit("n");
        }
        out.append(marker);
        push_zero_padded(&mut out, self.value % LOW_MODULUS, 4);
        push_letter_suffix(&mut out, self.value / LOW_MODULUS);
        assert(out@ =~= encode_spec(self@));
        out
    }

    /// Reads a text: the marker `n` or `N`, four decimal digits, then any
    /// number of letters of either case. Fails on any other text, and on a
    /// text whose number does not fit in 32 bits. A digit part of `9999` is
    /// accepted, though no canonical text has it.
    pub fn decode(s: &str) -> (r: Result<Ncode, ParseNcodeError>)
        ensures
            match r {
                Ok(c) => decode_spec(s@) == Some(c@),
                Err(_) => decode_spec(s@) is None,
            },
    {
        if !s.is_ascii() {
            proof {
                lemma_non_ascii_rejected(s@);
            }
            return Err(ParseNcodeError {});
        }
        let bytes = s.as_bytes();
        proof {
            vstd::string::is_ascii_spec_bytes(s);
        }
        let len = bytes.len();
        if len < 5 {
            return Err(ParseNcodeError {});
        }
        let first = bytes[0] as char;
        if !(first == 'n' || first == 'N') {
            return Err(ParseNcodeError {});
        }
        let mut number_part: u32 = 0;
        let mut i: usize = 1;
        while i < 5
            invariant
                1 <= i <= 5,
                len == s@.len(),
                len >= 5,
                is_ascii_chars(s@),
                bytes@ == Seq::new(s@.len(), |j: int| s@[j] as u8),
                forall|j: int| 1 <= j < i ==> is_digit(#[trigger] s@[j]),
                number_part == digits_value(s@.subrange(1, i as int)),
                i <= 1 ==> number_part < 1,
                i <= 2 ==> number_part < 10,
                i <= 3 ==> number_part < 100,
                i <= 4 ==> number_part < 1000,
                number_part < 10000,
            decreases 5 - i,
        {
            let c = bytes[i] as char;
            assert(c == s@[i as int]);
            match digit_weight(c) {
                Some(d) => {
                    proof {
                        assert(s@.subrange(1, i + 1) =~= s@.subrange(1, i as int).push(c));
                        lemma_digits_value_push(s@.subrange(1, i as int), c);
                    }
                    number_part = number_part * 10 + d;
                },
                None => {
                    return Err(ParseNcodeError {});
                },
            }
            i += 1;
        }
        let bound: u32 = u32::MAX / LOW_MODULUS;
        let mut alphabetic_part: u32 = 0;
        while i < len
            invariant
                5 <= i <= len,
                len == s@.len(),
                is_ascii_chars(s@),
                bytes@ == Seq::new(s@.len(), |j: int| s@[j] as u8),
                is_marker(s@[0]),
                forall|j: int| 1 <= j < 5 ==> is_digit(#[trigger] s@[j]),
                forall|j: int| 5 <= j < i ==> is_letter(#[trigger] s@[j]),
                number_part == digits_value(s@.subrange(1, 5)),
                alphabetic_part == letters_value(s@.subrange(5, i as int)),
                alphabetic_part <= bound,
                bound == u32::MAX / 9999,
            decreases len - i,
        {
            let c = bytes[i] as char;
            assert(c == s@[i as int]);
            match char_weight(c) {
                Some(w) => {
                    proof {
                        assert(s@.subrange(5, i + 1) =~= s@.subrange(5, i as int).push(c));
                        lemma_letters_value_push(s@.subrange(5, i as int), c);
                    }
                    alphabetic_part = alphabetic_part * LETTER_BASE + w;
                    if alphabetic_part > bound {
                        proof {
                            lemma_too_large(s@, i as int + 1);
                        }
                        return Err(ParseNcodeError {});
                    }
                },
                None => {
                    return Err(ParseNcodeError {});
                },
            }
            i += 1;
        }
        assert(s@.subrange(5, len as int) =~= s@.skip(5));
        let total: u64 = number_part as u64 + alphabetic_part as u64 * LOW_MODULUS as u64;
        if total > u32::MAX as u64 {
            return Err(ParseNcodeError {});
        }
        Ok(Ncode { value: total as u32 })
    }
}

/// Every character of a code is ASCII, so no other text decodes.
proof fn lemma_non_ascii_rejected(s: Seq<char>)
    requires
        !is_ascii_chars(s),
    ensures
        decode_spec(s) is None,
{
    if is_well_formed(s) {
        assert forall|i: int| 0 <= i < s.len() implies '\0' <= #[trigger] s[i] <= '\u{7f}' by {
            if i >= 5 {
                assert(is_letter(s[i]));
            } else if i >= 1 {
                assert(is_digit(s[i]));
            } else {
                assert(is_marker(s[i]));
            }
        }
    }
}

/// Once the letters read so far are worth more than a 32-bit identifier
/// allows, so is the whole text.
proof fn lemma_too_large(s: Seq<char>, k: int)
    requires
        5 <= k <= s.len(),
        letters_value(s.subrange(5, k)) > u32::MAX / 9999,
    ensures
        decode_spec(s) is None,
{
    lemma_letters_value_prefix(s.skip(5), k - 5);
    assert(s.skip(5).take(k - 5) =~= s.subrange(5, k));
}

impl std::str::FromStr for Ncode {
    type Err = ParseNcodeError;

    fn from_str(s: &str) -> (r: Result<Ncode, ParseNcodeError>)
        ensures
            match r {
                Ok(c) => decode_spec(s@) == Some(c@),
                Err(_) => decode_spec(s@) is None,
            },
    {
        Ncode::decode(s)
    }
}

impl From<Ncode> for String {
    fn from(x: Ncode) -> (r: String)
        ensures
            r@ == encode_spec(x@),
    {
        x.to_string()
    }
}

/// A `String` is fixed by more than its characters, so no single value
/// stands for the result here; the `ensures` of `from` gives its text.
impl vstd::std_specs::convert::FromSpecImpl<Ncode> for String {
    open spec fn obeys_from_spec() -> bool {
        false
    }

    open spec fn from_spec(v: Ncode) -> String {
        choose|s: String| s@ == encode_spec(v@)
    }
}

impl ParseNcodeError {
    /// The name of the error, for display.
    pub fn to_string(&self) -> (r: String)
        ensures
            r@ == "ParseNcodeError"@,
    {
        String::from_str("ParseNcodeError")
    }
}

} // verus!
