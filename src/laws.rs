//! Properties that relate encoding, decoding and ordering.
use vstd::prelude::*;

use vstd::std_specs::cmp::PartialOrdIs;
use vstd::std_specs::convert::FromSpec;

use crate::ncode::Ncode;
use crate::text::{
    ascii_lower, ascii_upper, decode_spec, digit_char, digit_value, digits_value, encode_spec,
    is_canonical, is_digit, is_well_formed, is_letter, is_lower, is_marker, is_upper, letter_char, letter_suffix,
    letter_value, letters_value, lower_text, upper_text, zero_padded,
};

verus! {

spec fn pow10(w: nat) -> nat
    decreases w,
{
    if w == 0 {
        1
    } else {
        10 * pow10((w - 1) as nat)
    }
}

proof fn lemma_zero_padded(v: nat, w: nat)
    requires
        v < pow10(w),
    ensures
        zero_padded(v, w).len() == w,
        forall|i: int| 0 <= i < w ==> is_digit(#[trigger] zero_padded(v, w)[i]),
        digits_value(zero_padded(v, w)) == v,
    decreases w,
{
    if w > 0 {
        let d = v % 10;
        lemma_zero_padded(v / 10, (w - 1) as nat);
        let prefix = zero_padded(v / 10, (w - 1) as nat);
        assert(zero_padded(v, w) == prefix.push(digit_char(d)));
        assert(zero_padded(v, w).drop_last() =~= prefix);
        assert(is_digit(digit_char(d)) && digit_value(digit_char(d)) == d);
    }
}

proof fn lemma_letter_suffix(r: nat)
    ensures
        forall|i: int| 0 <= i < letter_suffix(r).len() ==> is_lower(#[trigger] letter_suffix(r)[i]),
        letters_value(letter_suffix(r)) == r,
        letter_suffix(r).len() == 0 <==> r == 0,
    decreases r,
{
    if r > 0 {
        let d = r % 26;
        lemma_letter_suffix(r / 26);
        let prefix = letter_suffix(r / 26);
        assert(letter_suffix(r).drop_last() =~= prefix);
        assert(is_lower(letter_char(d)) && letter_value(letter_char(d)) == d);
    }
}

/// How the canonical text of `n` is laid out, piece by piece.
proof fn lemma_encode_parts(n: u32)
    ensures
        encode_spec(n).len() == 5 + letter_suffix((n / 9999) as nat).len(),
        encode_spec(n)[0] == 'n',
        encode_spec(n).subrange(1, 5) == zero_padded((n % 9999) as nat, 4),
        encode_spec(n).skip(5) == letter_suffix((n / 9999) as nat),
        forall|i: int| 1 <= i < 5 ==> is_digit(#[trigger] encode_spec(n)[i]),
        forall|i: int| 5 <= i < encode_spec(n).len() ==> is_lower(#[trigger] encode_spec(n)[i]),
        digits_value(zero_padded((n % 9999) as nat, 4)) == n % 9999,
        letters_value(letter_suffix((n / 9999) as nat)) == n / 9999,
{
    let low = (n % 9999) as nat;
    let high = (n / 9999) as nat;
    reveal_with_fuel(pow10, 5);
    assert(pow10(4) == 10000);
    lemma_zero_padded(low, 4);
    lemma_letter_suffix(high);
    let e = encode_spec(n);
    let digits = zero_padded(low, 4);
    let letters = letter_suffix(high);
    assert(e.subrange(1, 5) =~= digits);
    assert(e.skip(5) =~= letters);
    assert forall|i: int| 1 <= i < 5 implies is_digit(#[trigger] e[i]) by {
        assert(e[i] == digits[i - 1]);
    }
    assert forall|i: int| 5 <= i < e.len() implies is_lower(#[trigger] e[i]) by {
        assert(e[i] == letters[i - 5]);
    }
}

/// Decoding the canonical text of any identifier gives that identifier back.
pub proof fn lemma_round_trip(n: u32)
    ensures
        decode_spec(encode_spec(n)) == Some(n),
{
    lemma_encode_parts(n);
}

/// The canonical text is always `n`, four decimal digits, then lowercase
/// letters only.
pub proof fn lemma_encode_canonical(n: u32)
    ensures
        is_canonical(encode_spec(n)),
{
    lemma_encode_parts(n);
}

/// The canonical text ends right after its four digits exactly when the
/// identifier is below 9999.
pub proof fn lemma_no_suffix_iff_small(n: u32)
    ensures
        (encode_spec(n).len() == 5) <==> (n / 9999 == 0),
{
    lemma_encode_parts(n);
}

/// Two characters play the same part in a code.
spec fn same_role(a: char, b: char) -> bool {
    &&& is_marker(a) <==> is_marker(b)
    &&& is_digit(a) <==> is_digit(b)
    &&& is_digit(a) ==> a == b
    &&& is_letter(a) <==> is_letter(b)
    &&& is_letter(a) ==> letter_value(a) == letter_value(b)
}

proof fn lemma_letters_value_same(s: Seq<char>, t: Seq<char>)
    requires
        s.len() == t.len(),
        forall|i: int| 0 <= i < s.len() ==> letter_value(#[trigger] s[i]) == letter_value(t[i]),
    ensures
        letters_value(s) == letters_value(t),
    decreases s.len(),
{
    if s.len() > 0 {
        lemma_letters_value_same(s.drop_last(), t.drop_last());
    }
}

/// Texts whose characters pair off in the same roles decode alike.
proof fn lemma_same_roles_decode_alike(s: Seq<char>, t: Seq<char>)
    requires
        s.len() == t.len(),
        forall|i: int| 0 <= i < s.len() ==> same_role(#[trigger] s[i], t[i]),
    ensures
        decode_spec(s) == decode_spec(t),
{
    if s.len() >= 5 {
        assert(same_role(s[0], t[0]));
        if is_well_formed(s) {
            assert forall|i: int| 1 <= i < 5 implies is_digit(#[trigger] t[i]) by {
                assert(same_role(s[i], t[i]));
            }
            assert forall|i: int| 5 <= i < t.len() implies is_letter(#[trigger] t[i]) by {
                assert(same_role(s[i], t[i]));
            }
        }
        if is_well_formed(t) {
            assert forall|i: int| 1 <= i < 5 implies is_digit(#[trigger] s[i]) by {
                assert(same_role(s[i], t[i]));
            }
            assert forall|i: int| 5 <= i < s.len() implies is_letter(#[trigger] s[i]) by {
                assert(same_role(s[i], t[i]));
            }
        }
        assert(is_well_formed(s) == is_well_formed(t));
        if is_well_formed(s) {
            assert forall|i: int| 0 <= i < 4 implies #[trigger] s.subrange(1, 5)[i] == t.subrange(
                1,
                5,
            )[i] by {
                assert(same_role(s[i + 1], t[i + 1]));
            }
            assert(s.subrange(1, 5) =~= t.subrange(1, 5));
            assert forall|i: int| 0 <= i < s.skip(5).len() implies letter_value(
                #[trigger] s.skip(5)[i],
            ) == letter_value(t.skip(5)[i]) by {
                assert(same_role(s[i + 5], t[i + 5]));
            }
            lemma_letters_value_same(s.skip(5), t.skip(5));
        }
    }
}

proof fn lemma_upper_same_role(c: char)
    ensures
        same_role(c, ascii_upper(c)),
{
    if is_lower(c) {
        let u = ascii_upper(c);
        assert(u as nat == c as nat - 32);
        assert(is_marker(c) <==> is_marker(u));
    }
}

proof fn lemma_lower_same_role(c: char)
    ensures
        same_role(c, ascii_lower(c)),
{
    if is_upper(c) {
        let l = ascii_lower(c);
        assert(l as nat == c as nat + 32);
        assert(is_marker(c) <==> is_marker(l));
    }
}

/// Decoding ignores the case of the marker and of the letters: making every
/// ASCII letter of a text uppercase, or lowercase, never changes what it
/// decodes to, nor whether it decodes at all.
pub proof fn lemma_decode_ignores_case(s: Seq<char>)
    ensures
        decode_spec(upper_text(s)) == decode_spec(s),
        decode_spec(lower_text(s)) == decode_spec(s),
{
    assert forall|i: int| 0 <= i < s.len() implies same_role(
        #[trigger] s[i],
        upper_text(s)[i],
    ) by {
        lemma_upper_same_role(s[i]);
    }
    lemma_same_roles_decode_alike(s, upper_text(s));
    assert forall|i: int| 0 <= i < s.len() implies same_role(
        #[trigger] s[i],
        lower_text(s)[i],
    ) by {
        lemma_lower_same_role(s[i]);
    }
    lemma_same_roles_decode_alike(s, lower_text(s));
}

/// Identifiers are ordered as their numbers are: the one made from the
/// smaller number is the smaller one, and not the other way round.
pub proof fn lemma_order_follows_numbers(x: u32, y: u32)
    requires
        x < y,
    ensures
        Ncode::from_spec(x).is_lt(&Ncode::from_spec(y)),
        Ncode::from_spec(y).is_gt(&Ncode::from_spec(x)),
        !Ncode::from_spec(y).is_lt(&Ncode::from_spec(x)),
        Ncode::from_spec(x) != Ncode::from_spec(y),
{
}

/// Comparing two identifiers agrees with comparing their numbers.
pub proof fn lemma_order_matches_value(a: Ncode, b: Ncode)
    ensures
        a.is_lt(&b) <==> a@ < b@,
        a.is_le(&b) <==> a@ <= b@,
        a.is_gt(&b) <==> a@ > b@,
        a.is_ge(&b) <==> a@ >= b@,
        a == b <==> a@ == b@,
{
}

} // verus!
