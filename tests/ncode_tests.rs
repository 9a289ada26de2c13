use ncode::{char_weight, Ncode, ParseNcodeError};

#[test]
fn it_works() {
    let n = Ncode::from(530947u32);
    assert_eq!(n.as_ref(), &530947u32);
    assert_eq!(n.to_string(), "n1000cb");

    let n: Ncode = "n1000cb".parse().unwrap();
    assert_eq!(n.as_ref(), &530947u32);
    assert_eq!(n.to_string(), "n1000cb");

    let n: Ncode = "N1000CB".parse().unwrap();
    assert_eq!(n.as_ref(), &530947u32);
    assert_eq!(n.to_string(), "n1000cb");
}

#[test]
fn concrete_vectors() {
    assert_eq!(Ncode::from(530947u32).to_string(), "n1000cb");
    assert_eq!(Ncode::decode("N1000CB"), Ok(Ncode::from(530947u32)));
    assert_eq!(Ncode::decode("n1000cb"), Ok(Ncode::from(530947u32)));
    assert_eq!(Ncode::from(0u32).to_string(), "n0000");
    assert_eq!(Ncode::decode("n0000"), Ok(Ncode::from(0u32)));
}

#[test]
fn round_trip_on_chosen_values() {
    let values: Vec<u32> = vec![
        0, 1, 9, 10, 999, 9998, 9999, 10000, 19997, 19998, 259974, 259975, 530947,
        1_000_000, 123_456_789, u32::MAX - 1, u32::MAX,
    ];
    for v in values {
        let text = Ncode::from(v).to_string();
        assert_eq!(Ncode::decode(&text), Ok(Ncode::from(v)), "{}", text);
    }
}

#[test]
fn round_trip_over_a_range() {
    let mut v: u32 = 0;
    while v < 3_000_000 {
        let text = Ncode::from(v).to_string();
        assert_eq!(Ncode::decode(&text).map(|c| c.value()), Ok(v));
        v += 7;
    }
}

#[test]
fn canonical_form() {
    for v in [0u32, 9998, 9999, 530947, 4_000_000_000, u32::MAX] {
        let text = Ncode::from(v).to_string();
        let chars: Vec<char> = text.chars().collect();
        assert!(chars.len() >= 5);
        assert_eq!(chars[0], 'n');
        assert!(chars[1..5].iter().all(|c| c.is_ascii_digit()));
        assert!(chars[5..].iter().all(|c| c.is_ascii_lowercase()));
    }
}

#[test]
fn case_does_not_matter() {
    for s in ["n1000cb", "N1000cB", "n0000", "n0123abz", "nabc"] {
        assert_eq!(Ncode::decode(s), Ncode::decode(&s.to_uppercase()));
        assert_eq!(Ncode::decode(s), Ncode::decode(&s.to_lowercase()));
    }
}

#[test]
fn suffix_only_from_9999() {
    assert_eq!(Ncode::from(9998u32).to_string(), "n9998");
    assert_eq!(Ncode::from(9999u32).to_string(), "n0000b");
    assert_eq!(Ncode::from(10000u32).to_string(), "n0001b");
    assert_eq!(Ncode::from(9999u32 * 26).to_string(), "n0000ba");
}

#[test]
fn rejects_malformed_text() {
    assert_eq!(Ncode::decode(""), Err(ParseNcodeError {}));
    assert_eq!(Ncode::decode("x1000cb"), Err(ParseNcodeError {}));
    assert_eq!(Ncode::decode("n12"), Err(ParseNcodeError {}));
    assert_eq!(Ncode::decode("n1000c2"), Err(ParseNcodeError {}));
    assert_eq!(Ncode::decode("n"), Err(ParseNcodeError {}));
    assert_eq!(Ncode::decode("n12a4"), Err(ParseNcodeError {}));
    assert_eq!(Ncode::decode(" n1000cb"), Err(ParseNcodeError {}));
    assert_eq!(Ncode::decode("n1000cb "), Err(ParseNcodeError {}));
    assert_eq!(Ncode::decode("n1000cé"), Err(ParseNcodeError {}));
    assert!("x1000cb".parse::<Ncode>().is_err());
}

#[test]
fn digit_part_9999_is_accepted() {
    let n = Ncode::decode("n9999").unwrap();
    assert_eq!(n.value(), 9999);
    assert_eq!(n.to_string(), "n0000b");
}

#[test]
fn rejects_numbers_beyond_32_bits() {
    let top = Ncode::from(u32::MAX).to_string();
    assert!(top.starts_with("n6834"));
    assert_eq!(Ncode::decode(&top), Ok(Ncode::from(u32::MAX)));
    let past = top.replacen("n6834", "n6835", 1);
    assert_eq!(Ncode::decode(&past), Err(ParseNcodeError {}));
    assert_eq!(Ncode::decode("nzzzzzzzzzzzzzz"), Err(ParseNcodeError {}));
}

#[test]
fn leading_a_letters_weigh_nothing() {
    assert_eq!(Ncode::decode("n0000aaab"), Ok(Ncode::from(9999u32)));
}

#[test]
fn ordering_follows_numbers() {
    let a = Ncode::from(3u32);
    let b = Ncode::from(530947u32);
    assert!(a < b);
    assert!(b > a);
    assert!(!(b < a));
    assert!(a <= Ncode::from(3u32));
    assert_eq!(a.cmp(&b), std::cmp::Ordering::Less);
    assert_ne!(a, b);
}

#[test]
fn conversions_to_plain_values() {
    let n = Ncode::from(530947u32);
    assert_eq!(u32::from(n), 530947);
    assert_eq!(String::from(n), "n1000cb");
    assert_eq!(n.value(), 530947);
}

#[test]
fn letter_weights() {
    assert_eq!(char_weight('a'), Some(0));
    assert_eq!(char_weight('A'), Some(0));
    assert_eq!(char_weight('z'), Some(25));
    assert_eq!(char_weight('Z'), Some(25));
    assert_eq!(char_weight('c'), Some(2));
    assert_eq!(char_weight('5'), None);
    assert_eq!(char_weight('-'), None);
}

#[test]
fn error_has_a_name() {
    assert_eq!(ParseNcodeError {}.to_string(), "ParseNcodeError");
}
