use food_journal::token::Numeral;

#[test]
fn parse_accepts_json_numbers() {
    for text in [
        "0", "7", "10", "1234567890", "-0", "-12", "1.5", "0.25", "-0.5", "100.0", "1e5", "1E5",
        "1e+5", "1e-5", "1.5e10", "-1.25E-7", "0e0", "18446744073709551616", "0.000",
    ] {
        let n = Numeral::parse(text).unwrap_or_else(|| panic!("{text:?}"));
        assert_eq!(n.as_str(), text);
    }
}

#[test]
fn parse_refuses_what_is_no_json_number() {
    for text in [
        "", "-", "+1", "01", "00", "-01", "1.", ".5", "1.e5", "1e", "1e+", "1e-", "e5", "1.5.2",
        "1e5e5", "0x10", "1 ", " 1", "1,5", "NaN", "Infinity", "1_000", "١", "--1", "1-",
        "1e5.5", "1.5e", "1a",
    ] {
        assert!(Numeral::parse(text).is_none(), "{text:?}");
    }
}

#[test]
fn from_u64_writes_the_shortest_numeral() {
    assert_eq!(Numeral::from_u64(0).as_str(), "0");
    assert_eq!(Numeral::from_u64(9).as_str(), "9");
    assert_eq!(Numeral::from_u64(10).as_str(), "10");
    assert_eq!(Numeral::from_u64(1709300000000).as_str(), "1709300000000");
    assert_eq!(Numeral::from_u64(u64::MAX).as_str(), "18446744073709551615");
}

#[test]
fn to_u64_reads_the_shortest_numerals_only() {
    assert_eq!(Numeral::parse("0").unwrap().to_u64(), Some(0));
    assert_eq!(Numeral::parse("42").unwrap().to_u64(), Some(42));
    assert_eq!(Numeral::parse("18446744073709551615").unwrap().to_u64(), Some(u64::MAX));
    assert_eq!(Numeral::parse("18446744073709551616").unwrap().to_u64(), None);
    assert_eq!(Numeral::parse("99999999999999999999").unwrap().to_u64(), None);
    assert_eq!(Numeral::parse("-1").unwrap().to_u64(), None);
    assert_eq!(Numeral::parse("-0").unwrap().to_u64(), None);
    assert_eq!(Numeral::parse("1.0").unwrap().to_u64(), None);
    assert_eq!(Numeral::parse("1e2").unwrap().to_u64(), None);
}

#[test]
fn numerals_round_trip_through_u64() {
    for n in [0u64, 1, 9, 10, 11, 99, 100, 12345, 1 << 32, u64::MAX - 1, u64::MAX] {
        assert_eq!(Numeral::from_u64(n).to_u64(), Some(n));
        assert_eq!(Numeral::from_u64(n).as_str(), n.to_string());
    }
}

#[test]
fn clone_keeps_the_characters() {
    let n = Numeral::parse("-12.50e+3").unwrap();
    assert_eq!(n.clone(), n);
    assert_eq!(n.clone().as_str(), "-12.50e+3");
}
