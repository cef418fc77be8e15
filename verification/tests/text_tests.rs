use rufl::Integer;
use rufl::Error;

fn si(v: i64) -> Integer {
    Integer::from_small_signed(v)
}

#[test]
fn binary_rendering() {
    assert_eq!(si(1024).to_str_radix(2), "10000000000");
    assert_eq!(si(-5).to_str_radix(2), "-101");
}

#[test]
fn hexadecimal_uses_lower_case() {
    assert_eq!(si(255).to_str_radix(16), "ff");
    assert_eq!(si(-255).to_str_radix(16), "-ff");
    assert_eq!(si(3735928559).to_str_radix(16), "deadbeef");
}

#[test]
fn high_radix_alphabet() {
    // up to radix 36 digits above nine are lower-case letters
    assert_eq!(si(35).to_str_radix(36), "z");
    assert_eq!(si(10).to_str_radix(36), "a");
    // from radix 37 on, upper-case letters come first, then lower-case
    assert_eq!(si(10).to_str_radix(62), "A");
    assert_eq!(si(35).to_str_radix(62), "Z");
    assert_eq!(si(36).to_str_radix(62), "a");
    assert_eq!(si(61).to_str_radix(62), "z");
}

#[test]
fn round_trip_many_radices() {
    let values = ["0", "1", "-1", "255", "-255", "18446744073709551616",
        "-123456789012345678901234567890", "36893488147419103232"];
    for text in values {
        let x = Integer::parse(text, 10).unwrap();
        for radix in [2u8, 3, 10, 16, 36, 37, 61, 62] {
            let s = x.to_str_radix(radix);
            let back = Integer::parse(&s, radix).unwrap();
            assert_eq!(back, x, "radix {radix} text {s}");
        }
    }
}

#[test]
fn parse_case_insensitive_below_37() {
    assert_eq!(Integer::parse("FF", 16).unwrap(), si(255));
    assert_eq!(Integer::parse("ff", 16).unwrap(), si(255));
    assert_eq!(Integer::parse("Z", 36).unwrap(), si(35));
    assert_eq!(Integer::parse("z", 36).unwrap(), si(35));
    // above radix 36 case decides the value
    assert_eq!(Integer::parse("A", 62).unwrap(), si(10));
    assert_eq!(Integer::parse("a", 62).unwrap(), si(36));
}

#[test]
fn parse_rejects_malformed_input() {
    assert_eq!(Integer::parse("", 10), Err(Error::ParseError));
    assert_eq!(Integer::parse("-", 10), Err(Error::ParseError));
    assert_eq!(Integer::parse("12-3", 10), Err(Error::ParseError));
    assert_eq!(Integer::parse("abc", 10), Err(Error::ParseError));
    assert_eq!(Integer::parse("7f", 10), Err(Error::ParseError));
    assert_eq!(Integer::parse("2", 2), Err(Error::ParseError));
    assert_eq!(Integer::parse(" 1", 10), Err(Error::ParseError));
    assert_eq!(Integer::parse("--1", 10), Err(Error::ParseError));
}

#[test]
fn parse_accepts_redundant_leading_zeros() {
    assert_eq!(Integer::parse("0010", 10).unwrap(), si(10));
    assert_eq!(Integer::parse("-007", 10).unwrap(), si(-7));
    assert_eq!(Integer::parse("00", 10).unwrap(), Integer::zero());
}

#[test]
fn parse_base_16_value() {
    assert_eq!(Integer::parse("7f", 16).unwrap(), si(127));
    assert_eq!(Integer::parse("-10", 16).unwrap(), si(-16));
}

#[test]
fn zero_renders_as_single_digit() {
    for radix in [2u8, 10, 62] {
        assert_eq!(Integer::zero().to_str_radix(radix), "0");
    }
}
