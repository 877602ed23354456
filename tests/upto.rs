use lat::upto::{parse_upto, UptoError, UptoUnit};

#[test]
fn parse_tokens() {
    let result = parse_upto("100t").unwrap();
    assert!(matches!(result, UptoUnit::Tokens(100)));
}

#[test]
fn parse_characters() {
    let result = parse_upto("500c").unwrap();
    assert!(matches!(result, UptoUnit::Characters(500)));
}

#[test]
fn parse_lines() {
    let result = parse_upto("50l").unwrap();
    assert!(matches!(result, UptoUnit::Lines(50)));
}

#[test]
fn parse_with_whitespace() {
    let result = parse_upto("  200l  ").unwrap();
    assert!(matches!(result, UptoUnit::Lines(200)));
}

#[test]
fn parse_invalid_unit() {
    let result = parse_upto("100x");
    assert!(result.is_err());
    assert!(result.unwrap_err().message().contains("unknown unit"));
}

#[test]
fn parse_invalid_number() {
    let result = parse_upto("abcl");
    assert!(result.is_err());
    assert!(result.unwrap_err().message().contains("invalid number"));
}

#[test]
fn parse_empty() {
    let result = parse_upto("");
    assert!(result.is_err());
    assert!(result.unwrap_err().message().contains("empty"));
}

#[test]
fn encode_each_unit() {
    assert_eq!(UptoUnit::Tokens(100).to_string(), "100t");
    assert_eq!(UptoUnit::Characters(500).to_string(), "500c");
    assert_eq!(UptoUnit::Lines(50).to_string(), "50l");
    assert_eq!(UptoUnit::Lines(0).to_string(), "0l");
    assert_eq!(UptoUnit::Tokens(usize::MAX).to_string(), format!("{}t", usize::MAX));
}

#[test]
fn round_trip_canonical_literals() {
    for s in ["0t", "7c", "100l", "123456789t", "10c"] {
        assert_eq!(parse_upto(s).unwrap().to_string(), s);
    }
    let max = format!("{}l", usize::MAX);
    assert_eq!(parse_upto(&max).unwrap().to_string(), max);
}

#[test]
fn round_trip_from_value() {
    for u in [UptoUnit::Tokens(0), UptoUnit::Characters(42), UptoUnit::Lines(9_999)] {
        assert_eq!(parse_upto(&u.to_string()), Ok(u));
    }
}

#[test]
fn leading_zeros_are_not_canonical() {
    assert_eq!(parse_upto("007t"), Ok(UptoUnit::Tokens(7)));
    assert_eq!(parse_upto("007t").unwrap().to_string(), "7t");
}

#[test]
fn blank_text_is_invalid_format() {
    assert_eq!(parse_upto(""), Err(UptoError::InvalidFormat));
    assert_eq!(parse_upto(" \t\n "), Err(UptoError::InvalidFormat));
    assert_eq!(UptoError::InvalidFormat.message(), "empty upto value");
}

#[test]
fn non_numeric_prefix_is_invalid_number() {
    assert_eq!(parse_upto("abcl"), Err(UptoError::InvalidNumber("abc".to_string())));
    assert_eq!(parse_upto("l"), Err(UptoError::InvalidNumber(String::new())));
    assert_eq!(parse_upto("-5t"), Err(UptoError::InvalidNumber("-5".to_string())));
    assert_eq!(parse_upto("1 0t"), Err(UptoError::InvalidNumber("1 0".to_string())));
    assert_eq!(parse_upto("abcx"), Err(UptoError::InvalidNumber("abc".to_string())));
    assert_eq!(
        parse_upto("99999999999999999999999t"),
        Err(UptoError::InvalidNumber("99999999999999999999999".to_string()))
    );
    assert_eq!(
        UptoError::InvalidNumber("abc".to_string()).message(),
        "invalid number: abc"
    );
}

#[test]
fn unknown_suffix_is_invalid_unit() {
    assert_eq!(parse_upto("100x"), Err(UptoError::InvalidUnit('x')));
    assert_eq!(parse_upto("12"), Err(UptoError::InvalidUnit('2')));
    assert_eq!(parse_upto("5T"), Err(UptoError::InvalidUnit('T')));
    assert_eq!(parse_upto("5é"), Err(UptoError::InvalidUnit('é')));
    assert_eq!(
        UptoError::InvalidUnit('x').message(),
        "unknown unit 'x', expected t/c/l"
    );
}

#[test]
fn plus_sign_is_accepted_like_from_str() {
    assert_eq!(parse_upto("+5t"), Ok(UptoUnit::Tokens(5)));
    assert_eq!(parse_upto("+t"), Err(UptoError::InvalidNumber("+".to_string())));
}

#[test]
fn unicode_white_space_is_trimmed() {
    assert_eq!(parse_upto("\u{3000}20c\u{a0}"), Ok(UptoUnit::Characters(20)));
}
