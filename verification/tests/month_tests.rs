use textutil::month::{parse_month, Month};

#[test]
fn date_test_parse_month() {
    let res = parse_month("1");
    assert!(res.is_ok());
    assert_eq!(res.unwrap(), 1);

    let res = parse_month("12");
    assert!(res.is_ok());
    assert_eq!(res.unwrap(), 12);

    let res = parse_month("jan");
    assert!(res.is_ok());
    assert_eq!(res.unwrap(), 1);

    let res = parse_month("0");
    assert!(res.is_err());
    assert_eq!(
        res.unwrap_err().message(),
        r#"month "0" not in the range 1 through 12"#
    );

    let res = parse_month("13");
    assert!(res.is_err());
    assert_eq!(
        res.unwrap_err().message(),
        r#"month "13" not in the range 1 through 12"#
    );

    let res = parse_month("foo");
    assert!(res.is_err());
    assert_eq!(res.unwrap_err().message(), r#"Invalid month "foo""#);
}

#[test]
fn month_test_parse_month() {
    let res = Month::parse("1");
    assert!(res.is_ok());
    assert_eq!(res.unwrap(), Month::new(1));

    let res = Month::parse("12");
    assert!(res.is_ok());
    assert_eq!(res.unwrap(), Month::new(12));

    let res = Month::parse("jan");
    assert!(res.is_ok());
    assert_eq!(res.unwrap(), Month::new(1));

    let res = Month::parse("0");
    assert!(res.is_err());
    assert_eq!(
        res.unwrap_err().message(),
        "month \"0\" not in the range 1 through 12"
    );

    let res = Month::parse("13");
    assert!(res.is_err());
    assert_eq!(
        res.unwrap_err().message(),
        "month \"13\" not in the range 1 through 12"
    );

    let res = Month::parse("invalid");
    assert!(res.is_err());
    assert_eq!(res.unwrap_err().message(), "Invalid month \"invalid\"");
}

#[test]
fn test_parse_month_case_folding() {
    // Upper-case input folds before matching; a wrapper that handed its
    // argument back unchanged would match nothing here.
    assert_eq!(parse_month("JAN").unwrap(), 1);
    assert_eq!(parse_month("December").unwrap(), 12);
    // "ju" names two months, "j" three: ambiguous either way.
    assert!(parse_month("ju").is_err());
    assert!(parse_month("j").is_err());
    // "may" matches exactly one.
    assert_eq!(parse_month("MAY").unwrap(), 5);
    // A plus-signed number parses numerically.
    assert_eq!(parse_month("+5").unwrap(), 5);
    // A huge number is not numeric for u32 and names no month.
    assert!(parse_month("99999999999").is_err());
    // Month numbers round-trip through the wrapper type.
    assert_eq!(Month::new(7).value(), 7);
}
