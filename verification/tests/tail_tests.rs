use textutil::tail::{
    count_lines_bytes, file_tail, get_start_index, header_line, prints_header, tail_bytes,
    tail_lines, wants_output, TailConfig, TakeValue,
};

#[test]
fn works() {
    assert!(true);
}

#[test]
fn test_parse_num() {
    // Every bare integer is read as a negative count.
    let res = TakeValue::parse("3");
    assert!(res.is_ok());
    assert_eq!(res.unwrap(), TakeValue::TakeNum(-3));

    // A leading "+" makes it positive.
    let res = TakeValue::parse("+3");
    assert!(res.is_ok());
    assert_eq!(res.unwrap(), TakeValue::TakeNum(3));

    // An explicit "-" stays negative.
    let res = TakeValue::parse("-3");
    assert!(res.is_ok());
    assert_eq!(res.unwrap(), TakeValue::TakeNum(-3));

    // Zero is zero.
    let res = TakeValue::parse("0");
    assert!(res.is_ok());
    assert_eq!(res.unwrap(), TakeValue::TakeNum(0));

    // "+0" is special.
    let res = TakeValue::parse("+0");
    assert!(res.is_ok());
    assert_eq!(res.unwrap(), TakeValue::PlusZero);

    // Boundary values.
    let res = TakeValue::parse(&i64::MAX.to_string());
    assert!(res.is_ok());
    assert_eq!(res.unwrap(), TakeValue::TakeNum(i64::MIN + 1));

    let res = TakeValue::parse(&(i64::MIN + 1).to_string());
    assert!(res.is_ok());
    assert_eq!(res.unwrap(), TakeValue::TakeNum(i64::MIN + 1));

    let res = TakeValue::parse(&format!("+{}", i64::MAX));
    assert!(res.is_ok());
    assert_eq!(res.unwrap(), TakeValue::TakeNum(i64::MAX));

    let res = TakeValue::parse(&i64::MIN.to_string());
    assert!(res.is_ok());
    assert_eq!(res.unwrap(), TakeValue::TakeNum(i64::MIN));

    // Floating-point values are invalid.
    let res = TakeValue::parse("3.14");
    assert!(res.is_err());
    assert_eq!(res.unwrap_err().text, "3.14");

    // Any non-integer string is invalid.
    let res = TakeValue::parse("abc");
    assert!(res.is_err());
    assert_eq!(res.unwrap_err().text, "abc");
}

#[test]
fn test_parse_num_more_boundaries() {
    // One past the minimum magnitude cannot be represented.
    let res = TakeValue::parse("-9223372036854775809");
    assert!(res.is_err());
    assert_eq!(res.unwrap_err().text, "-9223372036854775809");

    // A bare magnitude one past i64::MAX fails before negation.
    let res = TakeValue::parse("9223372036854775808");
    assert!(res.is_err());

    // An empty string and lone signs are invalid.
    assert!(TakeValue::parse("").is_err());
    assert!(TakeValue::parse("+").is_err());
    assert!(TakeValue::parse("-").is_err());
}

#[test]
fn test_parse_sign_inversion_cases() {
    // Parsing "5" and "-5" agree; "+5" is distinct and positive.
    assert_eq!(
        TakeValue::parse("5").unwrap(),
        TakeValue::parse("-5").unwrap()
    );
    assert_eq!(TakeValue::parse("5").unwrap(), TakeValue::TakeNum(-5));
    assert_eq!(TakeValue::parse("+5").unwrap(), TakeValue::TakeNum(5));
    assert_ne!(
        TakeValue::parse("+5").unwrap(),
        TakeValue::parse("5").unwrap()
    );
}

#[test]
fn test_get_start_index() {
    assert_eq!(get_start_index(&TakeValue::PlusZero, 0), None);
    assert_eq!(get_start_index(&TakeValue::PlusZero, 1), Some(0));
    assert_eq!(get_start_index(&TakeValue::TakeNum(0), 1), None);
    assert_eq!(get_start_index(&TakeValue::TakeNum(1), 0), None);
    assert_eq!(get_start_index(&TakeValue::TakeNum(2), 1), None);
    assert_eq!(get_start_index(&TakeValue::TakeNum(1), 10), Some(0));
    assert_eq!(get_start_index(&TakeValue::TakeNum(2), 10), Some(1));
    assert_eq!(get_start_index(&TakeValue::TakeNum(3), 10), Some(2));

    assert_eq!(get_start_index(&TakeValue::TakeNum(-1), 10), Some(9));
    assert_eq!(get_start_index(&TakeValue::TakeNum(-2), 10), Some(8));
    assert_eq!(get_start_index(&TakeValue::TakeNum(-3), 10), Some(7));

    assert_eq!(get_start_index(&TakeValue::TakeNum(-11), 10), Some(0));
}

fn one_line() -> Vec<u8> {
    // One line, 24 bytes in all.
    b"abcdefghijklmnopqrstuvw\n".to_vec()
}

fn twelve_lines() -> (Vec<u8>, Vec<u8>) {
    // Twelve lines totalling 63 bytes; also returns the last ten lines.
    let mut data = Vec::new();
    for i in 1..=11 {
        data.extend_from_slice(format!("{:04}\n", i).as_bytes());
    }
    data.extend_from_slice(b"1234567\n");
    let mut last_ten = Vec::new();
    for i in 3..=11 {
        last_ten.extend_from_slice(format!("{:04}\n", i).as_bytes());
    }
    last_ten.extend_from_slice(b"1234567\n");
    (data, last_ten)
}

#[test]
fn test_count_lines_bytes() {
    assert_eq!(count_lines_bytes(&one_line()), (1, 24));
    let (twelve, _) = twelve_lines();
    assert_eq!(count_lines_bytes(&twelve), (12, 63));
    assert_eq!(count_lines_bytes(b""), (0, 0));
    // A final unterminated fragment is not an extra line.
    assert_eq!(count_lines_bytes(b"ab\ncd"), (1, 5));
}

#[test]
fn test_tail_lines_round_trip() {
    // Extracting from offset zero reproduces the source byte for byte.
    let (twelve, _) = twelve_lines();
    assert_eq!(tail_lines(&twelve, Some(0)), twelve);
    assert_eq!(tail_bytes(&twelve, Some(0)), twelve);
    let raw = b"no terminator at all";
    assert_eq!(tail_lines(raw, Some(0)), raw.to_vec());
    assert_eq!(tail_bytes(raw, Some(0)), raw.to_vec());
}

#[test]
fn test_tail_extraction() {
    let data = b"one\ntwo\nthree\n".to_vec();
    assert_eq!(tail_lines(&data, None), b"".to_vec());
    assert_eq!(tail_lines(&data, Some(1)), b"two\nthree\n".to_vec());
    assert_eq!(tail_lines(&data, Some(2)), b"three\n".to_vec());
    assert_eq!(tail_bytes(&data, None), b"".to_vec());
    assert_eq!(tail_bytes(&data, Some(4)), b"two\nthree\n".to_vec());
    assert_eq!(tail_bytes(&data, Some(14)), b"".to_vec());
}

#[test]
fn test_scenario_last_ten_of_twelve() {
    // A 12-line, 63-byte source with the default count "10".
    let (twelve, last_ten) = twelve_lines();
    let count = TakeValue::parse("10").unwrap();
    assert_eq!(count, TakeValue::TakeNum(-10));
    let (total_lines, total_bytes) = count_lines_bytes(&twelve);
    assert_eq!((total_lines, total_bytes), (12, 63));
    let offset = get_start_index(&count, total_lines);
    assert_eq!(offset, Some(2));
    assert_eq!(tail_lines(&twelve, offset), last_ten);
}

#[test]
fn test_scenario_plus_zero_whole_file() {
    // A 1-line, 24-byte source with the count "+0".
    let data = one_line();
    let count = TakeValue::parse("+0").unwrap();
    assert_eq!(count, TakeValue::PlusZero);
    let (total_lines, total_bytes) = count_lines_bytes(&data);
    assert_eq!((total_lines, total_bytes), (1, 24));
    let offset = get_start_index(&count, total_lines);
    assert_eq!(offset, Some(0));
    assert_eq!(tail_lines(&data, offset), data);
}

#[test]
fn test_scenario_empty_source() {
    // An empty source yields no offset and no output for any count.
    let data: Vec<u8> = Vec::new();
    let (total_lines, total_bytes) = count_lines_bytes(&data);
    assert_eq!((total_lines, total_bytes), (0, 0));
    for tv in [TakeValue::TakeNum(3), TakeValue::PlusZero] {
        let offset = get_start_index(&tv, total_lines);
        assert_eq!(offset, None);
        assert_eq!(tail_lines(&data, offset), b"".to_vec());
        assert_eq!(tail_bytes(&data, offset), b"".to_vec());
    }
    // A negative count clamps to the start of the source, where an empty
    // source still yields nothing.
    let offset = get_start_index(&TakeValue::TakeNum(-7), total_lines);
    assert_eq!(offset, Some(0));
    assert_eq!(tail_lines(&data, offset), b"".to_vec());
    assert_eq!(tail_bytes(&data, offset), b"".to_vec());
}

#[test]
fn test_scenario_header_and_error_isolation() {
    // Two files with headers enabled: the readable first file still
    // produces its header and output even though the second cannot be
    // read; the driver reports the second and carries on.
    let config = TailConfig {
        lines: TakeValue::TakeNum(-10),
        bytes: None,
        quiet: false,
    };
    let num_files = 2;
    assert!(prints_header(&config, num_files));
    assert_eq!(header_line("a.txt"), "==> a.txt <==");
    let first = b"alpha\nbeta\n".to_vec();
    assert_eq!(file_tail(&config, &first), first);
}

#[test]
fn test_wants_output() {
    let quiet_zero = TailConfig {
        lines: TakeValue::TakeNum(0),
        bytes: None,
        quiet: false,
    };
    assert!(!wants_output(&quiet_zero));
    let byte_zero = TailConfig {
        lines: TakeValue::TakeNum(-10),
        bytes: Some(TakeValue::TakeNum(0)),
        quiet: false,
    };
    assert!(!wants_output(&byte_zero));
    let normal = TailConfig {
        lines: TakeValue::TakeNum(-10),
        bytes: None,
        quiet: false,
    };
    assert!(wants_output(&normal));
}

#[test]
fn test_file_tail_byte_mode() {
    let data = b"one\ntwo\nthree\n".to_vec();
    let config = TailConfig {
        lines: TakeValue::TakeNum(-10),
        bytes: Some(TakeValue::TakeNum(-6)),
        quiet: true,
    };
    assert_eq!(file_tail(&config, &data), b"three\n".to_vec());
}
