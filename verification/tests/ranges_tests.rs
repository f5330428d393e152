use csv::StringRecord;
use textutil::ranges::ArgRangeList;

fn format_err_string(value: &str) -> String {
    format!("illegal list value: \"{}\"", value)
}

fn value_err_string(start: usize, end: usize) -> String {
    format!(
        "First number in range({}) must be lower than secound number ({})",
        start, end
    )
}

fn range_compare(list: ArgRangeList, expected: Vec<(usize, usize)>) {
    let ranges = list.ranges();
    assert_eq!(ranges.len(), expected.len());
    assert_eq!(ranges, expected);
}

#[test]
fn test_parse_pos() {
    // An empty string is an error.
    assert!(ArgRangeList::parse("").is_err());

    // Zero is an error.
    let v = "0";
    let res = ArgRangeList::parse(v);
    assert!(res.is_err());
    assert_eq!(res.unwrap_err().message(), format_err_string(v));

    let v = "0-1";
    let res = ArgRangeList::parse(v);
    assert!(res.is_err());
    assert_eq!(res.unwrap_err().message(), format_err_string("0"));

    // A leading "+" is an error.
    let v = "+1";
    let res = ArgRangeList::parse(v);
    assert!(res.is_err());
    assert_eq!(res.unwrap_err().message(), format_err_string(v));

    let v = "+1-2";
    let res = ArgRangeList::parse(v);
    assert!(res.is_err());
    assert_eq!(res.unwrap_err().message(), format_err_string(v));

    let v = "1-+2";
    let res = ArgRangeList::parse(v);
    assert!(res.is_err());
    assert_eq!(res.unwrap_err().message(), format_err_string(v));

    // Anything non-numeric is an error.
    let v = "a";
    let res = ArgRangeList::parse(v);
    assert!(res.is_err());
    assert_eq!(res.unwrap_err().message(), format_err_string(v));

    let v = "1,a";
    let res = ArgRangeList::parse(v);
    assert!(res.is_err());
    assert_eq!(res.unwrap_err().message(), format_err_string("a"));

    let v = "1-a";
    let res = ArgRangeList::parse(v);
    assert!(res.is_err());
    assert_eq!(res.unwrap_err().message(), format_err_string(v));

    let v = "a-1";
    let res = ArgRangeList::parse(v);
    assert!(res.is_err());
    assert_eq!(res.unwrap_err().message(), format_err_string(v));

    // Assorted malformed ranges.
    let v = "-";
    let res = ArgRangeList::parse(v);
    assert!(res.is_err());

    let v = ",";
    let res = ArgRangeList::parse(v);
    assert!(res.is_err());

    let v = "1,";
    let res = ArgRangeList::parse(v);
    assert!(res.is_err());

    let v = "1-";
    let res = ArgRangeList::parse(v);
    assert!(res.is_err());

    let v = "1-1-1";
    let res = ArgRangeList::parse(v);
    assert!(res.is_err());

    let v = "1-1-a";
    let res = ArgRangeList::parse(v);
    assert!(res.is_err());

    // The first number must be lower than the second.
    let v = "1-1";
    let res = ArgRangeList::parse(v);
    assert!(res.is_err());
    assert_eq!(res.unwrap_err().message(), value_err_string(1, 1));

    let v = "2-1";
    let res = ArgRangeList::parse(v);
    assert!(res.is_err());
    assert_eq!(res.unwrap_err().message(), value_err_string(2, 1));

    // All of the following are accepted.
    let v = "1";
    let res = ArgRangeList::parse(v);
    assert!(res.is_ok());
    range_compare(res.unwrap(), vec![(0, 1)]);

    let v = "01";
    let res = ArgRangeList::parse(v);
    assert!(res.is_ok());
    range_compare(res.unwrap(), vec![(0, 1)]);

    let v = "1,3";
    let res = ArgRangeList::parse(v);
    assert!(res.is_ok());
    range_compare(res.unwrap(), vec![(0, 1), (2, 3)]);

    let v = "001,0004";
    let res = ArgRangeList::parse(v);
    assert!(res.is_ok());
    range_compare(res.unwrap(), vec![(0, 1), (3, 4)]);

    let v = "1-3";
    let res = ArgRangeList::parse(v);
    assert!(res.is_ok());
    range_compare(res.unwrap(), vec![(0, 3)]);

    let v = "0001-03";
    let res = ArgRangeList::parse(v);
    assert!(res.is_ok());
    range_compare(res.unwrap(), vec![(0, 3)]);

    let v = "1,7,3-5";
    let res = ArgRangeList::parse(v);
    assert!(res.is_ok());
    range_compare(res.unwrap(), vec![(0, 1), (6, 7), (2, 5)]);

    let v = "15,19-20";
    let res = ArgRangeList::parse(v);
    assert!(res.is_ok());
    range_compare(res.unwrap(), vec![(14, 15), (18, 20)]);
}

#[test]
fn test_extract_chars() {
    let abc = "ábc";
    assert_eq!(ArgRangeList::parse("1").unwrap().extract_chars(""), "");
    assert_eq!(ArgRangeList::parse("1").unwrap().extract_chars(abc), "á");
    assert_eq!(
        ArgRangeList::parse("1,3").unwrap().extract_chars("ábc"),
        "ác"
    );
    assert_eq!(
        ArgRangeList::parse("1-3").unwrap().extract_chars("ábc"),
        "ábc"
    );
    assert_eq!(
        ArgRangeList::parse("3,2").unwrap().extract_chars("ábc"),
        "cb"
    );
    assert_eq!(
        ArgRangeList::parse("1,2,5").unwrap().extract_chars("ábc"),
        "áb"
    );
}

#[test]
fn test_extract_fields() {
    let rec = StringRecord::from(vec!["Captain", "Sham", "12345"]);
    assert_eq!(
        ArgRangeList::parse("1").unwrap().extract_fields(&rec),
        &["Captain"]
    );
    assert_eq!(
        ArgRangeList::parse("2").unwrap().extract_fields(&rec),
        &["Sham"]
    );
    assert_eq!(
        ArgRangeList::parse("1,3").unwrap().extract_fields(&rec),
        &["Captain", "12345"]
    );
    assert_eq!(
        ArgRangeList::parse("1,4").unwrap().extract_fields(&rec),
        &["Captain"]
    );
    assert_eq!(
        ArgRangeList::parse("2,1").unwrap().extract_fields(&rec),
        &["Sham", "Captain"]
    );
}

#[test]
fn test_extract_bytes() {
    let abc = "ábc";
    assert_eq!(
        ArgRangeList::parse("1").unwrap().extract_bytes(abc),
        "\u{FFFD}"
    );
    assert_eq!(ArgRangeList::parse("1-2").unwrap().extract_bytes(abc), "á");
    assert_eq!(ArgRangeList::parse("1-3").unwrap().extract_bytes(abc), "áb");
    assert_eq!(ArgRangeList::parse("1-4").unwrap().extract_bytes(abc), abc);
    assert_eq!(ArgRangeList::parse("4,3").unwrap().extract_bytes(abc), "cb");
    assert_eq!(
        ArgRangeList::parse("1-2,6").unwrap().extract_bytes(abc),
        "á"
    );
}
