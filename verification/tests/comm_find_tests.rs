use regex::{Regex, RegexBuilder};
use textutil::comm::{LineIter, LinePosition};
use textutil::find::find_lines;

fn strings(items: &[&str]) -> Vec<String> {
    items.iter().map(|s| s.to_string()).collect()
}

#[test]
fn test_find_lines() {
    let lines = strings(&["Lorem\n", "Ipsum\r\n", "DOLOR"]);

    // The pattern "or" matches the single line "Lorem".
    let re1 = Regex::new("or").unwrap();
    let matches = find_lines(&lines, &re1, false);
    assert_eq!(matches, strings(&["Lorem\n"]));

    // Inverted, it matches the other two lines.
    let matches = find_lines(&lines, &re1, true);
    assert_eq!(matches, strings(&["Ipsum\r\n", "DOLOR"]));

    // A case-insensitive pattern.
    let re2 = RegexBuilder::new("or")
        .case_insensitive(true)
        .build()
        .unwrap();

    // It matches two lines.
    let matches = find_lines(&lines, &re2, false);
    assert_eq!(matches, strings(&["Lorem\n", "DOLOR"]));

    // Inverted, it matches the remaining line.
    let matches = find_lines(&lines, &re2, true);
    assert_eq!(matches, strings(&["Ipsum\r\n"]));
}

fn drain(mut it: LineIter) -> Vec<LinePosition> {
    let mut out = Vec::new();
    while let Some(p) = it.next_position() {
        out.push(p);
    }
    out
}

#[test]
fn test_line_iter_merge() {
    let a = strings(&["apple", "cherry", "plum"]);
    let b = strings(&["banana", "cherry", "fig"]);
    let got = drain(LineIter::new(a, b, false));
    assert_eq!(
        got,
        vec![
            LinePosition::First("apple".to_string()),
            LinePosition::Second("banana".to_string()),
            LinePosition::Both("cherry".to_string()),
            LinePosition::Second("fig".to_string()),
            LinePosition::First("plum".to_string()),
        ]
    );
}

#[test]
fn test_line_iter_insensitive() {
    // With folding enabled, differently-cased lines compare equal; a
    // case fold that handed lines back unchanged would yield no Both.
    let a = strings(&["APPLE"]);
    let b = strings(&["apple"]);
    let got = drain(LineIter::new(a, b, true));
    assert_eq!(got, vec![LinePosition::Both("apple".to_string())]);

    let a = strings(&["APPLE"]);
    let b = strings(&["apple"]);
    let got = drain(LineIter::new(a, b, false));
    assert_eq!(
        got,
        vec![
            LinePosition::First("APPLE".to_string()),
            LinePosition::Second("apple".to_string()),
        ]
    );
}

#[test]
fn test_line_iter_empty_streams() {
    let got = drain(LineIter::new(Vec::new(), Vec::new(), false));
    assert_eq!(got, Vec::<LinePosition>::new());

    let got = drain(LineIter::new(strings(&["only"]), Vec::new(), false));
    assert_eq!(got, vec![LinePosition::First("only".to_string())]);
}
