use textutil::uniq::{format_count_line, uniq_counts};

fn strings(items: &[&str]) -> Vec<String> {
    items.iter().map(|s| s.to_string()).collect()
}

#[test]
fn test_uniq_counts() {
    let lines = strings(&["a", "a", "b", "a", "c", "c", "c"]);
    let groups = uniq_counts(&lines);
    assert_eq!(
        groups,
        vec![
            (2, "a".to_string()),
            (1, "b".to_string()),
            (1, "a".to_string()),
            (3, "c".to_string()),
        ]
    );

    assert_eq!(uniq_counts(&Vec::new()), Vec::new());

    let one = uniq_counts(&strings(&["only"]));
    assert_eq!(one, vec![(1, "only".to_string())]);

    // Blank lines group like any other line.
    let blanks = uniq_counts(&strings(&["", "", "x"]));
    assert_eq!(blanks, vec![(2, "".to_string()), (1, "x".to_string())]);
}

#[test]
fn test_format_count_line() {
    assert_eq!(format_count_line(1, "one"), "      1 one");
    assert_eq!(format_count_line(4231, "often"), "   4231 often");
    assert_eq!(format_count_line(12345678, "wide"), "12345678 wide");
}
