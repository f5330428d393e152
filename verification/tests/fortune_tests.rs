use regex::Regex;
use textutil::fortune::{Fortune, Fortunes};

fn sample_fortunes() -> Fortunes {
    Fortunes::new(vec![
        Fortune {
            source: "fortunes".into(),
            text: "You cannot achieve the impossible without \
                        attempting the absurd."
                .to_string(),
        },
        Fortune {
            source: "fortunes".into(),
            text: "Assumption is the mother of all screw-ups.".to_string(),
        },
        Fortune {
            source: "fortunes".into(),
            text: "Neckties strangle clear thinking.".to_string(),
        },
    ])
}

#[test]
fn test_pick_fortune() {
    let fortunes = sample_fortunes();
    assert_eq!(
        fortunes.pick_fortune(Some(1)).unwrap(),
        "Neckties strangle clear thinking.".to_string()
    );
}

#[test]
fn test_pick_fortune_empty() {
    let fortunes = Fortunes::empty();
    assert_eq!(fortunes.pick_fortune(Some(1)), None);
    assert_eq!(fortunes.pick_fortune(None), None);
}

#[test]
fn test_add_text() {
    let mut fortunes = Fortunes::empty();
    fortunes.add_text(
        "jokes",
        "First joke.\n%\nSecond joke,\nwith two lines.\n%\n%\n",
    );
    assert_eq!(fortunes.len(), 2);
    assert_eq!(fortunes.text_of(0), "First joke.");
    assert_eq!(fortunes.text_of(1), "Second joke,\nwith two lines.");

    // A second source appends after the first.
    fortunes.add_text("quotes", "Tidy quote.");
    assert_eq!(fortunes.len(), 3);
    assert_eq!(fortunes.text_of(2), "Tidy quote.");

    // All-whitespace and empty blocks are dropped.
    let mut empty = Fortunes::empty();
    empty.add_text("blank", " \n % \n\t%%  ");
    assert_eq!(empty.len(), 0);
}

#[test]
fn test_pick_fortune_by_regex() {
    let fortunes = sample_fortunes();
    let re = Regex::new("strangle").unwrap();
    let found = fortunes.pick_fortune_by_regex(&re);
    assert_eq!(found.len(), 1);
    assert_eq!(found[0].text, "Neckties strangle clear thinking.");

    let re = Regex::new("e").unwrap();
    let found = fortunes.pick_fortune_by_regex(&re);
    assert_eq!(found.len(), 3);

    let re = Regex::new("zebra").unwrap();
    let found = fortunes.pick_fortune_by_regex(&re);
    assert_eq!(found.len(), 0);
}
