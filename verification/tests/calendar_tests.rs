use textutil::calendar::{format_month, format_year, last_day_in_month, CivilDate};

#[test]
fn test_format_month() {
    let today = CivilDate {
        year: 0,
        month: 1,
        day: 1,
    };
    let leap_february = vec![
        "   February 2020    ",
        "Su Mo Tu We Th Fr Sa",
        "                   1",
        " 2  3  4  5  6  7  8",
        " 9 10 11 12 13 14 15",
        "16 17 18 19 20 21 22",
        "23 24 25 26 27 28 29",
        "                    ",
    ];
    assert_eq!(format_month(2020, 2, true, &today), leap_february);

    let may = vec![
        "        May         ",
        "Su Mo Tu We Th Fr Sa",
        "                1  2",
        " 3  4  5  6  7  8  9",
        "10 11 12 13 14 15 16",
        "17 18 19 20 21 22 23",
        "24 25 26 27 28 29 30",
        "31                  ",
    ];
    assert_eq!(format_month(2020, 5, false, &today), may);

    let april_hl = vec![
        "     April 2021     ",
        "Su Mo Tu We Th Fr Sa",
        "             1  2  3",
        " 4  5  6 \u{1b}[7m 7\u{1b}[0m  8  9 10",
        "11 12 13 14 15 16 17",
        "18 19 20 21 22 23 24",
        "25 26 27 28 29 30   ",
        "                    ",
    ];
    let today = CivilDate {
        year: 2021,
        month: 4,
        day: 7,
    };
    assert_eq!(format_month(2021, 4, true, &today), april_hl);
}

#[test]
fn test_format_year() {
    let today = CivilDate {
        year: 0,
        month: 1,
        day: 1,
    };
    let year = format_year(2020, &today);
    assert_eq!(year.len(), 34);
    assert_eq!(year[0], format!("{:^66}", "2020"));
    assert_eq!(year[1], "");
    assert_eq!(
        year[2],
        "      January                February                March        "
    );
    assert_eq!(
        year[3],
        "Su Mo Tu We Th Fr Sa   Su Mo Tu We Th Fr Sa   Su Mo Tu We Th Fr Sa"
    );
    assert_eq!(
        year[4],
        "          1  2  3  4                      1    1  2  3  4  5  6  7"
    );
    // Every band line joins the three month grids with three spaces.
    for q in 0..4u32 {
        let m1 = format_month(2020, 3 * q + 1, false, &today);
        let m2 = format_month(2020, 3 * q + 2, false, &today);
        let m3 = format_month(2020, 3 * q + 3, false, &today);
        for r in 0..8 {
            assert_eq!(
                year[2 + 8 * (q as usize) + r],
                format!("{}   {}   {}", m1[r], m2[r], m3[r])
            );
        }
    }
}

#[test]
fn test_last_day_in_month() {
    assert_eq!(last_day_in_month(2020, 1).unwrap(), 31);
    assert_eq!(last_day_in_month(2020, 2).unwrap(), 29);
    assert_eq!(last_day_in_month(2020, 4).unwrap(), 30);
}

#[test]
fn test_last_day_in_month_edges() {
    // A non-leap century year keeps February short.
    assert_eq!(last_day_in_month(1900, 2).unwrap(), 28);
    // A 400-divisible year is leap.
    assert_eq!(last_day_in_month(2000, 2).unwrap(), 29);
    assert_eq!(last_day_in_month(2021, 2).unwrap(), 28);
    // A month out of range is the error, carrying both numbers.
    let err = last_day_in_month(2020, 13).unwrap_err();
    assert_eq!((err.year, err.month), (2020, 13));
    assert!(last_day_in_month(2020, 0).is_err());
}
