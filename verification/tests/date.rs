use food_journal::date::CivilDate;

fn date(year: i16, month: i8, day: i8) -> CivilDate {
    CivilDate::new(year, month, day).unwrap()
}

#[test]
fn new_accepts_the_days_of_the_calendar() {
    assert!(CivilDate::new(2024, 2, 29).is_some());
    assert!(CivilDate::new(2000, 2, 29).is_some());
    assert!(CivilDate::new(0, 1, 1).is_some());
    assert!(CivilDate::new(9999, 12, 31).is_some());
    assert!(CivilDate::new(2024, 4, 30).is_some());
    assert!(CivilDate::new(2024, 1, 31).is_some());
}

#[test]
fn new_refuses_what_is_no_day() {
    assert!(CivilDate::new(2023, 2, 29).is_none());
    assert!(CivilDate::new(1900, 2, 29).is_none());
    assert!(CivilDate::new(2100, 2, 29).is_none());
    assert!(CivilDate::new(2024, 2, 30).is_none());
    assert!(CivilDate::new(2024, 4, 31).is_none());
    assert!(CivilDate::new(2024, 13, 1).is_none());
    assert!(CivilDate::new(2024, 0, 1).is_none());
    assert!(CivilDate::new(2024, 1, 0).is_none());
    assert!(CivilDate::new(2024, 1, 32).is_none());
    assert!(CivilDate::new(2024, -1, 1).is_none());
    assert!(CivilDate::new(2024, 1, -1).is_none());
}

#[test]
fn new_refuses_years_outside_four_digits() {
    assert!(CivilDate::new(-1, 1, 1).is_none());
    assert!(CivilDate::new(-9999, 1, 1).is_none());
    assert!(CivilDate::new(10000, 1, 1).is_none());
    assert!(CivilDate::new(i16::MAX, 1, 1).is_none());
    assert!(CivilDate::new(i16::MIN, 1, 1).is_none());
}

#[test]
fn getters_return_the_components() {
    let d = date(2024, 3, 1);
    assert_eq!(d.year(), 2024);
    assert_eq!(d.month(), 3);
    assert_eq!(d.day(), 1);
}

#[test]
fn to_text_is_zero_padded() {
    assert_eq!(date(2024, 3, 1).to_text(), "2024-03-01");
    assert_eq!(date(987, 12, 5).to_text(), "0987-12-05");
    assert_eq!(date(0, 1, 1).to_text(), "0000-01-01");
    assert_eq!(date(9999, 12, 31).to_text(), "9999-12-31");
    assert_eq!(date(7, 10, 20).to_text(), "0007-10-20");
}

#[test]
fn parse_reads_the_zero_padded_form() {
    assert_eq!(CivilDate::parse("2024-03-01"), Some(date(2024, 3, 1)));
    assert_eq!(CivilDate::parse("0000-01-01"), Some(date(0, 1, 1)));
    assert_eq!(CivilDate::parse("9999-12-31"), Some(date(9999, 12, 31)));
    assert_eq!(CivilDate::parse("2024-02-29"), Some(date(2024, 2, 29)));
}

#[test]
fn parse_refuses_every_other_form() {
    for text in [
        "",
        "2024-3-1",
        "2024-03-1",
        "24-03-01",
        "2024-03-01 ",
        " 2024-03-01",
        "2024-03-01T00:00:00",
        "20240301",
        "2024/03/01",
        "2024-03_01",
        "2024-02-30",
        "2023-02-29",
        "2024-13-01",
        "2024-00-10",
        "2024-01-00",
        "+024-03-01",
        "-024-03-01",
        "2024-0a-01",
        "２０２４-03-01",
        "2024-03-0١",
    ] {
        assert_eq!(CivilDate::parse(text), None, "{text:?}");
    }
}

#[test]
fn plus_27_hours_is_the_next_calendar_day() {
    assert_eq!(date(2024, 3, 1).plus_27_hours(), Some(date(2024, 3, 2)));
    assert_eq!(date(2024, 3, 31).plus_27_hours(), Some(date(2024, 4, 1)));
    assert_eq!(date(2024, 4, 30).plus_27_hours(), Some(date(2024, 5, 1)));
    assert_eq!(date(2024, 2, 28).plus_27_hours(), Some(date(2024, 2, 29)));
    assert_eq!(date(2024, 2, 29).plus_27_hours(), Some(date(2024, 3, 1)));
    assert_eq!(date(2023, 2, 28).plus_27_hours(), Some(date(2023, 3, 1)));
    assert_eq!(date(1900, 2, 28).plus_27_hours(), Some(date(1900, 3, 1)));
    assert_eq!(date(2000, 2, 28).plus_27_hours(), Some(date(2000, 2, 29)));
    assert_eq!(date(2024, 12, 31).plus_27_hours(), Some(date(2025, 1, 1)));
    assert_eq!(date(0, 12, 31).plus_27_hours(), Some(date(1, 1, 1)));
    assert_eq!(date(9999, 12, 30).plus_27_hours(), Some(date(9999, 12, 31)));
}

#[test]
fn plus_27_hours_has_no_day_after_the_last_date() {
    assert_eq!(date(9999, 12, 31).plus_27_hours(), None);
}

#[test]
fn rollovers_pass_through_strictly_increasing_dates() {
    let mut current = date(2023, 12, 25);
    let mut texts = vec![current.to_text()];
    for _ in 0..800 {
        let next = current.plus_27_hours().unwrap();
        assert!(next > current);
        assert!(next.to_text() > current.to_text());
        texts.push(next.to_text());
        current = next;
    }
    assert_eq!(current, date(2026, 3, 4));
    let mut sorted = texts.clone();
    sorted.sort();
    sorted.dedup();
    assert_eq!(sorted, texts);
}

#[test]
fn every_day_of_four_centuries_agrees_with_jiff() {
    let mut ours = date(1800, 1, 1);
    let mut theirs = jiff::civil::Date::new(1800, 1, 1).unwrap();
    let mut days: u32 = 0;
    while ours.year() < 2201 {
        assert_eq!(ours.to_text(), theirs.to_string());
        assert_eq!(CivilDate::parse(&theirs.to_string()), Some(ours));
        assert_eq!((ours.year(), ours.month(), ours.day()), (theirs.year(), theirs.month(), theirs.day()));
        ours = ours.plus_27_hours().unwrap();
        theirs = theirs.tomorrow().unwrap();
        days += 1;
    }
    assert_eq!(days, 146462);
}

#[test]
fn the_calendar_of_a_year_has_its_days() {
    for (year, expected) in [(2023, 365u32), (2024, 366), (1900, 365), (2000, 366), (0, 366), (9999, 365)] {
        let mut count: u32 = 0;
        for month in 1..=12i8 {
            for day in 1..=31i8 {
                if CivilDate::new(year, month, day).is_some() {
                    count += 1;
                }
            }
        }
        assert_eq!(count, expected, "{year}");
    }
}

#[test]
fn dates_order_as_their_texts_do() {
    let dates = [
        date(1999, 12, 31),
        date(2000, 1, 1),
        date(2000, 1, 2),
        date(2000, 2, 1),
        date(2000, 10, 1),
        date(2001, 1, 1),
        date(9999, 1, 1),
    ];
    for pair in dates.windows(2) {
        assert!(pair[0] < pair[1]);
        assert!(pair[0].to_text() < pair[1].to_text());
    }
}

#[test]
fn every_year_agrees_with_jiff_at_its_edges() {
    for year in 0..=9999i16 {
        let leap = jiff::civil::Date::new(year, 2, 29).is_ok();
        assert_eq!(CivilDate::new(year, 2, 29).is_some(), leap, "{year}");
        let last_of_february = if leap { date(year, 2, 29) } else { date(year, 2, 28) };
        assert_eq!(last_of_february.plus_27_hours(), Some(date(year, 3, 1)));
        for (month, day) in [(1, 1), (2, 28), (12, 31)] {
            let ours = date(year, month, day);
            let theirs = jiff::civil::Date::new(year, month, day).unwrap();
            assert_eq!(ours.to_text(), theirs.to_string());
            match (ours.plus_27_hours(), theirs.tomorrow()) {
                (Some(next), Ok(expected)) => {
                    assert_eq!(
                        (next.year(), next.month(), next.day()),
                        (expected.year(), expected.month(), expected.day())
                    );
                }
                (None, Err(_)) => assert_eq!((year, month, day), (9999, 12, 31)),
                (ours, theirs) => panic!("{ours:?} {theirs:?}"),
            }
        }
    }
}

#[test]
fn no_date_with_a_signed_year_is_accepted() {
    for year in [-9999i16, -1000, -1] {
        assert!(jiff::civil::Date::new(year, 1, 1).is_ok());
        assert!(CivilDate::new(year, 1, 1).is_none());
    }
}
