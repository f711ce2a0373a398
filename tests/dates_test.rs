use ifex::dates::{creation_date, date_action, dates_identical, shifted_date_text, DateAction};
use ifex::readout::sort_by_name;

fn rows(v: &[(&str, &str)]) -> Vec<(String, String)> {
    v.iter().map(|(a, b)| (a.to_string(), b.to_string())).collect()
}

#[test]
fn creation_date_is_found_in_a_readout() {
    let r = rows(&[("Date/Time", "garbage"), ("Date/Time Original", "2024:05:01 10:20:30"), ("Make", "Leica")]);
    assert_eq!(creation_date(&r), Some(1714558830));
    assert_eq!(creation_date(&rows(&[("Make", "2024:05:01 10:20:30")])), None);
}

#[test]
fn identical_dates_need_two_files_within_a_second() {
    assert!(!dates_identical(&[Some(100)]));
    assert!(dates_identical(&[Some(100), Some(101), Some(99)]));
    assert!(!dates_identical(&[Some(100), Some(102)]));
    assert!(!dates_identical(&[Some(100), None]));
}

#[test]
fn dates_are_spread_one_second_apart() {
    assert_eq!(shifted_date_text(1714558830, 0).unwrap(), "2024:05:01 10:20:30");
    assert_eq!(shifted_date_text(1714558830, 31).unwrap(), "2024:05:01 10:21:01");
    assert_eq!(shifted_date_text(i64::MAX, 1), None);
}

#[test]
fn the_date_decision() {
    assert_eq!(date_action(true, 3, true, true), DateAction::Spread);
    assert_eq!(date_action(true, 3, true, false), DateAction::Ask);
    assert_eq!(date_action(true, 3, false, true), DateAction::Keep);
    assert_eq!(date_action(false, 3, true, true), DateAction::Keep);
    assert_eq!(date_action(true, 1, true, true), DateAction::Keep);
}

#[test]
fn sorting_by_name_is_stable() {
    let sorted = sort_by_name(rows(&[("b.jpg", "1"), ("a.jpg", "2"), ("b.jpg", "3"), ("B.jpg", "4")]));
    assert_eq!(sorted, rows(&[("B.jpg", "4"), ("a.jpg", "2"), ("b.jpg", "1"), ("b.jpg", "3")]));
}
