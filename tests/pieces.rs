use dev_hours::calendar::{timestamp_date, CalendarDate};
use dev_hours::hours::{parse_token, snapshot_hours, HoursError};
use dev_hours::numeral::decimal_string;
use dev_hours::repo::repo_name;
use dev_hours::report::{to_hundredths, trimmed_message};
use dev_hours::text::{chars_of, last_token_of, string_of};

fn token(s: &str) -> Result<i64, HoursError> {
    parse_token(&s.chars().collect())
}

#[test]
fn snapshot_values() {
    assert_eq!(snapshot_hours("Hours: 12.5\nignored 99"), Ok(12_500_000_000));
    assert_eq!(snapshot_hours("  12  \r\n"), Ok(12_000_000_000));
    assert_eq!(snapshot_hours("Hours:\u{3000}7"), Ok(7_000_000_000));
    assert_eq!(snapshot_hours("Hours:\n5"), Err(HoursError::NotANumber));
    assert_eq!(snapshot_hours(" \t\n5"), Err(HoursError::NoValue));
    assert_eq!(snapshot_hours(""), Err(HoursError::EmptyFile));
    assert_eq!(snapshot_hours("\n"), Err(HoursError::NoValue));
}

#[test]
fn token_grammar() {
    assert_eq!(token("-3"), Ok(-3_000_000_000));
    assert_eq!(token("+.5"), Ok(500_000_000));
    assert_eq!(token("5."), Ok(5_000_000_000));
    assert_eq!(token("0.000000001"), Ok(1));
    assert_eq!(token("1000000000"), Ok(1_000_000_000_000_000_000));
    assert_eq!(token("1000000000.1"), Err(HoursError::Unrepresentable));
    assert_eq!(token("99999999999999999999"), Err(HoursError::Unrepresentable));
    assert_eq!(token("."), Err(HoursError::NotANumber));
    assert_eq!(token("-"), Err(HoursError::NotANumber));
    assert_eq!(token("1.2.3"), Err(HoursError::NotANumber));
    assert_eq!(token("1e3"), Err(HoursError::NotANumber));
    assert_eq!(token("1.x"), Err(HoursError::NotANumber));
}

#[test]
fn rounding_to_hundredths() {
    assert_eq!(to_hundredths(1_005_000_000), 101);
    assert_eq!(to_hundredths(1_004_999_999), 100);
    assert_eq!(to_hundredths(-1_005_000_000), -101);
    assert_eq!(to_hundredths(0), 0);
}

#[test]
fn numerals() {
    assert_eq!(decimal_string(1500, 2), "15");
    assert_eq!(decimal_string(150, 2), "1.5");
    assert_eq!(decimal_string(101, 2), "1.01");
    assert_eq!(decimal_string(-50, 2), "-0.5");
    assert_eq!(decimal_string(12_500_000_000, 9), "12.5");
    assert_eq!(decimal_string(0, 9), "0");
    assert_eq!(decimal_string(7, 0), "7");
    assert_eq!(decimal_string(i64::MIN, 0), "-9223372036854775808");
}

#[test]
fn dates_of_timestamps() {
    assert_eq!(timestamp_date(0), Some(CalendarDate { year: 1970, month: 1, day: 1 }));
    assert_eq!(timestamp_date(1_700_000_000), Some(CalendarDate { year: 2023, month: 11, day: 14 }));
    assert_eq!(timestamp_date(-1), Some(CalendarDate { year: 1969, month: 12, day: 31 }));
    assert_eq!(timestamp_date(i64::MAX), None);
}

#[test]
fn date_text() {
    assert_eq!(CalendarDate { year: 2024, month: 3, day: 9 }.to_text(), "2024-03-09");
    assert_eq!(CalendarDate { year: 5, month: 1, day: 2 }.to_text(), "0005-01-02");
    assert_eq!(CalendarDate { year: -5, month: 1, day: 2 }.to_text(), "-0005-01-02");
    assert_eq!(CalendarDate { year: 12345, month: 10, day: 20 }.to_text(), "+12345-10-20");
}

#[test]
fn repository_names() {
    assert_eq!(repo_name("https://github.com/hack-place/site.git"), "hack-place/site");
    assert_eq!(repo_name("https://github.com/hack-place/site"), "hack-place/site");
    assert_eq!(repo_name("x/y.git.git"), "x/y");
    assert_eq!(repo_name("a/b/"), "b/");
    assert_eq!(repo_name("name"), "name");
    assert_eq!(repo_name(""), "");
}

#[test]
fn text_helpers() {
    assert_eq!(trimmed_message(&"fix\n\n".to_string()), "fix");
    assert_eq!(trimmed_message(&"a\nb".to_string()), "a\nb");
    let v = chars_of("héllo");
    assert_eq!(v, vec!['h', 'é', 'l', 'l', 'o']);
    assert_eq!(string_of(&v), "héllo");
    let line: Vec<char> = "Hours:  4.5 \t".chars().collect();
    assert_eq!(last_token_of(&line, line.len()), Some(vec!['4', '.', '5']));
    assert_eq!(last_token_of(&line, 3), Some(vec!['H', 'o', 'u']));
    assert_eq!(last_token_of(&line, 0), None);
}
