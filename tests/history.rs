use dev_hours::calendar::CalendarDate;
use dev_hours::hours::HoursError;
use dev_hours::report::{build_report, build_report_dated, CommitRecord, Report, ReportError};
use dev_hours::render::render_report;

const DAY: i64 = 86_400;
// 2024-03-01T12:00:00Z
const BASE: i64 = 1_709_294_400;

fn rec(message: &str, day: i64, snapshot: Option<&str>) -> CommitRecord {
    CommitRecord {
        message: message.to_string(),
        timestamp: BASE + day * DAY,
        snapshot: snapshot.map(|s| s.to_string()),
    }
}

fn messages(report: &Report, i: usize) -> Vec<String> {
    report.blocks[i].messages.clone()
}

#[test]
fn prehistory_is_consolidated_into_first_block() {
    let records = vec![
        rec("init\n", 0, None),
        rec("setup", 1, None),
        rec("first block", 2, Some("Hours: 3.0\n")),
    ];
    let report = build_report(&records).unwrap();
    assert_eq!(report.blocks.len(), 1);
    let block = &report.blocks[0];
    assert!(block.up_until);
    assert_eq!(block.hundredths, 300);
    assert_eq!(block.date, CalendarDate { year: 2024, month: 3, day: 3 });
    assert_eq!(messages(&report, 0), vec!["init".to_string(), "setup".to_string()]);
    assert!(report.has_prehistory);
    assert_eq!(report.total_nanos, 3_000_000_000);
    let text = render_report("Ada", "hack-place/site", "2024-04-01", &report);
    assert!(text.contains("\n3 hours worked up until 2024-03-03:\n\t- init\n\t- setup\n"));
    assert!(text.ends_with("That history has been consolidated into the initial entry.\n"));
}

#[test]
fn corrective_commit_joins_the_pending_session() {
    let records = vec![
        rec("A", 0, Some("Hours: 5.0")),
        rec("B", 1, Some("Hours: 4.5")),
        rec("C", 2, Some("Hours: 6.0")),
    ];
    let report = build_report(&records).unwrap();
    assert_eq!(report.blocks.len(), 1);
    assert_eq!(report.blocks[0].hundredths, 150);
    assert!(!report.blocks[0].up_until);
    assert_eq!(messages(&report, 0), vec!["B".to_string()]);
    assert_eq!(report.total_nanos, 6_000_000_000);
    assert!(!report.has_prehistory);
}

#[test]
fn quiet_commit_contributes_nothing() {
    let with_quiet = vec![
        rec("x", 0, None),
        rec("", 1, Some("Hours: 0")),
        rec("\n", 2, Some("Hours: 0")),
        rec("y", 3, Some("Hours: 2")),
    ];
    let report = build_report(&with_quiet).unwrap();
    assert_eq!(report.blocks.len(), 1);
    assert_eq!(messages(&report, 0), vec!["x".to_string()]);
    assert_eq!(report.blocks[0].hundredths, 200);
    assert_eq!(report.blocks[0].date, CalendarDate { year: 2024, month: 3, day: 4 });
}

#[test]
fn unparseable_hours_abort_the_report() {
    let records = vec![rec("x", 0, None), rec("y", 1, Some("Hours: lots"))];
    assert_eq!(
        build_report(&records).err(),
        Some(ReportError::MalformedHours { index: 1, reason: HoursError::NotANumber })
    );
    let empty = vec![rec("y", 1, Some(""))];
    assert_eq!(
        build_report(&empty).err(),
        Some(ReportError::MalformedHours { index: 0, reason: HoursError::EmptyFile })
    );
    let blank = vec![rec("y", 1, Some("   \n12"))];
    assert_eq!(
        build_report(&blank).err(),
        Some(ReportError::MalformedHours { index: 0, reason: HoursError::NoValue })
    );
    let fine = vec![rec("y", 1, Some("Hours: 1.0000000001"))];
    assert_eq!(
        build_report(&fine).err(),
        Some(ReportError::MalformedHours { index: 0, reason: HoursError::Unrepresentable })
    );
}

#[test]
fn half_hundredth_rounds_away_from_zero() {
    let records = vec![rec("x", 0, None), rec("y", 1, Some("Hours: 1.005"))];
    let report = build_report(&records).unwrap();
    assert_eq!(report.blocks[0].hundredths, 101);
    let text = render_report("Ada", "a/b", "2024-04-01", &report);
    assert!(text.contains("\n1.01 hours worked up until 2024-03-02:\n"));
    assert!(text.contains("\nTotal hours: 1.005\n"));
}

#[test]
fn rising_sessions_add_up_to_total() {
    let records = vec![
        rec("a", 0, None),
        rec("one", 0, Some("Hours: 1.25")),
        rec("b", 1, None),
        rec("two", 1, Some("Hours: 2.5")),
        rec("c", 2, None),
        rec("three", 2, Some("Hours: 4.125")),
    ];
    let report = build_report(&records).unwrap();
    let hundredths: Vec<i64> = report.blocks.iter().map(|b| b.hundredths).collect();
    assert_eq!(hundredths, vec![125, 125, 163]);
    let sum: i64 = hundredths.iter().sum();
    let diff = (sum * 10_000_000 - report.total_nanos).abs();
    assert!(diff <= 5_000_000 * 3);
    assert!(report.blocks[0].up_until);
    assert!(!report.blocks[1].up_until);
    assert!(!report.blocks[2].up_until);
}

#[test]
fn first_tracked_commit_without_pending_messages_opens_no_session() {
    let records = vec![rec("a", 0, Some("Hours: 2")), rec("b", 1, Some("Hours: 3"))];
    let report = build_report(&records).unwrap();
    assert!(report.blocks.is_empty());
    assert_eq!(report.total_nanos, 3_000_000_000);
}

#[test]
fn empty_history_reports_zero() {
    let report = build_report(&Vec::new()).unwrap();
    assert!(report.blocks.is_empty());
    assert_eq!(report.total_nanos, 0);
    assert!(!report.has_prehistory);
    let text = render_report("Ada", "a/b", "2024-04-01", &report);
    assert_eq!(
        text,
        "Ada's Volunteer Hours for a/b\nCompiled by hack.place() on 2024-04-01\n\nTotal hours: 0\n"
    );
}

#[test]
fn closing_commit_out_of_calendar_range() {
    let records = vec![
        rec("x", 0, None),
        CommitRecord { message: "y".to_string(), timestamp: i64::MAX, snapshot: Some("1".to_string()) },
    ];
    assert_eq!(build_report(&records).err(), Some(ReportError::DateOutOfRange { index: 1 }));
}

#[test]
fn dated_fold_uses_given_dates() {
    let records = vec![rec("x", 0, None), rec("y", 0, Some("Hours: 2.5"))];
    let d = CalendarDate { year: 1999, month: 12, day: 31 };
    let report = build_report_dated(&records, &vec![None, Some(d)]).unwrap();
    assert_eq!(report.blocks[0].date, d);
    assert_eq!(report.blocks[0].hundredths, 250);
    assert_eq!(
        build_report_dated(&records, &vec![Some(d), None]).err(),
        Some(ReportError::DateOutOfRange { index: 1 })
    );
}

#[test]
fn full_report_text() {
    let records = vec![
        rec("start", 0, None),
        rec("count", 0, Some("Hours: 1.5")),
        rec("fix typo", 1, Some("Hours: 1.5")),
        rec("more", 2, Some("Hours: 3.75")),
    ];
    let report = build_report(&records).unwrap();
    let text = render_report("Ada", "hack-place/site", "2024-04-01", &report);
    let expected = "Ada's Volunteer Hours for hack-place/site\n\
Compiled by hack.place() on 2024-04-01\n\
\n1.5 hours worked up until 2024-03-01:\n\t- start\n\
\n2.25 hours worked on 2024-03-03:\n\t- fix typo\n\
\nTotal hours: 3.75\n\
Note: Work on this repository began before hour tracking was implemented per-push.\n\
\t\t\tThat history has been consolidated into the initial entry.\n";
    assert_eq!(text, expected);
}
