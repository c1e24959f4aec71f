use commit_checker::calendar::{day_of_timestamp, format_day, is_calendar_day, MAX_DAY, MIN_DAY};
use commit_checker::command::{command_line, decimal_text, two_digit_text};
use commit_checker::event::events_route;
use commit_checker::threshold::parse_i32;
use commit_checker::{
    aggregate, audit, find_deficiencies, resolve_threshold, synthesize_commands, ActivityEvent,
    AuditRange, DeficiencyEntry, EventKind, RangeError,
};

const DAY: i64 = 86400;
/// 2024-01-01 as days since 1970-01-01.
const JAN_1: i64 = 19723;

fn at(day: i64, hour: i64) -> i64 {
    day * DAY + hour * 3600
}

fn push(ts: i64) -> ActivityEvent {
    ActivityEvent { kind: EventKind::Push, timestamp: ts }
}

fn other(ts: i64) -> ActivityEvent {
    ActivityEvent { kind: EventKind::Other, timestamp: ts }
}

fn entry(day: i64, shortfall: u32) -> DeficiencyEntry {
    DeficiencyEntry { day, shortfall }
}

#[test]
fn aggregate_of_no_events_is_empty() {
    let range = AuditRange { start_day: JAN_1, end: at(JAN_1 + 5, 0) };
    let counts = aggregate(&Vec::new(), &range);
    assert!(counts.is_empty());
    assert_eq!(counts.get(JAN_1), 0);
}

#[test]
fn aggregate_counts_inclusive_bounds_only() {
    let end = at(JAN_1 + 2, 15);
    let range = AuditRange { start_day: JAN_1, end };
    let events = vec![
        push(JAN_1 * DAY),
        push(end),
        push(end + 1),
        push(JAN_1 * DAY - 1),
    ];
    let counts = aggregate(&events, &range);
    assert_eq!(counts.get(JAN_1), 1);
    assert_eq!(counts.get(JAN_1 + 2), 1);
    assert_eq!(counts.get(JAN_1 - 1), 0);
    assert!(!counts.is_empty());
}

#[test]
fn aggregate_ignores_other_kinds() {
    let range = AuditRange { start_day: JAN_1, end: at(JAN_1 + 3, 0) };
    let events = vec![other(at(JAN_1, 9)), other(at(JAN_1 + 1, 9)), push(at(JAN_1 + 1, 10))];
    let counts = aggregate(&events, &range);
    assert_eq!(counts.get(JAN_1), 0);
    assert_eq!(counts.get(JAN_1 + 1), 1);
}

#[test]
fn aggregate_counts_duplicates_and_any_order() {
    let range = AuditRange { start_day: JAN_1, end: at(JAN_1 + 3, 0) };
    let events = vec![push(at(JAN_1 + 1, 9)), push(at(JAN_1, 9)), push(at(JAN_1 + 1, 9))];
    let counts = aggregate(&events, &range);
    assert_eq!(counts.get(JAN_1), 1);
    assert_eq!(counts.get(JAN_1 + 1), 2);
}

#[test]
fn inverted_range_reports_nothing() {
    let range = AuditRange { start_day: JAN_1, end: JAN_1 * DAY - 1 };
    let counts = aggregate(&vec![push(JAN_1 * DAY - 10)], &range);
    assert!(find_deficiencies(&counts, &range, 4).is_empty());
}

#[test]
fn only_short_days_are_reported() {
    let range = AuditRange { start_day: JAN_1, end: at(JAN_1 + 2, 23) };
    let events = vec![
        push(at(JAN_1, 1)),
        push(at(JAN_1, 2)),
        push(at(JAN_1, 3)),
        push(at(JAN_1 + 1, 1)),
        push(at(JAN_1 + 2, 1)),
        push(at(JAN_1 + 2, 2)),
        push(at(JAN_1 + 2, 3)),
        push(at(JAN_1 + 2, 4)),
    ];
    let counts = aggregate(&events, &range);
    let report = find_deficiencies(&counts, &range, 3);
    assert_eq!(report, vec![entry(JAN_1 + 1, 2)]);
}

#[test]
fn walk_covers_every_day_through_the_end() {
    // 2024-03-31 is a daylight-saving change in much of Europe; UTC days are unaffected.
    let start = JAN_1 + 80;
    let range = AuditRange { start_day: start, end: at(start + 9, 0) + 1 };
    let counts = aggregate(&Vec::new(), &range);
    let report = find_deficiencies(&counts, &range, 1);
    assert_eq!(report.len(), 10);
    for (i, e) in report.iter().enumerate() {
        assert_eq!(e.day, start + i as i64);
        assert_eq!(e.shortfall, 1);
    }
}

#[test]
fn single_day_range_walks_one_day() {
    let range = AuditRange { start_day: JAN_1, end: JAN_1 * DAY };
    let counts = aggregate(&Vec::new(), &range);
    assert_eq!(find_deficiencies(&counts, &range, 2), vec![entry(JAN_1, 2)]);
}

#[test]
fn commands_start_at_noon_and_step_by_an_hour() {
    let cmds = synthesize_commands(&entry(JAN_1 + 2, 3));
    assert_eq!(
        cmds,
        vec![
            "git commit --date=\"2024-01-03 12:00:00\" -m \"feat: your commit message here\"",
            "git commit --date=\"2024-01-03 13:00:00\" -m \"feat: your commit message here\"",
            "git commit --date=\"2024-01-03 14:00:00\" -m \"feat: your commit message here\"",
        ]
    );
}

#[test]
fn commands_for_large_shortfall_run_past_midnight_hour() {
    let cmds = synthesize_commands(&entry(JAN_1, 13));
    assert_eq!(cmds.len(), 13);
    assert_eq!(
        cmds[12],
        "git commit --date=\"2024-01-01 24:00:00\" -m \"feat: your commit message here\""
    );
}

#[test]
fn repeated_audits_agree() {
    let range = AuditRange { start_day: JAN_1, end: at(JAN_1 + 6, 12) };
    let events = vec![push(at(JAN_1 + 3, 1)), other(at(JAN_1 + 4, 1)), push(at(JAN_1, 5))];
    let first = find_deficiencies(&aggregate(&events, &range), &range, 2);
    let second = find_deficiencies(&aggregate(&events, &range), &range, 2);
    assert_eq!(first, second);
    assert_eq!(audit(&events, &range, 2), first);
}

#[test]
fn three_day_scenario() {
    let range = AuditRange::from_start_date("2024-01-01", at(JAN_1 + 2, 0)).unwrap();
    assert_eq!(range.start_day, JAN_1);
    let events = vec![push(at(JAN_1, 9)), push(at(JAN_1, 10)), push(at(JAN_1 + 1, 9))];
    let report = audit(&events, &range, 2);
    assert_eq!(report, vec![entry(JAN_1 + 1, 1), entry(JAN_1 + 2, 2)]);
    assert_eq!(format_day(report[0].day), "2024-01-02");
    let cmds = synthesize_commands(&report[1]);
    assert_eq!(
        cmds,
        vec![
            "git commit --date=\"2024-01-03 12:00:00\" -m \"feat: your commit message here\"",
            "git commit --date=\"2024-01-03 13:00:00\" -m \"feat: your commit message here\"",
        ]
    );
}

#[test]
fn unparsable_threshold_defaults_to_four() {
    assert_eq!(resolve_threshold(Some("abc")), 4);
}

#[test]
fn threshold_fallbacks_and_values() {
    assert_eq!(resolve_threshold(None), 4);
    assert_eq!(resolve_threshold(Some("")), 4);
    assert_eq!(resolve_threshold(Some("0")), 4);
    assert_eq!(resolve_threshold(Some("-3")), 4);
    assert_eq!(resolve_threshold(Some("2147483648")), 4);
    assert_eq!(resolve_threshold(Some(" 5")), 4);
    assert_eq!(resolve_threshold(Some("7")), 7);
    assert_eq!(resolve_threshold(Some("+7")), 7);
    assert_eq!(resolve_threshold(Some("007")), 7);
    assert_eq!(resolve_threshold(Some("2147483647")), 2147483647);
}

#[test]
fn parse_i32_matches_std() {
    for s in ["", "+", "-", "0", "-0", "12", "+12", "-12", "1a", "2147483647", "2147483648",
        "-2147483648", "-2147483649", "99999999999999999999", "٣"]
    {
        assert_eq!(parse_i32(s), s.parse::<i32>().ok(), "{s}");
    }
}

#[test]
fn zero_events_five_days_all_short() {
    let range = AuditRange { start_day: JAN_1, end: at(JAN_1 + 4, 18) };
    let report = audit(&Vec::new(), &range, 4);
    assert_eq!(report.len(), 5);
    for (i, e) in report.iter().enumerate() {
        assert_eq!(*e, entry(JAN_1 + i as i64, 4));
    }
}

#[test]
fn start_date_parsing() {
    assert_eq!(AuditRange::from_start_date("1970-01-01", 0), Ok(AuditRange { start_day: 0, end: 0 }));
    assert_eq!(AuditRange::from_start_date("1969-12-31", 5).map(|r| r.start_day), Ok(-1));
    assert_eq!(AuditRange::from_start_date("2024-13-01", 0), Err(RangeError::InvalidStartDate));
    assert_eq!(AuditRange::from_start_date("yesterday", 0), Err(RangeError::InvalidStartDate));
}

#[test]
fn days_and_dates() {
    assert_eq!(day_of_timestamp(0), 0);
    assert_eq!(day_of_timestamp(DAY - 1), 0);
    assert_eq!(day_of_timestamp(-1), -1);
    assert_eq!(day_of_timestamp(at(JAN_1, 9)), JAN_1);
    assert_eq!(format_day(0), "1970-01-01");
    assert_eq!(format_day(JAN_1 + 59), "2024-02-29");
    assert_eq!(format_day(-1), "1969-12-31");
    assert!(is_calendar_day(MIN_DAY) && is_calendar_day(MAX_DAY));
    assert!(!is_calendar_day(MAX_DAY + 1));
    assert_eq!(format_day(MIN_DAY), "-262143-01-01");
    assert_eq!(format_day(MAX_DAY), "+262142-12-31");
}

#[test]
fn event_kinds_and_route() {
    assert_eq!(EventKind::from_type_name("PushEvent"), EventKind::Push);
    assert_eq!(EventKind::from_type_name("WatchEvent"), EventKind::Other);
    assert_eq!(EventKind::from_type_name("pushevent"), EventKind::Other);
    assert_eq!(ActivityEvent::new("PushEvent", 7), push(7));
    assert_eq!(events_route("octocat"), "/users/octocat/events");
}

#[test]
fn number_text() {
    assert_eq!(decimal_text(0), "0");
    assert_eq!(decimal_text(1234567890), "1234567890");
    assert_eq!(two_digit_text(7), "07");
    assert_eq!(two_digit_text(12), "12");
    assert_eq!(two_digit_text(123), "123");
    assert_eq!(command_line("2024-05-06", 9), "git commit --date=\"2024-05-06 09:00:00\" -m \"feat: your commit message here\"");
}
