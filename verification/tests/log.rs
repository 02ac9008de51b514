use pinnacle::log::{
    emit, enabled, prompt, record, rfc3339_offset, timestamp, Color, ConsoleOp, Fatal, Level, Time,
};
use pinnacle::status::{Status, NOT_FOUND, SECURITY_VIOLATION};

fn noon(time_zone: Option<i16>) -> Time {
    Time { year: 2024, month: 3, day: 7, hour: 12, minute: 5, second: 9, time_zone }
}

fn text(ops: &[ConsoleOp]) -> String {
    let mut out = String::new();
    for op in ops {
        match op {
            ConsoleOp::Print(s) => out.push_str(s),
            ConsoleOp::SetColor { .. } => {}
        }
    }
    out
}

fn colors(ops: &[ConsoleOp]) -> Vec<(Color, Color)> {
    let mut out = Vec::new();
    for op in ops {
        if let ConsoleOp::SetColor { fg, bg } = op {
            out.push((*fg, *bg));
        }
    }
    out
}

#[test]
fn levels_have_labels_and_colors() {
    assert_eq!(Level::Fatal.label(), "FTL");
    assert_eq!(Level::Error.label(), "ERR");
    assert_eq!(Level::Warn.label(), "WRN");
    assert_eq!(Level::Info.label(), "INF");
    assert_eq!(Level::Debug.label(), "DBG");
    assert_eq!(Level::Fatal.color(), Color::Red);
    assert_eq!(Level::Error.color(), Color::LightRed);
    assert_eq!(Level::Warn.color(), Color::Yellow);
    assert_eq!(Level::Info.color(), Color::LightGreen);
    assert_eq!(Level::Debug.color(), Color::DarkGray);
}

#[test]
fn levels_are_ordered_by_severity() {
    let all = [Level::Fatal, Level::Error, Level::Warn, Level::Info, Level::Debug];
    for i in 0..all.len() {
        for j in 0..all.len() {
            assert_eq!(all[i] < all[j], i < j);
            assert_eq!(all[i] == all[j], i == j);
            assert_eq!(all[i].cmp(&all[j]), i.cmp(&j));
        }
        assert!(enabled(all[i]));
    }
}

#[test]
fn offsets_follow_rfc_3339() {
    assert_eq!(rfc3339_offset(None), "-00:00");
    assert_eq!(rfc3339_offset(Some(0)), "Z");
    assert_eq!(rfc3339_offset(Some(120)), "+02:00");
    assert_eq!(rfc3339_offset(Some(-210)), "-03:30");
    assert_eq!(rfc3339_offset(Some(5)), "+00:05");
    assert_eq!(rfc3339_offset(Some(-1)), "-00:01");
    assert_eq!(rfc3339_offset(Some(i16::MIN)), "-546:08");
    assert_eq!(rfc3339_offset(Some(i16::MAX)), "+546:07");
}

#[test]
fn timestamps_are_zero_filled() {
    assert_eq!(timestamp(Some(noon(Some(0)))), "2024-03-07T12:05:09Z");
    assert_eq!(timestamp(Some(noon(None))), "2024-03-07T12:05:09-00:00");
    assert_eq!(timestamp(None), "----------T--:--:--Z");
    let early = Time { year: 7, month: 1, day: 1, hour: 0, minute: 0, second: 0, time_zone: Some(60) };
    assert_eq!(timestamp(Some(early)), "0007-01-01T00:00:00+01:00");
    let late = Time { year: 12345, month: 12, day: 31, hour: 23, minute: 59, second: 60, time_zone: Some(0) };
    assert_eq!(timestamp(Some(late)), "12345-12-31T23:59:60Z");
}

#[test]
fn emit_colors_only_the_label() {
    let ops = emit(Level::Warn, Some(noon(Some(0))), "careful");
    assert_eq!(ops.len(), 6);
    assert_eq!(text(&ops), "2024-03-07T12:05:09Z [WRN] careful\n");
    assert_eq!(
        colors(&ops),
        vec![
            (Color::LightGray, Color::Black),
            (Color::Yellow, Color::Black),
            (Color::LightGray, Color::Black),
        ]
    );
    match &ops[3] {
        ConsoleOp::Print(label) => assert_eq!(label, "WRN"),
        ConsoleOp::SetColor { .. } => panic!("the label is printed fourth"),
    }
}

#[test]
fn a_prompt_stays_on_its_line() {
    let ops = prompt(None, "enter PIN: ");
    assert_eq!(text(&ops), "----------T--:--:--Z [INF] enter PIN: ");
}

#[test]
fn records_keep_level_and_message() {
    let r = record(Level::Error, "broken");
    assert_eq!(r.level, Level::Error);
    assert_eq!(r.message, "broken");
}

#[test]
fn a_fatal_error_is_reported_and_reboots_with_its_status() {
    let fatal = Fatal::new(Status(SECURITY_VIOLATION), String::from("stop"));
    let report = fatal.report(None);
    assert_eq!(text(&report.ops), "----------T--:--:--Z [FTL] stop\n");
    assert_eq!(colors(&report.ops)[1], (Color::Red, Color::Black));
    assert_eq!(report.reset_status, Status(SECURITY_VIOLATION));
}

#[test]
fn an_incidental_failure_is_fatal_with_its_status() {
    let fatal = Fatal::from(Status(NOT_FOUND));
    assert_eq!(fatal.status, Status(NOT_FOUND));
    assert_eq!(fatal.message, "unexpected error: NOT_FOUND");
}
