use herdr::jira_time::{parse_jira_time, relative_time};

#[test]
fn jira_timestamps_parse_with_offsets() {
    assert_eq!(parse_jira_time("2026-09-23T10:00:00.000-0300"), Some(1_790_168_400));
    assert_eq!(parse_jira_time("2026-09-23T13:00:00.000+0000"), Some(1_790_168_400));
    assert_eq!(parse_jira_time("garbage"), None);
}

#[test]
fn jira_timestamps_with_minutes_in_the_offset() {
    assert_eq!(parse_jira_time("2026-09-23T10:00:00.000+0530"), Some(1_790_137_800));
    assert_eq!(parse_jira_time("2026-09-23T13:00:00Z"), None);
    assert_eq!(parse_jira_time("2026-02-30T10:00:00.000+0000"), None);
    assert_eq!(parse_jira_time("2026-09-23T10:00:00.000+9900"), None);
}

#[test]
fn relative_time_counts_minutes_hours_and_days() {
    let ts = "2026-09-23T10:00:00.000-0300";
    let at = 1_790_168_400;
    assert_eq!(relative_time(ts, at + 30), "agora");
    assert_eq!(relative_time(ts, at - 500), "agora");
    assert_eq!(relative_time(ts, at + 120), "há 2m");
    assert_eq!(relative_time(ts, at + 7_200), "há 2h");
    assert_eq!(relative_time(ts, at + 2 * 86_400), "há 2d");
    assert_eq!(relative_time(ts, at + 40 * 86_400), "2026-09-23");
    assert_eq!(relative_time("garbage", at), "garbage");
}

#[test]
fn jira_timestamps_follow_the_calendar() {
    assert_eq!(parse_jira_time("2024-02-29T12:30:00.000+0530"), Some(1_709_190_000));
    assert_eq!(parse_jira_time("2023-02-29T12:30:00.000+0000"), None);
    assert_eq!(parse_jira_time("1969-12-31T23:00:00.000-0330"), Some(9_000));
    assert_eq!(parse_jira_time("2026-09-23T24:00:00.000+0000"), None);
}
