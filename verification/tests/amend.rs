//! Finding and amending the last timesheet entry.

use md_timesheet::{
    amend_last_entry, amend_with_parsed, last_entry_description, try_amend_last_entry, DateTime,
    RecordsFormat,
    RECORD_FORMAT,
};

/// Builds a date-time for the given calendar fields.
fn dt(year: i32, month: u32, day: u32, hour: u32, minute: u32) -> DateTime {
    DateTime::new(year, month, day, hour, minute, 0, 0).unwrap()
}

/// A pre-existing day header for 1 January.
fn january_first() -> Vec<String> {
    vec![
        "#   1 January".to_string(),
        "".to_string(),
        "| Description | Start Time | End Time | Duration |".to_string(),
        "| --- | --- | --- | --- |".to_string(),
    ]
}

/// A pre-existing day header for 2 January.
fn january_second() -> Vec<String> {
    vec![
        "#   2 January".to_string(),
        "".to_string(),
        "| Description | Start Time | End Time | Duration |".to_string(),
        "| --- | --- | --- | --- |".to_string(),
    ]
}

/// An empty document has no entry to describe.
#[test]
fn last_entry_description_empty_document() {
    assert_eq!(last_entry_description(&[]), None);
}

/// A day header alone (including its separator) is not an entry.
#[test]
fn last_entry_description_header_only() {
    assert_eq!(last_entry_description(&january_second()), None);
}

/// A description-only row (all optional columns disabled) is still an entry.
#[test]
fn last_entry_description_single_column_row() {
    let lines = vec!["| Doing Stuff |".to_string()];

    assert_eq!(
        last_entry_description(&lines),
        Some("Doing Stuff".to_string())
    );
}

/// The description of the single entry is returned.
#[test]
fn last_entry_description_single_entry() {
    let mut lines = january_second();
    lines.push("| Doing Stuff | 12:00 | 13:02 | 01:10 |".to_string());
    lines.push("02/01/2024 13:02".to_string());

    assert_eq!(
        last_entry_description(&lines),
        Some("Doing Stuff".to_string())
    );
}

/// When there are several entries the last one wins.
#[test]
fn last_entry_description_returns_last_of_many() {
    let mut lines = january_second();
    lines.push("| First | 09:00 | 10:00 | 01:00 |".to_string());
    lines.push("| Second | 10:00 | 11:00 | 01:00 |".to_string());
    lines.push("02/01/2024 11:00".to_string());

    assert_eq!(last_entry_description(&lines), Some("Second".to_string()));
}

/// Amending rewrites the last entry and the trailing timestamp.
#[test]
fn amend_updates_last_entry() {
    let mut lines = january_second();
    lines.push("| Doing Stuff | 12:00 | 13:02 | 01:10 |".to_string());
    lines.push("02/01/2024 13:02".to_string());

    amend_last_entry(
        &mut lines,
        "Revised".to_string(),
        dt(2024, 1, 2, 14, 5),
        &RECORD_FORMAT(),
    )
    .unwrap();

    assert_eq!(lines[4], "| Revised | 12:00 | 14:05 | 02:10 |");
    assert_eq!(lines[5], "02/01/2024 14:05");
}

/// Amending leaves every earlier entry untouched.
#[test]
fn amend_preserves_earlier_entries() {
    let mut lines = january_second();
    lines.push("| First | 09:00 | 10:00 | 01:00 |".to_string());
    lines.push("| Second | 10:00 | 11:00 | 01:00 |".to_string());
    lines.push("02/01/2024 11:00".to_string());

    amend_last_entry(
        &mut lines,
        "Second Revised".to_string(),
        dt(2024, 1, 2, 11, 30),
        &RECORD_FORMAT(),
    )
    .unwrap();

    assert_eq!(lines[4], "| First | 09:00 | 10:00 | 01:00 |");
    assert_eq!(lines[5], "| Second Revised | 10:00 | 11:30 | 01:30 |");
    assert_eq!(lines[6], "02/01/2024 11:30");
}

/// A start time later than "now" is understood as before midnight.
#[test]
fn amend_handles_midnight_rollover() {
    let mut lines = january_first();
    lines.push("| Doing Stuff | 23:30 | 23:45 | 00:15 |".to_string());
    lines.push("01/01/2024 23:45".to_string());

    amend_last_entry(
        &mut lines,
        "Doing Stuff".to_string(),
        dt(2024, 1, 2, 0, 20),
        &RECORD_FORMAT(),
    )
    .unwrap();

    assert_eq!(lines[4], "| Doing Stuff | 23:30 | 00:20 | 00:50 |");
    assert_eq!(lines[5], "02/01/2024 00:20");
}

/// A document with no entry row cannot be amended.
#[test]
fn amend_errors_without_entry() {
    let mut lines = january_second();
    lines.push("02/01/2024 12:00".to_string());
    let before = lines.clone();

    assert!(amend_last_entry(
        &mut lines,
        "Revised".to_string(),
        dt(2024, 1, 2, 12, 0),
        &RECORD_FORMAT(),
    )
    .is_err());
    assert_eq!(lines, before);
}

/// An unparsable start time makes the amend fail without changing anything.
#[test]
fn amend_errors_on_unparsable_start_time() {
    let mut lines = january_second();
    lines.push("| Doing Stuff | nope | 13:00 | 01:00 |".to_string());
    lines.push("02/01/2024 13:00".to_string());
    let before = lines.clone();

    assert!(amend_last_entry(
        &mut lines,
        "Revised".to_string(),
        dt(2024, 1, 2, 14, 0),
        &RECORD_FORMAT(),
    )
    .is_err());
    assert_eq!(lines, before);
}

/// An unparsable trailing timestamp makes the amend fail without changes.
#[test]
fn amend_errors_on_invalid_timestamp() {
    let mut lines = january_second();
    lines.push("| Doing Stuff | 12:00 | 13:00 | 01:00 |".to_string());
    lines.push("garbage".to_string());
    let before = lines.clone();

    assert!(amend_last_entry(
        &mut lines,
        "Revised".to_string(),
        dt(2024, 1, 2, 14, 0),
        &RECORD_FORMAT(),
    )
    .is_err());
    assert_eq!(lines, before);
}

/// A format without the "Start Time" column cannot be amended.
#[test]
fn amend_errors_without_start_time_column() {
    let format = RecordsFormat {
        start_time: false,
        end_time: true,
        duration: true,
        duration_rounding: 10,
    };
    let mut lines = january_second();
    lines.push("| Doing Stuff | 13:00 | 01:00 |".to_string());
    lines.push("02/01/2024 13:00".to_string());
    let before = lines.clone();

    assert!(amend_last_entry(
        &mut lines,
        "Revised".to_string(),
        dt(2024, 1, 2, 14, 0),
        &format,
    )
    .is_err());
    assert_eq!(lines, before);
}

/// Each refusal names its reason.
#[test]
fn amend_error_messages() {
    let format = RecordsFormat {
        start_time: false,
        end_time: true,
        duration: true,
        duration_rounding: 10,
    };
    let mut lines = january_second();
    assert_eq!(
        amend_last_entry(&mut lines, "x".to_string(), dt(2024, 1, 2, 9, 0), &format).unwrap_err(),
        "Cannot amend without a Start Time column."
    );
    assert_eq!(
        amend_last_entry(&mut lines, "x".to_string(), dt(2024, 1, 2, 9, 0), &RECORD_FORMAT())
            .unwrap_err(),
        "There is no entry to amend."
    );
    lines.push("| Task | 9 o'clock | 10:00 | 01:00 |".to_string());
    lines.push("02/01/2024 10:00".to_string());
    assert_eq!(
        amend_last_entry(&mut lines, "x".to_string(), dt(2024, 1, 2, 11, 0), &RECORD_FORMAT())
            .unwrap_err(),
        "The last entry has no parsable start time."
    );
    lines[4] = "| Task | 09:00 | 10:00 | 01:00 |".to_string();
    lines[5] = "yesterday".to_string();
    assert_eq!(
        amend_last_entry(&mut lines, "x".to_string(), dt(2024, 1, 2, 11, 0), &RECORD_FORMAT())
            .unwrap_err(),
        "The last line is not a valid timestamp."
    );
}

/// Moving the start back a day crosses a month and a year boundary.
#[test]
fn amend_rollover_across_new_year() {
    let mut lines = vec![
        "| Party | 23:50 | 23:55 | 00:10 |".to_string(),
        "31/12/2023 23:55".to_string(),
    ];
    amend_last_entry(&mut lines, "Party".to_string(), dt(2024, 1, 1, 0, 35), &RECORD_FORMAT())
        .unwrap();
    assert_eq!(lines[0], "| Party | 23:50 | 00:35 | 00:50 |");
    assert_eq!(lines[1], "01/01/2024 00:35");
}

/// Rows whose first cell is the header or separator are not entries.
#[test]
fn last_entry_skips_header_like_rows() {
    let lines = vec![
        "| Real | 09:00 |".to_string(),
        "| Description |".to_string(),
        "| --- | --- |".to_string(),
        "| |".to_string(),
        "plain text".to_string(),
    ];
    assert_eq!(last_entry_description(&lines), Some("Real".to_string()));
}

/// Given a start time, a valid timestamp and the span, amending rewrites
/// the entry with them; each missing piece gives its error.
#[test]
fn amend_with_given_parts() {
    let mut lines = january_second();
    lines.push("| Old | 09:00 | 10:00 | 01:00 |".to_string());
    lines.push("02/01/2024 10:00".to_string());
    let before = lines.clone();
    assert_eq!(
        amend_with_parsed(&mut lines, "New".to_string(), None, true, (0, 0), dt(2024, 1, 2, 11, 0), &RECORD_FORMAT())
            .unwrap_err(),
        "The last entry has no parsable start time."
    );
    assert_eq!(
        amend_with_parsed(
            &mut lines,
            "New".to_string(),
            Some((9, 0, 0, 0)),
            false,
            (0, 0),
            dt(2024, 1, 2, 11, 0),
            &RECORD_FORMAT(),
        )
        .unwrap_err(),
        "The last line is not a valid timestamp."
    );
    assert_eq!(lines, before);
    amend_with_parsed(
        &mut lines,
        "New".to_string(),
        Some((9, 0, 0, 0)),
        true,
        (7260, 0),
        dt(2024, 1, 2, 11, 1),
        &RECORD_FORMAT(),
    )
    .unwrap();
    assert_eq!(lines[4], "| New | 09:00 | 11:01 | 02:10 |");
    assert_eq!(lines[5], "02/01/2024 11:01");
}

/// A row whose start time is its last cell (a format with only the Start
/// Time column) is amended like any other.
#[test]
fn amend_start_time_as_last_cell() {
    let format = RecordsFormat {
        start_time: true,
        end_time: false,
        duration: false,
        duration_rounding: 10,
    };
    let mut lines = vec!["| Doing Stuff | 12:00 |".to_string(), "02/01/2024 12:30".to_string()];
    amend_last_entry(&mut lines, "Revised".to_string(), dt(2024, 1, 2, 13, 0), &format).unwrap();
    assert_eq!(lines, vec!["| Revised | 12:00 |".to_string(), "02/01/2024 13:00".to_string()]);
}

/// The seconds of the current time count toward the amended duration.
#[test]
fn amend_rounds_up_partial_minutes() {
    let mut lines = vec![
        "| Task | 12:00 | 12:30 | 00:30 |".to_string(),
        "02/01/2024 12:30".to_string(),
    ];
    let now = DateTime::new(2024, 1, 2, 13, 0, 30, 0).unwrap();
    amend_last_entry(&mut lines, "Task".to_string(), now, &RECORD_FORMAT()).unwrap();
    assert_eq!(lines[0], "| Task | 12:00 | 13:00 | 01:10 |");
}

/// Where the entry would be rewritten with a rounding of zero, or with its
/// start moved back from the first representable date, nothing is done;
/// otherwise the amendment happens or its error comes back.
#[test]
fn try_amend_where_it_cannot_be_done() {
    let zero = RecordsFormat {
        start_time: true,
        end_time: true,
        duration: true,
        duration_rounding: 0,
    };
    let mut lines = vec![
        "| Task | 12:00 | 12:30 | 00:30 |".to_string(),
        "02/01/2024 12:30".to_string(),
    ];
    let before = lines.clone();
    assert!(try_amend_last_entry(&mut lines, "x".to_string(), dt(2024, 1, 2, 13, 0), &zero).is_none());
    assert_eq!(lines, before);

    let first = DateTime::new(-262143, 1, 1, 1, 0, 0, 0).unwrap();
    let mut early = vec!["| Task | 23:00 |".to_string(), "01/01/2024 23:30".to_string()];
    let format = RecordsFormat {
        start_time: true,
        end_time: false,
        duration: false,
        duration_rounding: 10,
    };
    let before = early.clone();
    assert!(try_amend_last_entry(&mut early, "x".to_string(), first, &format).is_none());
    assert_eq!(early, before);

    let mut none: Vec<String> = vec!["02/01/2024 12:30".to_string()];
    let res = try_amend_last_entry(&mut none, "x".to_string(), dt(2024, 1, 2, 13, 0), &zero);
    assert_eq!(res, Some(Err("There is no entry to amend.".to_string())));

    let res = try_amend_last_entry(&mut lines, "x".to_string(), dt(2024, 1, 2, 13, 0), &RECORD_FORMAT());
    assert_eq!(res, Some(Ok(())));
    assert_eq!(lines[0], "| x | 12:00 | 13:00 | 01:00 |");
}

/// A document whose only table row is followed by its timestamp amends
/// that row, never the timestamp line.
#[test]
fn amend_keeps_timestamp_line_apart() {
    let mut lines = vec!["| Task | 08:00 |".to_string(), " 02/01/2024 08:30".to_string()];
    let format = RecordsFormat {
        start_time: true,
        end_time: false,
        duration: false,
        duration_rounding: 10,
    };
    amend_last_entry(&mut lines, "Done".to_string(), dt(2024, 1, 2, 9, 0), &format).unwrap();
    assert_eq!(lines, vec!["| Done | 08:00 |".to_string(), "02/01/2024 09:00".to_string()]);
}
