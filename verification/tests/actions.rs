//! The "Start" and "Worked on" actions.

use md_timesheet::{
    amend_last_entry, apply_start, apply_worked, last_entry_description, new_day,
    start_with_previous, try_apply_worked, worked_with_previous, DateTime, RecordsFormat,
    RECORD_FORMAT,
};

/// Builds a date-time for the given calendar fields.
fn dt(year: i32, month: u32, day: u32, hour: u32, minute: u32) -> DateTime {
    DateTime::new(year, month, day, hour, minute, 0, 0).unwrap()
}

/// A pre-existing day header for 1 January.
fn january_first() -> Vec<String> {
    vec![
        "#   1 January".to_string(),
        "".to_string(),
        "| Description | Start Time | End Time | Duration |".to_string(),
        "| --- | --- | --- | --- |".to_string(),
    ]
}

/// A pre-existing day header for 2 January.
fn january_second() -> Vec<String> {
    vec![
        "#   2 January".to_string(),
        "".to_string(),
        "| Description | Start Time | End Time | Duration |".to_string(),
        "| --- | --- | --- | --- |".to_string(),
    ]
}

/// "Start" on an empty document creates a day and writes the timestamp.
#[test]
fn start_empty_document() {
    let mut lines = Vec::new();
    apply_start(&mut lines, dt(2024, 1, 2, 12, 0), &RECORD_FORMAT()).unwrap();

    let mut expected = january_second();
    expected.push("02/01/2024 12:00".to_string());
    assert_eq!(lines, expected);
}

/// "Start" on a previous day inserts a blank line and a fresh day header.
#[test]
fn start_rolls_over_day() {
    let mut lines = january_first();
    lines.push("01/01/2024 10:00".to_string());

    apply_start(&mut lines, dt(2024, 1, 2, 9, 0), &RECORD_FORMAT()).unwrap();

    let mut expected = january_first();
    expected.push("".to_string());
    expected.extend(new_day(&dt(2024, 1, 2, 9, 0), &RECORD_FORMAT()));
    expected.push("02/01/2024 09:00".to_string());
    assert_eq!(lines, expected);
}

/// "Start" on the same day only updates the trailing timestamp.
#[test]
fn start_same_day_updates_timestamp() {
    let mut lines = january_second();
    lines.push("02/01/2024 10:00".to_string());

    apply_start(&mut lines, dt(2024, 1, 2, 12, 0), &RECORD_FORMAT()).unwrap();

    let mut expected = january_second();
    expected.push("02/01/2024 12:00".to_string());
    assert_eq!(lines, expected);
}

/// "Start" with an unparsable trailing line errors and changes nothing.
#[test]
fn start_unparsable_last_line() {
    let mut lines = january_second();
    lines.push("not a timestamp".to_string());
    let before = lines.clone();

    assert!(apply_start(&mut lines, dt(2024, 1, 2, 12, 0), &RECORD_FORMAT()).is_err());
    assert_eq!(lines, before);
}

/// "Worked on" on an empty document creates a day and a zero-length entry.
#[test]
fn worked_empty_document() {
    let mut lines = Vec::new();
    apply_worked(
        &mut lines,
        "Doing Stuff".to_string(),
        dt(2024, 1, 2, 12, 0),
        &RECORD_FORMAT(),
    )
    .unwrap();

    let mut expected = january_second();
    expected.push("| Doing Stuff | 12:00 | 12:00 | 00:00 |".to_string());
    expected.push("02/01/2024 12:00".to_string());
    assert_eq!(lines, expected);
}

/// "Worked on" on the same day appends an entry from the previous timestamp.
#[test]
fn worked_same_day() {
    let mut lines = january_second();
    lines.push("02/01/2024 10:00".to_string());

    apply_worked(
        &mut lines,
        "Doing Stuff".to_string(),
        dt(2024, 1, 2, 11, 30),
        &RECORD_FORMAT(),
    )
    .unwrap();

    let mut expected = january_second();
    expected.push("| Doing Stuff | 10:00 | 11:30 | 01:30 |".to_string());
    expected.push("02/01/2024 11:30".to_string());
    assert_eq!(lines, expected);
}

/// "Worked on" across midnight closes the previous day and starts a new one.
#[test]
fn worked_rolls_over_midnight() {
    let mut lines = january_first();
    lines.push("01/01/2024 23:30".to_string());

    apply_worked(
        &mut lines,
        "Doing Stuff".to_string(),
        dt(2024, 1, 2, 0, 20),
        &RECORD_FORMAT(),
    )
    .unwrap();

    let mut expected = january_first();
    expected.push("| Doing Stuff | 23:30 | 00:20 | 00:50 |".to_string());
    expected.push("".to_string());
    expected.extend(new_day(&dt(2024, 1, 2, 0, 20), &RECORD_FORMAT()));
    expected.push("02/01/2024 00:20".to_string());
    assert_eq!(lines, expected);
}

/// "Worked on" with an unparsable trailing line errors and changes nothing.
#[test]
fn worked_unparsable_last_line() {
    let mut lines = january_second();
    lines.push("garbage".to_string());
    let before = lines.clone();

    assert!(apply_worked(
        &mut lines,
        "Doing Stuff".to_string(),
        dt(2024, 1, 2, 12, 0),
        &RECORD_FORMAT(),
    )
    .is_err());
    assert_eq!(lines, before);
}

/// The error of an unparsable timestamp is chrono's parse error text.
#[test]
fn start_error_is_parse_error_text() {
    let mut lines = january_second();
    lines.push("02/01/2024".to_string());
    let error = apply_start(&mut lines, dt(2024, 1, 2, 12, 0), &RECORD_FORMAT()).unwrap_err();
    let chrono_error =
        chrono::NaiveDateTime::parse_from_str("02/01/2024", "%d/%m/%Y %H:%M").unwrap_err();
    assert_eq!(error, chrono_error.to_string());
}

/// "Start" twice on the same day keeps a single day header.
#[test]
fn start_twice_same_day() {
    let mut lines = Vec::new();
    apply_start(&mut lines, dt(2024, 3, 5, 8, 0), &RECORD_FORMAT()).unwrap();
    apply_start(&mut lines, dt(2024, 3, 5, 13, 15), &RECORD_FORMAT()).unwrap();
    let mut expected = new_day(&dt(2024, 3, 5, 8, 0), &RECORD_FORMAT());
    expected.push("05/03/2024 13:15".to_string());
    assert_eq!(lines, expected);
}

/// A previous timestamp given directly decides between the same and a new day.
#[test]
fn start_with_given_previous() {
    let mut lines = january_first();
    lines.push("anything".to_string());
    start_with_previous(&mut lines, Ok(dt(2024, 1, 1, 8, 0)), dt(2024, 1, 1, 9, 0), &RECORD_FORMAT())
        .unwrap();
    let mut expected = january_first();
    expected.push("01/01/2024 09:00".to_string());
    assert_eq!(lines, expected);

    let before = lines.clone();
    let error = start_with_previous(
        &mut lines,
        Err("bad".to_string()),
        dt(2024, 1, 1, 9, 0),
        &RECORD_FORMAT(),
    )
    .unwrap_err();
    assert_eq!(error, "bad");
    assert_eq!(lines, before);
}

/// An entry row is built from the span given with the previous timestamp.
#[test]
fn worked_with_given_span() {
    let mut lines = january_second();
    lines.push("02/01/2024 10:00".to_string());
    worked_with_previous(
        &mut lines,
        "Task".to_string(),
        Ok(dt(2024, 1, 2, 10, 0)),
        (1260, 0),
        dt(2024, 1, 2, 10, 21),
        &RECORD_FORMAT(),
    )
    .unwrap();
    let mut expected = january_second();
    expected.push("| Task | 10:00 | 10:21 | 00:30 |".to_string());
    expected.push("02/01/2024 10:21".to_string());
    assert_eq!(lines, expected);
}

/// Years before 1000 are zero-padded in the timestamp.
#[test]
fn start_pads_small_years() {
    let mut lines = Vec::new();
    apply_start(&mut lines, dt(987, 6, 7, 5, 4), &RECORD_FORMAT()).unwrap();
    assert_eq!(lines.last().unwrap(), "07/06/0987 05:04");
}

/// What "Worked on" writes is read back as the last entry, on the same day
/// and across midnight.
#[test]
fn worked_entry_reads_back() {
    let mut lines = january_second();
    lines.push("02/01/2024 10:00".to_string());
    apply_worked(&mut lines, "Reviewing".to_string(), dt(2024, 1, 2, 11, 0), &RECORD_FORMAT())
        .unwrap();
    assert_eq!(last_entry_description(&lines), Some("Reviewing".to_string()));

    let mut lines = january_first();
    lines.push("01/01/2024 23:30".to_string());
    apply_worked(&mut lines, "Late work".to_string(), dt(2024, 1, 2, 0, 20), &RECORD_FORMAT())
        .unwrap();
    assert_eq!(last_entry_description(&lines), Some("Late work".to_string()));
}

/// A repeated "Start" at the same moment leaves the document as it is.
#[test]
fn start_again_at_same_moment() {
    let now = DateTime::new(2024, 1, 2, 9, 15, 42, 7).unwrap();
    let mut lines = january_first();
    lines.push("01/01/2024 17:00".to_string());
    apply_start(&mut lines, now, &RECORD_FORMAT()).unwrap();
    let once = lines.clone();
    apply_start(&mut lines, now, &RECORD_FORMAT()).unwrap();
    assert_eq!(lines, once);
}

/// "Worked on" after "Start" times the task from the Start, to the minute.
#[test]
fn worked_after_start_times_from_start() {
    let mut lines = january_second();
    lines.push("02/01/2024 08:00".to_string());
    apply_start(&mut lines, DateTime::new(2024, 1, 2, 9, 0, 40, 0).unwrap(), &RECORD_FORMAT())
        .unwrap();
    apply_worked(
        &mut lines,
        "Task".to_string(),
        DateTime::new(2024, 1, 2, 9, 20, 30, 0).unwrap(),
        &RECORD_FORMAT(),
    )
    .unwrap();
    let mut expected = january_second();
    expected.push("| Task | 09:00 | 09:20 | 00:30 |".to_string());
    expected.push("02/01/2024 09:20".to_string());
    assert_eq!(lines, expected);
}

/// Amending the entry just recorded equals recording the new text at the
/// new time.
#[test]
fn amend_after_worked_is_worked() {
    let mut base = january_second();
    base.push("02/01/2024 10:00".to_string());

    let mut amended = base.clone();
    apply_worked(&mut amended, "First".to_string(), dt(2024, 1, 2, 10, 30), &RECORD_FORMAT())
        .unwrap();
    amend_last_entry(&mut amended, "Second".to_string(), dt(2024, 1, 2, 11, 5), &RECORD_FORMAT())
        .unwrap();

    let mut direct = base.clone();
    apply_worked(&mut direct, "Second".to_string(), dt(2024, 1, 2, 11, 5), &RECORD_FORMAT())
        .unwrap();
    assert_eq!(amended, direct);
}

/// With a rounding of zero no entry row can be built: `None`, and the
/// document is left as it is; an unparsable last line still gives its error.
#[test]
fn try_worked_with_zero_rounding() {
    let format = RecordsFormat {
        start_time: true,
        end_time: true,
        duration: true,
        duration_rounding: 0,
    };
    let mut lines = january_second();
    lines.push("02/01/2024 10:00".to_string());
    let before = lines.clone();
    assert!(try_apply_worked(&mut lines, "x".to_string(), dt(2024, 1, 2, 11, 0), &format).is_none());
    assert_eq!(lines, before);

    let mut empty: Vec<String> = Vec::new();
    assert!(try_apply_worked(&mut empty, "x".to_string(), dt(2024, 1, 2, 11, 0), &format).is_none());
    assert!(empty.is_empty());

    lines.push("garbage".to_string());
    let before = lines.clone();
    let res = try_apply_worked(&mut lines, "x".to_string(), dt(2024, 1, 2, 11, 0), &format);
    assert!(matches!(res, Some(Err(_))));
    assert_eq!(lines, before);

    let mut lines = january_second();
    lines.push("02/01/2024 10:00".to_string());
    let res = try_apply_worked(&mut lines, "x".to_string(), dt(2024, 1, 2, 10, 20), &RECORD_FORMAT());
    assert_eq!(res, Some(Ok(())));
    assert_eq!(lines[4], "| x | 10:00 | 10:20 | 00:20 |");
}

/// The timestamp written in a year beyond 9999, or before year 0, reads
/// back: a repeated Start changes nothing and amending the entry just
/// recorded equals recording the new text.
#[test]
fn read_back_outside_four_digit_years() {
    for year in [10_000, 262_142, -1, -262_142] {
        let mut lines: Vec<String> = Vec::new();
        apply_start(&mut lines, dt(year, 3, 4, 9, 0), &RECORD_FORMAT()).unwrap();
        let once = lines.clone();
        apply_start(&mut lines, dt(year, 3, 4, 9, 0), &RECORD_FORMAT()).unwrap();
        assert_eq!(lines, once);

        let mut amended = once.clone();
        apply_worked(&mut amended, "First".to_string(), dt(year, 3, 4, 9, 30), &RECORD_FORMAT())
            .unwrap();
        amend_last_entry(&mut amended, "Second".to_string(), dt(year, 3, 4, 10, 5), &RECORD_FORMAT())
            .unwrap();
        let mut direct = once.clone();
        apply_worked(&mut direct, "Second".to_string(), dt(year, 3, 4, 10, 5), &RECORD_FORMAT())
            .unwrap();
        assert_eq!(amended, direct);
        assert_eq!(direct[4], "| Second | 09:00 | 10:05 | 01:10 |");
    }
}
