//! Day headers and entry rows.

use md_timesheet::{new_day, new_entry, new_entry_with_span, DateTime, RecordsFormat, RECORD_FORMAT};

/// Builds a date-time for the given calendar fields.
fn dt(year: i32, month: u32, day: u32, hour: u32, minute: u32) -> DateTime {
    DateTime::new(year, month, day, hour, minute, 0, 0).unwrap()
}

/// A fully-featured day header lists every enabled column.
#[test]
fn new_day_all_columns() {
    let day = new_day(&dt(2024, 1, 2, 12, 0), &RECORD_FORMAT());
    assert_eq!(
        day,
        vec![
            "#   2 January",
            "",
            "| Description | Start Time | End Time | Duration |",
            "| --- | --- | --- | --- |",
        ]
    );
}

/// Disabled columns are omitted from the day header and its separator.
#[test]
fn new_day_subset_of_columns() {
    let format = RecordsFormat {
        start_time: false,
        end_time: false,
        duration: true,
        duration_rounding: 10,
    };
    let day = new_day(&dt(2024, 1, 2, 12, 0), &format);
    assert_eq!(
        day,
        vec![
            "#   2 January",
            "",
            "| Description | Duration |",
            "| --- | --- |",
        ]
    );
}

/// With every optional column disabled only the description column remains.
#[test]
fn new_day_description_only() {
    let format = RecordsFormat {
        start_time: false,
        end_time: false,
        duration: false,
        duration_rounding: 10,
    };
    let day = new_day(&dt(2024, 12, 31, 0, 0), &format);
    assert_eq!(day[0], "#  31 December");
    assert_eq!(day[2], "| Description |");
    assert_eq!(day[3], "| --- |");
}

/// A partial minute is rounded up to the next whole rounding step.
#[test]
fn new_entry_rounds_up() {
    let entry = new_entry(
        "Doing Stuff".to_string(),
        &dt(2024, 1, 2, 12, 0),
        &dt(2024, 1, 2, 13, 2),
        &RECORD_FORMAT(),
    );
    assert_eq!(entry, vec!["| Doing Stuff | 12:00 | 13:02 | 01:10 |"]);
}

/// A duration already on a rounding boundary is left unchanged.
#[test]
fn new_entry_exact_multiple() {
    let entry = new_entry(
        "Doing Stuff".to_string(),
        &dt(2024, 1, 2, 12, 0),
        &dt(2024, 1, 2, 13, 0),
        &RECORD_FORMAT(),
    );
    assert_eq!(entry, vec!["| Doing Stuff | 12:00 | 13:00 | 01:00 |"]);
}

/// A zero-length entry rounds to `00:00`.
#[test]
fn new_entry_zero_duration() {
    let entry = new_entry(
        "Doing Stuff".to_string(),
        &dt(2024, 1, 2, 12, 0),
        &dt(2024, 1, 2, 12, 0),
        &RECORD_FORMAT(),
    );
    assert_eq!(entry, vec!["| Doing Stuff | 12:00 | 12:00 | 00:00 |"]);
}

/// Disabled columns are omitted from an entry row.
#[test]
fn new_entry_description_only() {
    let format = RecordsFormat {
        start_time: false,
        end_time: false,
        duration: false,
        duration_rounding: 10,
    };
    let entry = new_entry(
        "Doing Stuff".to_string(),
        &dt(2024, 1, 2, 12, 0),
        &dt(2024, 1, 2, 13, 0),
        &format,
    );
    assert_eq!(entry, vec!["| Doing Stuff |"]);
}

/// A custom rounding step is honoured.
#[test]
fn new_entry_custom_rounding() {
    let format = RecordsFormat {
        start_time: false,
        end_time: true,
        duration: true,
        duration_rounding: 15,
    };
    let entry = new_entry(
        "Doing Stuff".to_string(),
        &dt(2024, 1, 2, 12, 0),
        &dt(2024, 1, 2, 12, 16),
        &format,
    );
    assert_eq!(entry, vec!["| Doing Stuff | 12:16 | 00:30 |"]);
}

/// The minutes between two date-times span days and months.
#[test]
fn new_entry_counts_minutes_across_days() {
    let entry = new_entry(
        "Long task".to_string(),
        &dt(2024, 1, 31, 23, 0),
        &dt(2024, 2, 1, 1, 5),
        &RECORD_FORMAT(),
    );
    assert_eq!(entry, vec!["| Long task | 23:00 | 01:05 | 02:10 |"]);
}

/// A partial minute counts toward the duration, which is rounded up.
#[test]
fn new_entry_rounds_up_partial_minutes() {
    let start = dt(2024, 1, 2, 10, 0);
    let end = DateTime::new(2024, 1, 2, 10, 9, 59, 0).unwrap();
    let entry = new_entry("Short".to_string(), &start, &end, &RECORD_FORMAT());
    assert_eq!(entry, vec!["| Short | 10:00 | 10:09 | 00:10 |"]);

    let end = DateTime::new(2024, 1, 2, 11, 0, 30, 0).unwrap();
    let entry = new_entry("Hour".to_string(), &start, &end, &RECORD_FORMAT());
    assert_eq!(entry, vec!["| Hour | 10:00 | 11:00 | 01:10 |"]);

    let end = DateTime::new(2024, 1, 2, 11, 0, 0, 1).unwrap();
    let entry = new_entry("Hour".to_string(), &start, &end, &RECORD_FORMAT());
    assert_eq!(entry, vec!["| Hour | 10:00 | 11:00 | 01:10 |"]);

    let end = dt(2024, 1, 2, 11, 0);
    let entry = new_entry("Hour".to_string(), &start, &end, &RECORD_FORMAT());
    assert_eq!(entry, vec!["| Hour | 10:00 | 11:00 | 01:00 |"]);
}

/// An end before the start gives a negative duration, printed as Rust does.
#[test]
fn new_entry_negative_duration() {
    let format = RecordsFormat {
        start_time: false,
        end_time: false,
        duration: true,
        duration_rounding: 10,
    };
    let entry = new_entry_with_span(
        "Back".to_string(),
        &dt(2024, 1, 2, 12, 0),
        &dt(2024, 1, 2, 11, 45),
        (-4500, 0),
        &format,
    );
    assert_eq!(entry, vec!["| Back | -1:-10 |"]);
}

/// Long durations print more than two digits of hours.
#[test]
fn new_entry_long_duration() {
    let format = RecordsFormat {
        start_time: false,
        end_time: false,
        duration: true,
        duration_rounding: 1,
    };
    let entry = new_entry_with_span(
        "Marathon".to_string(),
        &dt(2024, 1, 2, 12, 0),
        &dt(2024, 1, 7, 0, 1),
        (388_860, 0),
        &format,
    );
    assert_eq!(entry, vec!["| Marathon | 108:01 |"]);
}

/// The heading names each month in English.
#[test]
fn new_day_heading_names_each_month() {
    let names = [
        "January", "February", "March", "April", "May", "June", "July", "August", "September",
        "October", "November", "December",
    ];
    for (i, name) in names.iter().enumerate() {
        let day = new_day(&dt(2023, (i + 1) as u32, 15, 8, 0), &RECORD_FORMAT());
        assert_eq!(day[0], format!("#  15 {}", name));
    }
}

/// `DateTime::new` refuses values that are not a date and time.
#[test]
fn date_time_rejects_invalid_fields() {
    assert!(DateTime::new(2023, 2, 29, 0, 0, 0, 0).is_none());
    assert!(DateTime::new(2024, 2, 29, 0, 0, 0, 0).is_some());
    assert!(DateTime::new(1900, 2, 29, 0, 0, 0, 0).is_none());
    assert!(DateTime::new(2000, 2, 29, 0, 0, 0, 0).is_some());
    assert!(DateTime::new(2024, 13, 1, 0, 0, 0, 0).is_none());
    assert!(DateTime::new(2024, 4, 31, 0, 0, 0, 0).is_none());
    assert!(DateTime::new(2024, 1, 1, 24, 0, 0, 0).is_none());
    assert!(DateTime::new(2024, 1, 1, 23, 60, 0, 0).is_none());
    assert!(DateTime::new(2024, 1, 1, 23, 59, 58, 1_500_000_000).is_none());
    assert!(DateTime::new(2024, 1, 1, 23, 59, 59, 1_500_000_000).is_some());
    assert!(DateTime::new(262143, 1, 1, 0, 0, 0, 0).is_none());
}

/// The duration is the exact span: across a leap day, a year boundary, and
/// a century year that is not a leap year.
#[test]
fn new_entry_exact_span_across_dates() {
    let format = RecordsFormat {
        start_time: false,
        end_time: false,
        duration: true,
        duration_rounding: 1,
    };
    let entry = new_entry("Leap".to_string(), &dt(2024, 2, 28, 23, 0), &dt(2024, 3, 1, 0, 0), &format);
    assert_eq!(entry, vec!["| Leap | 25:00 |"]);
    let entry = new_entry("Year".to_string(), &dt(2023, 12, 31, 22, 30), &dt(2024, 1, 1, 0, 0), &format);
    assert_eq!(entry, vec!["| Year | 01:30 |"]);
    let entry = new_entry("Century".to_string(), &dt(1900, 2, 28, 0, 0), &dt(1900, 3, 1, 0, 0), &format);
    assert_eq!(entry, vec!["| Century | 24:00 |"]);
    let entry = new_entry("Before".to_string(), &dt(-1, 12, 31, 0, 0), &dt(0, 3, 1, 0, 0), &format);
    assert_eq!(entry, vec!["| Before | 1464:00 |"]);
}
