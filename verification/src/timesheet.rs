//! The Markdown timesheet: day headers, entry rows, and the document
//! changes made by the "Start", "Worked on" and amend actions.
//!
//! A document is a list of lines. Each day is a heading, a blank line and
//! a table; the document's last line holds the timestamp of the previous
//! action.

use vstd::prelude::*;

use crate::datetime::{
    minute_reading,
    clock_pattern, clock_text, format_datetime, lemma_pattern_literals, heading_text, minus_one_day,
    parse_datetime, parse_time, parsed_datetime, parsed_time, span_between, span_fits, span_from,
    span_nanos, at_minute, max_span_seconds, exact_span, timestamp_pattern, timestamp_text, valid_time, DateTime, MIN_YEAR,
};
use crate::text::{
    chars_eq_str, chars_of, ends_with, ends_with_chars, int_text, int_text_exec, join_lines,
    lines, nat_text, nat_text_exec, push_chars, push_str, seq_views, split_lines, split_once,
    split_once_chars, starts_with, starts_with_chars, string_of, string_views, sub_chars, unlines,
    occurs_at,
};

verus! {

/// Which columns a table header and its rows contain.
#[derive(Clone, Copy, Debug, PartialEq, Eq, Structural)]
pub struct RecordsFormat {
    /// Include a "Start Time" column.
    pub start_time: bool,
    /// Include an "End Time" column.
    pub end_time: bool,
    /// Include a "Duration" column.
    pub duration: bool,
    /// Round durations up to the next multiple of this many minutes.
    pub duration_rounding: i32,
}

/// The default record format: all columns enabled, durations rounded up
/// to 10 minutes.
pub open spec fn default_format() -> RecordsFormat {
    RecordsFormat { start_time: true, end_time: true, duration: true, duration_rounding: 10 }
}

/// Default record format: all columns enabled, durations rounded up to 10
/// minutes.
#[allow(non_snake_case)]
pub fn RECORD_FORMAT() -> (res: RecordsFormat)
    ensures
        res == default_format(),
{
    RecordsFormat { start_time: true, end_time: true, duration: true, duration_rounding: 10 }
}

// ---------------------------------------------------------------------
// Tables
// ---------------------------------------------------------------------

/// The column titles of a table with the columns of `f`.
pub open spec fn header_columns(f: RecordsFormat) -> Seq<Seq<char>> {
    seq!["Description"@] + (if f.start_time {
        seq!["Start Time"@]
    } else {
        seq![]
    }) + (if f.end_time {
        seq!["End Time"@]
    } else {
        seq![]
    }) + (if f.duration {
        seq!["Duration"@]
    } else {
        seq![]
    })
}

/// The cells joined by ` | `.
pub open spec fn join_cells(cells: Seq<Seq<char>>) -> Seq<char>
    decreases cells.len(),
{
    if cells.len() == 0 {
        seq![]
    } else if cells.len() == 1 {
        cells[0]
    } else {
        join_cells(cells.drop_last()) + " | "@ + cells.last()
    }
}

/// A Markdown table row holding `cells`.
pub open spec fn table_row(cells: Seq<Seq<char>>) -> Seq<char> {
    "| "@ + join_cells(cells) + " |"@
}

/// `n` separator cells `---`.
pub open spec fn separator_cells(n: nat) -> Seq<Seq<char>> {
    Seq::new(n, |i: int| "---"@)
}

/// The lines that start a new day: the heading, a blank line, the table
/// header and its separator.
pub open spec fn day_lines(dt: DateTime, f: RecordsFormat) -> Seq<Seq<char>> {
    seq![
        "#  "@ + heading_text(dt),
        Seq::<char>::empty(),
        table_row(header_columns(f)),
        table_row(separator_cells(header_columns(f).len())),
    ]
}

// ---------------------------------------------------------------------
// Durations
// ---------------------------------------------------------------------

/// The absolute value of `a`.
pub open spec fn abs(a: int) -> int {
    if a < 0 {
        -a
    } else {
        a
    }
}

/// Integer division rounding toward zero (Rust's `/`).
pub open spec fn tdiv(a: int, b: int) -> int {
    if (a >= 0) == (b > 0) {
        abs(a) / abs(b)
    } else {
        -(abs(a) / abs(b))
    }
}

/// The remainder of `tdiv`, with the sign of `a` (Rust's `%`).
pub open spec fn trem(a: int, b: int) -> int {
    if a >= 0 {
        abs(a) % abs(b)
    } else {
        -(abs(a) % abs(b))
    }
}

/// The nanoseconds in a minute.
pub open spec fn nanos_per_minute() -> int {
    60_000_000_000
}

/// A span of `span` nanoseconds in minutes, rounded up to a multiple of
/// `r` minutes when it has a positive remainder: `(s / R) * r + if s % R > 0
/// { r } else { 0 }` with `R` the nanoseconds in `r` minutes and Rust's
/// `/` and `%`. A span of whole minutes `m` gives `(m / r) * r + if m % r > 0
/// { r } else { 0 }`.
pub open spec fn rounded_duration(span: int, r: int) -> int {
    tdiv(span, r * nanos_per_minute()) * r + if trem(span, r * nanos_per_minute()) > 0 {
        r
    } else {
        0
    }
}

/// An integer printed with `{:02}`.
pub open spec fn pad2(n: int) -> Seq<char> {
    if 0 <= n < 10 {
        seq!['0'] + nat_text(n as nat)
    } else {
        int_text(n)
    }
}

/// A duration in minutes printed as `HH:MM`.
pub open spec fn duration_text(m: int) -> Seq<char> {
    pad2(tdiv(m, 60)) + seq![':'] + pad2(trem(m, 60))
}

/// The cells of an entry row.
pub open spec fn entry_cells(
    desc: Seq<char>,
    start: DateTime,
    end: DateTime,
    span: int,
    f: RecordsFormat,
) -> Seq<Seq<char>> {
    seq![desc] + (if f.start_time {
        seq![clock_text(start)]
    } else {
        seq![]
    }) + (if f.end_time {
        seq![clock_text(end)]
    } else {
        seq![]
    }) + (if f.duration {
        seq![duration_text(rounded_duration(span, f.duration_rounding as int))]
    } else {
        seq![]
    })
}

/// The table row recording a task from `start` to `end` that took `span`
/// nanoseconds.
pub open spec fn entry_line(
    desc: Seq<char>,
    start: DateTime,
    end: DateTime,
    span: int,
    f: RecordsFormat,
) -> Seq<char> {
    table_row(entry_cells(desc, start, end, span, f))
}

// ---------------------------------------------------------------------
// Document changes
// ---------------------------------------------------------------------

/// A `Result` with its error taken by its characters.
pub open spec fn result_view(r: Result<DateTime, String>) -> Result<DateTime, Seq<char>> {
    match r {
        Ok(d) => Ok(d),
        Err(e) => Err(e@),
    }
}

/// How the previous timestamp on the last line of `doc` reads.
pub open spec fn previous_timestamp(doc: Seq<Seq<char>>) -> Result<DateTime, Seq<char>> {
    parsed_datetime(doc.last(), timestamp_pattern())
}

/// The document after "Start" at `cur`, given how its last line parsed;
/// the error when it did not parse.
pub open spec fn start_outcome(
    doc: Seq<Seq<char>>,
    previous: Result<DateTime, Seq<char>>,
    cur: DateTime,
    f: RecordsFormat,
) -> Result<Seq<Seq<char>>, Seq<char>> {
    if doc.len() == 0 {
        Ok(day_lines(cur, f).push(timestamp_text(cur)))
    } else {
        match previous {
            Err(e) => Err(e),
            Ok(p) => if p.same_date(cur) {
                Ok(doc.drop_last().push(timestamp_text(cur)))
            } else {
                Ok((doc.drop_last().push(Seq::<char>::empty()) + day_lines(cur, f)).push(
                    timestamp_text(cur),
                ))
            },
        }
    }
}

/// The document after "Worked on" `desc` at `cur`, given how its last line
/// parsed and the span in nanoseconds from that timestamp to `cur`.
pub open spec fn worked_outcome(
    doc: Seq<Seq<char>>,
    previous: Result<DateTime, Seq<char>>,
    span: int,
    desc: Seq<char>,
    cur: DateTime,
    f: RecordsFormat,
) -> Result<Seq<Seq<char>>, Seq<char>> {
    if doc.len() == 0 {
        Ok(day_lines(cur, f).push(entry_line(desc, cur, cur, 0, f)).push(timestamp_text(cur)))
    } else {
        match previous {
            Err(e) => Err(e),
            Ok(p) => if p.same_date(cur) {
                Ok(doc.drop_last().push(entry_line(desc, p, cur, span, f)).push(
                    timestamp_text(cur),
                ))
            } else {
                Ok(
                    (doc.drop_last().push(entry_line(desc, p, cur, span, f)).push(
                        Seq::<char>::empty(),
                    ) + day_lines(cur, f)).push(timestamp_text(cur)),
                )
            },
        }
    }
}

/// Where the entry that "Worked on" records starts: at `cur` on an empty
/// document, otherwise at the previous timestamp.
pub open spec fn worked_start(doc: Seq<Seq<char>>, cur: DateTime) -> DateTime {
    if doc.len() == 0 {
        cur
    } else {
        previous_timestamp(doc)->Ok_0
    }
}

/// The line on which "Worked on" writes its entry row: after the new day
/// on an empty document, otherwise where the old timestamp was.
pub open spec fn worked_row_index(doc: Seq<Seq<char>>) -> int {
    if doc.len() == 0 {
        4
    } else {
        doc.len() - 1
    }
}

/// The span in nanoseconds from the previous timestamp to `cur`, as chrono
/// measures it.
pub open spec fn span_since(previous: Result<DateTime, Seq<char>>, cur: DateTime) -> int {
    match previous {
        Ok(p) => span_nanos(span_between(p, cur)),
        Err(_) => 0,
    }
}

// ---------------------------------------------------------------------
// Entry rows
// ---------------------------------------------------------------------

/// The text between `| ` and ` |` of a table row.
pub open spec fn row_inner(l: Seq<char>) -> Option<Seq<char>> {
    if starts_with(l, "| "@) && ends_with(l.skip(2), " |"@) {
        Some(l.subrange(2, l.len() - 2))
    } else {
        None
    }
}

/// The first cell of a table row.
pub open spec fn first_cell(l: Seq<char>) -> Option<Seq<char>> {
    match row_inner(l) {
        None => None,
        Some(inner) => match split_once(inner, " | "@) {
            Some((cell, _)) => Some(cell),
            None => Some(inner),
        },
    }
}

/// Whether `l` is a table data row: not a header and not a separator.
pub open spec fn is_entry_row(l: Seq<char>) -> bool {
    match first_cell(l) {
        Some(cell) => cell != "Description"@ && cell != "---"@,
        None => false,
    }
}

/// The index of the last entry row among the first `k` lines.
pub open spec fn last_entry_before(doc: Seq<Seq<char>>, k: int) -> Option<int>
    decreases k,
{
    if k <= 0 {
        None
    } else if is_entry_row(doc[k - 1]) {
        Some(k - 1)
    } else {
        last_entry_before(doc, k - 1)
    }
}

/// The index of the last entry row of `doc`.
pub open spec fn last_entry_index(doc: Seq<Seq<char>>) -> Option<int> {
    last_entry_before(doc, doc.len() as int)
}

/// The second cell (the start time) of an entry row: the text after the
/// first cell up to the next separator or the end of the row.
pub open spec fn start_field(l: Seq<char>) -> Option<Seq<char>> {
    match row_inner(l) {
        None => None,
        Some(inner) => match split_once(inner, " | "@) {
            None => None,
            Some((_, rest)) => match split_once(rest, " | "@) {
                None => Some(rest),
                Some((start, _)) => Some(start),
            },
        },
    }
}

/// The start time read from the last entry row.
pub open spec fn entry_start(doc: Seq<Seq<char>>, i: int) -> Option<(u32, u32, u32, u32)> {
    match start_field(doc[i]) {
        Some(t) => parsed_time(t, clock_pattern()),
        None => None,
    }
}

/// Whether the start cell of row `l` reads back (`%H:%M`) as the hour and
/// minute of `t`.
pub open spec fn start_reads(l: Seq<char>, t: DateTime) -> bool {
    match start_field(l) {
        Some(c) => parsed_time(c, clock_pattern()) == Some((t.hour, t.minute, 0u32, 0u32)),
        None => false,
    }
}

/// Whether the start cell of the last entry row of `doc` reads back as the
/// hour and minute of `t`.
pub open spec fn entry_start_reads(doc: Seq<Seq<char>>, t: DateTime) -> bool {
    match last_entry_index(doc) {
        Some(i) => start_reads(doc[i], t),
        None => false,
    }
}

/// When an amended entry starts: on the day of `cur` at `t`, or a day
/// earlier when that would be after `cur`.
pub open spec fn amend_start(cur: DateTime, t: (u32, u32, u32, u32)) -> DateTime {
    if cur.before(cur.at_time(t)) {
        cur.at_time(t).day_before()
    } else {
        cur.at_time(t)
    }
}

/// The document after amending its last entry with `desc` at `cur`, given
/// the start time read from that entry, whether the last line is a valid
/// timestamp, and the span in nanoseconds from the entry's start to `cur`;
/// or the error.
pub open spec fn amend_given(
    doc: Seq<Seq<char>>,
    desc: Seq<char>,
    cur: DateTime,
    f: RecordsFormat,
    start: Option<(u32, u32, u32, u32)>,
    timestamp_ok: bool,
    span: int,
) -> Result<Seq<Seq<char>>, Seq<char>> {
    if !f.start_time {
        Err("Cannot amend without a Start Time column."@)
    } else {
        match last_entry_index(doc) {
            None => Err("There is no entry to amend."@),
            Some(i) => match start {
                None => Err("The last entry has no parsable start time."@),
                Some(t) => if !timestamp_ok {
                    Err("The last line is not a valid timestamp."@)
                } else {
                    Ok(
                        doc.update(i, entry_line(desc, amend_start(cur, t), cur, span, f)).update(
                            doc.len() - 1,
                            timestamp_text(cur),
                        ),
                    )
                },
            },
        }
    }
}

/// The document after amending its last entry with `desc` at `cur`, or
/// the error.
pub open spec fn amend_outcome(
    doc: Seq<Seq<char>>,
    desc: Seq<char>,
    cur: DateTime,
    f: RecordsFormat,
) -> Result<Seq<Seq<char>>, Seq<char>> {
    if !f.start_time {
        Err("Cannot amend without a Start Time column."@)
    } else {
        match last_entry_index(doc) {
            None => Err("There is no entry to amend."@),
            Some(i) => match entry_start(doc, i) {
                None => Err("The last entry has no parsable start time."@),
                Some(t) => if previous_timestamp(doc) is Err {
                    Err("The last line is not a valid timestamp."@)
                } else {
                    let s = amend_start(cur, t);
                    Ok(
                        doc.update(i, entry_line(desc, s, cur, span_nanos(span_between(s, cur)), f)).update(
                            doc.len() - 1,
                            timestamp_text(cur),
                        ),
                    )
                },
            },
        }
    }
}

// ---------------------------------------------------------------------
// Lemmas
// ---------------------------------------------------------------------

/// Rust's division identity for `tdiv` and `trem`, and the size of `trem`.
pub proof fn lemma_tdiv_trem(a: int, b: int)
    requires
        b != 0,
    ensures
        tdiv(a, b) * b + trem(a, b) == a,
        abs(trem(a, b)) < abs(b),
        a >= 0 ==> trem(a, b) >= 0,
        a < 0 ==> trem(a, b) <= 0,
{
    let x = abs(a);
    let y = abs(b);
    vstd::arithmetic::div_mod::lemma_fundamental_div_mod(x, y);
    assert(0 <= x % y < y) by {
        vstd::arithmetic::div_mod::lemma_mod_bound(x, y);
    }
    let q = x / y;
    if a >= 0 && b > 0 {
    } else if a >= 0 && b < 0 {
        assert(tdiv(a, b) * b == (-q) * (-y));
        assert((-q) * (-y) == q * y) by (nonlinear_arith);
    } else if a < 0 && b > 0 {
        assert(tdiv(a, b) * b == (-q) * y);
        assert((-q) * y == -(q * y)) by (nonlinear_arith);
    } else {
        assert(tdiv(a, b) * b == q * (-y));
        assert(q * (-y) == -(q * y)) by (nonlinear_arith);
    }
}

// ---------------------------------------------------------------------
// Exec: numbers
// ---------------------------------------------------------------------

/// Rust's `a / b` and `a % b` on values whose sign-free computation fits.
fn tdiv_trem(a: i64, b: i64) -> (res: (i64, i64))
    requires
        b != 0,
        -0x4000_0000_0000_0000 <= a <= 0x4000_0000_0000_0000,
        -0x1_0000_0000 <= b <= 0x1_0000_0000,
    ensures
        res.0 == tdiv(a as int, b as int),
        res.1 == trem(a as int, b as int),
{
    let ua: u64 = if a < 0 {
        (-a) as u64
    } else {
        a as u64
    };
    let ub: u64 = if b < 0 {
        (-b) as u64
    } else {
        b as u64
    };
    let q: u64 = ua / ub;
    let r: u64 = ua % ub;
    assert(q <= ua) by {
        vstd::arithmetic::div_mod::lemma_div_is_ordered_by_denominator(ua as int, 1, ub as int);
    }
    assert(r < ub) by {
        vstd::arithmetic::div_mod::lemma_mod_bound(ua as int, ub as int);
    }
    let qs: i64 = if (a >= 0) == (b > 0) {
        q as i64
    } else {
        -(q as i64)
    };
    let rs: i64 = if a >= 0 {
        r as i64
    } else {
        -(r as i64)
    };
    (qs, rs)
}

/// Rust's `a / b` and `a % b` on 128-bit values whose sign-free
/// computation fits.
fn tdiv_trem_wide(a: i128, b: i128) -> (res: (i128, i128))
    requires
        b != 0,
        -0x1_0000_0000_0000_0000_0000_0000_0000 <= a <= 0x1_0000_0000_0000_0000_0000_0000_0000,
        -0x1_0000_0000_0000_0000_0000_0000_0000 <= b <= 0x1_0000_0000_0000_0000_0000_0000_0000,
    ensures
        res.0 == tdiv(a as int, b as int),
        res.1 == trem(a as int, b as int),
{
    let ua: u128 = if a < 0 {
        (-a) as u128
    } else {
        a as u128
    };
    let ub: u128 = if b < 0 {
        (-b) as u128
    } else {
        b as u128
    };
    let q: u128 = ua / ub;
    let r: u128 = ua % ub;
    assert(q <= ua) by {
        vstd::arithmetic::div_mod::lemma_div_is_ordered_by_denominator(ua as int, 1, ub as int);
    }
    assert(r < ub) by {
        vstd::arithmetic::div_mod::lemma_mod_bound(ua as int, ub as int);
    }
    let qs: i128 = if (a >= 0) == (b > 0) {
        q as i128
    } else {
        -(q as i128)
    };
    let rs: i128 = if a >= 0 {
        r as i128
    } else {
        -(r as i128)
    };
    (qs, rs)
}

/// The whole quotient of a division is at most the dividend over the
/// divisor: `|a / b| * |b| <= |a|`.
proof fn lemma_tdiv_bound(a: int, b: int)
    requires
        b != 0,
    ensures
        abs(tdiv(a, b)) * abs(b) <= abs(a),
{
    let x = abs(a);
    let y = abs(b);
    vstd::arithmetic::div_mod::lemma_fundamental_div_mod(x, y);
    vstd::arithmetic::div_mod::lemma_mod_bound(x, y);
    assert(abs(tdiv(a, b)) == x / y);
    assert((x / y) * y == y * (x / y)) by (nonlinear_arith);
}

/// A span's duration in minutes, rounded up to a multiple of `r` minutes
/// as [`rounded_duration`] says.
fn rounded_span_exec(span: (i64, i32), r: i32) -> (res: i64)
    requires
        r != 0,
        span_fits(span),
    ensures
        res == rounded_duration(span_nanos(span), r as int),
        -0x4000_0000_0000_0000 <= res <= 0x4000_0000_0000_0000,
{
    let total: i128 = span.0 as i128 * 1_000_000_000 + span.1 as i128;
    let unit: i128 = r as i128 * 60_000_000_000;
    assert(total == span_nanos(span));
    assert(unit == r * nanos_per_minute());
    let (q, rem) = tdiv_trem_wide(total, unit);
    let ri: i128 = r as i128;
    proof {
        lemma_tdiv_bound(total as int, unit as int);
        let aq = abs(q as int);
        let ar = abs(r as int);
        assert(abs(unit as int) == ar * 60_000_000_000) by (nonlinear_arith)
            requires
                unit == r * 60_000_000_000,
                ar == abs(r as int),
        ;
        assert(aq * ar <= 0x1_0000_0000_0000) by (nonlinear_arith)
            requires
                aq * (ar * 60_000_000_000) <= abs(total as int),
                abs(total as int) <= 10_000_000_000_000_000_000_000_000,
                aq >= 0,
                ar >= 1,
        ;
        assert(abs(q * r) == aq * ar) by (nonlinear_arith)
            requires
                aq == abs(q as int),
                ar == abs(r as int),
        ;
    }
    let whole: i128 = q * ri;
    let d: i128 = whole + if rem > 0 {
        ri
    } else {
        0
    };
    d as i64
}

/// An integer printed with `{:02}`.
fn pad2_exec(n: i64) -> (res: Vec<char>)
    ensures
        res@ == pad2(n as int),
{
    if 0 <= n && n < 10 {
        let mut v: Vec<char> = Vec::new();
        v.push('0');
        let t = nat_text_exec(n as u64);
        push_chars(&mut v, t.as_slice());
        v
    } else {
        int_text_exec(n)
    }
}

/// A duration in minutes printed as `HH:MM`.
fn duration_text_exec(m: i64) -> (res: Vec<char>)
    requires
        -0x4000_0000_0000_0000 <= m <= 0x4000_0000_0000_0000,
    ensures
        res@ == duration_text(m as int),
{
    let (h, mm) = tdiv_trem(m, 60);
    let mut v = pad2_exec(h);
    v.push(':');
    let t = pad2_exec(mm);
    push_chars(&mut v, t.as_slice());
    v
}

// ---------------------------------------------------------------------
// Exec: tables
// ---------------------------------------------------------------------

/// The cells joined by ` | `.
fn join_cells_exec(cells: &Vec<Vec<char>>) -> (res: Vec<char>)
    ensures
        res@ == join_cells(seq_views(cells@)),
{
    let n = cells.len();
    let mut res: Vec<char> = Vec::new();
    for i in 0..n
        invariant
            n == cells@.len(),
            res@ == join_cells(seq_views(cells@).take(i as int)),
    {
        let ghost prev = seq_views(cells@).take(i as int);
        let ghost next = seq_views(cells@).take(i + 1);
        assert(next.drop_last() == prev);
        assert(next.last() == cells@[i as int]@);
        if i > 0 {
            push_str(&mut res, " | ");
        } else {
            assert(next.len() == 1);
        }
        push_chars(&mut res, cells[i].as_slice());
    }
    assert(seq_views(cells@).take(n as int) == seq_views(cells@));
    res
}

/// A Markdown table row holding `cells`.
fn table_row_exec(cells: &Vec<Vec<char>>) -> (res: String)
    ensures
        res@ == table_row(seq_views(cells@)),
{
    let mut v: Vec<char> = Vec::new();
    push_str(&mut v, "| ");
    let inner = join_cells_exec(cells);
    push_chars(&mut v, inner.as_slice());
    push_str(&mut v, " |");
    string_of(v.as_slice())
}

/// `dt` formatted as the timestamp of the last line.
fn timestamp_string(dt: &DateTime) -> (res: String)
    requires
        dt.wf(),
    ensures
        res@ == timestamp_text(*dt),
        parsed_datetime(res@, timestamp_pattern()) == minute_reading(*dt),
{
    proof {
        lemma_pattern_literals();
    }
    format_datetime(dt, "%d/%m/%Y %H:%M")
}

/// Builds the lines that start a new day: the heading, a blank line and the
/// table header (with only the columns enabled in `format`).
pub fn new_day(date: &DateTime, format: &RecordsFormat) -> (res: Vec<String>)
    requires
        date.wf(),
    ensures
        string_views(res@) == day_lines(*date, *format),
{
    let mut res: Vec<String> = Vec::new();
    let mut heading: Vec<char> = Vec::new();
    push_str(&mut heading, "#  ");
    proof {
        lemma_pattern_literals();
    }
    let day = format_datetime(date, "%e %B");
    let day_chars = chars_of(day.as_str());
    push_chars(&mut heading, day_chars.as_slice());
    res.push(string_of(heading.as_slice()));
    res.push(String::new());

    let mut columns: Vec<Vec<char>> = Vec::new();
    columns.push(chars_of("Description"));
    if format.start_time {
        columns.push(chars_of("Start Time"));
    }
    if format.end_time {
        columns.push(chars_of("End Time"));
    }
    if format.duration {
        columns.push(chars_of("Duration"));
    }
    assert(seq_views(columns@) =~= header_columns(*format));
    let header = table_row_exec(&columns);
    let mut separators: Vec<Vec<char>> = Vec::new();
    let n = columns.len();
    for i in 0..n
        invariant
            separators@.len() == i,
            forall|j: int| 0 <= j < i ==> #[trigger] separators@[j]@ == "---"@,
    {
        separators.push(chars_of("---"));
    }
    assert(seq_views(separators@) =~= separator_cells(header_columns(*format).len()));
    let separator = table_row_exec(&separators);
    res.push(header);
    res.push(separator);
    assert(string_views(res@) =~= day_lines(*date, *format));
    res
}

/// Builds the single table row describing a completed task, given the
/// span that chrono measures from `start_date` to `end_date` (whole
/// seconds and nanoseconds).
///
/// The duration is rounded up to the next multiple of
/// `format.duration_rounding` minutes and printed as `HH:MM`.
pub fn new_entry_with_span(
    description: String,
    start_date: &DateTime,
    end_date: &DateTime,
    span: (i64, i32),
    format: &RecordsFormat,
) -> (res: Vec<String>)
    requires
        start_date.wf(),
        end_date.wf(),
        format.duration_rounding != 0,
        span_fits(span),
    ensures
        string_views(res@) == seq![
            entry_line(description@, *start_date, *end_date, span_nanos(span), *format),
        ],
        format.start_time && free_of_separator(description@) ==> start_reads(
            string_views(res@)[0],
            *start_date,
        ),
{
    let duration: i64 = rounded_span_exec(span, format.duration_rounding);
    let mut columns: Vec<Vec<char>> = Vec::new();
    columns.push(chars_of(description.as_str()));
    proof {
        lemma_pattern_literals();
    }
    if format.start_time {
        let s = format_datetime(start_date, "%H:%M");
        columns.push(chars_of(s.as_str()));
    }
    if format.end_time {
        let s = format_datetime(end_date, "%H:%M");
        columns.push(chars_of(s.as_str()));
    }
    if format.duration {
        columns.push(duration_text_exec(duration));
    }
    assert(seq_views(columns@) =~= entry_cells(
        description@,
        *start_date,
        *end_date,
        span_nanos(span),
        *format,
    ));
    proof {
        if format.start_time && free_of_separator(description@) {
            lemma_entry_start_cell(description@, *start_date, *end_date, span_nanos(span), *format);
        }
    }
    let row = table_row_exec(&columns);
    let mut res: Vec<String> = Vec::new();
    res.push(row);
    assert(string_views(res@) =~= seq![
        entry_line(description@, *start_date, *end_date, span_nanos(span), *format),
    ]);
    res
}

/// Builds the single table row describing a completed task.
///
/// The duration is rounded up to the next multiple of
/// `format.duration_rounding` minutes and printed as `HH:MM`.
pub fn new_entry(
    description: String,
    start_date: &DateTime,
    end_date: &DateTime,
    format: &RecordsFormat,
) -> (res: Vec<String>)
    requires
        start_date.wf(),
        end_date.wf(),
        format.duration_rounding != 0,
    ensures
        string_views(res@) == seq![
            entry_line(
                description@,
                *start_date,
                *end_date,
                span_nanos(span_between(*start_date, *end_date)),
                *format,
            ),
        ],
        start_date.nanosecond < 1_000_000_000 && end_date.nanosecond < 1_000_000_000
            ==> string_views(res@) == seq![
            entry_line(
                description@,
                *start_date,
                *end_date,
                exact_span(*start_date, *end_date),
                *format,
            ),
        ],
{
    let span = span_from(start_date, end_date);
    new_entry_with_span(description, start_date, end_date, span, format)
}


// ---------------------------------------------------------------------
// Document changes
// ---------------------------------------------------------------------

/// Appends clones of `extra` to `lines`.
fn append_lines(lines: &mut Vec<String>, extra: Vec<String>)
    ensures
        string_views(final(lines)@) == string_views(old(lines)@) + string_views(extra@),
{
    let n = extra.len();
    let ghost start = string_views(lines@);
    for i in 0..n
        invariant
            n == extra@.len(),
            string_views(lines@) == start + string_views(extra@).take(i as int),
    {
        let s = string_of(chars_of(extra[i].as_str()).as_slice());
        let ghost mid = string_views(lines@);
        lines.push(s);
        assert(string_views(lines@) =~= mid.push(s@));
        assert(string_views(extra@).take(i + 1) == string_views(extra@).take(i as int).push(
            extra@[i as int]@,
        ));
        assert(string_views(lines@) == start + string_views(extra@).take(i + 1));
    }
    assert(string_views(extra@).take(n as int) == string_views(extra@));
}

/// Applies the "Start" action to a non-empty `lines`, given how its last
/// line parsed as a timestamp (`previous`).
///
/// On a parse error `lines` stays as it is and the error is returned.
/// Otherwise the last line becomes the timestamp of `current_datetime`; when
/// `previous` is on an earlier day, a blank line and a new day go before it.
pub fn start_with_previous(
    lines: &mut Vec<String>,
    previous: Result<DateTime, String>,
    current_datetime: DateTime,
    format: &RecordsFormat,
) -> (res: Result<(), String>)
    requires
        old(lines)@.len() > 0,
        current_datetime.wf(),
        previous matches Ok(p) ==> p.wf(),
    ensures
        match start_outcome(
            string_views(old(lines)@),
            result_view(previous),
            current_datetime,
            *format,
        ) {
            Ok(doc) => res is Ok && string_views(final(lines)@) == doc,
            Err(e) => res matches Err(m) && m@ == e && final(lines)@ == old(lines)@,
        },
        res is Ok ==> previous_timestamp(
            string_views(final(lines)@),
        ) == minute_reading(current_datetime),
{
    match previous {
        Ok(previous_datetime) => {
            let ghost before = string_views(lines@);
            if previous_datetime.same_date_exec(&current_datetime) {
                lines.pop();
                assert(string_views(lines@) =~= before.drop_last());
                let ts = timestamp_string(&current_datetime);
                lines.push(ts);
                assert(string_views(lines@) =~= before.drop_last().push(
                    timestamp_text(current_datetime),
                ));
            } else {
                lines.pop();
                assert(string_views(lines@) =~= before.drop_last());
                lines.push(String::new());
                assert(string_views(lines@) =~= before.drop_last().push(Seq::<char>::empty()));
                append_lines(lines, new_day(&current_datetime, format));
                let ghost mid = string_views(lines@);
                let ts = timestamp_string(&current_datetime);
                lines.push(ts);
                assert(string_views(lines@) =~= mid.push(timestamp_text(current_datetime)));
                assert(string_views(lines@) =~= (before.drop_last().push(Seq::<char>::empty())
                    + day_lines(current_datetime, *format)).push(timestamp_text(current_datetime)));
            }
            Ok(())
        },
        Err(e) => Err(e),
    }
}

/// Applies the "Start" action to `lines` in place.
///
/// The current timestamp is written to the final line. On an empty document a
/// whole new day is created first; when the previous timestamp belongs to an
/// earlier day a fresh day is inserted before it.
///
/// Returns `Err` when the final line is not a parsable timestamp, leaving
/// `lines` unchanged in that case.
pub fn apply_start(
    lines: &mut Vec<String>,
    current_datetime: DateTime,
    format: &RecordsFormat,
) -> (res: Result<(), String>)
    requires
        current_datetime.wf(),
    ensures
        match start_outcome(
            string_views(old(lines)@),
            previous_timestamp(string_views(old(lines)@)),
            current_datetime,
            *format,
        ) {
            Ok(doc) => res is Ok && string_views(final(lines)@) == doc,
            Err(e) => res matches Err(m) && m@ == e && final(lines)@ == old(lines)@,
        },
        res is Ok ==> previous_timestamp(
            string_views(final(lines)@),
        ) == minute_reading(current_datetime),
        old(lines)@.len() > 0 && previous_timestamp(string_views(old(lines)@)) is Ok ==> at_minute(
            previous_timestamp(string_views(old(lines)@))->Ok_0,
        ) == previous_timestamp(string_views(old(lines)@))->Ok_0,
{
    if lines.len() == 0 {
        assert(string_views(lines@) =~= Seq::<Seq<char>>::empty());
        append_lines(lines, new_day(&current_datetime, format));
        let ghost mid = string_views(lines@);
        let ts = timestamp_string(&current_datetime);
        lines.push(ts);
        assert(string_views(lines@) =~= mid.push(timestamp_text(current_datetime)));
        assert(string_views(lines@) =~= day_lines(current_datetime, *format).push(
            timestamp_text(current_datetime),
        ));
        Ok(())
    } else {
        proof {
            lemma_pattern_literals();
        }
        let previous = parse_datetime(lines[lines.len() - 1].as_str(), "%d/%m/%Y %H:%M");
        assert(string_views(lines@).last() == lines@[lines@.len() - 1]@);
        start_with_previous(lines, previous, current_datetime, format)
    }
}

/// Applies the "Worked on" action to a non-empty `lines`, given how its last
/// line parsed as a timestamp (`previous`) and the span chrono measures from
/// that timestamp to `current_datetime`.
///
/// On a parse error `lines` stays as it is and the error is returned.
/// Otherwise the entry row replaces the last line, followed by the timestamp
/// of `current_datetime`; when `previous` is on an earlier day, a blank line
/// and a new day go between them.
pub fn worked_with_previous(
    lines: &mut Vec<String>,
    description: String,
    previous: Result<DateTime, String>,
    span: (i64, i32),
    current_datetime: DateTime,
    format: &RecordsFormat,
) -> (res: Result<(), String>)
    requires
        old(lines)@.len() > 0,
        current_datetime.wf(),
        previous matches Ok(p) ==> p.wf(),
        previous is Ok ==> format.duration_rounding != 0,
        span_fits(span),
    ensures
        match worked_outcome(
            string_views(old(lines)@),
            result_view(previous),
            span_nanos(span),
            description@,
            current_datetime,
            *format,
        ) {
            Ok(doc) => res is Ok && string_views(final(lines)@) == doc,
            Err(e) => res matches Err(m) && m@ == e && final(lines)@ == old(lines)@,
        },
        res is Ok ==> previous_timestamp(
            string_views(final(lines)@),
        ) == minute_reading(current_datetime),
        res is Ok && format.start_time && free_of_separator(description@) ==> start_reads(
            string_views(final(lines)@)[old(lines)@.len() - 1],
            previous->Ok_0,
        ),
{
    match previous {
        Ok(previous_datetime) => {
            let ghost before = string_views(lines@);
            let ghost row = entry_line(
                description@,
                previous_datetime,
                current_datetime,
                span_nanos(span),
                *format,
            );
            lines.pop();
            assert(string_views(lines@) =~= before.drop_last());
            append_lines(
                lines,
                new_entry_with_span(
                    description,
                    &previous_datetime,
                    &current_datetime,
                    span,
                    format,
                ),
            );
            assert(string_views(lines@) =~= before.drop_last().push(row));
            if previous_datetime.same_date_exec(&current_datetime) {
                let ts = timestamp_string(&current_datetime);
                lines.push(ts);
                assert(string_views(lines@) =~= before.drop_last().push(row).push(
                    timestamp_text(current_datetime),
                ));
            } else {
                lines.push(String::new());
                assert(string_views(lines@) =~= before.drop_last().push(row).push(
                    Seq::<char>::empty(),
                ));
                append_lines(lines, new_day(&current_datetime, format));
                let ghost mid = string_views(lines@);
                let ts = timestamp_string(&current_datetime);
                lines.push(ts);
                assert(string_views(lines@) =~= mid.push(timestamp_text(current_datetime)));
                assert(string_views(lines@) =~= (before.drop_last().push(row).push(
                    Seq::<char>::empty(),
                ) + day_lines(current_datetime, *format)).push(timestamp_text(current_datetime)));
            }
            Ok(())
        },
        Err(e) => Err(e),
    }
}

/// Applies the "Worked on" action to `lines` in place.
///
/// `description` is added as a table row spanning from the previous timestamp
/// to `current_datetime`, which is then written to the final line. On an empty
/// document a whole new day is created first; when the previous timestamp
/// belongs to an earlier day the entry is added to that day and a new day is
/// started afterwards.
///
/// Returns `Err` when the final line is not a parsable timestamp, leaving
/// `lines` unchanged in that case.
pub fn apply_worked(
    lines: &mut Vec<String>,
    description: String,
    current_datetime: DateTime,
    format: &RecordsFormat,
) -> (res: Result<(), String>)
    requires
        current_datetime.wf(),
        worked_outcome(
            string_views(old(lines)@),
            previous_timestamp(string_views(old(lines)@)),
            span_since(previous_timestamp(string_views(old(lines)@)), current_datetime),
            description@,
            current_datetime,
            *format,
        ) is Ok ==> format.duration_rounding != 0,
    ensures
        match worked_outcome(
            string_views(old(lines)@),
            previous_timestamp(string_views(old(lines)@)),
            span_since(previous_timestamp(string_views(old(lines)@)), current_datetime),
            description@,
            current_datetime,
            *format,
        ) {
            Ok(doc) => res is Ok && string_views(final(lines)@) == doc,
            Err(e) => res matches Err(m) && m@ == e && final(lines)@ == old(lines)@,
        },
        res is Ok ==> previous_timestamp(
            string_views(final(lines)@),
        ) == minute_reading(current_datetime),
        old(lines)@.len() > 0 && previous_timestamp(string_views(old(lines)@)) is Ok ==> at_minute(
            previous_timestamp(string_views(old(lines)@))->Ok_0,
        ) == previous_timestamp(string_views(old(lines)@))->Ok_0,
        res is Ok && format.start_time && free_of_separator(description@) && description@
            != "Description"@ && description@ != "---"@ ==> entry_start_reads(
            string_views(final(lines)@),
            worked_start(string_views(old(lines)@), current_datetime),
        ),
        old(lines)@.len() > 0 && previous_timestamp(string_views(old(lines)@)) is Ok
            && current_datetime.nanosecond < 1_000_000_000 ==> span_since(
            previous_timestamp(string_views(old(lines)@)),
            current_datetime,
        ) == exact_span(worked_start(string_views(old(lines)@), current_datetime), current_datetime),
{
    if lines.len() == 0 {
        let ghost row = entry_line(description@, current_datetime, current_datetime, 0, *format);
        assert(string_views(lines@) =~= Seq::<Seq<char>>::empty());
        append_lines(lines, new_day(&current_datetime, format));
        assert(string_views(lines@) =~= day_lines(current_datetime, *format));
        let zero = span_from(&current_datetime, &current_datetime);
        let ghost desc = description@;
        let entry = new_entry_with_span(description, &current_datetime, &current_datetime, zero, format);
        assert(string_views(entry@)[0] == row);
        append_lines(lines, entry);
        assert(string_views(lines@) =~= day_lines(current_datetime, *format).push(row));
        assert(format.start_time && free_of_separator(desc) ==> start_reads(row, current_datetime));
        let ghost mid = string_views(lines@);
        let ts = timestamp_string(&current_datetime);
        lines.push(ts);
        assert(string_views(lines@) =~= mid.push(timestamp_text(current_datetime)));
        assert(string_views(lines@) =~= day_lines(current_datetime, *format).push(row).push(
            timestamp_text(current_datetime),
        ));
        proof {
            if format.start_time && free_of_separator(desc) && desc != "Description"@ && desc
                != "---"@ {
                worked_entry_read_back(
                    Seq::<Seq<char>>::empty(),
                    Err(Seq::<char>::empty()),
                    0,
                    desc,
                    current_datetime,
                    *format,
                );
                assert(string_views(lines@)[4] == row);
            }
        }
        Ok(())
    } else {
        proof {
            lemma_pattern_literals();
        }
        let previous = parse_datetime(lines[lines.len() - 1].as_str(), "%d/%m/%Y %H:%M");
        assert(string_views(lines@).last() == lines@[lines@.len() - 1]@);
        let span: (i64, i32) = match &previous {
            Ok(p) => span_from(p, &current_datetime),
            Err(_) => (0, 0),
        };
        let ghost old_doc = string_views(lines@);
        let ghost desc = description@;
        let res = worked_with_previous(lines, description, previous, span, current_datetime, format);
        proof {
            if res is Ok && format.start_time && free_of_separator(desc) && desc != "Description"@
                && desc != "---"@ {
                worked_entry_read_back(
                    old_doc,
                    result_view(previous),
                    span_nanos(span),
                    desc,
                    current_datetime,
                    *format,
                );
            }
        }
        res
    }
}


/// Applies the "Worked on" action where it can be done: `None`, with
/// `lines` unchanged, when an entry row would be built with a rounding of
/// zero; otherwise what [`apply_worked`] gives.
pub fn try_apply_worked(
    lines: &mut Vec<String>,
    description: String,
    current_datetime: DateTime,
    format: &RecordsFormat,
) -> (res: Option<Result<(), String>>)
    requires
        current_datetime.wf(),
    ensures
        res is None <==> (format.duration_rounding == 0 && worked_outcome(
            string_views(old(lines)@),
            previous_timestamp(string_views(old(lines)@)),
            span_since(previous_timestamp(string_views(old(lines)@)), current_datetime),
            description@,
            current_datetime,
            *format,
        ) is Ok),
        res is None ==> final(lines)@ == old(lines)@,
        res matches Some(r) ==> match worked_outcome(
            string_views(old(lines)@),
            previous_timestamp(string_views(old(lines)@)),
            span_since(previous_timestamp(string_views(old(lines)@)), current_datetime),
            description@,
            current_datetime,
            *format,
        ) {
            Ok(doc) => r is Ok && string_views(final(lines)@) == doc,
            Err(e) => r matches Err(m) && m@ == e && final(lines)@ == old(lines)@,
        },
{
    if format.duration_rounding == 0 {
        if lines.len() == 0 {
            return None;
        }
        proof {
            lemma_pattern_literals();
        }
        let previous = parse_datetime(lines[lines.len() - 1].as_str(), "%d/%m/%Y %H:%M");
        assert(string_views(lines@).last() == lines@[lines@.len() - 1]@);
        if previous.is_ok() {
            return None;
        }
    }
    Some(apply_worked(lines, description, current_datetime, format))
}

// ---------------------------------------------------------------------
// Entry rows and amending
// ---------------------------------------------------------------------

/// The literals that frame a table row have two characters each, and the
/// cell separator three.
proof fn lemma_row_literals()
    ensures
        "| "@ == seq!['|', ' '],
        " |"@ == seq![' ', '|'],
        " | "@ == seq![' ', '|', ' '],
{
    reveal_strlit("| ");
    reveal_strlit(" |");
    reveal_strlit(" | ");
    assert("| "@ =~= seq!['|', ' ']);
    assert(" |"@ =~= seq![' ', '|']);
    assert(" | "@ =~= seq![' ', '|', ' ']);
}

/// The last entry row found among the first `k` lines is one of them and
/// is an entry row.
proof fn lemma_last_entry_before(doc: Seq<Seq<char>>, k: int)
    ensures
        last_entry_before(doc, k) matches Some(i) ==> 0 <= i < k && is_entry_row(doc[i]),
    decreases k,
{
    if k > 0 && !is_entry_row(doc[k - 1]) {
        lemma_last_entry_before(doc, k - 1);
    }
}

/// The text between `| ` and ` |` of a table row.
fn row_inner_exec(l: &[char]) -> (res: Option<Vec<char>>)
    ensures
        match res {
            Some(v) => row_inner(l@) == Some(v@),
            None => row_inner(l@) is None,
        },
{
    proof {
        lemma_row_literals();
    }
    let open = chars_of("| ");
    if !starts_with_chars(l, open.as_slice()) {
        return None;
    }
    let rest = sub_chars(l, 2, l.len());
    assert(rest@ == l@.skip(2));
    let close = chars_of(" |");
    if !ends_with_chars(rest.as_slice(), close.as_slice()) {
        return None;
    }
    Some(sub_chars(l, 2, l.len() - 2))
}

/// The first cell of a table row.
fn first_cell_exec(l: &[char]) -> (res: Option<Vec<char>>)
    ensures
        match res {
            Some(v) => first_cell(l@) == Some(v@),
            None => first_cell(l@) is None,
        },
{
    match row_inner_exec(l) {
        None => None,
        Some(inner) => {
            let sep = chars_of(" | ");
            match split_once_chars(inner.as_slice(), sep.as_slice()) {
                Some((cell, _rest)) => Some(cell),
                None => Some(inner),
            }
        },
    }
}

/// Whether `l` is a table data row.
fn is_entry_row_exec(l: &[char]) -> (res: bool)
    ensures
        res == is_entry_row(l@),
{
    match first_cell_exec(l) {
        Some(cell) => !chars_eq_str(cell.as_slice(), "Description") && !chars_eq_str(
            cell.as_slice(),
            "---",
        ),
        None => false,
    }
}

/// The index of the last entry row of `lines`.
fn last_entry_index_exec(lines: &[String]) -> (res: Option<usize>)
    ensures
        match res {
            Some(i) => last_entry_index(string_views(lines@)) == Some(i as int),
            None => last_entry_index(string_views(lines@)) is None,
        },
{
    let mut k: usize = lines.len();
    while k > 0
        invariant
            k <= lines@.len(),
            last_entry_index(string_views(lines@)) == last_entry_before(
                string_views(lines@),
                k as int,
            ),
        decreases k,
    {
        let l = chars_of(lines[k - 1].as_str());
        assert(string_views(lines@)[k - 1] == lines@[k - 1]@);
        if is_entry_row_exec(l.as_slice()) {
            return Some(k - 1);
        }
        k = k - 1;
    }
    None
}

/// The second cell (the start time) of an entry row.
fn start_field_exec(l: &[char]) -> (res: Option<Vec<char>>)
    ensures
        match res {
            Some(v) => start_field(l@) == Some(v@),
            None => start_field(l@) is None,
        },
{
    let inner = match row_inner_exec(l) {
        Some(inner) => inner,
        None => return None,
    };
    let sep = chars_of(" | ");
    let rest = match split_once_chars(inner.as_slice(), sep.as_slice()) {
        Some((_description, rest)) => rest,
        None => return None,
    };
    match split_once_chars(rest.as_slice(), sep.as_slice()) {
        Some((start, _rest)) => Some(start),
        None => Some(rest),
    }
}

/// Returns the description of the last entry in the document, if there is one.
///
/// The day header and its separator are ignored, so a document that only
/// contains day headers yields `None`.
pub fn last_entry_description(lines: &[String]) -> (res: Option<String>)
    ensures
        match last_entry_index(string_views(lines@)) {
            Some(i) => res matches Some(d) && first_cell(string_views(lines@)[i]) == Some(d@),
            None => res is None,
        },
{
    match last_entry_index_exec(lines) {
        None => None,
        Some(index) => {
            proof {
                lemma_last_entry_before(string_views(lines@), lines@.len() as int);
            }
            let l = chars_of(lines[index].as_str());
            assert(string_views(lines@)[index as int] == lines@[index as int]@);
            match first_cell_exec(l.as_slice()) {
                Some(cell) => Some(string_of(cell.as_slice())),
                None => None,
            }
        },
    }
}

/// Whether amending at `cur` moves the entry's start `t` back a day: the
/// start time on `cur`'s date would be after `cur`.
pub open spec fn moves_back(cur: DateTime, t: (u32, u32, u32, u32)) -> bool {
    cur.before(cur.at_time(t))
}

/// Applies the "amend last entry" action to `lines`, given the start time
/// read from the last entry row (`None` when there is none or it does not
/// parse), whether the last line is a valid timestamp, and the span chrono
/// measures from the entry's start to `current_datetime`.
///
/// The errors and their order are those of [`amend_last_entry`]; on an
/// error `lines` stays as it is. When the entry is rewritten, the rounding
/// must not be zero, and the start may not move back from chrono's first
/// date.
pub fn amend_with_parsed(
    lines: &mut [String],
    description: String,
    start_time: Option<(u32, u32, u32, u32)>,
    timestamp_ok: bool,
    span: (i64, i32),
    current_datetime: DateTime,
    format: &RecordsFormat,
) -> (res: Result<(), String>)
    requires
        current_datetime.wf(),
        span_fits(span),
        start_time matches Some(t) ==> valid_time(t.0 as int, t.1 as int, t.2 as int, t.3 as int)
            && t.3 < 1_000_000_000,
        amend_given(
            string_views(old(lines)@),
            description@,
            current_datetime,
            *format,
            start_time,
            timestamp_ok,
            span_nanos(span),
        ) is Ok ==> format.duration_rounding != 0 && !(current_datetime.on_first_date()
            && moves_back(current_datetime, start_time->0)),
    ensures
        match amend_given(
            string_views(old(lines)@),
            description@,
            current_datetime,
            *format,
            start_time,
            timestamp_ok,
            span_nanos(span),
        ) {
            Ok(doc) => res is Ok && string_views(final(lines)@) == doc,
            Err(e) => res matches Err(m) && m@ == e && final(lines)@ == old(lines)@,
        },
        res is Ok ==> previous_timestamp(
            string_views(final(lines)@),
        ) == minute_reading(current_datetime),
{
    if !format.start_time {
        return Err("Cannot amend without a Start Time column.".to_owned());
    }
    let index = match last_entry_index_exec(lines) {
        Some(i) => i,
        None => return Err("There is no entry to amend.".to_owned()),
    };
    let ghost doc = string_views(lines@);
    proof {
        lemma_last_entry_before(doc, doc.len() as int);
    }
    let t = match start_time {
        Some(t) => t,
        None => return Err("The last entry has no parsable start time.".to_owned()),
    };
    if !timestamp_ok {
        return Err("The last line is not a valid timestamp.".to_owned());
    }
    let n = lines.len();
    let start_datetime = amend_start_exec(&current_datetime, t);
    let mut row = new_entry_with_span(description, &start_datetime, &current_datetime, span, format);
    assert(string_views(row@).len() == 1);
    assert(string_views(row@)[0] == row@[0]@);
    let ghost row_text = row@[0]@;
    let line = match row.pop() {
        Some(line) => line,
        None => return Err("Could not build the amended entry.".to_owned()),
    };
    assert(line@ == row_text);
    lines[index] = line;
    assert(string_views(lines@) =~= doc.update(index as int, row_text));
    let ts = timestamp_string(&current_datetime);
    lines[n - 1] = ts;
    assert(string_views(lines@) =~= doc.update(
        index as int,
        entry_line(description@, start_datetime, current_datetime, span_nanos(span), *format),
    ).update(n - 1, timestamp_text(current_datetime)));
    Ok(())
}

/// Where an amended entry starts: `t` on the date of `cur`, a day earlier
/// when that is after `cur`.
fn amend_start_exec(cur: &DateTime, t: (u32, u32, u32, u32)) -> (res: DateTime)
    requires
        cur.wf(),
        valid_time(t.0 as int, t.1 as int, t.2 as int, t.3 as int),
        t.3 < 1_000_000_000,
        moves_back(*cur, t) ==> !cur.on_first_date(),
    ensures
        res == amend_start(*cur, t),
        res.wf(),
{
    let at = DateTime {
        year: cur.year,
        month: cur.month,
        day: cur.day,
        hour: t.0,
        minute: t.1,
        second: t.2,
        nanosecond: t.3,
    };
    assert(at == cur.at_time(t));
    if cur.before_exec(&at) {
        proof {
            at.lemma_day_before_wf();
        }
        minus_one_day(&at)
    } else {
        at
    }
}

/// The start time read from the document's last entry row, and whether
/// its last line is a valid timestamp.
fn amend_readings(lines: &[String]) -> (res: (Option<(u32, u32, u32, u32)>, bool))
    ensures
        res.0 == (match last_entry_index(string_views(lines@)) {
            Some(i) => entry_start(string_views(lines@), i),
            None => None,
        }),
        res.1 == (lines@.len() > 0 && previous_timestamp(string_views(lines@)) is Ok),
        res.1 ==> !is_entry_row(string_views(lines@).last()),
        res.0 matches Some(t) ==> valid_time(t.0 as int, t.1 as int, t.2 as int, t.3 as int)
            && t.2 == 0 && t.3 == 0,
{
    let ghost doc = string_views(lines@);
    proof {
        lemma_pattern_literals();
        lemma_last_entry_before(doc, doc.len() as int);
    }
    let start_time = match last_entry_index_exec(lines) {
        Some(index) => {
            let row_chars = chars_of(lines[index].as_str());
            assert(doc[index as int] == lines@[index as int]@);
            match start_field_exec(row_chars.as_slice()) {
                Some(field) => parse_time(string_of(field.as_slice()).as_str(), "%H:%M"),
                None => None,
            }
        },
        None => None,
    };
    let n = lines.len();
    let timestamp_ok = if n > 0 {
        assert(doc.last() == lines@[n - 1]@);
        let parsed = parse_datetime(lines[n - 1].as_str(), "%d/%m/%Y %H:%M");
        proof {
            if parsed is Ok {
                lemma_not_row(doc.last());
            }
        }
        parsed.is_ok()
    } else {
        false
    };
    (start_time, timestamp_ok)
}

/// Whether the span chrono measures from the amended entry's start to
/// `cur` is the exact span, when there is such a start.
pub open spec fn amend_span_exact(doc: Seq<Seq<char>>, cur: DateTime) -> bool {
    match last_entry_index(doc) {
        Some(i) => match entry_start(doc, i) {
            Some(t) => span_nanos(span_between(amend_start(cur, t), cur)) == exact_span(
                amend_start(cur, t),
                cur,
            ),
            None => true,
        },
        None => true,
    }
}

/// Whether amending `doc` at `cur` rewrites an entry whose start moves
/// back from chrono's first date, which chrono cannot represent.
pub open spec fn amend_leaves_range(doc: Seq<Seq<char>>, cur: DateTime) -> bool {
    cur.on_first_date() && (match last_entry_index(doc) {
        Some(i) => match entry_start(doc, i) {
            Some(t) => moves_back(cur, t),
            None => false,
        },
        None => false,
    })
}

/// Applies the "amend last entry" action to `lines` in place.
///
/// The last entry row keeps its start time but gets the new `description`, an
/// end time of `current_datetime` and a recomputed duration; the trailing
/// timestamp is then updated. When the stored start time is later than
/// `current_datetime` (the entry actually started before midnight) the start is
/// moved back one day.
///
/// Requires the format to include the "Start Time" column. Returns `Err`,
/// leaving `lines` unchanged, when there is no entry, the start time cannot be
/// parsed, or the final line is not a valid timestamp. When the entry is
/// rewritten, the rounding must not be zero and the start may not move back
/// from chrono's first date.
pub fn amend_last_entry(
    lines: &mut [String],
    description: String,
    current_datetime: DateTime,
    format: &RecordsFormat,
) -> (res: Result<(), String>)
    requires
        current_datetime.wf(),
        amend_outcome(string_views(old(lines)@), description@, current_datetime, *format) is Ok
            ==> format.duration_rounding != 0 && !amend_leaves_range(
            string_views(old(lines)@),
            current_datetime,
        ),
    ensures
        match amend_outcome(string_views(old(lines)@), description@, current_datetime, *format) {
            Ok(doc) => res is Ok && string_views(final(lines)@) == doc,
            Err(e) => res matches Err(m) && m@ == e && final(lines)@ == old(lines)@,
        },
        res is Ok ==> previous_timestamp(
            string_views(final(lines)@),
        ) == minute_reading(current_datetime),
        res is Ok ==> (last_entry_index(string_views(old(lines)@)) matches Some(i) && i
            < old(lines)@.len() - 1),
        res is Ok && format.start_time && current_datetime.nanosecond < 1_000_000_000
            ==> amend_span_exact(string_views(old(lines)@), current_datetime),
{
    let ghost doc = string_views(lines@);
    proof {
        lemma_last_entry_before(doc, doc.len() as int);
    }
    let (start_time, timestamp_ok) = amend_readings(lines);
    let span: (i64, i32) = match start_time {
        Some(t) => if format.start_time && timestamp_ok {
            let start = amend_start_exec(&current_datetime, t);
            span_from(&start, &current_datetime)
        } else {
            (0, 0)
        },
        None => (0, 0),
    };
    amend_with_parsed(
        lines,
        description,
        start_time,
        timestamp_ok,
        span,
        current_datetime,
        format,
    )
}

/// Applies the "amend last entry" action where it can be done: `None`,
/// with `lines` unchanged, when the entry would be rewritten with a
/// rounding of zero or with its start moved back from chrono's first date;
/// otherwise what [`amend_last_entry`] gives.
pub fn try_amend_last_entry(
    lines: &mut [String],
    description: String,
    current_datetime: DateTime,
    format: &RecordsFormat,
) -> (res: Option<Result<(), String>>)
    requires
        current_datetime.wf(),
    ensures
        res is None <==> (amend_outcome(string_views(old(lines)@), description@, current_datetime, *format) is Ok
            && (format.duration_rounding == 0 || amend_leaves_range(
            string_views(old(lines)@),
            current_datetime,
        ))),
        res is None ==> final(lines)@ == old(lines)@,
        res matches Some(r) ==> match amend_outcome(
            string_views(old(lines)@),
            description@,
            current_datetime,
            *format,
        ) {
            Ok(doc) => r is Ok && string_views(final(lines)@) == doc,
            Err(e) => r matches Err(m) && m@ == e && final(lines)@ == old(lines)@,
        },
{
    let ghost doc = string_views(lines@);
    proof {
        lemma_last_entry_before(doc, doc.len() as int);
    }
    let (start_time, timestamp_ok) = amend_readings(lines);
    if format.start_time && timestamp_ok {
        if let Some(t) = start_time {
            if format.duration_rounding == 0 {
                return None;
            }
            let at = DateTime {
                year: current_datetime.year,
                month: current_datetime.month,
                day: current_datetime.day,
                hour: t.0,
                minute: t.1,
                second: t.2,
                nanosecond: t.3,
            };
            assert(at == current_datetime.at_time(t));
            if current_datetime.year == MIN_YEAR && current_datetime.month == 1
                && current_datetime.day == 1 && current_datetime.before_exec(&at) {
                return None;
            }
        }
    }
    Some(amend_last_entry(lines, description, current_datetime, format))
}

// ---------------------------------------------------------------------
// Document text
// ---------------------------------------------------------------------

/// The lines of a document's text (as `BufRead::lines` reads a file).
pub fn document_lines(contents: &str) -> (res: Vec<String>)
    ensures
        string_views(res@) == lines(contents@),
{
    let cs = chars_of(contents);
    let ls = split_lines(cs.as_slice());
    let n = ls.len();
    let mut res: Vec<String> = Vec::new();
    for i in 0..n
        invariant
            n == ls@.len(),
            string_views(res@) == seq_views(ls@).take(i as int),
    {
        let s = string_of(ls[i].as_slice());
        let ghost mid = string_views(res@);
        res.push(s);
        assert(string_views(res@) =~= mid.push(ls@[i as int]@));
        assert(seq_views(ls@).take(i + 1) =~= seq_views(ls@).take(i as int).push(ls@[i as int]@));
    }
    assert(seq_views(ls@).take(n as int) =~= seq_views(ls@));
    res
}

/// The text of a document: every line followed by a line ending (as
/// `writeln!` writes each line to the file).
pub fn document_text(lines: &[String]) -> (res: String)
    ensures
        res@ == unlines(string_views(lines@)),
{
    join_lines(lines)
}


// ---------------------------------------------------------------------
// Laws
// ---------------------------------------------------------------------

/// A written document is read back line for line: `document_lines` of
/// `document_text(doc)` is `doc`, as long as no line holds a line ending
/// and no line ends with a carriage return (such a line would be split, or
/// lose its `\r`).
pub proof fn read_after_write(doc: Seq<Seq<char>>)
    requires
        forall|k: int, j: int|
            0 <= k < doc.len() && 0 <= j < doc[k].len() ==> #[trigger] doc[k][j] != '\n',
        forall|k: int| 0 <= k < doc.len() ==> !(#[trigger] doc[k].len() > 0 && doc[k].last() == '\r'),
    ensures
        lines(unlines(doc)) == doc,
{
    assert forall|k: int| 0 <= k < doc.len() implies crate::text::strip_cr(#[trigger] doc[k])
        == doc[k] by {
        assert(!(doc[k].len() > 0 && doc[k].last() == '\r'));
    }
    crate::text::lemma_lines_unlines(doc);
}

/// "Start" keeps every line before the old timestamp and ends the document
/// with the timestamp of the current time.
pub proof fn start_keeps_history(
    doc: Seq<Seq<char>>,
    previous: Result<DateTime, Seq<char>>,
    cur: DateTime,
    f: RecordsFormat,
)
    requires
        doc.len() > 0,
    ensures
        start_outcome(doc, previous, cur, f) matches Ok(d) ==> d.len() >= doc.len() && d.take(
            doc.len() - 1,
        ) == doc.drop_last() && d.last() == timestamp_text(cur),
{
    if let Ok(d) = start_outcome(doc, previous, cur, f) {
        if let Ok(p) = previous {
            if p.same_date(cur) {
                assert(d.take(doc.len() - 1) =~= doc.drop_last());
            } else {
                assert(d.take(doc.len() - 1) =~= doc.drop_last());
            }
        }
    }
}

/// "Worked on" keeps every line before the old timestamp, puts the new
/// entry row where the timestamp was, and ends the document with the
/// timestamp of the current time.
pub proof fn worked_keeps_history(
    doc: Seq<Seq<char>>,
    previous: Result<DateTime, Seq<char>>,
    span: int,
    desc: Seq<char>,
    cur: DateTime,
    f: RecordsFormat,
)
    requires
        doc.len() > 0,
    ensures
        worked_outcome(doc, previous, span, desc, cur, f) matches Ok(d) ==> d.len() > doc.len()
            && d.take(doc.len() - 1) == doc.drop_last() && d[doc.len() - 1] == entry_line(
            desc,
            previous->Ok_0,
            cur,
            span,
            f,
        ) && d.last() == timestamp_text(cur),
{
    if let Ok(d) = worked_outcome(doc, previous, span, desc, cur, f) {
        if let Ok(p) = previous {
            assert(d.take(doc.len() - 1) =~= doc.drop_last());
        }
    }
}

/// Amending changes only the last entry row and the final timestamp; the
/// number of lines stays the same.
pub proof fn amend_changes_two_lines(
    doc: Seq<Seq<char>>,
    desc: Seq<char>,
    cur: DateTime,
    f: RecordsFormat,
)
    ensures
        amend_outcome(doc, desc, cur, f) matches Ok(d) ==> {
            &&& d.len() == doc.len()
            &&& d.last() == timestamp_text(cur)
            &&& last_entry_index(doc) matches Some(i)
            &&& forall|k: int| 0 <= k < doc.len() - 1 && k != i ==> d[k] == doc[k]
        },
{
    lemma_last_entry_before(doc, doc.len() as int);
}


/// Whether the cell separator ` | ` cannot be found in `c` followed by the
/// start of a separator, so that `c` reads back as a first cell.
pub open spec fn free_of_separator(c: Seq<char>) -> bool {
    forall|j: int| !occurs_at(c + seq![' ', '|'], " | "@, j)
}

/// A text without `|` is free of separators.
proof fn lemma_free_if_no_bar(c: Seq<char>)
    requires
        forall|k: int| 0 <= k < c.len() ==> c[k] != '|',
    ensures
        free_of_separator(c),
{
    lemma_row_literals();
    let t = c + seq![' ', '|'];
    assert forall|j: int| !occurs_at(t, " | "@, j) by {
        if occurs_at(t, " | "@, j) {
            assert(t.subrange(j, j + 3)[1] == '|');
            assert(t[j + 1] == '|');
            if j + 1 < c.len() {
                assert(t[j + 1] == c[j + 1]);
            }
        }
    }
}

/// Joined cells begin with the first cell and a separator.
proof fn lemma_join_cells_head(cells: Seq<Seq<char>>)
    requires
        cells.len() >= 2,
    ensures
        join_cells(cells) == cells[0] + " | "@ + join_cells(cells.drop_first()),
    decreases cells.len(),
{
    if cells.len() == 2 {
        assert(cells.drop_last().len() == 1);
        assert(cells.drop_first().len() == 1);
        assert(join_cells(cells.drop_last()) == cells[0]);
        assert(join_cells(cells.drop_first()) == cells[1]);
    } else {
        let front = cells.drop_last();
        lemma_join_cells_head(front);
        assert(front.drop_first() =~= cells.drop_first().drop_last());
        assert(cells.drop_first().last() == cells.last());
        assert(front[0] == cells[0]);
        assert(join_cells(cells.drop_first()) == join_cells(cells.drop_first().drop_last()) + " | "@
            + cells.drop_first().last());
    }
}

/// The text between the frame of a table row is its joined cells.
proof fn lemma_row_inner_of_row(cells: Seq<Seq<char>>)
    ensures
        row_inner(table_row(cells)) == Some(join_cells(cells)),
{
    lemma_row_literals();
    let j = join_cells(cells);
    let l = table_row(cells);
    assert(l =~= seq!['|', ' '] + j + seq![' ', '|']);
    assert(l.take(2) =~= seq!['|', ' ']);
    assert(l.skip(2) =~= j + seq![' ', '|']);
    assert((j + seq![' ', '|']).skip(j.len() as int) =~= seq![' ', '|']);
    assert(l.subrange(2, l.len() - 2) =~= j);
}

/// A text free of separators holds no cell separator.
proof fn lemma_split_alone(c: Seq<char>)
    requires
        free_of_separator(c),
    ensures
        split_once(c, " | "@) is None,
{
    lemma_row_literals();
    let sep = " | "@;
    let bar = c + seq![' ', '|'];
    crate::text::lemma_find_from(c, sep, 0);
    if let Some(k) = crate::text::find(c, sep) {
        assert(c.subrange(k, k + 3) =~= bar.subrange(k, k + 3));
        assert(!occurs_at(bar, sep, k));
    }
}

/// A text free of separators followed by a separator splits there.
proof fn lemma_split_after(c: Seq<char>, rest: Seq<char>)
    requires
        free_of_separator(c),
    ensures
        split_once(c + " | "@ + rest, " | "@) == Some((c, rest)),
{
    lemma_row_literals();
    let sep = " | "@;
    let j = c + sep + rest;
    let bar = c + seq![' ', '|'];
    let n = c.len() as int;
    assert(j.subrange(n, n + 3) =~= sep);
    assert forall|i: int| 0 <= i < n implies !occurs_at(j, sep, i) by {
        if occurs_at(j, sep, i) {
            assert(j.subrange(i, i + 3) =~= bar.subrange(i, i + 3));
            assert(!occurs_at(bar, sep, i));
        }
    }
    crate::text::lemma_find_from_is(j, sep, 0, n);
    assert(j.take(n) =~= c);
    assert(j.skip(n + 3) =~= rest);
}

/// The first cell of a table row is the first of its cells, when that cell
/// is free of separators.
proof fn lemma_first_cell_of_row(cells: Seq<Seq<char>>)
    requires
        cells.len() >= 1,
        free_of_separator(cells[0]),
    ensures
        first_cell(table_row(cells)) == Some(cells[0]),
{
    lemma_row_inner_of_row(cells);
    if cells.len() == 1 {
        assert(join_cells(cells) == cells[0]);
        lemma_split_alone(cells[0]);
    } else {
        lemma_join_cells_head(cells);
        lemma_split_after(cells[0], join_cells(cells.drop_first()));
    }
}

/// A line that does not begin with `|` is no entry row.
proof fn lemma_not_row(l: Seq<char>)
    requires
        l.len() == 0 || l[0] != '|',
    ensures
        !is_entry_row(l),
{
    lemma_row_literals();
}

/// The header lines of a day hold no entry row.
#[verifier::spinoff_prover]
proof fn lemma_day_lines_not_entries(dt: DateTime, f: RecordsFormat)
    ensures
        forall|k: int| 0 <= k < day_lines(dt, f).len() ==> !is_entry_row(#[trigger] day_lines(dt, f)[k]),
{
    let d = day_lines(dt, f);
    reveal_strlit("#  ");
    reveal_strlit("Description");
    reveal_strlit("---");
    lemma_not_row(d[0]);
    lemma_not_row(d[1]);
    let h = header_columns(f);
    assert(h[0] == "Description"@);
    lemma_free_if_no_bar("Description"@);
    lemma_first_cell_of_row(h);
    let sc = separator_cells(h.len());
    assert(sc[0] == "---"@);
    lemma_free_if_no_bar("---"@);
    lemma_first_cell_of_row(sc);
}

/// The entry row written for `desc` reads back as an entry with first cell
/// `desc`.
proof fn lemma_entry_line_is_entry(
    desc: Seq<char>,
    start: DateTime,
    end: DateTime,
    span: int,
    f: RecordsFormat,
)
    requires
        free_of_separator(desc),
        desc != "Description"@,
        desc != "---"@,
    ensures
        first_cell(entry_line(desc, start, end, span, f)) == Some(desc),
        is_entry_row(entry_line(desc, start, end, span, f)),
{
    let cells = entry_cells(desc, start, end, span, f);
    assert(cells[0] == desc);
    lemma_first_cell_of_row(cells);
}

/// The last entry of a document is at `i` when `i` holds an entry row and
/// no later line does.
proof fn lemma_last_entry_at(d: Seq<Seq<char>>, i: int, k: int)
    requires
        0 <= i < k <= d.len(),
        is_entry_row(d[i]),
        forall|m: int| i < m < k ==> !is_entry_row(#[trigger] d[m]),
    ensures
        last_entry_before(d, k) == Some(i),
    decreases k,
{
    if k - 1 > i {
        lemma_last_entry_at(d, i, k - 1);
    }
}

/// A timestamp line is no entry row.
proof fn lemma_timestamp_not_entry(dt: DateTime)
    ensures
        !is_entry_row(timestamp_text(dt)),
{
    let t = timestamp_text(dt);
    assert(t[0] == crate::text::digit_char(dt.day as int / 10));
    lemma_not_row(t);
}

/// What "Worked on" writes is what the amend mode reads back: after a
/// successful "Worked on", the document's last entry is the new row and its
/// first cell is the description, for a description that is not a column
/// title or separator and in which the cell separator ` | ` cannot be found.
pub proof fn worked_entry_read_back(
    doc: Seq<Seq<char>>,
    previous: Result<DateTime, Seq<char>>,
    span: int,
    desc: Seq<char>,
    cur: DateTime,
    f: RecordsFormat,
)
    requires
        free_of_separator(desc),
        desc != "Description"@,
        desc != "---"@,
    ensures
        worked_outcome(doc, previous, span, desc, cur, f) matches Ok(d) ==> (last_entry_index(d)
            matches Some(i) && first_cell(d[i]) == Some(desc)),
        worked_outcome(doc, previous, span, desc, cur, f) matches Ok(d) ==> last_entry_index(d)
            == Some(worked_row_index(doc)),
{
    if let Ok(d) = worked_outcome(doc, previous, span, desc, cur, f) {
        lemma_timestamp_not_entry(cur);
        lemma_day_lines_not_entries(cur, f);
        let dl = day_lines(cur, f);
        if doc.len() == 0 {
            let row = entry_line(desc, cur, cur, 0, f);
            lemma_entry_line_is_entry(desc, cur, cur, 0, f);
            assert(d == dl.push(row).push(timestamp_text(cur)));
            lemma_last_entry_at(d, dl.len() as int, d.len() as int);
        } else {
            let p = previous->Ok_0;
            let row = entry_line(desc, p, cur, span, f);
            lemma_entry_line_is_entry(desc, p, cur, span, f);
            let i = doc.len() - 1;
            if p.same_date(cur) {
                assert(d == doc.drop_last().push(row).push(timestamp_text(cur)));
                assert(d[i] == row);
                lemma_last_entry_at(d, i, d.len() as int);
            } else {
                let head = doc.drop_last().push(row).push(Seq::<char>::empty());
                assert(d == (head + dl).push(timestamp_text(cur)));
                assert(d[i] == row);
                lemma_not_row(Seq::<char>::empty());
                assert forall|m: int| i < m < d.len() implies !is_entry_row(#[trigger] d[m]) by {
                    if m == i + 1 {
                        assert(d[m] == Seq::<char>::empty());
                    } else if m < d.len() - 1 {
                        assert(d[m] == dl[m - i - 2]);
                    }
                }
                lemma_last_entry_at(d, i, d.len() as int);
            }
        }
    }
}

/// A repeated "Start" at the same moment changes nothing: on the document
/// that "Start" at `cur` produced, whose timestamp line reads back as `cur`
/// to the minute (as `apply_start` ensures), "Start" at
/// `cur` gives the same document again.
pub proof fn start_twice_is_start_once(
    doc: Seq<Seq<char>>,
    previous: Result<DateTime, Seq<char>>,
    cur: DateTime,
    f: RecordsFormat,
)
    ensures
        start_outcome(doc, previous, cur, f) matches Ok(d) ==> start_outcome(
            d,
            minute_reading(cur),
            cur,
            f,
        ) == Ok::<Seq<Seq<char>>, Seq<char>>(d),
{
    if let Ok(d) = start_outcome(doc, previous, cur, f) {
        assert(d.len() > 0);
        assert(d.last() == timestamp_text(cur));
        assert(d.drop_last().push(timestamp_text(cur)) =~= d);
    }
}

/// Amending the entry that "Worked on" just recorded is the same as having
/// recorded the new description at the new time: "Worked on" `d1` at `t1`
/// from a previous timestamp `p` (read from a timestamp line, so to the
/// minute), then amending with `d2` at `t2` on the same day and not before
/// `p`, gives what "Worked on" `d2` at `t2` gives on the first document.
/// This holds when the recorded row's start cell reads back as `p` and the
/// written timestamp reads back, as `apply_worked` ensures.
pub proof fn amend_after_worked(
    doc: Seq<Seq<char>>,
    p: DateTime,
    span1: int,
    d1: Seq<char>,
    t1: DateTime,
    d2: Seq<char>,
    t2: DateTime,
    f: RecordsFormat,
)
    requires
        doc.len() > 0,
        f.start_time,
        free_of_separator(d1),
        d1 != "Description"@,
        d1 != "---"@,
        p == at_minute(p),
        p.same_date(t1),
        p.same_date(t2),
        !t2.before(p),
    ensures
        worked_outcome(doc, Ok(p), span1, d1, t1, f) matches Ok(d) ==> (entry_start_reads(d, p)
            && previous_timestamp(d) is Ok ==> amend_outcome(d, d2, t2, f) == worked_outcome(
            doc,
            Ok(p),
            span_nanos(span_between(p, t2)),
            d2,
            t2,
            f,
        )),
{
    if let Ok(d) = worked_outcome(doc, Ok(p), span1, d1, t1, f) {
        if entry_start_reads(d, p) && previous_timestamp(d) is Ok {
            worked_entry_read_back(doc, Ok(p), span1, d1, t1, f);
            let i = doc.len() - 1;
            assert(last_entry_index(d) == Some(i));
            let t = (p.hour, p.minute, 0u32, 0u32);
            assert(entry_start(d, i) == Some(t));
            assert(t2.at_time(t) == p);
            assert(amend_start(t2, t) == p);
            let row2 = entry_line(d2, p, t2, span_nanos(span_between(p, t2)), f);
            assert(d.update(i, row2).update(d.len() - 1, timestamp_text(t2)) =~= doc.drop_last().push(
                row2,
            ).push(timestamp_text(t2)));
        }
    }
}

/// The second of a row's cells is its start field, when the first two
/// cells are free of separators.
proof fn lemma_start_field_of_row(cells: Seq<Seq<char>>)
    requires
        cells.len() >= 2,
        free_of_separator(cells[0]),
        free_of_separator(cells[1]),
    ensures
        start_field(table_row(cells)) == Some(cells[1]),
{
    lemma_row_inner_of_row(cells);
    lemma_join_cells_head(cells);
    let rest = cells.drop_first();
    lemma_split_after(cells[0], join_cells(rest));
    if rest.len() == 1 {
        assert(join_cells(rest) == rest[0]);
        lemma_split_alone(rest[0]);
    } else {
        lemma_join_cells_head(rest);
        lemma_split_after(rest[0], join_cells(rest.drop_first()));
    }
}

/// A clock text holds no `|`, so it is free of separators.
proof fn lemma_clock_free(dt: DateTime)
    ensures
        free_of_separator(clock_text(dt)),
{
    let c = clock_text(dt);
    assert forall|k: int| 0 <= k < c.len() implies c[k] != '|' by {
        assert(c.len() == 5);
    }
    lemma_free_if_no_bar(c);
}

/// The start field of an entry row with a Start Time column is the start's
/// clock text.
proof fn lemma_entry_start_cell(desc: Seq<char>, start: DateTime, end: DateTime, span: int, f: RecordsFormat)
    requires
        f.start_time,
        free_of_separator(desc),
    ensures
        start_field(entry_line(desc, start, end, span, f)) == Some(clock_text(start)),
{
    let cells = entry_cells(desc, start, end, span, f);
    assert(cells[0] == desc);
    assert(cells[1] == clock_text(start));
    lemma_clock_free(start);
    lemma_start_field_of_row(cells);
}

/// `text` when `on`, else nothing.
pub open spec fn when(on: bool, text: Seq<char>) -> Seq<char> {
    if on {
        text
    } else {
        Seq::<char>::empty()
    }
}

/// Joining one more cell adds a separator and the cell.
proof fn lemma_join_push(cells: Seq<Seq<char>>, c: Seq<char>)
    requires
        cells.len() >= 1,
    ensures
        join_cells(cells.push(c)) == join_cells(cells) + " | "@ + c,
{
    assert(cells.push(c).drop_last() =~= cells);
}

/// Cells made of a first cell and three optional ones join to the first
/// cell followed by ` | ` and each present one.
proof fn lemma_join_optional(
    c0: Seq<char>,
    a: bool,
    x: Seq<char>,
    b: bool,
    y: Seq<char>,
    c: bool,
    z: Seq<char>,
)
    ensures
        join_cells(seq![c0] + (if a {
            seq![x]
        } else {
            seq![]
        }) + (if b {
            seq![y]
        } else {
            seq![]
        }) + (if c {
            seq![z]
        } else {
            seq![]
        })) == c0 + when(a, " | "@ + x) + when(b, " | "@ + y) + when(c, " | "@ + z),
{
    let s1 = seq![c0];
    let s2 = if a {
        s1.push(x)
    } else {
        s1
    };
    let s3 = if b {
        s2.push(y)
    } else {
        s2
    };
    let s4 = if c {
        s3.push(z)
    } else {
        s3
    };
    assert(join_cells(s1) == c0);
    if a {
        lemma_join_push(s1, x);
    }
    assert(join_cells(s2) =~= c0 + when(a, " | "@ + x));
    if b {
        lemma_join_push(s2, y);
    }
    assert(join_cells(s3) =~= c0 + when(a, " | "@ + x) + when(b, " | "@ + y));
    if c {
        lemma_join_push(s3, z);
    }
    assert(join_cells(s4) =~= c0 + when(a, " | "@ + x) + when(b, " | "@ + y) + when(
        c,
        " | "@ + z,
    ));
    assert(seq![c0] + (if a {
        seq![x]
    } else {
        seq![]
    }) + (if b {
        seq![y]
    } else {
        seq![]
    }) + (if c {
        seq![z]
    } else {
        seq![]
    }) =~= s4);
}

/// A new day's table lists exactly the enabled columns, each by its own
/// flag and in the order Description, Start Time, End Time, Duration, and
/// its separator row has one `---` per column.
pub proof fn day_header_lists_enabled_columns(dt: DateTime, f: RecordsFormat)
    ensures
        day_lines(dt, f).len() == 4,
        day_lines(dt, f)[2] == "| Description"@ + when(f.start_time, " | Start Time"@) + when(
            f.end_time,
            " | End Time"@,
        ) + when(f.duration, " | Duration"@) + " |"@,
        day_lines(dt, f)[3] == "| ---"@ + when(f.start_time, " | ---"@) + when(
            f.end_time,
            " | ---"@,
        ) + when(f.duration, " | ---"@) + " |"@,
{
    lemma_row_literals();
    reveal_strlit("| Description");
    reveal_strlit("Description");
    reveal_strlit("| ---");
    reveal_strlit("---");
    reveal_strlit(" | Start Time");
    reveal_strlit("Start Time");
    reveal_strlit(" | End Time");
    reveal_strlit("End Time");
    reveal_strlit(" | Duration");
    reveal_strlit("Duration");
    reveal_strlit(" | ---");
    let h = header_columns(f);
    lemma_join_optional(
        "Description"@,
        f.start_time,
        "Start Time"@,
        f.end_time,
        "End Time"@,
        f.duration,
        "Duration"@,
    );
    assert(" | "@ + "Start Time"@ =~= " | Start Time"@);
    assert(" | "@ + "End Time"@ =~= " | End Time"@);
    assert(" | "@ + "Duration"@ =~= " | Duration"@);
    assert(" | "@ + "---"@ =~= " | ---"@);
    assert("| "@ + "Description"@ =~= "| Description"@);
    assert("| "@ + "---"@ =~= "| ---"@);
    assert(day_lines(dt, f)[2] =~= "| Description"@ + when(f.start_time, " | Start Time"@) + when(
        f.end_time,
        " | End Time"@,
    ) + when(f.duration, " | Duration"@) + " |"@);
    let sc = separator_cells(h.len());
    assert(sc =~= seq!["---"@] + (if f.start_time {
        seq!["---"@]
    } else {
        seq![]
    }) + (if f.end_time {
        seq!["---"@]
    } else {
        seq![]
    }) + (if f.duration {
        seq!["---"@]
    } else {
        seq![]
    }));
    lemma_join_optional("---"@, f.start_time, "---"@, f.end_time, "---"@, f.duration, "---"@);
    assert(day_lines(dt, f)[3] =~= "| ---"@ + when(f.start_time, " | ---"@) + when(
        f.end_time,
        " | ---"@,
    ) + when(f.duration, " | ---"@) + " |"@);
}

/// An entry row holds one cell per enabled column, each decided by its own
/// flag: the description, then the start's `%H:%M`, the end's `%H:%M` and
/// the rounded duration as enabled; it has as many cells as the day
/// header for the same format.
pub proof fn entry_row_lists_enabled_columns(
    desc: Seq<char>,
    start: DateTime,
    end: DateTime,
    span: int,
    f: RecordsFormat,
)
    ensures
        entry_line(desc, start, end, span, f) == "| "@ + desc + when(
            f.start_time,
            " | "@ + clock_text(start),
        ) + when(f.end_time, " | "@ + clock_text(end)) + when(
            f.duration,
            " | "@ + duration_text(rounded_duration(span, f.duration_rounding as int)),
        ) + " |"@,
        entry_cells(desc, start, end, span, f).len() == header_columns(f).len(),
{
    lemma_join_optional(
        desc,
        f.start_time,
        clock_text(start),
        f.end_time,
        clock_text(end),
        f.duration,
        duration_text(rounded_duration(span, f.duration_rounding as int)),
    );
    assert(entry_line(desc, start, end, span, f) =~= "| "@ + desc + when(
        f.start_time,
        " | "@ + clock_text(start),
    ) + when(f.end_time, " | "@ + clock_text(end)) + when(
        f.duration,
        " | "@ + duration_text(rounded_duration(span, f.duration_rounding as int)),
    ) + " |"@);
}

/// When "Start" or "Worked on" begins a new day, the lines it inserts
/// before the new timestamp are exactly the lines `new_day` gives for the
/// current date and the format passed in; on an empty document they open
/// it.
pub proof fn new_day_lines_follow_format(
    doc: Seq<Seq<char>>,
    previous: Result<DateTime, Seq<char>>,
    span: int,
    desc: Seq<char>,
    cur: DateTime,
    f: RecordsFormat,
)
    ensures
        start_outcome(doc, previous, cur, f) matches Ok(d) ==> (doc.len() == 0 ==> d.take(4)
            == day_lines(cur, f)) && (doc.len() > 0 && !previous->Ok_0.same_date(cur) ==> d.len()
            == (doc.len() as int) + 5 && d.subrange((doc.len() as int), (doc.len() as int) + 4) == day_lines(cur, f)
            && d[(doc.len() as int) - 1] == Seq::<char>::empty()),
        worked_outcome(doc, previous, span, desc, cur, f) matches Ok(d) ==> (doc.len() == 0
            ==> d.take(4) == day_lines(cur, f)) && (doc.len() > 0
            && !previous->Ok_0.same_date(cur) ==> d.len() == (doc.len() as int) + 6 && d.subrange(
            (doc.len() as int) + 1,
            (doc.len() as int) + 5,
        ) == day_lines(cur, f) && d[(doc.len() as int)] == Seq::<char>::empty()),
{
    if let Ok(d) = start_outcome(doc, previous, cur, f) {
        if doc.len() == 0 {
            assert(d.take(4) =~= day_lines(cur, f));
        } else if !previous->Ok_0.same_date(cur) {
            assert(d.subrange((doc.len() as int), (doc.len() as int) + 4) =~= day_lines(cur, f));
        }
    }
    if let Ok(d) = worked_outcome(doc, previous, span, desc, cur, f) {
        if doc.len() == 0 {
            assert(d.take(4) =~= day_lines(cur, f));
        } else if !previous->Ok_0.same_date(cur) {
            assert(d.subrange((doc.len() as int) + 1, (doc.len() as int) + 5) =~= day_lines(cur, f));
        }
    }
}

} // verus!
