# md_timesheet

Timesheets kept as Markdown, with a small GTK front-end. Each working day is a
heading and a table; every finished task is a row with its start, end and
rounded duration; the document's last line holds the timestamp of the
previous action.

The library under `src/` is verified with Verus:

- `text.rs` — trimming, line splitting, searching and decimal numbers over
  `Seq<char>` models, with the behaviour of the corresponding `str` methods.
- `datetime.rs` — date-times as plain fields, and the chrono operations the
  timesheet uses (formatting, parsing, the span between two date-times, the previous day).
- `timesheet.rs` — day headers, entry rows, and how "Start", "Worked on" and
  amending the last entry change a document; the document's text form.
- `config.rs` — the `key = value` config format (reading and writing), `~`
  expansion, config file locations, pointer files, and the config search as
  a step function driven by the file system's answers.

`app/` holds the GTK window and the file-system work: reading and writing the
document and config files, and running the config search.
