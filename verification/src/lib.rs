//! Timesheets kept as Markdown tables, and the configuration that says
//! where the timesheet lives and which columns it has.
//!
//! The library holds everything that can be decided without a display or a
//! file system: the text of day headers and entry rows, how the "Start",
//! "Worked on" and amend actions change a document, the config file format,
//! the config file locations and the order in which they are searched.

pub mod config;
pub mod datetime;
pub mod text;
pub mod timesheet;

pub use config::{
    canonical_config_path, collapse_tilde, cwd_config_path, default_config_contents,
    expand_tilde, locate_next, locate_start, parse_bool, parse_config, pointer_contents,
    pointer_target, serialize_config, text_file_path, xdg_config_dir, Config, Destination,
    JoplinNote, LocateAction, LocateEvent, LocateState,
};
pub use datetime::DateTime;
pub use timesheet::{
    amend_last_entry, amend_with_parsed, apply_start, apply_worked, document_lines, document_text,
    last_entry_description, new_day, new_entry, new_entry_with_span, start_with_previous,
    try_amend_last_entry, try_apply_worked, worked_with_previous, RecordsFormat, RECORD_FORMAT,
};
