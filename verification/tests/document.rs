//! The text of a document and its destination.

use md_timesheet::{document_lines, document_text, text_file_path, Destination, JoplinNote};

/// Written lines are read back verbatim.
#[test]
fn write_then_read_roundtrip() {
    let content = vec![
        "#   2 January".to_string(),
        "".to_string(),
        "| Doing Stuff | 12:00 | 13:00 | 01:00 |".to_string(),
    ];
    let text = document_text(&content);
    assert_eq!(text, "#   2 January\n\n| Doing Stuff | 12:00 | 13:00 | 01:00 |\n");
    assert_eq!(document_lines(&text), content);
}

/// An empty document is an empty text.
#[test]
fn write_empty_truncates() {
    assert_eq!(document_text(&[]), "");
    assert!(document_lines("").is_empty());
}

/// Lines end at `\n` or `\r\n`; a last line without an ending still counts.
#[test]
fn document_lines_endings() {
    assert_eq!(document_lines("a\r\nb\n\nc"), vec!["a", "b", "", "c"]);
    assert_eq!(document_lines("a\r"), vec!["a\r"]);
    assert_eq!(document_lines("\n"), vec![""]);
}

/// A Joplin destination reports that it is not implemented.
#[test]
fn joplin_is_not_implemented() {
    let dest = Destination::JoplinNote(JoplinNote {
        id: "note-id".to_string(),
        url: "http://localhost:41184".to_string(),
        api_key: "api-key".to_string(),
    });
    assert_eq!(
        text_file_path(&dest),
        Err("Joplin support has not been implemented.".to_string())
    );
    assert_eq!(
        text_file_path(&Destination::TextFile("t.md".to_string())),
        Ok("t.md".to_string())
    );
}
