//! Configuration parsing, serialisation and discovery.

use md_timesheet::{
    canonical_config_path, collapse_tilde, cwd_config_path, default_config_contents,
    expand_tilde, locate_next, locate_start, parse_bool, parse_config, pointer_contents,
    pointer_target, serialize_config, xdg_config_dir, Config, Destination, JoplinNote,
    LocateAction, LocateEvent, LocateState, RecordsFormat, RECORD_FORMAT,
};

/// The built-in default configuration.
fn default_config() -> Config {
    Config::default()
}

/// A config with non-default values, used to exercise every field.
fn custom_config() -> Config {
    Config {
        destination: Destination::TextFile("./other/timesheet.markdown".to_string()),
        format: RecordsFormat {
            start_time: false,
            end_time: true,
            duration: false,
            duration_rounding: 25,
        },
    }
}

/// The file system as the config search sees it: the existing files and
/// their contents.
struct Files(Vec<(&'static str, &'static str)>);

impl Files {
    /// Runs the config search against these files.
    fn locate(
        &self,
        cli: Option<&str>,
        cwd: &str,
        xdg: Option<&str>,
        home: Option<&str>,
    ) -> Result<Option<String>, String> {
        let (mut state, mut action): (LocateState, LocateAction) =
            locate_start(cli, cwd, xdg, home);
        loop {
            let event = match action {
                LocateAction::Done(result) => return result,
                LocateAction::CheckFile(path) => {
                    LocateEvent::Exists(self.0.iter().any(|(p, _)| *p == path))
                }
                LocateAction::ReadFile(path) => LocateEvent::Read(
                    self.0
                        .iter()
                        .find(|(p, _)| *p == path)
                        .map(|(_, text)| text.to_string())
                        .ok_or_else(|| "No such file".to_string()),
                ),
            };
            let (next_state, next_action) = locate_next(state, event);
            state = next_state;
            action = next_action;
        }
    }
}

/// `parse_bool` accepts the two documented literals.
#[test]
fn parse_bool_accepts_true_and_false() {
    assert!(parse_bool("start_time", "true", 1).unwrap());
    assert!(!parse_bool("start_time", "false", 1).unwrap());
}

/// `parse_bool` rejects anything else and names the key.
#[test]
fn parse_bool_rejects_other_values() {
    let error = parse_bool("start_time", "yes", 3).unwrap_err();
    assert!(error.contains("start_time"));
    assert!(error.contains("Line 3"));
}

/// A complete config file parses into the expected configuration.
#[test]
fn parse_full_config() {
    let contents = "\
# a comment
file_path = /tmp/timesheet.markdown

start_time = false
end_time = true
duration = true
duration_rounding = 15
";
    let config = parse_config(contents, None).unwrap();
    assert_eq!(
        config.destination,
        Destination::TextFile("/tmp/timesheet.markdown".to_string())
    );
    assert_eq!(
        config.format,
        RecordsFormat {
            start_time: false,
            end_time: true,
            duration: true,
            duration_rounding: 15,
        }
    );
}

/// An unknown key is rejected and named in the error.
#[test]
fn parse_unknown_key_errors() {
    let error = parse_config("file_path = x\nnonsense = 1\n", None).unwrap_err();
    assert!(error.contains("nonsense"));
}

/// A non-boolean value for a column flag is rejected and named in the error.
#[test]
fn parse_malformed_bool_errors() {
    let error = parse_config("start_time = yes\n", None).unwrap_err();
    assert!(error.contains("start_time"));
}

/// A non-integer rounding value is rejected and named in the error.
#[test]
fn parse_malformed_rounding_errors() {
    let error = parse_config("duration_rounding = ten\n", None).unwrap_err();
    assert!(error.contains("duration_rounding"));
}

/// A zero or negative rounding value is rejected.
#[test]
fn parse_non_positive_rounding_errors() {
    assert!(parse_config("duration_rounding = 0\n", None).is_err());
    assert!(parse_config("duration_rounding = -5\n", None).is_err());
}

/// A missing required key is reported.
#[test]
fn parse_missing_key_errors() {
    let error = parse_config("file_path = x\n", None).unwrap_err();
    assert!(error.contains("Missing"));
}

/// A line without an `=` sign is reported.
#[test]
fn parse_line_without_equals_errors() {
    assert!(parse_config("just some text\n", None).is_err());
}

/// Comments and blank lines are ignored, so the default text parses cleanly.
#[test]
fn parse_default_contents() {
    let config = parse_config(&default_config_contents(), None).unwrap();
    assert_eq!(config, default_config());
}

/// Serialising then parsing yields the original configuration.
#[test]
fn serialize_then_parse_roundtrip() {
    let config = custom_config();
    let text = serialize_config(&config).unwrap();
    assert_eq!(parse_config(&text, None).unwrap(), config);
}

/// A Joplin destination cannot be represented as a config file.
#[test]
fn serialize_joplin_errors() {
    let config = Config {
        destination: Destination::JoplinNote(JoplinNote {
            id: "id".to_string(),
            url: "http://localhost:41184".to_string(),
            api_key: "key".to_string(),
        }),
        format: RECORD_FORMAT(),
    };
    assert!(serialize_config(&config).is_err());
}

/// `$XDG_CONFIG_HOME` wins when set.
#[test]
fn xdg_dir_prefers_xdg_config_home() {
    let dir = xdg_config_dir(Some("/xdg"), Some("/home/me")).unwrap();
    assert_eq!(dir, "/xdg/md_timesheet");
}

/// `$HOME/.config` is used when `$XDG_CONFIG_HOME` is absent or empty.
#[test]
fn xdg_dir_falls_back_to_home() {
    assert_eq!(
        xdg_config_dir(None, Some("/home/me")).unwrap(),
        "/home/me/.config/md_timesheet"
    );
    assert_eq!(
        xdg_config_dir(Some(""), Some("/home/me")).unwrap(),
        "/home/me/.config/md_timesheet"
    );
}

/// With neither environment variable set, resolution fails.
#[test]
fn xdg_dir_without_env_errors() {
    assert!(xdg_config_dir(None, None).is_err());
}

/// The canonical config file sits inside the XDG config directory.
#[test]
fn canonical_path_ends_with_config() {
    let path = canonical_config_path(Some("/xdg"), None).unwrap();
    assert_eq!(path, "/xdg/md_timesheet/config");
}

/// The current-folder config is named `md_timesheet.config`.
#[test]
fn cwd_path_joins_name() {
    assert_eq!(cwd_config_path("/work"), "/work/md_timesheet.config");
}

/// An explicit `-c`/`--config` path takes precedence over everything else.
#[test]
fn locate_prefers_cli_config() {
    let files = Files(vec![
        ("/tmp/dir/explicit.config", "file_path = x\n"),
        ("/tmp/dir/md_timesheet.config", ""),
    ]);
    let found = files.locate(Some("/tmp/dir/explicit.config"), "/tmp/dir", None, None);
    assert_eq!(found, Ok(Some("/tmp/dir/explicit.config".to_string())));
}

/// An explicit `-c`/`--config` path that does not exist is an error.
#[test]
fn locate_missing_cli_config_errors() {
    let files = Files(vec![]);
    assert!(files.locate(Some("/tmp/dir/missing.config"), "/tmp/dir", None, None).is_err());
}

/// The current folder is searched before the XDG config directory.
#[test]
fn locate_prefers_cwd_over_xdg() {
    let files = Files(vec![
        ("/tmp/dir/md_timesheet.config", ""),
        ("/tmp/dir/xdg/md_timesheet/config", ""),
    ]);
    let found = files.locate(None, "/tmp/dir", Some("/tmp/dir/xdg"), None);
    assert_eq!(found, Ok(Some("/tmp/dir/md_timesheet.config".to_string())));
}

/// The XDG config directory is used when the current folder has no config.
#[test]
fn locate_uses_xdg_when_no_cwd_config() {
    let files = Files(vec![("/tmp/dir/xdg/md_timesheet/config", "")]);
    let found = files.locate(None, "/tmp/dir", Some("/tmp/dir/xdg"), None);
    assert_eq!(found, Ok(Some("/tmp/dir/xdg/md_timesheet/config".to_string())));
}

/// When nothing is found, the search reports `None`.
#[test]
fn locate_returns_none_when_nothing_found() {
    let files = Files(vec![]);
    assert_eq!(files.locate(None, "/tmp/dir", None, None), Ok(None));
}

/// A pointer file's `config_path` is extracted, ignoring comments and blanks.
#[test]
fn pointer_target_reads_config_path() {
    let contents = "# a pointer\n\nconfig_path = /etc/md_timesheet/config\n";
    assert_eq!(
        pointer_target(contents),
        Some("/etc/md_timesheet/config".to_string())
    );
}

/// A regular configuration is not mistaken for a pointer.
#[test]
fn pointer_target_none_for_regular_config() {
    assert_eq!(pointer_target(&default_config_contents()), None);
}

/// A written pointer is read back by `pointer_target`.
#[test]
fn write_pointer_roundtrip() {
    let target = "/tmp/dir/real.config";
    let contents = pointer_contents(target);
    assert_eq!(contents, "config_path = /tmp/dir/real.config\n");
    assert_eq!(pointer_target(&contents), Some(target.to_string()));
}

/// The XDG file may point at a config stored elsewhere.
#[test]
fn locate_follows_xdg_pointer() {
    let files = Files(vec![
        ("/tmp/dir/real.config", "file_path = x\n"),
        ("/tmp/dir/xdg/md_timesheet/config", "config_path = /tmp/dir/real.config\n"),
    ]);
    let found = files.locate(None, "/tmp/dir", Some("/tmp/dir/xdg"), None);
    assert_eq!(found, Ok(Some("/tmp/dir/real.config".to_string())));
}

/// A pointer referencing a missing file is an error.
#[test]
fn locate_dangling_pointer_errors() {
    let files = Files(vec![(
        "/tmp/dir/xdg/md_timesheet/config",
        "config_path = /tmp/dir/missing.config\n",
    )]);
    assert_eq!(
        files.locate(None, "/tmp/dir", Some("/tmp/dir/xdg"), None),
        Err("Config pointer '/tmp/dir/xdg/md_timesheet/config' points at \
             '/tmp/dir/missing.config', which does not exist."
            .to_string())
    );
}

/// The error messages name the line, the key and the value.
#[test]
fn parse_error_messages() {
    assert_eq!(
        parse_config("\n  just text  \n", None).unwrap_err(),
        "Line 2: expected 'key = value', got '  just text  '"
    );
    assert_eq!(
        parse_config("end_time = maybe", None).unwrap_err(),
        "Line 1: 'end_time' must be 'true' or 'false', got 'maybe'"
    );
    assert_eq!(
        parse_config("# c\nduration_rounding = 1.5", None).unwrap_err(),
        "Line 2: 'duration_rounding' must be an integer, got '1.5'"
    );
    assert_eq!(
        parse_config("duration_rounding = -5", None).unwrap_err(),
        "Line 1: 'duration_rounding' must be positive, got -5"
    );
    assert_eq!(
        parse_config("colour = blue", None).unwrap_err(),
        "Line 1: unknown key 'colour'"
    );
    assert_eq!(
        parse_config("", None).unwrap_err(),
        "Missing 'file_path' setting."
    );
    assert_eq!(
        parse_config("file_path = a\nstart_time = true\nend_time = true\nduration = true", None)
            .unwrap_err(),
        "Missing 'duration_rounding' setting."
    );
}

/// Integer values follow `str::parse::<i32>`: a sign is allowed, spaces
/// around the value are trimmed, and values beyond `i32` are refused.
#[test]
fn parse_rounding_values() {
    let base = "file_path = a\nstart_time = true\nend_time = true\nduration = true\n";
    let rounding = |value: &str| {
        parse_config(&format!("{}duration_rounding = {}\n", base, value), None)
            .map(|c| c.format.duration_rounding)
    };
    assert_eq!(rounding("+7"), Ok(7));
    assert_eq!(rounding("2147483647"), Ok(2147483647));
    assert!(rounding("2147483648").is_err());
    assert!(rounding("99999999999999999999").is_err());
    assert!(rounding("+").is_err());
    assert!(rounding("").is_err());
    assert_eq!(rounding("  30\t"), Ok(30));
}

/// Later settings replace earlier ones, and Windows line endings are read.
#[test]
fn parse_last_setting_wins() {
    let text = "file_path = a\r\nfile_path = b\r\nstart_time = true\r\nend_time = false\r\n\
                duration = true\r\nduration_rounding = 5\r\n";
    let config = parse_config(text, None).unwrap();
    assert_eq!(config.destination, Destination::TextFile("b".to_string()));
}

/// A leading `~` in the timesheet path is expanded to the home directory.
#[test]
fn parse_expands_tilde() {
    let text = "file_path = ~/notes/ts.md\nstart_time = true\nend_time = true\n\
                duration = true\nduration_rounding = 10\n";
    let config = parse_config(text, Some("/home/me")).unwrap();
    assert_eq!(
        config.destination,
        Destination::TextFile("/home/me/notes/ts.md".to_string())
    );
}

/// `~` expands only with a non-empty home, and collapsing reverses it.
#[test]
fn tilde_expand_and_collapse() {
    assert_eq!(expand_tilde("~", Some("/home/me")), "/home/me");
    assert_eq!(expand_tilde("~/a/b", Some("/home/me")), "/home/me/a/b");
    assert_eq!(expand_tilde("~other/a", Some("/home/me")), "~other/a");
    assert_eq!(expand_tilde("~/a", Some("")), "~/a");
    assert_eq!(expand_tilde("~/a", None), "~/a");
    assert_eq!(collapse_tilde("/home/me", Some("/home/me")), "~");
    assert_eq!(collapse_tilde("/home/me/a/b", Some("/home/me")), "~/a/b");
    assert_eq!(collapse_tilde("/home/meow/a", Some("/home/me")), "/home/meow/a");
    assert_eq!(collapse_tilde("/home/me/a", None), "/home/me/a");
    for path in ["~", "~/x/y", "/etc/config", "relative"] {
        assert_eq!(
            collapse_tilde(&expand_tilde(path, Some("/home/me")), Some("/home/me")),
            path
        );
    }
    for path in ["/home/me", "/home/me/x", "/etc/config"] {
        assert_eq!(
            expand_tilde(&collapse_tilde(path, Some("/home/me")), Some("/home/me")),
            path
        );
    }
}

/// Paths are joined with one `/`.
#[test]
fn paths_join_with_one_separator() {
    assert_eq!(xdg_config_dir(Some("/xdg/"), None).unwrap(), "/xdg/md_timesheet");
    assert_eq!(cwd_config_path(""), "md_timesheet.config");
    assert_eq!(
        xdg_config_dir(None, None).unwrap_err(),
        "Neither $XDG_CONFIG_HOME nor $HOME is set."
    );
}

/// The serialised text is the documented template.
#[test]
fn serialize_default_text() {
    assert_eq!(
        default_config_contents(),
        "# md_timesheet configuration.\n\
         # Path to the timesheet markdown file (~/ expands to your home directory).\n\
         file_path = ./timesheet.markdown\n\
         \n\
         # Which table columns to include.\n\
         start_time = true\n\
         end_time = true\n\
         duration = true\n\
         \n\
         # Round durations up to the next multiple of this many minutes.\n\
         duration_rounding = 10\n"
    );
}

/// A pointer line needs the `config_path` key and a value.
#[test]
fn pointer_target_needs_key_and_value() {
    assert_eq!(pointer_target("config_path =\n"), None);
    assert_eq!(pointer_target("path = /x\n"), None);
    assert_eq!(pointer_target("# config_path = /x\nconfig_path = /y"), Some("/y".to_string()));
}

/// A read error of the XDG config file is reported with its path.
#[test]
fn locate_read_error_is_reported() {
    let (state, _) = locate_start(None, "/w", Some("/x"), None);
    let (state, _) = locate_next(state, LocateEvent::Exists(false));
    let (state, _) = locate_next(state, LocateEvent::Exists(true));
    let (_, action) = locate_next(state, LocateEvent::Read(Err("denied".to_string())));
    match action {
        LocateAction::Done(result) => assert_eq!(
            result,
            Err("Error reading config file '/x/md_timesheet/config': denied".to_string())
        ),
        _ => panic!("the search should be over"),
    }
}

/// A missing `-c` file names the path.
#[test]
fn locate_missing_cli_message() {
    let files = Files(vec![]);
    assert_eq!(
        files.locate(Some("c.conf"), "/w", None, None),
        Err("Config file 'c.conf' does not exist.".to_string())
    );
}
