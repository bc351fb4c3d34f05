//! The configuration: its `key = value` file format, the `~` shorthand for
//! the home directory, the config file locations, the pointer files that
//! redirect to a config elsewhere, and the order in which config files are
//! searched.

use vstd::prelude::*;

use crate::text::{
    chars_eq_str, chars_of, int_text, int_text_exec, is_ws, join_lines,
    lines, nat_text, nat_text_exec, parse_i32, parse_i32_exec, push_chars, push_str, seq_views,
    split_lines, split_once, split_once_chars, starts_with, starts_with_chars, string_of,
    string_views, sub_chars, trim, trim_chars, unlines,
};
use crate::timesheet::{default_format, RecordsFormat, RECORD_FORMAT};

verus! {

/// Connection details for a Joplin note used as storage.
///
/// Joplin support is not implemented yet; the type exists so that
/// [`Destination`] can carry the configuration once it is.
#[derive(Debug, Clone, PartialEq, Eq)]
pub struct JoplinNote {
    /// The Joplin note identifier.
    pub id: String,
    /// The Joplin REST API base URL.
    pub url: String,
    /// The Joplin REST API token.
    pub api_key: String,
}

/// Where the timesheet document is stored.
#[derive(Debug, Clone, PartialEq, Eq)]
pub enum Destination {
    /// A Markdown file at the contained path.
    TextFile(String),
    /// A Joplin note (not implemented yet).
    JoplinNote(JoplinNote),
}

/// The application configuration loaded from a config file.
#[derive(Debug, Clone, PartialEq, Eq)]
pub struct Config {
    /// Where the timesheet document is stored.
    pub destination: Destination,
    /// Which columns the tables contain and how durations are rounded.
    pub format: RecordsFormat,
}

/// The path of the built-in default timesheet.
pub open spec fn default_path() -> Seq<char> {
    "./timesheet.markdown"@
}

impl Default for Config {
    /// The built-in configuration used when no values are configured: the
    /// timesheet lives in `./timesheet.markdown` and [`RECORD_FORMAT`] applies.
    fn default() -> (res: Self)
        ensures
            res.destination matches Destination::TextFile(p) && p@ == default_path(),
            res.format == default_format(),
    {
        Config {
            destination: Destination::TextFile("./timesheet.markdown".to_owned()),
            format: RECORD_FORMAT(),
        }
    }
}

/// The characters of an optional string.
pub open spec fn opt_view(s: Option<&str>) -> Option<Seq<char>> {
    match s {
        Some(t) => Some(t@),
        None => None,
    }
}

/// An optional value that counts only when it is not empty.
pub open spec fn non_empty(s: Option<Seq<char>>) -> Option<Seq<char>> {
    match s {
        Some(t) => if t.len() > 0 {
            Some(t)
        } else {
            None
        },
        None => None,
    }
}

// ---------------------------------------------------------------------
// The home directory
// ---------------------------------------------------------------------

/// `path` with a leading `~` or `~/` replaced by `home`.
pub open spec fn expanded(path: Seq<char>, home: Option<Seq<char>>) -> Seq<char> {
    match non_empty(home) {
        None => path,
        Some(h) => if path == seq!['~'] {
            h
        } else if starts_with(path, seq!['~', '/']) {
            h + seq!['/'] + path.skip(2)
        } else {
            path
        },
    }
}

/// `path` with a leading `home` replaced by `~`.
pub open spec fn collapsed(path: Seq<char>, home: Option<Seq<char>>) -> Seq<char> {
    match non_empty(home) {
        None => path,
        Some(h) => if path == h {
            seq!['~']
        } else if starts_with(path, h + seq!['/']) {
            seq!['~', '/'] + path.skip(h.len() as int + 1)
        } else {
            path
        },
    }
}

/// The characters of `path` with `~` expanded.
fn expand_tilde_chars(path: &[char], home: &Option<Vec<char>>) -> (res: Vec<char>)
    ensures
        res@ == expanded(
            path@,
            match home {
                Some(h) => Some(h@),
                None => None,
            },
        ),
{
    let h = match home {
        Some(h) => if h.len() > 0 {
            h
        } else {
            return sub_chars(path, 0, path.len());
        },
        None => return sub_chars(path, 0, path.len()),
    };
    if path.len() == 1 && path[0] == '~' {
        assert(path@ =~= seq!['~']);
        return sub_chars(h.as_slice(), 0, h.len());
    }
    let prefix: Vec<char> = vec!['~', '/'];
    assert(prefix@ =~= seq!['~', '/']);
    if starts_with_chars(path, prefix.as_slice()) {
        let mut res = sub_chars(h.as_slice(), 0, h.len());
        res.push('/');
        let rest = sub_chars(path, 2, path.len());
        push_chars(&mut res, rest.as_slice());
        assert(rest@ == path@.skip(2));
        res
    } else {
        proof {
            if path@ == seq!['~'] {
                assert(path@.len() == 1);
            }
        }
        sub_chars(path, 0, path.len())
    }
}

/// Expands a leading `~` or `~/` in `path` to the `home` directory.
///
/// Paths that do not start with `~`, and any path when `home` is missing or
/// empty, are returned unchanged.
pub fn expand_tilde(path: &str, home: Option<&str>) -> (res: String)
    ensures
        res@ == expanded(path@, opt_view(home)),
{
    let p = chars_of(path);
    let h = match home {
        Some(h) => Some(chars_of(h)),
        None => None,
    };
    let e = expand_tilde_chars(p.as_slice(), &h);
    string_of(e.as_slice())
}

/// Collapses a `home` prefix in `path` back to a leading `~`.
///
/// This is the inverse of [`expand_tilde`]: a path equal to `home` becomes `~`
/// and a path below `home` becomes `~/...`. Other paths, and any path when
/// `home` is missing or empty, are returned unchanged.
pub fn collapse_tilde(path: &str, home: Option<&str>) -> (res: String)
    ensures
        res@ == collapsed(path@, opt_view(home)),
{
    let p = chars_of(path);
    let h = match home {
        Some(h) => {
            if h.is_empty() {
                return string_of(p.as_slice());
            }
            chars_of(h)
        },
        None => return string_of(p.as_slice()),
    };
    if crate::text::chars_eq(p.as_slice(), h.as_slice()) {
        let mut t: Vec<char> = Vec::new();
        t.push('~');
        assert(t@ =~= seq!['~']);
        return string_of(t.as_slice());
    }
    let mut prefix = sub_chars(h.as_slice(), 0, h.len());
    prefix.push('/');
    assert(prefix@ =~= h@ + seq!['/']);
    if starts_with_chars(p.as_slice(), prefix.as_slice()) {
        let mut t: Vec<char> = Vec::new();
        t.push('~');
        t.push('/');
        let rest = sub_chars(p.as_slice(), prefix.len(), p.len());
        push_chars(&mut t, rest.as_slice());
        assert(t@ =~= seq!['~', '/'] + p@.skip(h@.len() as int + 1));
        string_of(t.as_slice())
    } else {
        string_of(p.as_slice())
    }
}

/// Collapsing undoes expanding: `collapse_tilde(expand_tilde(p, h), h) == p`,
/// for every path except one that does not start with `~` and that already
/// lies at or below `home` (those stay as they are when expanded, and are
/// then collapsed).
pub proof fn collapse_after_expand(path: Seq<char>, home: Option<Seq<char>>)
    requires
        non_empty(home) matches Some(h) ==> (path == seq!['~'] || starts_with(
            path,
            seq!['~', '/'],
        ) || !(path == h || starts_with(path, h + seq!['/']))),
    ensures
        collapsed(expanded(path, home), home) == path,
{
    if let Some(h) = non_empty(home) {
        if path == seq!['~'] {
        } else if starts_with(path, seq!['~', '/']) {
            let e = h + seq!['/'] + path.skip(2);
            assert(e != h);
            assert(e.take(h.len() as int + 1) =~= h + seq!['/']);
            assert(e.skip(h.len() as int + 1) =~= path.skip(2));
            assert(path =~= seq!['~', '/'] + path.skip(2));
        }
    }
}

/// Expanding undoes collapsing: `expand_tilde(collapse_tilde(p, h), h) == p`,
/// for every path except one that starts with `~` without lying at or below
/// `home` (such a path stays as it is when collapsed, and is then expanded).
pub proof fn expand_after_collapse(path: Seq<char>, home: Option<Seq<char>>)
    requires
        non_empty(home) matches Some(h) ==> (path == h || starts_with(path, h + seq!['/'])
            || !(path == seq!['~'] || starts_with(path, seq!['~', '/']))),
    ensures
        expanded(collapsed(path, home), home) == path,
{
    if let Some(h) = non_empty(home) {
        if path == h {
        } else if starts_with(path, h + seq!['/']) {
            let c = seq!['~', '/'] + path.skip(h.len() as int + 1);
            assert(c.len() >= 2);
            assert(c != seq!['~']);
            assert(c.take(2) =~= seq!['~', '/']);
            assert(c.skip(2) =~= path.skip(h.len() as int + 1));
            assert(path =~= h + seq!['/'] + path.skip(h.len() as int + 1));
        }
    }
}


// ---------------------------------------------------------------------
// The config file format
// ---------------------------------------------------------------------

/// The settings read so far from a config file (`None` for a key not yet
/// seen).
pub struct ConfigDraft {
    /// The timesheet path, with `~` already expanded.
    pub file_path: Option<Seq<char>>,
    /// The "Start Time" column flag.
    pub start_time: Option<bool>,
    /// The "End Time" column flag.
    pub end_time: Option<bool>,
    /// The "Duration" column flag.
    pub duration: Option<bool>,
    /// The duration rounding, in minutes.
    pub duration_rounding: Option<i32>,
}

/// No settings read yet.
pub open spec fn empty_draft() -> ConfigDraft {
    ConfigDraft {
        file_path: None,
        start_time: None,
        end_time: None,
        duration: None,
        duration_rounding: None,
    }
}

/// `Line {n}: `, the start of every error about a line.
pub open spec fn line_prefix(n: nat) -> Seq<char> {
    "Line "@ + nat_text(n) + ": "@
}

/// The error for a line without `=`.
pub open spec fn no_equals_error(n: nat, raw: Seq<char>) -> Seq<char> {
    line_prefix(n) + "expected 'key = value', got '"@ + raw + "'"@
}

/// The error for a flag that is neither `true` nor `false`.
pub open spec fn bool_error(n: nat, key: Seq<char>, value: Seq<char>) -> Seq<char> {
    line_prefix(n) + "'"@ + key + "' must be 'true' or 'false', got '"@ + value + "'"@
}

/// The error for a rounding that is not an integer.
pub open spec fn integer_error(n: nat, key: Seq<char>, value: Seq<char>) -> Seq<char> {
    line_prefix(n) + "'"@ + key + "' must be an integer, got '"@ + value + "'"@
}

/// The error for a rounding that is zero or negative.
pub open spec fn positive_error(n: nat, key: Seq<char>, parsed: int) -> Seq<char> {
    line_prefix(n) + "'"@ + key + "' must be positive, got "@ + int_text(parsed)
}

/// The error for a key the format does not know.
pub open spec fn unknown_key_error(n: nat, key: Seq<char>) -> Seq<char> {
    line_prefix(n) + "unknown key '"@ + key + "'"@
}

/// A flag value: `true` or `false`, else the error naming the key and line.
pub open spec fn bool_value(key: Seq<char>, value: Seq<char>, n: nat) -> Result<bool, Seq<char>> {
    if value == "true"@ {
        Ok(true)
    } else if value == "false"@ {
        Ok(false)
    } else {
        Err(bool_error(n, key, value))
    }
}

/// Whether a trimmed line is blank or a comment.
pub open spec fn is_ignored(line: Seq<char>) -> bool {
    line.len() == 0 || line[0] == '#'
}

/// The settings after reading line number `n` (`raw`) on top of `d`.
pub open spec fn config_line(
    d: ConfigDraft,
    n: nat,
    raw: Seq<char>,
    home: Option<Seq<char>>,
) -> Result<ConfigDraft, Seq<char>> {
    let line = trim(raw);
    if is_ignored(line) {
        Ok(d)
    } else {
        match split_once(line, "="@) {
            None => Err(no_equals_error(n, raw)),
            Some((k, v)) => {
                let key = trim(k);
                let value = trim(v);
                if key == "file_path"@ {
                    Ok(ConfigDraft { file_path: Some(expanded(value, home)), ..d })
                } else if key == "start_time"@ {
                    match bool_value(key, value, n) {
                        Ok(b) => Ok(ConfigDraft { start_time: Some(b), ..d }),
                        Err(e) => Err(e),
                    }
                } else if key == "end_time"@ {
                    match bool_value(key, value, n) {
                        Ok(b) => Ok(ConfigDraft { end_time: Some(b), ..d }),
                        Err(e) => Err(e),
                    }
                } else if key == "duration"@ {
                    match bool_value(key, value, n) {
                        Ok(b) => Ok(ConfigDraft { duration: Some(b), ..d }),
                        Err(e) => Err(e),
                    }
                } else if key == "duration_rounding"@ {
                    match parse_i32(value) {
                        None => Err(integer_error(n, key, value)),
                        Some(r) => if r <= 0 {
                            Err(positive_error(n, key, r as int))
                        } else {
                            Ok(ConfigDraft { duration_rounding: Some(r), ..d })
                        },
                    }
                } else {
                    Err(unknown_key_error(n, key))
                }
            },
        }
    }
}

/// The settings after reading the first `k` lines, or the first error.
pub open spec fn config_prefix(ls: Seq<Seq<char>>, k: nat, home: Option<Seq<char>>) -> Result<
    ConfigDraft,
    Seq<char>,
>
    decreases k,
{
    if k == 0 {
        Ok(empty_draft())
    } else {
        match config_prefix(ls, (k - 1) as nat, home) {
            Ok(d) => config_line(d, k, ls[k - 1], home),
            Err(e) => Err(e),
        }
    }
}

/// Once reading fails, later lines do not change the error.
pub proof fn lemma_config_prefix_err(ls: Seq<Seq<char>>, k: nat, m: nat, home: Option<Seq<char>>)
    requires
        k <= m,
        config_prefix(ls, k, home) is Err,
    ensures
        config_prefix(ls, m, home) == config_prefix(ls, k, home),
    decreases m - k,
{
    if k < m {
        lemma_config_prefix_err(ls, k, (m - 1) as nat, home);
    }
}

/// The configuration from complete settings, or the error for the first
/// missing one.
pub open spec fn finish_draft(d: ConfigDraft) -> Result<(Seq<char>, RecordsFormat), Seq<char>> {
    match d.file_path {
        None => Err("Missing 'file_path' setting."@),
        Some(p) => match d.start_time {
            None => Err("Missing 'start_time' setting."@),
            Some(st) => match d.end_time {
                None => Err("Missing 'end_time' setting."@),
                Some(et) => match d.duration {
                    None => Err("Missing 'duration' setting."@),
                    Some(du) => match d.duration_rounding {
                        None => Err("Missing 'duration_rounding' setting."@),
                        Some(r) => Ok(
                            (
                                p,
                                RecordsFormat {
                                    start_time: st,
                                    end_time: et,
                                    duration: du,
                                    duration_rounding: r,
                                },
                            ),
                        ),
                    },
                },
            },
        },
    }
}

/// What a config file says: its timesheet path and format, or the error.
pub open spec fn config_of(contents: Seq<char>, home: Option<Seq<char>>) -> Result<
    (Seq<char>, RecordsFormat),
    Seq<char>,
> {
    let ls = lines(contents);
    match config_prefix(ls, ls.len(), home) {
        Ok(d) => finish_draft(d),
        Err(e) => Err(e),
    }
}

/// Whether `c` is a configuration that stores its timesheet at `path` with
/// format `f`.
pub open spec fn config_is(c: Config, path: Seq<char>, f: RecordsFormat) -> bool {
    c.destination matches Destination::TextFile(p) && p@ == path && c.format == f
}

/// `Line {n}: ` as characters.
fn line_prefix_exec(n: usize) -> (res: Vec<char>)
    ensures
        res@ == line_prefix(n as nat),
{
    let mut v: Vec<char> = Vec::new();
    push_str(&mut v, "Line ");
    let t = nat_text_exec(n as u64);
    push_chars(&mut v, t.as_slice());
    push_str(&mut v, ": ");
    v
}

/// A flag value: `true` or `false`, else the error naming the key and line.
fn bool_value_exec(key: &[char], value: &[char], n: usize) -> (res: Result<bool, Vec<char>>)
    ensures
        match bool_value(key@, value@, n as nat) {
            Ok(b) => res == Ok::<bool, Vec<char>>(b),
            Err(e) => res matches Err(m) && m@ == e,
        },
{
    if chars_eq_str(value, "true") {
        Ok(true)
    } else if chars_eq_str(value, "false") {
        Ok(false)
    } else {
        let mut m = line_prefix_exec(n);
        push_str(&mut m, "'");
        push_chars(&mut m, key);
        push_str(&mut m, "' must be 'true' or 'false', got '");
        push_chars(&mut m, value);
        push_str(&mut m, "'");
        Err(m)
    }
}

/// Parses a boolean config value, naming the key and line on failure.
pub fn parse_bool(key: &str, value: &str, line_number: usize) -> (res: Result<bool, String>)
    ensures
        match bool_value(key@, value@, line_number as nat) {
            Ok(b) => res == Ok::<bool, String>(b),
            Err(e) => res matches Err(m) && m@ == e,
        },
{
    let k = chars_of(key);
    let v = chars_of(value);
    match bool_value_exec(k.as_slice(), v.as_slice(), line_number) {
        Ok(b) => Ok(b),
        Err(m) => Err(string_of(m.as_slice())),
    }
}

/// The settings read so far, as held while parsing.
struct Settings {
    file_path: Option<Vec<char>>,
    start_time: Option<bool>,
    end_time: Option<bool>,
    duration: Option<bool>,
    duration_rounding: Option<i32>,
}

impl Settings {
    /// The settings as a draft.
    spec fn draft(&self) -> ConfigDraft {
        ConfigDraft {
            file_path: match self.file_path {
                Some(p) => Some(p@),
                None => None,
            },
            start_time: self.start_time,
            end_time: self.end_time,
            duration: self.duration,
            duration_rounding: self.duration_rounding,
        }
    }
}

/// The characters of an optional character vector.
spec fn opt_chars(h: Option<Vec<char>>) -> Option<Seq<char>> {
    match h {
        Some(v) => Some(v@),
        None => None,
    }
}

/// Reads line number `n` (`raw`) of a config file into `s`.
fn read_config_line(s: &mut Settings, n: usize, raw: &[char], home: &Option<Vec<char>>) -> (res:
    Result<(), Vec<char>>)
    ensures
        match config_line(old(s).draft(), n as nat, raw@, opt_chars(*home)) {
            Ok(d) => res is Ok && final(s).draft() == d,
            Err(e) => res matches Err(m) && m@ == e,
        },
{
    let line = trim_chars(raw);
    if line.len() == 0 || line[0] == '#' {
        return Ok(());
    }
    let eq: Vec<char> = chars_of("=");
    let (k, v) = match split_once_chars(line.as_slice(), eq.as_slice()) {
        Some(kv) => kv,
        None => {
            let mut m = line_prefix_exec(n);
            push_str(&mut m, "expected 'key = value', got '");
            push_chars(&mut m, raw);
            push_str(&mut m, "'");
            return Err(m);
        },
    };
    let key = trim_chars(k.as_slice());
    let value = trim_chars(v.as_slice());
    if chars_eq_str(key.as_slice(), "file_path") {
        s.file_path = Some(expand_tilde_chars(value.as_slice(), home));
        Ok(())
    } else if chars_eq_str(key.as_slice(), "start_time") {
        let b = bool_value_exec(key.as_slice(), value.as_slice(), n)?;
        s.start_time = Some(b);
        Ok(())
    } else if chars_eq_str(key.as_slice(), "end_time") {
        let b = bool_value_exec(key.as_slice(), value.as_slice(), n)?;
        s.end_time = Some(b);
        Ok(())
    } else if chars_eq_str(key.as_slice(), "duration") {
        let b = bool_value_exec(key.as_slice(), value.as_slice(), n)?;
        s.duration = Some(b);
        Ok(())
    } else if chars_eq_str(key.as_slice(), "duration_rounding") {
        match parse_i32_exec(value.as_slice()) {
            None => {
                let mut m = line_prefix_exec(n);
                push_str(&mut m, "'");
                push_chars(&mut m, key.as_slice());
                push_str(&mut m, "' must be an integer, got '");
                push_chars(&mut m, value.as_slice());
                push_str(&mut m, "'");
                Err(m)
            },
            Some(r) => {
                if r <= 0 {
                    let mut m = line_prefix_exec(n);
                    push_str(&mut m, "'");
                    push_chars(&mut m, key.as_slice());
                    push_str(&mut m, "' must be positive, got ");
                    let t = int_text_exec(r as i64);
                    push_chars(&mut m, t.as_slice());
                    return Err(m);
                }
                s.duration_rounding = Some(r);
                Ok(())
            },
        }
    } else {
        let mut m = line_prefix_exec(n);
        push_str(&mut m, "unknown key '");
        push_chars(&mut m, key.as_slice());
        push_str(&mut m, "'");
        Err(m)
    }
}

/// Parses the contents of a `key = value` configuration file.
///
/// Blank lines and lines starting with `#` are ignored. Every supported key is
/// required; unknown keys and malformed or missing values produce a descriptive
/// error rather than falling back to defaults. A leading `~/` in `file_path` is
/// expanded to `home` (see [`expand_tilde`]).
pub fn parse_config(contents: &str, home: Option<&str>) -> (res: Result<Config, String>)
    ensures
        match config_of(contents@, opt_view(home)) {
            Ok((path, f)) => res matches Ok(c) && config_is(c, path, f),
            Err(e) => res matches Err(m) && m@ == e,
        },
{
    let home_chars = match home {
        Some(h) => Some(chars_of(h)),
        None => None,
    };
    let ghost hv = opt_view(home);
    assert(opt_chars(home_chars) == hv);
    let cs = chars_of(contents);
    let ls = split_lines(cs.as_slice());
    let ghost lv = seq_views(ls@);
    let n = ls.len();
    let mut s = Settings {
        file_path: None,
        start_time: None,
        end_time: None,
        duration: None,
        duration_rounding: None,
    };
    for i in 0..n
        invariant
            n == ls@.len(),
            lv == seq_views(ls@),
            lv == lines(contents@),
            opt_chars(home_chars) == hv,
            hv == opt_view(home),
            config_prefix(lv, i as nat, hv) == Ok::<ConfigDraft, Seq<char>>(s.draft()),
    {
        assert(lv[i as int] == ls@[i as int]@);
        match read_config_line(&mut s, i + 1, ls[i].as_slice(), &home_chars) {
            Ok(()) => {},
            Err(m) => {
                proof {
                    assert(config_prefix(lv, (i + 1) as nat, hv) == Err::<ConfigDraft, Seq<char>>(
                        m@,
                    ));
                    lemma_config_prefix_err(lv, (i + 1) as nat, lv.len(), hv);
                }
                return Err(string_of(m.as_slice()));
            },
        }
    }
    assert(config_prefix(lv, lv.len(), hv) == Ok::<ConfigDraft, Seq<char>>(s.draft()));
    let file_path = match s.file_path {
        Some(p) => p,
        None => return Err("Missing 'file_path' setting.".to_owned()),
    };
    let start_time = match s.start_time {
        Some(b) => b,
        None => return Err("Missing 'start_time' setting.".to_owned()),
    };
    let end_time = match s.end_time {
        Some(b) => b,
        None => return Err("Missing 'end_time' setting.".to_owned()),
    };
    let duration = match s.duration {
        Some(b) => b,
        None => return Err("Missing 'duration' setting.".to_owned()),
    };
    let duration_rounding = match s.duration_rounding {
        Some(r) => r,
        None => return Err("Missing 'duration_rounding' setting.".to_owned()),
    };
    Ok(
        Config {
            destination: Destination::TextFile(string_of(file_path.as_slice())),
            format: RecordsFormat { start_time, end_time, duration, duration_rounding },
        },
    )
}


// ---------------------------------------------------------------------
// Writing a config file
// ---------------------------------------------------------------------

/// `true` or `false`.
pub open spec fn bool_text(b: bool) -> Seq<char> {
    if b {
        "true"@
    } else {
        "false"@
    }
}

/// The lines of the config file for timesheet `path` and format `f`.
pub open spec fn config_lines(path: Seq<char>, f: RecordsFormat) -> Seq<Seq<char>> {
    seq![
        "# md_timesheet configuration."@,
        "# Path to the timesheet markdown file (~/ expands to your home directory)."@,
        "file_path = "@ + path,
        Seq::<char>::empty(),
        "# Which table columns to include."@,
        "start_time = "@ + bool_text(f.start_time),
        "end_time = "@ + bool_text(f.end_time),
        "duration = "@ + bool_text(f.duration),
        Seq::<char>::empty(),
        "# Round durations up to the next multiple of this many minutes."@,
        "duration_rounding = "@ + int_text(f.duration_rounding as int),
    ]
}

/// The config file for timesheet `path` and format `f`.
pub open spec fn config_text(path: Seq<char>, f: RecordsFormat) -> Seq<char> {
    unlines(config_lines(path, f))
}

/// `true` or `false` as a string.
fn bool_string(b: bool) -> (res: String)
    ensures
        res@ == bool_text(b),
{
    if b {
        "true".to_owned()
    } else {
        "false".to_owned()
    }
}

/// A string made of two parts.
fn concat2(a: &str, b: &str) -> (res: String)
    ensures
        res@ == a@ + b@,
{
    let mut v = chars_of(a);
    push_str(&mut v, b);
    string_of(v.as_slice())
}

/// The config file text for timesheet `path` and format `f`.
fn config_text_exec(path: &str, format: &RecordsFormat) -> (res: String)
    ensures
        res@ == config_text(path@, *format),
{
    let mut ls: Vec<String> = Vec::new();
    ls.push("# md_timesheet configuration.".to_owned());
    ls.push(
        "# Path to the timesheet markdown file (~/ expands to your home directory).".to_owned(),
    );
    ls.push(concat2("file_path = ", path));
    ls.push(String::new());
    ls.push("# Which table columns to include.".to_owned());
    ls.push(concat2("start_time = ", bool_string(format.start_time).as_str()));
    ls.push(concat2("end_time = ", bool_string(format.end_time).as_str()));
    ls.push(concat2("duration = ", bool_string(format.duration).as_str()));
    ls.push(String::new());
    ls.push("# Round durations up to the next multiple of this many minutes.".to_owned());
    let r = string_of(int_text_exec(format.duration_rounding as i64).as_slice());
    ls.push(concat2("duration_rounding = ", r.as_str()));
    assert(string_views(ls@) =~= config_lines(path@, *format));
    join_lines(ls.as_slice())
}

/// Serialises a configuration to the `key = value` text format.
///
/// This is the inverse of [`parse_config`], so `parse_config(&serialize_config(c))`
/// yields `c`. Only a [`Destination::TextFile`] can be represented; a Joplin
/// destination is rejected because Joplin support is not implemented.
pub fn serialize_config(config: &Config) -> (res: Result<String, String>)
    ensures
        match config.destination {
            Destination::TextFile(p) => res matches Ok(t) && t@ == config_text(p@, config.format),
            Destination::JoplinNote(_) => res matches Err(m) && m@
                == "Cannot serialise a Joplin destination to a config file."@,
        },
{
    match &config.destination {
        Destination::TextFile(path) => Ok(config_text_exec(path.as_str(), &config.format)),
        Destination::JoplinNote(_) => Err(
            "Cannot serialise a Joplin destination to a config file.".to_owned(),
        ),
    }
}

/// Returns the default configuration serialised to the config file format.
pub fn default_config_contents() -> (res: String)
    ensures
        res@ == config_text(default_path(), default_format()),
{
    let config = Config::default();
    serialize_config(&config).expect("the default config is always serialisable")
}

// ---------------------------------------------------------------------
// Reading back what was written
// ---------------------------------------------------------------------

/// A line beginning with `#` and not ending in whitespace is a comment.
proof fn lemma_comment_line(l: Seq<char>)
    requires
        l.len() > 0,
        l[0] == '#',
        !is_ws(l.last()),
    ensures
        is_ignored(trim(l)),
{
    crate::text::lemma_trim_fixed(l);
}

/// The line `key = value` reads as the setting `key` with `value`.
proof fn lemma_setting_line(key: Seq<char>, value: Seq<char>)
    requires
        key.len() > 0,
        key[0] != '#',
        !is_ws(key[0]),
        !is_ws(key.last()),
        forall|j: int| 0 <= j < key.len() ==> key[j] != '=',
        value.len() > 0 ==> !is_ws(value[0]) && !is_ws(value.last()),
    ensures
        !is_ignored(trim(key + seq![' ', '=', ' '] + value)),
        split_once(trim(key + seq![' ', '=', ' '] + value), "="@) matches Some((k, v)) && trim(k)
            == key && trim(v) == value,
{
    reveal_strlit("=");
    assert("="@ =~= seq!['=']);
    let s = key + seq![' ', '=', ' '] + value;
    let tail = if value.len() == 0 {
        Seq::<char>::empty()
    } else {
        seq![' '] + value
    };
    let t = key + seq![' ', '='] + tail;
    if value.len() == 0 {
        assert(s =~= (key + seq![' ', '=']) + seq![' ']);
        assert((key + seq![' ', '='])[0] == key[0]);
        crate::text::lemma_trim_pad(Seq::<char>::empty(), key + seq![' ', '='], seq![' ']);
        assert(Seq::<char>::empty() + (key + seq![' ', '=']) + seq![' '] =~= s);
        assert(t =~= key + seq![' ', '=']);
    } else {
        assert(s =~= t);
        assert(s[0] == key[0]);
        assert(s.last() == value.last());
        crate::text::lemma_trim_fixed(s);
    }
    assert(trim(s) == t);
    let k = key.len() as int;
    assert(t[0] == key[0]);
    assert(t.subrange(k + 1, k + 2) =~= seq!['=']);
    assert forall|j: int| 0 <= j < k + 1 implies !crate::text::occurs_at(t, seq!['='], j) by {
        if j < k {
            assert(t[j] == key[j]);
        } else {
            assert(t[j] == ' ');
        }
        assert(t.subrange(j, j + 1)[0] == t[j]);
    }
    crate::text::lemma_find_from_is(t, seq!['='], 0, k + 1);
    assert(t.take(k + 1) =~= key + seq![' ']);
    assert(t.skip(k + 2) =~= tail);
    crate::text::lemma_trim_pad(Seq::<char>::empty(), key, seq![' ']);
    assert(Seq::<char>::empty() + key + seq![' '] =~= key + seq![' ']);
    if value.len() > 0 {
        crate::text::lemma_trim_pad(seq![' '], value, Seq::<char>::empty());
        assert(seq![' '] + value + Seq::<char>::empty() =~= tail);
    } else {
        assert(trim(tail) =~= Seq::<char>::empty());
    }
}

/// The literals of the config file format, spelled out.
proof fn lemma_config_literals()
    ensures
        "file_path = "@ == "file_path"@ + seq![' ', '=', ' '],
        "start_time = "@ == "start_time"@ + seq![' ', '=', ' '],
        "end_time = "@ == "end_time"@ + seq![' ', '=', ' '],
        "duration = "@ == "duration"@ + seq![' ', '=', ' '],
        "duration_rounding = "@ == "duration_rounding"@ + seq![' ', '=', ' '],
        "file_path"@ != "start_time"@,
        "file_path"@ != "end_time"@,
        "file_path"@ != "duration"@,
        "file_path"@ != "duration_rounding"@,
        "start_time"@ != "end_time"@,
        "start_time"@ != "duration"@,
        "start_time"@ != "duration_rounding"@,
        "end_time"@ != "duration"@,
        "end_time"@ != "duration_rounding"@,
        "duration"@ != "duration_rounding"@,
        "true"@ != "false"@,
{
    reveal_strlit("file_path = ");
    reveal_strlit("start_time = ");
    reveal_strlit("end_time = ");
    reveal_strlit("duration = ");
    reveal_strlit("duration_rounding = ");
    reveal_strlit("file_path");
    reveal_strlit("start_time");
    reveal_strlit("end_time");
    reveal_strlit("duration");
    reveal_strlit("duration_rounding");
    reveal_strlit("true");
    reveal_strlit("false");
    assert("file_path = "@ =~= "file_path"@ + seq![' ', '=', ' ']);
    assert("start_time = "@ =~= "start_time"@ + seq![' ', '=', ' ']);
    assert("end_time = "@ =~= "end_time"@ + seq![' ', '=', ' ']);
    assert("duration = "@ =~= "duration"@ + seq![' ', '=', ' ']);
    assert("duration_rounding = "@ =~= "duration_rounding"@ + seq![' ', '=', ' ']);
    assert("end_time"@[0] != "duration"@[0]);
    assert("true"@.len() == 4);
    assert("false"@.len() == 5);
}

/// Every setting key is a valid left-hand side: it does not start or end
/// with whitespace or `#`, and holds no `=`.
proof fn lemma_key(key: &str)
    requires
        key@ == "file_path"@ || key@ == "start_time"@ || key@ == "end_time"@ || key@
            == "duration"@ || key@ == "duration_rounding"@,
    ensures
        key@.len() > 0,
        key@[0] != '#',
        !is_ws(key@[0]),
        !is_ws(key@.last()),
        forall|j: int| 0 <= j < key@.len() ==> key@[j] != '=' && key@[j] != '\n',
{
    reveal_strlit("file_path");
    reveal_strlit("start_time");
    reveal_strlit("end_time");
    reveal_strlit("duration");
    reveal_strlit("duration_rounding");
}


/// The comment lines of the config file format begin with `#`, end in `.`
/// and hold no line ending.
proof fn lemma_comment_literals()
    ensures
        is_comment_literal("# md_timesheet configuration."@),
        is_comment_literal(
            "# Path to the timesheet markdown file (~/ expands to your home directory)."@,
        ),
        is_comment_literal("# Which table columns to include."@),
        is_comment_literal("# Round durations up to the next multiple of this many minutes."@),
{
    reveal_strlit("# md_timesheet configuration.");
    reveal_strlit("# Path to the timesheet markdown file (~/ expands to your home directory).");
    reveal_strlit("# Which table columns to include.");
    reveal_strlit("# Round durations up to the next multiple of this many minutes.");
}

/// A comment line: `#`, no line ending, and a final `.`.
spec fn is_comment_literal(l: Seq<char>) -> bool {
    &&& l.len() > 0
    &&& l[0] == '#'
    &&& l.last() == '.'
    &&& forall|j: int| 0 <= j < l.len() ==> l[j] != '\n'
}

/// A line made of two parts with no line ending, whose end is not `\r`.
proof fn lemma_joined_line(a: Seq<char>, b: Seq<char>)
    requires
        forall|j: int| 0 <= j < a.len() ==> a[j] != '\n',
        forall|j: int| 0 <= j < b.len() ==> b[j] != '\n',
        b.len() > 0 ==> b.last() != '\r',
        b.len() == 0 ==> a.len() > 0 && a.last() != '\r',
    ensures
        forall|j: int| 0 <= j < (a + b).len() ==> #[trigger] (a + b)[j] != '\n',
        crate::text::strip_cr(a + b) == a + b,
{
    assert forall|j: int| 0 <= j < (a + b).len() implies #[trigger] (a + b)[j] != '\n' by {
        if j < a.len() {
            assert((a + b)[j] == a[j]);
        } else {
            assert((a + b)[j] == b[j - a.len()]);
        }
    }
    if b.len() > 0 {
        assert((a + b).last() == b.last());
    } else {
        assert(a + b =~= a);
    }
}

/// A key followed by ` = ` holds no line ending.
proof fn lemma_key_prefix(key: Seq<char>)
    requires
        forall|j: int| 0 <= j < key.len() ==> key[j] != '\n',
    ensures
        forall|j: int|
            0 <= j < (key + seq![' ', '=', ' ']).len() ==> (key + seq![' ', '=', ' '])[j] != '\n',
        (key + seq![' ', '=', ' ']).len() > 0,
        (key + seq![' ', '=', ' ']).last() == ' ',
{
    let t = key + seq![' ', '=', ' '];
    assert forall|j: int| 0 <= j < t.len() implies t[j] != '\n' by {
        if j < key.len() {
            assert(t[j] == key[j]);
        }
    }
}

/// The lines of a written config file are the lines that were written.
proof fn lemma_config_text_lines(path: Seq<char>, f: RecordsFormat)
    requires
        forall|j: int| 0 <= j < path.len() ==> path[j] != '\n',
        path.len() > 0 ==> !is_ws(path.last()),
    ensures
        lines(config_text(path, f)) == config_lines(path, f),
{
    let ls = config_lines(path, f);
    lemma_comment_literals();
    lemma_config_literals();
    lemma_key("file_path");
    lemma_key("start_time");
    lemma_key("end_time");
    lemma_key("duration");
    lemma_key("duration_rounding");
    reveal_strlit("true");
    reveal_strlit("false");
    crate::text::lemma_parse_int_text(f.duration_rounding);
    let rt = int_text(f.duration_rounding as int);
    lemma_key_prefix("file_path"@);
    lemma_key_prefix("start_time"@);
    lemma_key_prefix("end_time"@);
    lemma_key_prefix("duration"@);
    lemma_key_prefix("duration_rounding"@);
    lemma_joined_line("file_path = "@, path);
    lemma_joined_line("start_time = "@, bool_text(f.start_time));
    lemma_joined_line("end_time = "@, bool_text(f.end_time));
    lemma_joined_line("duration = "@, bool_text(f.duration));
    lemma_joined_line("duration_rounding = "@, rt);
    assert forall|k: int, j: int| 0 <= k < ls.len() && 0 <= j < ls[k].len() implies #[trigger] ls[k][j] != '\n' by {
        if k == 0 || k == 1 || k == 4 || k == 9 {
            assert(is_comment_literal(ls[k]));
        }
    }
    assert forall|k: int| 0 <= k < ls.len() implies crate::text::strip_cr(#[trigger] ls[k]) == ls[k] by {
        if k == 0 || k == 1 || k == 4 || k == 9 {
            assert(is_comment_literal(ls[k]));
        }
    }
    crate::text::lemma_lines_unlines(ls);
}

/// Reading the lines of a written config file sets every setting to the
/// value written.
proof fn lemma_config_lines_read(path: Seq<char>, f: RecordsFormat, home: Option<Seq<char>>)
    requires
        path.len() > 0 ==> !is_ws(path[0]) && !is_ws(path.last()),
        expanded(path, home) == path,
        f.duration_rounding > 0,
    ensures
        config_prefix(config_lines(path, f), 11, home) == Ok::<ConfigDraft, Seq<char>>(
            ConfigDraft {
                file_path: Some(path),
                start_time: Some(f.start_time),
                end_time: Some(f.end_time),
                duration: Some(f.duration),
                duration_rounding: Some(f.duration_rounding),
            },
        ),
{
    let ls = config_lines(path, f);
    lemma_comment_literals();
    lemma_config_literals();
    lemma_key("file_path");
    lemma_key("start_time");
    lemma_key("end_time");
    lemma_key("duration");
    lemma_key("duration_rounding");
    reveal_strlit("true");
    reveal_strlit("false");
    crate::text::lemma_parse_int_text(f.duration_rounding);
    let rt = int_text(f.duration_rounding as int);
    let d0 = empty_draft();
    assert(config_prefix(ls, 0, home) == Ok::<ConfigDraft, Seq<char>>(d0));
    lemma_comment_line(ls[0]);
    assert(config_prefix(ls, 1, home) == Ok::<ConfigDraft, Seq<char>>(d0));
    lemma_comment_line(ls[1]);
    assert(config_prefix(ls, 2, home) == Ok::<ConfigDraft, Seq<char>>(d0));
    lemma_setting_line("file_path"@, path);
    let d1 = ConfigDraft { file_path: Some(path), ..d0 };
    assert(config_prefix(ls, 3, home) == Ok::<ConfigDraft, Seq<char>>(d1));
    assert(trim(ls[3]) =~= Seq::<char>::empty());
    assert(config_prefix(ls, 4, home) == Ok::<ConfigDraft, Seq<char>>(d1));
    lemma_comment_line(ls[4]);
    assert(config_prefix(ls, 5, home) == Ok::<ConfigDraft, Seq<char>>(d1));
    lemma_setting_line("start_time"@, bool_text(f.start_time));
    let d2 = ConfigDraft { start_time: Some(f.start_time), ..d1 };
    assert(config_prefix(ls, 6, home) == Ok::<ConfigDraft, Seq<char>>(d2));
    lemma_setting_line("end_time"@, bool_text(f.end_time));
    let d3 = ConfigDraft { end_time: Some(f.end_time), ..d2 };
    assert(config_prefix(ls, 7, home) == Ok::<ConfigDraft, Seq<char>>(d3));
    lemma_setting_line("duration"@, bool_text(f.duration));
    let d4 = ConfigDraft { duration: Some(f.duration), ..d3 };
    assert(config_prefix(ls, 8, home) == Ok::<ConfigDraft, Seq<char>>(d4));
    assert(trim(ls[8]) =~= Seq::<char>::empty());
    assert(config_prefix(ls, 9, home) == Ok::<ConfigDraft, Seq<char>>(d4));
    lemma_comment_line(ls[9]);
    assert(config_prefix(ls, 10, home) == Ok::<ConfigDraft, Seq<char>>(d4));
    lemma_setting_line("duration_rounding"@, rt);
}

/// Reading back a written config file gives the configuration that was
/// written: `parse_config(serialize_config(c))` is `c`, for a timesheet path
/// that holds no line ending, does not begin or end with whitespace, and is
/// not changed by `~` expansion, and a positive duration rounding. (Other
/// paths are read back trimmed, cut at the line ending, or expanded; a
/// rounding that is not positive is refused.)
pub proof fn parse_after_serialize(path: Seq<char>, f: RecordsFormat, home: Option<Seq<char>>)
    requires
        forall|j: int| 0 <= j < path.len() ==> path[j] != '\n',
        path.len() > 0 ==> !is_ws(path[0]) && !is_ws(path.last()),
        expanded(path, home) == path,
        f.duration_rounding > 0,
    ensures
        config_of(config_text(path, f), home) == Ok::<(Seq<char>, RecordsFormat), Seq<char>>(
            (path, f),
        ),
{
    lemma_config_text_lines(path, f);
    lemma_config_lines_read(path, f, home);
    assert(config_lines(path, f).len() == 11);
}


// ---------------------------------------------------------------------
// Config file locations
// ---------------------------------------------------------------------

/// `base` joined with the relative name `name` (`Path::join`): a `/` goes
/// between them unless `base` is empty or already ends with one.
pub open spec fn join_path(base: Seq<char>, name: Seq<char>) -> Seq<char> {
    if base.len() == 0 {
        name
    } else if base.last() == '/' {
        base + name
    } else {
        base + seq!['/'] + name
    }
}

/// `base` joined with the relative name `name`.
fn join_path_exec(base: &[char], name: &str) -> (res: Vec<char>)
    ensures
        res@ == join_path(base@, name@),
{
    if base.len() == 0 {
        return chars_of(name);
    }
    let mut v = sub_chars(base, 0, base.len());
    if base[base.len() - 1] != '/' {
        v.push('/');
    }
    push_str(&mut v, name);
    v
}

/// The `md_timesheet` directory inside the XDG config directory, or the
/// error when neither variable is set.
pub open spec fn config_dir_of(xdg: Option<Seq<char>>, home: Option<Seq<char>>) -> Result<
    Seq<char>,
    Seq<char>,
> {
    match non_empty(xdg) {
        Some(x) => Ok(join_path(x, "md_timesheet"@)),
        None => match non_empty(home) {
            Some(h) => Ok(join_path(join_path(h, ".config"@), "md_timesheet"@)),
            None => Err("Neither $XDG_CONFIG_HOME nor $HOME is set."@),
        },
    }
}

/// The config file inside the XDG config directory.
pub open spec fn config_file_of(xdg: Option<Seq<char>>, home: Option<Seq<char>>) -> Result<
    Seq<char>,
    Seq<char>,
> {
    match config_dir_of(xdg, home) {
        Ok(d) => Ok(join_path(d, "config"@)),
        Err(e) => Err(e),
    }
}

/// The config file in the folder `cwd`.
pub open spec fn cwd_config_of(cwd: Seq<char>) -> Seq<char> {
    join_path(cwd, "md_timesheet.config"@)
}

/// The characters of a `Result` of strings.
pub open spec fn result_chars(r: Result<String, String>) -> Result<Seq<char>, Seq<char>> {
    match r {
        Ok(t) => Ok(t@),
        Err(e) => Err(e@),
    }
}

/// Returns the `md_timesheet` directory inside the XDG config directory.
///
/// Uses `$XDG_CONFIG_HOME` when set and non-empty, otherwise `$HOME/.config`.
/// Returns an error when neither is available.
pub fn xdg_config_dir(xdg_config_home: Option<&str>, home: Option<&str>) -> (res: Result<
    String,
    String,
>)
    ensures
        result_chars(res) == config_dir_of(opt_view(xdg_config_home), opt_view(home)),
{
    if let Some(xdg) = xdg_config_home {
        if !xdg.is_empty() {
            let x = chars_of(xdg);
            return Ok(string_of(join_path_exec(x.as_slice(), "md_timesheet").as_slice()));
        }
    }
    if let Some(h) = home {
        if !h.is_empty() {
            let hc = chars_of(h);
            let c = join_path_exec(hc.as_slice(), ".config");
            return Ok(string_of(join_path_exec(c.as_slice(), "md_timesheet").as_slice()));
        }
    }
    Err("Neither $XDG_CONFIG_HOME nor $HOME is set.".to_owned())
}

/// Returns the canonical config file path inside the XDG config directory.
pub fn canonical_config_path(xdg_config_home: Option<&str>, home: Option<&str>) -> (res: Result<
    String,
    String,
>)
    ensures
        result_chars(res) == config_file_of(opt_view(xdg_config_home), opt_view(home)),
{
    let dir = xdg_config_dir(xdg_config_home, home)?;
    let d = chars_of(dir.as_str());
    Ok(string_of(join_path_exec(d.as_slice(), "config").as_slice()))
}

/// Returns the config file path inside the current folder.
pub fn cwd_config_path(cwd: &str) -> (res: String)
    ensures
        res@ == cwd_config_of(cwd@),
{
    let c = chars_of(cwd);
    string_of(join_path_exec(c.as_slice(), "md_timesheet.config").as_slice())
}

// ---------------------------------------------------------------------
// Pointer files
// ---------------------------------------------------------------------

/// The target a single line of a pointer file names, if it names one.
pub open spec fn pointer_line(raw: Seq<char>) -> Option<Seq<char>> {
    let line = trim(raw);
    if is_ignored(line) {
        None
    } else {
        match split_once(line, "="@) {
            Some((k, v)) => if trim(k) == "config_path"@ && trim(v).len() > 0 {
                Some(trim(v))
            } else {
                None
            },
            None => None,
        }
    }
}

/// The target named by the first line of `ls` that names one.
pub open spec fn pointer_in(ls: Seq<Seq<char>>) -> Option<Seq<char>>
    decreases ls.len(),
{
    if ls.len() == 0 {
        None
    } else {
        match pointer_line(ls[0]) {
            Some(t) => Some(t),
            None => pointer_in(ls.drop_first()),
        }
    }
}

/// The text of a pointer file naming `target`.
pub open spec fn pointer_text(target: Seq<char>) -> Seq<char> {
    "config_path = "@ + target + seq!['\n']
}

/// The characters of an optional string.
pub open spec fn opt_string_view(s: Option<String>) -> Option<Seq<char>> {
    match s {
        Some(t) => Some(t@),
        None => None,
    }
}

/// The target a single line of a pointer file names.
fn pointer_line_exec(raw: &[char]) -> (res: Option<Vec<char>>)
    ensures
        match res {
            Some(v) => pointer_line(raw@) == Some(v@),
            None => pointer_line(raw@) is None,
        },
{
    let line = trim_chars(raw);
    if line.len() == 0 || line[0] == '#' {
        return None;
    }
    let eq: Vec<char> = chars_of("=");
    match split_once_chars(line.as_slice(), eq.as_slice()) {
        Some((k, v)) => {
            let key = trim_chars(k.as_slice());
            let value = trim_chars(v.as_slice());
            if chars_eq_str(key.as_slice(), "config_path") && value.len() > 0 {
                Some(value)
            } else {
                None
            }
        },
        None => None,
    }
}

/// Extracts the config file path from a `config_path =` pointer.
///
/// Returns `None` when `contents` is not a pointer, which is how the XDG config
/// file distinguishes a pointer from a regular configuration. Comments and
/// blank lines are ignored, matching [`parse_config`].
pub fn pointer_target(contents: &str) -> (res: Option<String>)
    ensures
        opt_string_view(res) == pointer_in(lines(contents@)),
{
    let cs = chars_of(contents);
    let ls = split_lines(cs.as_slice());
    let ghost lv = seq_views(ls@);
    let n = ls.len();
    assert(lv.skip(0) == lv);
    for i in 0..n
        invariant
            n == ls@.len(),
            lv == seq_views(ls@),
            lv == lines(contents@),
            pointer_in(lv) == pointer_in(lv.skip(i as int)),
    {
        assert(lv[i as int] == ls@[i as int]@);
        assert(lv.skip(i as int).drop_first() == lv.skip(i + 1));
        assert(lv.skip(i as int)[0] == lv[i as int]);
        if let Some(t) = pointer_line_exec(ls[i].as_slice()) {
            return Some(string_of(t.as_slice()));
        }
    }
    assert(lv.skip(n as int).len() == 0);
    None
}

/// The text of a pointer file naming `target` (what `write_pointer` writes).
pub fn pointer_contents(target: &str) -> (res: String)
    ensures
        res@ == pointer_text(target@),
{
    let mut v: Vec<char> = Vec::new();
    push_str(&mut v, "config_path = ");
    push_str(&mut v, target);
    v.push('\n');
    string_of(v.as_slice())
}

/// A written pointer is read back: `pointer_target(pointer_contents(t))` is
/// `t` for a target that holds no line ending, is not empty, and neither
/// begins nor ends with whitespace. (Other targets are read back trimmed,
/// cut at the line ending, or, when empty, not at all.)
pub proof fn pointer_after_pointer_contents(target: Seq<char>)
    requires
        target.len() > 0,
        !is_ws(target[0]) && !is_ws(target.last()),
        forall|j: int| 0 <= j < target.len() ==> target[j] != '\n',
    ensures
        pointer_in(lines(pointer_text(target))) == Some(target),
{
    reveal_strlit("config_path = ");
    reveal_strlit("config_path");
    let key = "config_path"@;
    assert("config_path = "@ =~= key + seq![' ', '=', ' ']);
    assert(forall|j: int| 0 <= j < key.len() ==> key[j] != '=' && key[j] != '\n');
    lemma_key_prefix(key);
    lemma_joined_line("config_path = "@, target);
    let l = "config_path = "@ + target;
    assert(pointer_text(target) =~= l + seq!['\n'] + Seq::<char>::empty());
    crate::text::lemma_lines_cons(l, Seq::<char>::empty());
    assert(lines(pointer_text(target)) =~= seq![l]);
    lemma_setting_line(key, target);
    assert(pointer_line(l) == Some(target));
    assert(seq![l].drop_first() =~= Seq::<Seq<char>>::empty());
}

// ---------------------------------------------------------------------
// Finding the config file
// ---------------------------------------------------------------------

/// Where the search for a config file stands, as the file system is asked.
pub enum LocateState {
    /// Waiting to learn whether the `-c`/`--config` file exists.
    Cli(String),
    /// Waiting to learn whether the current folder's config exists; the XDG
    /// config path, when there is one, comes next.
    Cwd(String, Option<String>),
    /// Waiting to learn whether the XDG config file exists.
    Xdg(String),
    /// Waiting for the text of the XDG config file.
    XdgText(String),
    /// Waiting to learn whether the file named by the XDG pointer (second)
    /// exists; the first is the pointer's own path.
    Target(String, String),
    /// The search is over.
    Finished,
}

/// What the file system answered.
pub enum LocateEvent {
    /// Whether the path asked about is an existing file.
    Exists(bool),
    /// The text of the file asked for, or the text of the read error.
    Read(Result<String, String>),
}

/// What to ask the file system next, or the outcome.
pub enum LocateAction {
    /// Ask whether this path is an existing file.
    CheckFile(String),
    /// Read the text of this file.
    ReadFile(String),
    /// The config file found (`None` when there is none), or the error.
    Done(Result<Option<String>, String>),
}

/// The stages of the search (see [`LocateState`]), by the characters of
/// their paths.
pub enum Stage {
    /// Waiting on the `-c`/`--config` file.
    Cli(Seq<char>),
    /// Waiting on the current folder's config; the XDG path comes next.
    Cwd(Seq<char>, Option<Seq<char>>),
    /// Waiting on the XDG config file.
    Xdg(Seq<char>),
    /// Waiting for the XDG config file's text.
    XdgText(Seq<char>),
    /// Waiting on a pointer's target: the pointer, then the target.
    Target(Seq<char>, Seq<char>),
    /// The search is over.
    Finished,
}

/// The next step (see [`LocateAction`]), by the characters of its paths.
pub enum Step {
    /// Ask whether the path is an existing file.
    CheckFile(Seq<char>),
    /// Read the file's text.
    ReadFile(Seq<char>),
    /// The outcome.
    Done(Result<Option<Seq<char>>, Seq<char>>),
}

impl View for LocateState {
    type V = Stage;

    open spec fn view(&self) -> Stage {
        match self {
            LocateState::Cli(c) => Stage::Cli(c@),
            LocateState::Cwd(p, x) => Stage::Cwd(p@, opt_string_view(*x)),
            LocateState::Xdg(x) => Stage::Xdg(x@),
            LocateState::XdgText(x) => Stage::XdgText(x@),
            LocateState::Target(x, t) => Stage::Target(x@, t@),
            LocateState::Finished => Stage::Finished,
        }
    }
}

impl View for LocateAction {
    type V = Step;

    open spec fn view(&self) -> Step {
        match self {
            LocateAction::CheckFile(p) => Step::CheckFile(p@),
            LocateAction::ReadFile(p) => Step::ReadFile(p@),
            LocateAction::Done(r) => Step::Done(
                match r {
                    Ok(o) => Ok(opt_string_view(*o)),
                    Err(e) => Err(e@),
                },
            ),
        }
    }
}

/// The first stage and step of the search: the `-c`/`--config` path when
/// one is given, else the current folder's config.
pub open spec fn locate_begin(
    cli: Option<Seq<char>>,
    cwd: Seq<char>,
    xdg: Option<Seq<char>>,
    home: Option<Seq<char>>,
) -> (Stage, Step) {
    match cli {
        Some(c) => (Stage::Cli(c), Step::CheckFile(c)),
        None => (
            Stage::Cwd(
                cwd_config_of(cwd),
                match config_file_of(xdg, home) {
                    Ok(x) => Some(x),
                    Err(_) => None,
                },
            ),
            Step::CheckFile(cwd_config_of(cwd)),
        ),
    }
}

/// Whether `e` answers what stage `s` waits for.
pub open spec fn answers(s: Stage, e: LocateEvent) -> bool {
    match s {
        Stage::XdgText(_) => e is Read,
        Stage::Finished => false,
        _ => e is Exists,
    }
}

/// The next stage and step of the search after the answer `e`.
pub open spec fn locate_after(s: Stage, e: LocateEvent) -> (Stage, Step) {
    match (s, e) {
        (Stage::Cli(c), LocateEvent::Exists(true)) => (Stage::Finished, Step::Done(Ok(Some(c)))),
        (Stage::Cli(c), LocateEvent::Exists(false)) => (
            Stage::Finished,
            Step::Done(Err("Config file '"@ + c + "' does not exist."@)),
        ),
        (Stage::Cwd(p, _), LocateEvent::Exists(true)) => (
            Stage::Finished,
            Step::Done(Ok(Some(p))),
        ),
        (Stage::Cwd(_, x), LocateEvent::Exists(false)) => match x {
            Some(x) => (Stage::Xdg(x), Step::CheckFile(x)),
            None => (Stage::Finished, Step::Done(Ok(None))),
        },
        (Stage::Xdg(x), LocateEvent::Exists(true)) => (Stage::XdgText(x), Step::ReadFile(x)),
        (Stage::Xdg(_), LocateEvent::Exists(false)) => (Stage::Finished, Step::Done(Ok(None))),
        (Stage::XdgText(x), LocateEvent::Read(r)) => match r {
            Err(e) => (
                Stage::Finished,
                Step::Done(Err("Error reading config file '"@ + x + "': "@ + e@)),
            ),
            Ok(t) => match pointer_in(lines(t@)) {
                Some(target) => (Stage::Target(x, target), Step::CheckFile(target)),
                None => (Stage::Finished, Step::Done(Ok(Some(x)))),
            },
        },
        (Stage::Target(_, t), LocateEvent::Exists(true)) => (
            Stage::Finished,
            Step::Done(Ok(Some(t))),
        ),
        (Stage::Target(x, t), LocateEvent::Exists(false)) => (
            Stage::Finished,
            Step::Done(
                Err("Config pointer '"@ + x + "' points at '"@ + t + "', which does not exist."@),
            ),
        ),
        _ => (s, Step::Done(Ok(None))),
    }
}

/// Starts the search for the config file, following the documented order.
///
/// The path given by the `-c`/`--config` option wins and must exist. Otherwise
/// the current folder (`./md_timesheet.config`) is checked, then the XDG config
/// directory. The XDG file may itself be a pointer containing `config_path =`,
/// in which case the referenced file is used. The search ends with `Ok(None)`
/// when no config file exists.
pub fn locate_start(
    cli_config: Option<&str>,
    cwd: &str,
    xdg_config_home: Option<&str>,
    home: Option<&str>,
) -> (res: (LocateState, LocateAction))
    ensures
        (res.0@, res.1@) == locate_begin(
            opt_view(cli_config),
            cwd@,
            opt_view(xdg_config_home),
            opt_view(home),
        ),
{
    match cli_config {
        Some(path) => (LocateState::Cli(path.to_owned()), LocateAction::CheckFile(path.to_owned())),
        None => {
            let cwd_path = cwd_config_path(cwd);
            let xdg_path = match canonical_config_path(xdg_config_home, home) {
                Ok(x) => Some(x),
                Err(_) => None,
            };
            let check = string_of(chars_of(cwd_path.as_str()).as_slice());
            (LocateState::Cwd(cwd_path, xdg_path), LocateAction::CheckFile(check))
        },
    }
}

/// A string made of three parts.
fn concat3(a: &str, b: &str, c: &str) -> (res: String)
    ensures
        res@ == a@ + b@ + c@,
{
    let mut v = chars_of(a);
    push_str(&mut v, b);
    push_str(&mut v, c);
    string_of(v.as_slice())
}

/// Takes the search one step further with the file system's answer.
pub fn locate_next(state: LocateState, event: LocateEvent) -> (res: (LocateState, LocateAction))
    requires
        answers(state@, event),
    ensures
        (res.0@, res.1@) == locate_after(state@, event),
{
    match state {
        LocateState::Cli(c) => match event {
            LocateEvent::Exists(true) => (LocateState::Finished, LocateAction::Done(Ok(Some(c)))),
            _ => (
                LocateState::Finished,
                LocateAction::Done(Err(concat3("Config file '", c.as_str(), "' does not exist."))),
            ),
        },
        LocateState::Cwd(p, x) => match event {
            LocateEvent::Exists(true) => (LocateState::Finished, LocateAction::Done(Ok(Some(p)))),
            _ => match x {
                Some(x) => {
                    let check = string_of(chars_of(x.as_str()).as_slice());
                    (LocateState::Xdg(x), LocateAction::CheckFile(check))
                },
                None => (LocateState::Finished, LocateAction::Done(Ok(None))),
            },
        },
        LocateState::Xdg(x) => match event {
            LocateEvent::Exists(true) => {
                let read = string_of(chars_of(x.as_str()).as_slice());
                (LocateState::XdgText(x), LocateAction::ReadFile(read))
            },
            _ => (LocateState::Finished, LocateAction::Done(Ok(None))),
        },
        LocateState::XdgText(x) => match event {
            LocateEvent::Read(Err(e)) => {
                let head = concat3("Error reading config file '", x.as_str(), "': ");
                let m = concat2(head.as_str(), e.as_str());
                (LocateState::Finished, LocateAction::Done(Err(m)))
            },
            LocateEvent::Read(Ok(t)) => match pointer_target(t.as_str()) {
                Some(target) => {
                    let check = string_of(chars_of(target.as_str()).as_slice());
                    (LocateState::Target(x, target), LocateAction::CheckFile(check))
                },
                None => (LocateState::Finished, LocateAction::Done(Ok(Some(x)))),
            },
            _ => (LocateState::Finished, LocateAction::Done(Ok(None))),
        },
        LocateState::Target(x, t) => match event {
            LocateEvent::Exists(true) => (LocateState::Finished, LocateAction::Done(Ok(Some(t)))),
            _ => {
                let head = concat3("Config pointer '", x.as_str(), "' points at '");
                let m = concat3(head.as_str(), t.as_str(), "', which does not exist.");
                (LocateState::Finished, LocateAction::Done(Err(m)))
            },
        },
        LocateState::Finished => (LocateState::Finished, LocateAction::Done(Ok(None))),
    }
}

/// The path of the document file of a destination (what reading and
/// writing the document open), or the error for a Joplin note.
pub fn text_file_path(dest: &Destination) -> (res: Result<String, String>)
    ensures
        match dest {
            Destination::TextFile(p) => res matches Ok(q) && q@ == p@,
            Destination::JoplinNote(_) => res matches Err(m) && m@
                == "Joplin support has not been implemented."@,
        },
{
    match dest {
        Destination::JoplinNote(_) => Err("Joplin support has not been implemented.".to_owned()),
        Destination::TextFile(path) => Ok(string_of(chars_of(path.as_str()).as_slice())),
    }
}

/// Reading lines keeps any rounding read so far positive.
proof fn lemma_prefix_rounding_positive(ls: Seq<Seq<char>>, k: nat, home: Option<Seq<char>>)
    ensures
        config_prefix(ls, k, home) matches Ok(d) ==> (d.duration_rounding matches Some(r) ==> r
            > 0),
    decreases k,
{
    if k > 0 {
        lemma_prefix_rounding_positive(ls, (k - 1) as nat, home);
    }
}

/// Every configuration that is read has a positive rounding: a
/// `duration_rounding` of zero or less is refused with an error.
pub proof fn parsed_rounding_is_positive(contents: Seq<char>, home: Option<Seq<char>>)
    ensures
        config_of(contents, home) matches Ok((_, f)) ==> f.duration_rounding > 0,
{
    let ls = lines(contents);
    lemma_prefix_rounding_positive(ls, ls.len(), home);
}

/// The search reports as found only a file the file system said exists
/// (or the XDG file whose text was read): a step that ends in
/// `Ok(Some(p))` answers `Exists(true)` about `p` itself, or reads the
/// text of `p` as the XDG config; an answer `Exists(false)` never ends in
/// a found file.
pub proof fn found_config_exists(s: Stage, e: LocateEvent)
    ensures
        e matches LocateEvent::Exists(false) ==> !(locate_after(s, e).1 matches Step::Done(
            Ok(Some(_)),
        )),
        locate_after(s, e).1 matches Step::Done(Ok(Some(p))) ==> ((e matches LocateEvent::Exists(
            true,
        )) && ((s matches Stage::Cli(c) && c == p) || (s matches Stage::Cwd(c, _) && c == p) || (
        s matches Stage::Target(_, t) && t == p))) || ((e matches LocateEvent::Read(Ok(_))) && (
        s matches Stage::XdgText(x) && x == p)),
{
}

/// With no `-c`/`--config` path, when the file system answers that the
/// current folder's config does not exist and then that the XDG config
/// does not exist either, the search ends with no config file.
pub proof fn nothing_found_when_nothing_exists(
    cwd: Seq<char>,
    xdg: Option<Seq<char>>,
    home: Option<Seq<char>>,
)
    ensures
        ({
            let first = locate_after(locate_begin(None, cwd, xdg, home).0, LocateEvent::Exists(false));
            match first.1 {
                Step::CheckFile(_) => locate_after(first.0, LocateEvent::Exists(false)).1
                    == Step::Done(Ok(None)),
                _ => first.1 == Step::Done(Ok(None)),
            }
        }),
{
}

} // verus!
