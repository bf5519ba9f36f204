//! Resolved runtime configuration and the platform locations it defaults to.

use crate::text::{chars_of, push_char};
use vstd::prelude::*;

verus! {

#[verifier::external_type_specification]
#[verifier::external_body]
pub struct ExProjectDirs(directories::ProjectDirs);

/// `directories::ProjectDirs::from`: the platform directories of a project,
/// or `None` when no home directory can be found. The answer depends on the
/// environment, so nothing is promised of it.
#[verifier::external_body]
fn project_dirs_from(qualifier: &str, organization: &str, application: &str) -> (r: Option<
    directories::ProjectDirs,
>) {
    directories::ProjectDirs::from(qualifier, organization, application)
}

/// `ProjectDirs::data_dir`, as text (non-UTF-8 parts replaced).
#[verifier::external_body]
fn data_dir_text(dirs: &directories::ProjectDirs) -> (r: String) {
    dirs.data_dir().to_string_lossy().into_owned()
}

/// `ProjectDirs::config_dir`, as text (non-UTF-8 parts replaced).
#[verifier::external_body]
fn config_dir_text(dirs: &directories::ProjectDirs) -> (r: String) {
    dirs.config_dir().to_string_lossy().into_owned()
}

/// `dir` joined with the relative name `name` (`Path::join` on Unix): the
/// name alone for an empty directory, no separator added after a trailing
/// `/`.
pub open spec fn join_path(dir: Seq<char>, name: Seq<char>) -> Seq<char> {
    if dir.len() == 0 {
        name
    } else if dir.last() == '/' {
        dir + name
    } else {
        dir + seq!['/'] + name
    }
}

/// Join a directory and a relative name (see `join_path`).
pub fn join(dir: &str, name: &str) -> (r: String)
    ensures
        r@ == join_path(dir@, name@),
{
    let v = chars_of(dir);
    if v.len() == 0 {
        return name.to_owned();
    }
    let mut out = dir.to_owned();
    if v[v.len() - 1] != '/' {
        push_char(&mut out, '/');
    }
    out.append(name);
    out
}

/// A failure of the command line, with the message it prints.
#[derive(Debug, Clone, PartialEq, Eq)]
pub struct CliError {
    pub message: String,
}

/// Resolved runtime configuration.
#[derive(Debug, Clone, PartialEq, Eq)]
pub struct Config {
    /// Directory holding the SQLite database.
    pub data_dir: String,
    /// Editor command for interactive capture (`$VISUAL` / `$EDITOR`).
    pub editor: Option<String>,
}

impl Config {
    /// Path to the single SQLite database file: `notes.sqlite` in the data
    /// directory.
    pub fn db_path(&self) -> (r: String)
        ensures
            r@ == join_path(self.data_dir@, "notes.sqlite"@),
    {
        join(self.data_dir.as_str(), "notes.sqlite")
    }

    /// The configuration after the command line and the environment: the
    /// `--data-dir` override replaces the data directory; without a
    /// configured editor, the first non-empty of `$VISUAL` and `$EDITOR` is
    /// the editor.
    pub fn settled(self, data_dir_override: Option<String>, visual: Option<String>, editor: Option<String>) -> (r: Config)
        ensures
            r.data_dir == (match data_dir_override {
                Some(d) => d,
                None => self.data_dir,
            }),
            r.editor == (if self.editor is Some {
                self.editor
            } else if visual matches Some(v) && v@.len() > 0 {
                visual
            } else if editor matches Some(e) && e@.len() > 0 {
                editor
            } else {
                None::<String>
            }),
    {
        let data_dir = match data_dir_override {
            Some(d) => d,
            None => self.data_dir,
        };
        let chosen = if self.editor.is_some() {
            self.editor
        } else if nonempty(&visual) {
            visual
        } else if nonempty(&editor) {
            editor
        } else {
            None
        };
        Config { data_dir, editor: chosen }
    }
}

/// Whether an optional text is present and not empty.
fn nonempty(s: &Option<String>) -> (r: bool)
    ensures
        r == (s matches Some(x) && x@.len() > 0),
{
    match s {
        Some(x) => x.as_str().unicode_len() > 0,
        None => false,
    }
}

/// The platform directories of this program.
fn project_dirs() -> (r: Option<directories::ProjectDirs>) {
    project_dirs_from("", "", "note")
}

/// The platform data directory, or an error when there is none.
pub fn default_data_dir() -> (r: Result<String, CliError>)
    ensures
        match r {
            Ok(_) => true,
            Err(e) => e.message@ == "could not determine a platform data directory"@,
        },
{
    match project_dirs() {
        Some(d) => Ok(data_dir_text(&d)),
        None => Err(CliError { message: "could not determine a platform data directory".to_owned() }),
    }
}

/// The optional configuration file: `note.toml` in the platform config
/// directory.
pub fn config_file() -> (r: Option<String>)
    ensures
        match r {
            Some(p) => exists|d: Seq<char>| p@ == join_path(d, "note.toml"@),
            None => true,
        },
{
    match project_dirs() {
        Some(d) => {
            let dir = config_dir_text(&d);
            let p = join(dir.as_str(), "note.toml");
            assert(p@ == join_path(dir@, "note.toml"@));
            Some(p)
        },
        None => None,
    }
}

} // verus!
