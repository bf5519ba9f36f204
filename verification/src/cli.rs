//! The command surface of the `note` program: the parsed arguments of each
//! subcommand. Paths are carried as text.

use vstd::prelude::*;

verus! {

/// The parsed command line.
#[derive(Debug, Clone, PartialEq, Eq)]
pub struct Cli {
    /// Override the data directory.
    pub data_dir: Option<String>,
    /// The subcommand; none launches the terminal browser.
    pub command: Option<Command>,
}

/// The subcommands.
#[derive(Debug, Clone, PartialEq, Eq)]
pub enum Command {
    /// Create a new note (body from --message, piped stdin, or $EDITOR).
    New(NewArgs),
    /// Edit an existing note (body in $EDITOR, or change fields via flags).
    Edit(EditArgs),
    /// Delete a note, resolving a reference.
    Delete(DeleteArgs),
    /// Render a note, resolving a reference (no reference = most recent).
    Show(ShowArgs),
    /// List the outgoing `[[wikilinks]]` of a note.
    Links(LinksArgs),
    /// Full-text search over notes.
    Search(SearchArgs),
    /// List notes, most recently updated first (optionally by tag).
    List(ListArgs),
    /// List all tags with their note counts.
    Tags(TagsArgs),
    /// Show or modify a note's tags.
    Tag(TagArgs),
    /// Import notes from `.md` / `.json` files (idempotent on note id).
    Import(ImportArgs),
    /// Export every note to a directory as `.md` or `.json` files.
    Export(ExportArgs),
    /// Show database status.
    Status(StatusArgs),
}

/// Output format for export.
#[derive(Debug, Clone, Copy, PartialEq, Eq, Structural)]
pub enum Format {
    Md,
    Json,
}

/// Arguments of `new`.
#[derive(Debug, Clone, PartialEq, Eq)]
pub struct NewArgs {
    /// Optional explicit title (otherwise derived from the body).
    pub title: Option<String>,
    /// Body text; falls back to piped stdin, then $EDITOR on a terminal.
    pub message: Option<String>,
    /// Tags to attach.
    pub tags: Vec<String>,
    /// Store as plain text instead of markdown.
    pub plain: bool,
    /// Print the created note as JSON.
    pub json: bool,
}

/// Arguments of `edit`.
#[derive(Debug, Clone, PartialEq, Eq)]
pub struct EditArgs {
    /// ULID, short id prefix, title, or search terms; none for the most recent.
    pub reference: Option<String>,
    /// New body; falls back to piped stdin, then $EDITOR with the current
    /// body. Skipped when only metadata flags are given.
    pub message: Option<String>,
    /// Replace the title (an empty value clears it).
    pub title: Option<String>,
    /// Replace the entire tag set.
    pub tags: Vec<String>,
    /// Switch the note to plain text.
    pub plain: bool,
    /// Switch the note to markdown.
    pub markdown: bool,
    /// Print the updated note as JSON.
    pub json: bool,
}

/// Arguments of `delete`.
#[derive(Debug, Clone, PartialEq, Eq)]
pub struct DeleteArgs {
    /// ULID, short id prefix, title, or search terms.
    pub reference: String,
    /// Delete without confirmation.
    pub yes: bool,
    /// Print the deleted id as JSON.
    pub json: bool,
}

/// Arguments of `show`.
#[derive(Debug, Clone, PartialEq, Eq)]
pub struct ShowArgs {
    /// ULID, short id prefix, title, or search terms; none for the most recent.
    pub reference: Option<String>,
    /// Force raw output.
    pub raw: bool,
    /// Force styled markdown output even when piped.
    pub render: bool,
    /// Print the note as JSON.
    pub json: bool,
}

/// Arguments of `links`.
#[derive(Debug, Clone, PartialEq, Eq)]
pub struct LinksArgs {
    /// ULID, short id prefix, title, or search terms; none for the most recent.
    pub reference: Option<String>,
    /// Print the links as JSON.
    pub json: bool,
}

/// Arguments of `search`.
#[derive(Debug, Clone, PartialEq, Eq)]
pub struct SearchArgs {
    /// Full-text query.
    pub query: String,
    /// Maximum number of results.
    pub limit: usize,
    /// Print results as JSON.
    pub json: bool,
}

/// Arguments of `list`.
#[derive(Debug, Clone, PartialEq, Eq)]
pub struct ListArgs {
    /// Only list notes carrying this tag.
    pub tag: Option<String>,
    /// Maximum number of notes.
    pub limit: usize,
    /// Print results as JSON.
    pub json: bool,
}

/// Arguments of `tags`.
#[derive(Debug, Clone, PartialEq, Eq)]
pub struct TagsArgs {
    /// Print tags as JSON.
    pub json: bool,
}

/// Arguments of `tag`.
#[derive(Debug, Clone, PartialEq, Eq)]
pub struct TagArgs {
    /// ULID, short id prefix, title, or search terms; none for the most recent.
    pub reference: Option<String>,
    /// Tags to add.
    pub add: Vec<String>,
    /// Tags to remove.
    pub remove: Vec<String>,
    /// Print the note's tags as JSON.
    pub json: bool,
}

/// Arguments of `import`.
#[derive(Debug, Clone, PartialEq, Eq)]
pub struct ImportArgs {
    /// One or more `.md` / `.json` files.
    pub paths: Vec<String>,
    /// Print a JSON summary.
    pub json: bool,
}

/// Arguments of `export`.
#[derive(Debug, Clone, PartialEq, Eq)]
pub struct ExportArgs {
    /// Destination directory (created if needed).
    pub dir: String,
    /// Output format.
    pub format: Format,
}

/// Arguments of `status`.
#[derive(Debug, Clone, PartialEq, Eq)]
pub struct StatusArgs {
    /// Print status as JSON.
    pub json: bool,
}

} // verus!
