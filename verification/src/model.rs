//! Input/output shapes of store operations, the store's error type, and the
//! mapping of stored column values back to domain values.

use crate::content::{kind_from_wire, ContentKind};
use crate::error::{debug_str, id_error_message, str_debug, IdError};
use crate::id::{parse_id, NoteId};
use crate::link::{WikiLink, WikiTarget};
use crate::num::{i64_to_text, int_text};
use crate::tag::TagSet;
use crate::time::Timestamp;
use vstd::prelude::*;

verus! {

/// Anything that can go wrong talking to the store. The database and
/// migration failures carry the message of the underlying error.
#[derive(Debug, Clone, PartialEq, Eq)]
pub enum StoreError {
    Sqlite(String),
    Migration(String),
    /// The database was migrated by a newer build than this one understands.
    DbTooNew { found: i64, supported: i64 },
    /// A stored value failed to parse back into a domain type.
    Corrupt(String),
    /// Refused to persist a note with neither a title nor any body content.
    EmptyNote,
    /// The single-writer thread has gone away; no write can be serviced.
    WriterGone,
}

/// The message a store error displays as.
pub open spec fn store_error_message(e: StoreError) -> Seq<char> {
    match e {
        StoreError::Sqlite(m) => "sqlite error: "@ + m@,
        StoreError::Migration(m) => "migration error: "@ + m@,
        StoreError::DbTooNew { found, supported } => "database schema version "@ + int_text(
            found as int,
        ) + " is newer than this build supports (max "@ + int_text(supported as int)
            + "); upgrade `note`"@,
        StoreError::Corrupt(m) => "corrupt stored data: "@ + m@,
        StoreError::EmptyNote => "refusing to store an empty note (no title and no body)"@,
        StoreError::WriterGone => "writer thread is no longer running"@,
    }
}

impl StoreError {
    /// The message this error displays as.
    pub fn to_string(&self) -> (r: String)
        ensures
            r@ == store_error_message(*self),
    {
        match self {
            StoreError::Sqlite(m) => {
                let mut out = "sqlite error: ".to_owned();
                out.append(m.as_str());
                out
            },
            StoreError::Migration(m) => {
                let mut out = "migration error: ".to_owned();
                out.append(m.as_str());
                out
            },
            StoreError::DbTooNew { found, supported } => {
                let mut out = "database schema version ".to_owned();
                let f = i64_to_text(*found);
                out.append(f.as_str());
                out.append(" is newer than this build supports (max ");
                let s = i64_to_text(*supported);
                out.append(s.as_str());
                out.append("); upgrade `note`");
                out
            },
            StoreError::Corrupt(m) => {
                let mut out = "corrupt stored data: ".to_owned();
                out.append(m.as_str());
                out
            },
            StoreError::EmptyNote => "refusing to store an empty note (no title and no body)".to_owned(),
            StoreError::WriterGone => "writer thread is no longer running".to_owned(),
        }
    }
}

/// Fields supplied by the caller to create a note. The store mints the id and
/// stamps `created`/`updated`; `links` are the note's outgoing wikilinks,
/// committed together with the note.
#[derive(Debug, Clone)]
pub struct NewNote {
    pub title: Option<String>,
    pub body: String,
    pub content_kind: ContentKind,
    pub tags: TagSet,
    pub links: Vec<WikiLink>,
}

/// A full replacement of a note's mutable fields. The store bumps `updated`
/// and replaces the note's outgoing links together with it.
#[derive(Debug, Clone)]
pub struct NotePatch {
    pub title: Option<String>,
    pub body: String,
    pub content_kind: ContentKind,
    pub tags: TagSet,
    pub links: Vec<WikiLink>,
}

/// A note to import: `id`/`created`/`updated` are minted by the store when
/// absent (externally-authored markdown has none).
#[derive(Debug, Clone)]
pub struct ImportNote {
    pub id: Option<NoteId>,
    pub title: Option<String>,
    pub body: String,
    pub content_kind: ContentKind,
    pub tags: TagSet,
    pub created: Option<Timestamp>,
    pub updated: Option<Timestamp>,
    pub links: Vec<WikiLink>,
}

/// Whether an import created a new note or updated an existing one.
#[derive(Debug, Clone, Copy, PartialEq, Eq, Structural)]
pub enum ImportOutcome {
    Created,
    Updated,
}

impl ImportOutcome {
    /// `Updated` when a note with the imported id already existed.
    pub fn from_existed(existed: bool) -> (r: Self)
        ensures
            r == (if existed {
                ImportOutcome::Updated
            } else {
                ImportOutcome::Created
            }),
    {
        if existed {
            ImportOutcome::Updated
        } else {
            ImportOutcome::Created
        }
    }
}

/// A stored link from one note to a (possibly dangling) target.
#[derive(Debug, Clone, PartialEq, Eq)]
pub struct Link {
    pub source: NoteId,
    pub target: WikiTarget,
    pub display: Option<String>,
    /// The note this link resolves to, or `None` when dangling.
    pub resolved: Option<NoteId>,
}

/// Parse a content-kind column value: `"plain"` is plain, anything else falls
/// back to markdown.
pub fn content_kind_from_db(s: &str) -> (r: ContentKind)
    ensures
        r == kind_from_wire(s@),
{
    ContentKind::from_wire(s)
}

/// The message of a stored id that does not parse.
pub open spec fn corrupt_id_message(s: Seq<char>, e: IdError) -> Seq<char> {
    "note id "@ + str_debug(s) + ": "@ + id_error_message(e)
}

/// Parse a stored id; a value that does not parse is corrupt data.
pub fn stored_id(s: &str) -> (r: Result<NoteId, StoreError>)
    ensures
        match parse_id(s@) {
            Ok(v) => r == Ok::<NoteId, StoreError>(NoteId(v)),
            Err(e) => r matches Err(StoreError::Corrupt(m)) && m@ == corrupt_id_message(s@, e),
        },
{
    match NoteId::parse(s) {
        Ok(id) => Ok(id),
        Err(e) => {
            let mut m = "note id ".to_owned();
            let q = debug_str(s);
            m.append(q.as_str());
            m.append(": ");
            let t = e.to_string();
            m.append(t.as_str());
            Err(StoreError::Corrupt(m))
        },
    }
}

/// Refuse a database whose schema version is newer than this build
/// supports, rather than mangle it.
pub fn check_schema_version(found: i64, supported: i64) -> (r: Result<(), StoreError>)
    ensures
        r == (if found > supported {
            Err(StoreError::DbTooNew { found, supported })
        } else {
            Ok::<(), StoreError>(())
        }),
{
    if found > supported {
        Err(StoreError::DbTooNew { found, supported })
    } else {
        Ok(())
    }
}

} // verus!
