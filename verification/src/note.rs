//! The note record.

use crate::content::ContentKind;
use crate::id::NoteId;
use crate::tag::TagSet;
use crate::time::Timestamp;
use crate::title::{derive_title, effective_title};
use vstd::prelude::*;

verus! {

/// A note. The body is the source of truth for wikilinks; `tags` are
/// authoritative metadata; `created`/`updated` are explicit so that
/// export→import preserves them.
#[derive(Debug, Clone, PartialEq, Eq)]
pub struct Note {
    pub id: NoteId,
    pub title: Option<String>,
    pub body: String,
    pub content_kind: ContentKind,
    pub tags: TagSet,
    pub created: Timestamp,
    pub updated: Timestamp,
}

/// The abstract content of a note.
pub struct NoteView {
    pub id: u128,
    pub title: Option<Seq<char>>,
    pub body: Seq<char>,
    pub content_kind: ContentKind,
    pub tags: Set<Seq<char>>,
    pub created: i64,
    pub updated: i64,
}

impl View for Note {
    type V = NoteView;

    open spec fn view(&self) -> NoteView {
        NoteView {
            id: self.id.0,
            title: opt_view(self.title),
            body: self.body@,
            content_kind: self.content_kind,
            tags: self.tags@,
            created: self.created.0,
            updated: self.updated.0,
        }
    }
}

/// The view of an optional string.
pub open spec fn opt_view(o: Option<String>) -> Option<Seq<char>> {
    match o {
        Some(s) => Some(s@),
        None => None,
    }
}

/// The effective title of a note.
pub open spec fn note_title(n: Note) -> Seq<char> {
    effective_title(opt_view(n.title), n.body@, n.content_kind)
}

/// `"(untitled)"`, the display fallback for a note whose title derives to
/// nothing.
pub open spec fn untitled() -> Seq<char> {
    "(untitled)"@
}

/// The effective title, or `"(untitled)"` when it is empty.
pub open spec fn display_title_of(n: Note) -> Seq<char> {
    if note_title(n).len() == 0 {
        untitled()
    } else {
        note_title(n)
    }
}

/// The display title of a note's content: its effective title, or
/// `"(untitled)"` when that is empty.
pub open spec fn display_title_view(v: NoteView) -> Seq<char> {
    let t = effective_title(v.title, v.body, v.content_kind);
    if t.len() == 0 {
        untitled()
    } else {
        t
    }
}

impl Note {
    /// A note with no title and no tags. All time/id values are supplied by
    /// the caller.
    pub fn new(id: NoteId, body: &str, content_kind: ContentKind, created: Timestamp, updated: Timestamp) -> (r: Self)
        ensures
            r.id == id,
            r.title is None,
            r.body@ == body@,
            r.content_kind == content_kind,
            r.tags@ == Set::<Seq<char>>::empty(),
            r.created == created,
            r.updated == updated,
    {
        Note {
            id,
            title: None,
            body: body.to_owned(),
            content_kind,
            tags: TagSet::new(),
            created,
            updated,
        }
    }

    /// A copy of this note.
    pub fn duplicate(&self) -> (r: Note)
        ensures
            r@ == self@,
    {
        Note {
            id: self.id,
            title: match &self.title {
                Some(t) => Some(t.clone()),
                None => None,
            },
            body: self.body.clone(),
            content_kind: self.content_kind,
            tags: self.tags.duplicate(),
            created: self.created,
            updated: self.updated,
        }
    }

    /// The effective (display) title derived from the title, body and kind.
    pub fn effective_title(&self) -> (r: String)
        ensures
            r@ == note_title(*self),
    {
        let t = match &self.title {
            Some(t) => Some(t.as_str()),
            None => None,
        };
        derive_title(t, self.body.as_str(), self.content_kind)
    }

    /// The effective title, or `"(untitled)"` when empty.
    pub fn display_title(&self) -> (r: String)
        ensures
            r@ == display_title_of(*self),
            r@ == display_title_view(self@),
    {
        let title = self.effective_title();
        if title.as_str().is_empty() {
            "(untitled)".to_owned()
        } else {
            title
        }
    }
}

} // verus!
