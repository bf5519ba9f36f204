//! The write side's decisions: the empty-note rule, the note each write
//! persists, how a link is stored and resolved, and what a reindex changes.

use crate::content::ContentKind;
use crate::id::{ulid_text, NoteId};
use crate::link::{WikiLink, WikiTarget};
use crate::model::{stored_id, ImportNote, NewNote, NotePatch, StoreError};
use crate::note::{opt_view, Note};
use crate::text::{chars_of, str_eq, trim, trim_range};
use crate::time::Timestamp;
use crate::title::{derive_title, effective_title};
use vstd::prelude::*;

verus! {

/// Whether a note with this title, body and kind would be empty: its
/// effective title derives to nothing.
pub open spec fn is_empty_note_spec(title: Option<Seq<char>>, body: Seq<char>, kind: ContentKind) -> bool {
    trim(effective_title(title, body, kind)).len() == 0
}

/// Reject a note with neither a title nor any body content (the rule lives
/// in the store, so every write path is covered).
pub fn ensure_not_empty(title: Option<&str>, body: &str, kind: ContentKind) -> (r: Result<(), StoreError>)
    ensures
        r == (if is_empty_note_spec(
            match title {
                Some(t) => Some(t@),
                None => None,
            },
            body@,
            kind,
        ) {
            Err(StoreError::EmptyNote)
        } else {
            Ok::<(), StoreError>(())
        }),
{
    let t = derive_title(title, body, kind);
    let v = chars_of(t.as_str());
    let (a, b) = trim_range(&v, 0, v.len());
    assert(v@.subrange(0, v@.len() as int) =~= v@);
    if a == b {
        Err(StoreError::EmptyNote)
    } else {
        Ok(())
    }
}

/// The note a create persists, with its links: the input's fields under a
/// freshly minted id, created and updated now. An empty note is refused.
pub fn prepare_create(input: NewNote, id: NoteId, now: Timestamp) -> (r: Result<(Note, Vec<WikiLink>), StoreError>)
    ensures
        r == (if is_empty_note_spec(opt_view(input.title), input.body@, input.content_kind) {
            Err(StoreError::EmptyNote)
        } else {
            Ok::<(Note, Vec<WikiLink>), StoreError>(
                (
                    Note {
                        id,
                        title: input.title,
                        body: input.body,
                        content_kind: input.content_kind,
                        tags: input.tags,
                        created: now,
                        updated: now,
                    },
                    input.links,
                ),
            )
        }),
{
    let t = match &input.title {
        Some(t) => Some(t.as_str()),
        None => None,
    };
    match ensure_not_empty(t, input.body.as_str(), input.content_kind) {
        Err(e) => Err(e),
        Ok(()) => {
            let note = Note {
                id,
                title: input.title,
                body: input.body,
                content_kind: input.content_kind,
                tags: input.tags,
                created: now,
                updated: now,
            };
            Ok((note, input.links))
        },
    }
}

/// The note an import persists, with its links: the supplied id, or the
/// fresh one; the supplied creation time, or now; the supplied update time,
/// or the creation time. An empty note is refused.
pub fn prepare_import(req: ImportNote, fresh_id: NoteId, now: Timestamp) -> (r: Result<(Note, Vec<WikiLink>), StoreError>)
    ensures
        r == (if is_empty_note_spec(opt_view(req.title), req.body@, req.content_kind) {
            Err(StoreError::EmptyNote)
        } else {
            let created = match req.created {
                Some(c) => c,
                None => now,
            };
            Ok::<(Note, Vec<WikiLink>), StoreError>(
                (
                    Note {
                        id: match req.id {
                            Some(i) => i,
                            None => fresh_id,
                        },
                        title: req.title,
                        body: req.body,
                        content_kind: req.content_kind,
                        tags: req.tags,
                        created,
                        updated: match req.updated {
                            Some(u) => u,
                            None => created,
                        },
                    },
                    req.links,
                ),
            )
        }),
{
    let t = match &req.title {
        Some(t) => Some(t.as_str()),
        None => None,
    };
    match ensure_not_empty(t, req.body.as_str(), req.content_kind) {
        Err(e) => Err(e),
        Ok(()) => {
            let created = match req.created {
                Some(c) => c,
                None => now,
            };
            let note = Note {
                id: match req.id {
                    Some(i) => i,
                    None => fresh_id,
                },
                title: req.title,
                body: req.body,
                content_kind: req.content_kind,
                tags: req.tags,
                created,
                updated: match req.updated {
                    Some(u) => u,
                    None => created,
                },
            };
            Ok((note, req.links))
        },
    }
}

/// The note an update leaves, with its links: the patch's fields under the
/// same id, the stored creation time kept, updated now.
pub fn patched_note(id: NoteId, patch: NotePatch, created: i64, now: Timestamp) -> (r: (Note, Vec<WikiLink>))
    ensures
        r == (
            Note {
                id,
                title: patch.title,
                body: patch.body,
                content_kind: patch.content_kind,
                tags: patch.tags,
                created: Timestamp(created),
                updated: now,
            },
            patch.links,
        ),
{
    (
        Note {
            id,
            title: patch.title,
            body: patch.body,
            content_kind: patch.content_kind,
            tags: patch.tags,
            created: Timestamp::from_unix_millis(created),
            updated: now,
        },
        patch.links,
    )
}

/// What must be looked up to resolve a link target.
#[derive(Debug, Clone, PartialEq, Eq)]
pub enum LinkLookup {
    /// Whether a note with this id exists.
    Exists(NoteId),
    /// The note this title value resolves to: a unique id-prefix match, else
    /// a unique effective-title match.
    Title(String),
}

/// The lookup that resolves a link target.
pub fn link_lookup(target: &WikiTarget) -> (r: LinkLookup)
    ensures
        match target {
            WikiTarget::ById(id) => r == LinkLookup::Exists(*id),
            WikiTarget::ByTitle(t) => r matches LinkLookup::Title(x) && x@ == t@,
        },
{
    match target {
        WikiTarget::ById(id) => LinkLookup::Exists(*id),
        WikiTarget::ByTitle(t) => LinkLookup::Title(t.clone()),
    }
}

/// The lookup that re-resolves a stored link row (target kind and value); a
/// corrupt stored id is an error.
pub fn stored_link_lookup(kind: &str, value: &str) -> (r: Result<LinkLookup, StoreError>)
    ensures
        kind@ == "id"@ ==> match crate::id::parse_id(value@) {
            Ok(v) => r == Ok::<LinkLookup, StoreError>(LinkLookup::Exists(NoteId(v))),
            Err(_) => r matches Err(StoreError::Corrupt(_)),
        },
        kind@ != "id"@ ==> (r matches Ok(LinkLookup::Title(x)) && x@ == value@),
{
    if str_eq(kind, "id") {
        match stored_id(value) {
            Ok(id) => Ok(LinkLookup::Exists(id)),
            Err(e) => Err(e),
        }
    } else {
        Ok(LinkLookup::Title(value.to_owned()))
    }
}

/// The note a title value resolves to: the unique id-prefix match, else the
/// unique effective-title match, else none.
pub fn resolve_link_value(prefix_ids: &Vec<NoteId>, title_ids: &Vec<NoteId>) -> (r: Option<NoteId>)
    ensures
        r == (if prefix_ids@.len() == 1 {
            Some(prefix_ids@[0])
        } else if title_ids@.len() == 1 {
            Some(title_ids@[0])
        } else {
            None::<NoteId>
        }),
{
    if prefix_ids.len() == 1 {
        Some(prefix_ids[0])
    } else if title_ids.len() == 1 {
        Some(title_ids[0])
    } else {
        None
    }
}

/// A link as stored: target kind (`"id"` or `"title"`), target value,
/// display alias and resolved id, each as text.
#[derive(Debug, Clone, PartialEq, Eq)]
pub struct LinkRow {
    pub kind: String,
    pub value: String,
    pub display: Option<String>,
    pub resolved: Option<String>,
}

/// The stored row of a link whose target resolved to `resolved` (`None`
/// when dangling).
pub fn link_row(link: &WikiLink, resolved: Option<NoteId>) -> (r: LinkRow)
    ensures
        match link.target {
            WikiTarget::ById(id) => r.kind@ == "id"@ && r.value@ == ulid_text(id.0),
            WikiTarget::ByTitle(t) => r.kind@ == "title"@ && r.value@ == t@,
        },
        opt_view(r.display) == opt_view(link.display),
        match resolved {
            Some(id) => r.resolved matches Some(x) && x@ == ulid_text(id.0),
            None => r.resolved is None,
        },
{
    let (kind, value) = match &link.target {
        WikiTarget::ById(id) => ("id".to_owned(), id.to_string()),
        WikiTarget::ByTitle(t) => ("title".to_owned(), t.clone()),
    };
    let display = match &link.display {
        Some(d) => Some(d.clone()),
        None => None,
    };
    let resolved = match resolved {
        Some(id) => Some(id.to_string()),
        None => None,
    };
    LinkRow { kind, value, display, resolved }
}

/// The rows a reindex changes: each stored row `(rowid, current resolved
/// id)` whose freshly resolved id differs, with the new value.
pub open spec fn reindex_changes(rows: Seq<(i64, Option<Seq<char>>)>, fresh: Seq<Option<Seq<char>>>) -> Seq<(i64, Option<Seq<char>>)>
    decreases rows.len(),
{
    if rows.len() == 0 || fresh.len() != rows.len() {
        Seq::empty()
    } else {
        let prev = reindex_changes(rows.drop_last(), fresh.drop_last());
        if fresh.last() != rows.last().1 {
            prev.push((rows.last().0, fresh.last()))
        } else {
            prev
        }
    }
}

/// The rows once every one holds its freshly resolved id.
pub open spec fn settled_rows(rows: Seq<(i64, Option<Seq<char>>)>, fresh: Seq<Option<Seq<char>>>) -> Seq<(i64, Option<Seq<char>>)> {
    Seq::new(rows.len(), |i: int| (rows[i].0, fresh[i]))
}

/// A second reindex changes nothing: once every row holds its fresh
/// resolution (and the notes, hence the fresh resolutions, are unchanged),
/// no row differs.
pub proof fn lemma_reindex_settles(rows: Seq<(i64, Option<Seq<char>>)>, fresh: Seq<Option<Seq<char>>>)
    requires
        rows.len() == fresh.len(),
    ensures
        reindex_changes(settled_rows(rows, fresh), fresh) == Seq::<(i64, Option<Seq<char>>)>::empty(),
    decreases rows.len(),
{
    if rows.len() > 0 {
        let s = settled_rows(rows, fresh);
        assert(s.drop_last() =~= settled_rows(rows.drop_last(), fresh.drop_last()));
        lemma_reindex_settles(rows.drop_last(), fresh.drop_last());
        assert(s.last().1 == fresh.last());
    } else {
        assert(reindex_changes(settled_rows(rows, fresh), fresh) =~= Seq::<(i64, Option<Seq<char>>)>::empty());
    }
}

/// The views of stored `(rowid, resolved)` rows.
pub open spec fn resolved_rows_view(rows: Seq<(i64, Option<String>)>) -> Seq<(i64, Option<Seq<char>>)> {
    rows.map_values(|r: (i64, Option<String>)| (r.0, opt_view(r.1)))
}

/// The views of freshly resolved values.
pub open spec fn resolved_view(v: Seq<Option<String>>) -> Seq<Option<Seq<char>>> {
    v.map_values(|o: Option<String>| opt_view(o))
}

/// Whether two optional texts are equal.
fn same_opt(a: &Option<String>, b: &Option<String>) -> (r: bool)
    ensures
        r == (opt_view(*a) == opt_view(*b)),
{
    match (a, b) {
        (None, None) => true,
        (Some(x), Some(y)) => str_eq(x.as_str(), y.as_str()),
        _ => false,
    }
}

/// The updates a reindex applies (see `reindex_changes`); their number is
/// how many links changed.
pub fn reindex_updates(rows: &Vec<(i64, Option<String>)>, fresh: &Vec<Option<String>>) -> (r: Vec<(i64, Option<String>)>)
    requires
        rows.len() == fresh.len(),
    ensures
        resolved_rows_view(r@) == reindex_changes(resolved_rows_view(rows@), resolved_view(fresh@)),
{
    let ghost rv = resolved_rows_view(rows@);
    let ghost fv = resolved_view(fresh@);
    let mut out: Vec<(i64, Option<String>)> = Vec::new();
    let mut i: usize = 0;
    while i < rows.len()
        invariant
            i <= rows.len() == fresh.len(),
            rv == resolved_rows_view(rows@),
            fv == resolved_view(fresh@),
            resolved_rows_view(out@) == reindex_changes(rv.take(i as int), fv.take(i as int)),
        decreases rows.len() - i,
    {
        assert(rv.take(i + 1).drop_last() =~= rv.take(i as int));
        assert(fv.take(i + 1).drop_last() =~= fv.take(i as int));
        assert(rv.take(i + 1).last() == rv[i as int]);
        assert(fv.take(i + 1).last() == fv[i as int]);
        let (rowid, current) = &rows[i];
        if !same_opt(&fresh[i], current) {
            let v = match &fresh[i] {
                Some(x) => Some(x.clone()),
                None => None,
            };
            let ghost before = out@;
            out.push((*rowid, v));
            assert(resolved_rows_view(out@) =~= resolved_rows_view(before).push((*rowid, fv[i as int])));
        }
        i += 1;
    }
    assert(rv.take(i as int) =~= rv);
    assert(fv.take(i as int) =~= fv);
    out
}

} // verus!
