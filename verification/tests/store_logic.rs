use note::content::ContentKind;
use note::id::NoteId;
use note::link::{WikiLink, WikiTarget};
use note::mint::{new_id, now, timestamp_of_reading};
use note::model::{content_kind_from_db, stored_id, ImportNote, ImportOutcome, NewNote, NotePatch, StoreError};
use note::note::Note;
use note::query::{
    attach_tags, clamp_i64, count_from_db, first_lookup, in_requested_order, is_ulid_prefix,
    link_from_row, matching_title_ids, next_lookup, quote_fts, tag_count_from_row, title_lookup,
    to_prefix_query, unique_id, Lookup, TitleRow,
};
use note::tag::{Tag, TagSet};
use note::time::Timestamp;
use note::write::{
    ensure_not_empty, link_lookup, link_row, patched_note, prepare_create, prepare_import,
    reindex_updates, resolve_link_value, stored_link_lookup, LinkLookup,
};

const CANONICAL: &str = "01ARZ3NDEKTSV4RRFFQ69G5FAV";

#[test]
fn prefix_query_makes_each_term_a_prefix() {
    assert_eq!(to_prefix_query("mensag"), "\"mensag\"*");
    assert_eq!(to_prefix_query("foo bar"), "\"foo\"* \"bar\"*");
}

#[test]
fn prefix_query_ignores_empty_and_strips_fts_chars() {
    assert_eq!(to_prefix_query("   "), "");
    assert_eq!(to_prefix_query("a*b \"c\""), "\"ab\"* \"c\"*");
}

#[test]
fn prefix_query_drops_words_left_empty() {
    assert_eq!(to_prefix_query(" ** x\t\"\" "), "\"x\"*");
}

#[test]
fn ulid_prefix_classification() {
    assert!(is_ulid_prefix("01ARZ"));
    assert!(!is_ulid_prefix("dog"));
    assert!(!is_ulid_prefix(""));
}

#[test]
fn ulid_prefix_excludes_full_ids_and_accepts_lowercase() {
    assert!(!is_ulid_prefix(CANONICAL));
    assert!(is_ulid_prefix("01arz3ndek"));
}

#[test]
fn quote_fts_doubles_quotes() {
    assert_eq!(quote_fts("say \"hi\""), "\"say \"\"hi\"\"\"");
}

#[test]
fn clamp_and_count_conversions() {
    assert_eq!(clamp_i64(5), 5);
    assert_eq!(clamp_i64(usize::MAX), i64::MAX);
    assert_eq!(count_from_db(7), 7);
    assert_eq!(count_from_db(-1), 0);
}

#[test]
fn content_kind_column_is_lenient() {
    assert_eq!(content_kind_from_db("plain"), ContentKind::Plain);
    assert_eq!(content_kind_from_db("other"), ContentKind::Markdown);
}

#[test]
fn stored_id_reports_corruption() {
    assert_eq!(stored_id(CANONICAL).unwrap().to_string(), CANONICAL);
    let err = stored_id("nope").unwrap_err();
    assert_eq!(
        err,
        StoreError::Corrupt(
            "note id \"nope\": note id has invalid length (expected 26 Crockford base32 chars)"
                .to_owned()
        )
    );
    assert_eq!(err.to_string().starts_with("corrupt stored data: note id"), true);
}

#[test]
fn store_error_messages() {
    assert_eq!(
        StoreError::DbTooNew { found: 9, supported: 3 }.to_string(),
        "database schema version 9 is newer than this build supports (max 3); upgrade `note`"
    );
    assert_eq!(
        StoreError::EmptyNote.to_string(),
        "refusing to store an empty note (no title and no body)"
    );
    assert_eq!(StoreError::WriterGone.to_string(), "writer thread is no longer running");
    assert_eq!(StoreError::Sqlite("boom".to_owned()).to_string(), "sqlite error: boom");
}

#[test]
fn lookups_go_id_then_prefix_then_title_then_full_text() {
    let id: NoteId = CANONICAL.parse().unwrap();
    assert_eq!(first_lookup("   "), None);
    assert_eq!(first_lookup(&format!(" {CANONICAL} ")), Some(Lookup::Id(id)));
    assert_eq!(first_lookup("01arz"), Some(Lookup::IdPrefix("01ARZ%".to_owned())));
    let title = first_lookup(" Meeting Notes ").unwrap();
    assert_eq!(title, Lookup::Title("Meeting Notes".to_owned()));
    assert_eq!(
        next_lookup("01arz", &Lookup::IdPrefix("01ARZ%".to_owned()), 0),
        Some(Lookup::Title("01arz".to_owned()))
    );
    assert_eq!(next_lookup("01arz", &Lookup::IdPrefix("01ARZ%".to_owned()), 2), None);
    assert_eq!(
        next_lookup(" a \"b\" ", &title, 0),
        Some(Lookup::FullText("\"a \"\"b\"\"\"".to_owned()))
    );
    assert_eq!(next_lookup("x", &Lookup::FullText("\"x\"".to_owned()), 0), None);
    assert_eq!(next_lookup("x", &Lookup::Id(id), 0), None);
}

#[test]
fn title_lookup_and_matching() {
    assert_eq!(title_lookup("   "), None);
    let (query, needle) = title_lookup("  Meeting Notes ").unwrap();
    assert_eq!(query, "\"Meeting Notes\"");
    assert_eq!(needle, "meeting notes");
    let rows = vec![
        TitleRow {
            id: CANONICAL.to_owned(),
            title: None,
            body: "# Meeting Notes\nbody".to_owned(),
            kind: "markdown".to_owned(),
        },
        TitleRow {
            id: "01BX5ZZKBKACTAV9WEVGEMMVRZ".to_owned(),
            title: None,
            body: "# Meeting Notes\nbody".to_owned(),
            kind: "plain".to_owned(),
        },
        TitleRow {
            id: "not an id".to_owned(),
            title: Some("Other".to_owned()),
            body: String::new(),
            kind: "markdown".to_owned(),
        },
    ];
    let ids = matching_title_ids(&rows, &needle).unwrap();
    assert_eq!(ids, vec![CANONICAL.parse::<NoteId>().unwrap()]);
    let corrupt = vec![TitleRow {
        id: "bad".to_owned(),
        title: Some("meeting NOTES".to_owned()),
        body: String::new(),
        kind: "plain".to_owned(),
    }];
    assert!(matches!(matching_title_ids(&corrupt, &needle), Err(StoreError::Corrupt(_))));
}

#[test]
fn unique_id_only_for_single_match() {
    let a = NoteId::from_parts(1, 1);
    let b = NoteId::from_parts(2, 2);
    assert_eq!(unique_id(&vec![a]), Some(a));
    assert_eq!(unique_id(&vec![a, b]), None);
    assert_eq!(unique_id(&vec![]), None);
    assert_eq!(resolve_link_value(&vec![a], &vec![b]), Some(a));
    assert_eq!(resolve_link_value(&vec![a, b], &vec![b]), Some(b));
    assert_eq!(resolve_link_value(&vec![], &vec![a, b]), None);
}

fn note_with(id: NoteId, body: &str) -> Note {
    Note::new(id, body, ContentKind::Markdown, Timestamp::from_unix_millis(1), Timestamp::from_unix_millis(2))
}

#[test]
fn loaded_notes_come_back_in_requested_order() {
    let a = NoteId::from_parts(1, 1);
    let b = NoteId::from_parts(2, 2);
    let c = NoteId::from_parts(3, 3);
    let notes = vec![note_with(a, "a"), note_with(b, "b")];
    let ids = vec![b.to_string(), c.to_string(), a.to_string(), b.to_string()];
    let ordered = in_requested_order(&ids, &notes);
    let got: Vec<NoteId> = ordered.iter().map(|n| n.id).collect();
    assert_eq!(got, vec![b, a]);
}

#[test]
fn tag_rows_attach_to_loaded_notes() {
    let a = NoteId::from_parts(1, 1);
    let b = NoteId::from_parts(2, 2);
    let mut notes = vec![note_with(a, "a")];
    let rows = vec![
        (a.to_string(), "Rust".to_owned()),
        (b.to_string(), "not valid!".to_owned()),
        (a.to_string(), "cli".to_owned()),
    ];
    attach_tags(&mut notes, &rows).unwrap();
    assert_eq!(notes[0].tags.len(), 2);
    assert!(notes[0].tags.contains(&Tag::new("rust").unwrap()));
    let bad = vec![(a.to_string(), "not valid!".to_owned())];
    let err = attach_tags(&mut notes, &bad).unwrap_err();
    assert!(matches!(err, StoreError::Corrupt(m) if m.starts_with("tag \"not valid!\": ")));
}

#[test]
fn tag_count_rows() {
    let (t, n) = tag_count_from_row("Rust", 3).unwrap();
    assert_eq!(t.as_str(), "rust");
    assert_eq!(n, 3);
    assert!(tag_count_from_row("a b", 1).is_err());
}

#[test]
fn link_rows_convert_back() {
    let src = NoteId::from_parts(9, 9);
    let l = link_from_row(src, "id", CANONICAL.to_owned(), None, Some(CANONICAL.to_owned())).unwrap();
    assert!(matches!(l.target, WikiTarget::ById(_)));
    assert_eq!(l.resolved, Some(CANONICAL.parse().unwrap()));
    let l = link_from_row(src, "title", "Dup".to_owned(), Some("alias".to_owned()), None).unwrap();
    assert_eq!(l.target, WikiTarget::ByTitle("Dup".to_owned()));
    assert_eq!(l.display.as_deref(), Some("alias"));
    assert!(link_from_row(src, "id", "bad".to_owned(), None, None).is_err());
    assert!(link_from_row(src, "title", "x".to_owned(), None, Some("bad".to_owned())).is_err());
}

#[test]
fn empty_notes_are_refused() {
    assert_eq!(ensure_not_empty(None, "  \n", ContentKind::Markdown), Err(StoreError::EmptyNote));
    assert_eq!(ensure_not_empty(Some("  "), "", ContentKind::Plain), Err(StoreError::EmptyNote));
    assert_eq!(ensure_not_empty(Some("T"), "", ContentKind::Plain), Ok(()));
    assert_eq!(ensure_not_empty(None, "x", ContentKind::Plain), Ok(()));
}

fn tags(names: &[&str]) -> TagSet {
    let mut s = TagSet::new();
    for n in names {
        s.insert(Tag::new(n).unwrap());
    }
    s
}

#[test]
fn create_stamps_id_and_times() {
    let id = NoteId::from_parts(5, 5);
    let now = Timestamp::from_unix_millis(77);
    let link = WikiLink { target: WikiTarget::ByTitle("T".to_owned()), display: None };
    let input = NewNote {
        title: None,
        body: "# Hello\nworld".to_owned(),
        content_kind: ContentKind::Markdown,
        tags: tags(&["rust"]),
        links: vec![link.clone()],
    };
    let (note, links) = prepare_create(input, id, now).unwrap();
    assert_eq!(note.id, id);
    assert_eq!(note.created, now);
    assert_eq!(note.updated, now);
    assert_eq!(note.effective_title(), "Hello");
    assert_eq!(links, vec![link]);
    let empty = NewNote {
        title: None,
        body: " ".to_owned(),
        content_kind: ContentKind::Markdown,
        tags: TagSet::new(),
        links: vec![],
    };
    assert!(matches!(prepare_create(empty, id, now), Err(StoreError::EmptyNote)));
}

#[test]
fn import_keeps_supplied_fields_and_mints_the_rest() {
    let fresh = NoteId::from_parts(5, 5);
    let now = Timestamp::from_unix_millis(900);
    let id: NoteId = CANONICAL.parse().unwrap();
    let req = ImportNote {
        id: Some(id),
        title: Some("Imported".to_owned()),
        body: "body one".to_owned(),
        content_kind: ContentKind::Markdown,
        tags: tags(&["x"]),
        created: Some(Timestamp::from_unix_millis(111)),
        updated: Some(Timestamp::from_unix_millis(222)),
        links: vec![],
    };
    let (note, _) = prepare_import(req, fresh, now).unwrap();
    assert_eq!(note.id, id);
    assert_eq!(note.created, Timestamp::from_unix_millis(111));
    assert_eq!(note.updated, Timestamp::from_unix_millis(222));
    let bare = ImportNote {
        id: None,
        title: None,
        body: "fresh import".to_owned(),
        content_kind: ContentKind::Markdown,
        tags: TagSet::new(),
        created: Some(Timestamp::from_unix_millis(5)),
        updated: None,
        links: vec![],
    };
    let (note, _) = prepare_import(bare, fresh, now).unwrap();
    assert_eq!(note.id, fresh);
    assert_eq!(note.created, Timestamp::from_unix_millis(5));
    assert_eq!(note.updated, Timestamp::from_unix_millis(5));
    assert_eq!(ImportOutcome::from_existed(true), ImportOutcome::Updated);
    assert_eq!(ImportOutcome::from_existed(false), ImportOutcome::Created);
}

#[test]
fn update_keeps_creation_time() {
    let id = NoteId::from_parts(5, 5);
    let patch = NotePatch {
        title: Some("Explicit".to_owned()),
        body: "rewritten body".to_owned(),
        content_kind: ContentKind::Plain,
        tags: tags(&["b", "c"]),
        links: vec![],
    };
    let (note, _) = patched_note(id, patch, 10, Timestamp::from_unix_millis(20));
    assert_eq!(note.created, Timestamp::from_unix_millis(10));
    assert_eq!(note.updated, Timestamp::from_unix_millis(20));
    assert_eq!(note.title.as_deref(), Some("Explicit"));
    assert_eq!(note.tags, tags(&["c", "b"]));
}

#[test]
fn link_rows_and_lookups() {
    let id: NoteId = CANONICAL.parse().unwrap();
    let by_id = WikiLink { target: WikiTarget::ById(id), display: None };
    assert_eq!(link_lookup(&by_id.target), LinkLookup::Exists(id));
    let row = link_row(&by_id, Some(id));
    assert_eq!(row.kind, "id");
    assert_eq!(row.value, CANONICAL);
    assert_eq!(row.resolved.as_deref(), Some(CANONICAL));
    let by_title = WikiLink { target: WikiTarget::ByTitle("Nonexistent".to_owned()), display: Some("alias".to_owned()) };
    assert_eq!(link_lookup(&by_title.target), LinkLookup::Title("Nonexistent".to_owned()));
    let row = link_row(&by_title, None);
    assert_eq!(row.kind, "title");
    assert_eq!(row.display.as_deref(), Some("alias"));
    assert_eq!(row.resolved, None);
    assert_eq!(stored_link_lookup("id", CANONICAL).unwrap(), LinkLookup::Exists(id));
    assert!(stored_link_lookup("id", "bad").is_err());
    assert_eq!(stored_link_lookup("title", "T").unwrap(), LinkLookup::Title("T".to_owned()));
}

#[test]
fn reindex_reports_only_changed_rows() {
    let rows = vec![
        (1i64, None),
        (2i64, Some("A".to_owned())),
        (3i64, Some("B".to_owned())),
    ];
    let fresh = vec![Some("X".to_owned()), Some("A".to_owned()), None];
    let updates = reindex_updates(&rows, &fresh);
    assert_eq!(updates, vec![(1, Some("X".to_owned())), (3, None)]);
}

#[test]
fn clock_readings_map_to_timestamps() {
    assert_eq!(timestamp_of_reading(None).as_unix_millis(), 0);
    assert_eq!(timestamp_of_reading(Some(42)).as_unix_millis(), 42);
    assert_eq!(timestamp_of_reading(Some(u128::MAX)).as_unix_millis(), i64::MAX);
    assert!(now().as_unix_millis() > 0);
    assert_ne!(new_id(), new_id());
}

#[test]
fn second_reindex_changes_nothing() {
    let rows = vec![
        (1i64, None),
        (2i64, Some("A".to_owned())),
        (3i64, Some("B".to_owned())),
    ];
    let fresh = vec![Some("X".to_owned()), Some("A".to_owned()), None];
    assert_eq!(reindex_updates(&rows, &fresh).len(), 2);
    let settled: Vec<(i64, Option<String>)> =
        rows.iter().zip(&fresh).map(|((id, _), f)| (*id, f.clone())).collect();
    assert!(reindex_updates(&settled, &fresh).is_empty());
}
