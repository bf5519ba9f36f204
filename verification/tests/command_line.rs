use note::cli::{EditArgs, NewArgs};
use note::commands::{
    confirms, edit_body_source, edit_patch, edit_tags, editor_new_note, editor_patch, editor_seed,
    import_request_from_markdown, is_empty_note, link_line, list_line, new_body_source,
    new_note_request, normalize_title, numbered_line, parse_tags, relink_indices, settle_candidates,
    settle_pick, short_id, tag_patch, trim_end_text, unique_resolved, BodySource, Flow,
    ImportTally, Pick, Resolved,
};
use note::config::{join, Config};
use note::content::ContentKind;
use note::id::NoteId;
use note::interchange::from_markdown;
use note::link::{WikiLink, WikiTarget};
use note::model::{ImportOutcome, Link};
use note::note::Note;
use note::picker::{picked_candidate, picker_line, preview_command, shell_quote};
use note::render::{raw_output, sanitize_for_tty, Mode};
use note::tag::{Tag, TagSet};
use note::time::Timestamp;

const CANONICAL: &str = "01ARZ3NDEKTSV4RRFFQ69G5FAV";

#[test]
fn sanitize_strips_control_but_keeps_tab_and_newline() {
    let dirty = "a\x1b]0;pwn\x07b\tc\nd\x00e";
    let clean = sanitize_for_tty(dirty);
    assert!(!clean.contains('\x1b'), "ESC neutralized");
    assert!(!clean.contains('\x07'), "BEL neutralized");
    assert!(!clean.contains('\x00'), "NUL neutralized");
    assert!(clean.contains('\t'), "tab kept");
    assert!(clean.contains('\n'), "newline kept");
    assert_eq!(clean.matches('a').count(), 1);
    assert!(clean.contains('e'), "printable text preserved");
}

#[test]
fn sanitize_covers_c1_controls_and_del() {
    assert_eq!(sanitize_for_tty("x\u{7f}y\u{85}z\u{a0}"), "x\u{fffd}y\u{fffd}z\u{a0}");
}

#[test]
fn raw_output_adds_a_final_newline() {
    assert_eq!(raw_output("body", false), "body\n");
    assert_eq!(raw_output("body\n", false), "body\n");
    assert_eq!(raw_output("a\x1bb", true), "a\u{fffd}b\n");
    assert_eq!(raw_output("a\x1bb", false), "a\x1bb\n");
}

#[test]
fn mode_from_flags() {
    assert_eq!(Mode::from_flags(true, true), Mode::Raw);
    assert_eq!(Mode::from_flags(false, true), Mode::Styled);
    assert_eq!(Mode::from_flags(false, false), Mode::Auto);
    assert!(Mode::Auto.styled(true));
    assert!(!Mode::Auto.styled(false));
    assert!(Mode::Styled.styled(false));
    assert!(!Mode::Raw.styled(true));
}

#[test]
fn db_path_joins_the_data_dir() {
    let c = Config { data_dir: "/tmp/notes".to_owned(), editor: None };
    assert_eq!(c.db_path(), "/tmp/notes/notes.sqlite");
    let c = Config { data_dir: "/tmp/notes/".to_owned(), editor: None };
    assert_eq!(c.db_path(), "/tmp/notes/notes.sqlite");
    assert_eq!(join("", "x"), "x");
}

#[test]
fn shell_quote_escapes_single_quotes() {
    assert_eq!(shell_quote("plain"), "'plain'");
    assert_eq!(shell_quote("it's"), "'it'\\''s'");
    assert_eq!(
        preview_command("/bin/note", "/data dir"),
        "'/bin/note' --data-dir '/data dir' show {1} --raw"
    );
}

fn note(id: NoteId, title: Option<&str>, body: &str) -> Note {
    let mut n = Note::new(id, body, ContentKind::Markdown, Timestamp::from_unix_millis(1), Timestamp::from_unix_millis(2));
    n.title = title.map(str::to_owned);
    n
}

#[test]
fn picker_lines_and_answers() {
    let a: NoteId = CANONICAL.parse().unwrap();
    let b = NoteId::from_parts(3, 3);
    let n = note(a, Some("tab\there"), "x");
    assert_eq!(picker_line(&n), format!("{CANONICAL}\ttab here\n"));
    let candidates = vec![note(b, None, "b"), n];
    assert_eq!(picked_candidate(&candidates, &format!(" {CANONICAL} \ttab here\n")), Some(1));
    assert_eq!(picked_candidate(&candidates, "nothing"), None);
}

#[test]
fn tags_parse_with_context() {
    let set = parse_tags(&vec!["Rust".to_owned(), "#cli".to_owned(), "rust".to_owned()]).unwrap();
    assert_eq!(set.len(), 2);
    let err = parse_tags(&vec!["ok".to_owned(), "not ok".to_owned()]).unwrap_err();
    assert_eq!(
        err.message,
        "invalid tag \"not ok\": tag \"not ok\" contains invalid character ' '"
    );
}

#[test]
fn titles_and_empty_notes() {
    assert_eq!(normalize_title(Some("  T  ".to_owned())), Some("T".to_owned()));
    assert_eq!(normalize_title(Some("   ".to_owned())), None);
    assert_eq!(normalize_title(None), None);
    assert!(is_empty_note(" \n", None));
    assert!(!is_empty_note(" \n", Some("t")));
    assert!(!is_empty_note("x", None));
    assert_eq!(trim_end_text("body \n\t"), "body");
}

#[test]
fn short_ids_and_lines() {
    let id: NoteId = CANONICAL.parse().unwrap();
    assert_eq!(short_id(id), "01ARZ3NDEK");
    let n = note(id, Some("Title"), "x");
    assert_eq!(list_line(&n), "01ARZ3NDEK  Title");
    assert_eq!(numbered_line(0, &n), "   1. 01ARZ3NDEK  Title");
    assert_eq!(numbered_line(9, &n), "  10. 01ARZ3NDEK  Title");
    let dangling = Link { source: id, target: WikiTarget::ByTitle("X".to_owned()), display: Some("y".to_owned()), resolved: None };
    assert_eq!(link_line(&dangling, None), "[[X|y]]  ->  (dangling)");
    assert_eq!(link_line(&dangling, Some(id)), "[[X|y]]  ->  01ARZ3NDEK");
}

fn tagset(names: &[&str]) -> TagSet {
    let mut s = TagSet::new();
    for n in names {
        s.insert(Tag::new(n).unwrap());
    }
    s
}

#[test]
fn tag_add_then_remove() {
    let out = edit_tags(tagset(&["a", "b"]), &tagset(&["c", "d"]), &tagset(&["a", "d", "z"]));
    assert_eq!(out, tagset(&["b", "c"]));
}

#[test]
fn tag_patch_keeps_body_and_links() {
    let id: NoteId = CANONICAL.parse().unwrap();
    let mut n = note(id, None, "see [[Other]]");
    n.tags = tagset(&["a"]);
    assert!(tag_patch(&n, &vec![], &vec![]).unwrap().is_none());
    let p = tag_patch(&n, &vec!["B".to_owned()], &vec!["a".to_owned()]).unwrap().unwrap();
    assert_eq!(p.tags, tagset(&["b"]));
    assert_eq!(p.body, "see [[Other]]");
    assert_eq!(p.links.len(), 1);
    assert!(tag_patch(&n, &vec!["bad tag".to_owned()], &vec![]).is_err());
}

fn new_args(message: Option<&str>) -> NewArgs {
    NewArgs { title: None, message: message.map(str::to_owned), tags: vec![], plain: false, json: false }
}

#[test]
fn body_sources() {
    assert_eq!(new_body_source(&new_args(Some("m")), true), BodySource::Message("m".to_owned()));
    assert_eq!(new_body_source(&new_args(None), false), BodySource::Stdin);
    assert_eq!(new_body_source(&new_args(None), true), BodySource::Editor);
    let mut e = EditArgs { reference: None, message: None, title: None, tags: vec![], plain: false, markdown: false, json: false };
    assert_eq!(edit_body_source(&e, true), BodySource::Editor);
    assert_eq!(edit_body_source(&e, false), BodySource::Stdin);
    e.plain = true;
    assert_eq!(edit_body_source(&e, true), BodySource::Current);
}

#[test]
fn new_requests() {
    let n = new_note_request(Some("  Grocery list ".to_owned()), "milk [[Shop]]\n\n", true, tagset(&["x"])).unwrap();
    assert_eq!(n.title.as_deref(), Some("Grocery list"));
    assert_eq!(n.body, "milk [[Shop]]");
    assert_eq!(n.content_kind, ContentKind::Plain);
    assert_eq!(n.links, vec![WikiLink { target: WikiTarget::ByTitle("Shop".to_owned()), display: None }]);
    let err = new_note_request(Some(" ".to_owned()), "  \n", false, TagSet::new()).unwrap_err();
    assert_eq!(err.message, "refusing to create an empty note (give a title, --message, or a body)");
}

#[test]
fn edit_requests_merge_flags_with_the_current_note() {
    let id: NoteId = CANONICAL.parse().unwrap();
    let mut current = note(id, Some("Old"), "old body");
    current.tags = tagset(&["keep"]);
    let args = EditArgs { reference: None, message: None, title: Some("".to_owned()), tags: vec![], plain: false, markdown: false, json: false };
    let p = edit_patch(&args, &current, "new body  ").unwrap();
    assert_eq!(p.title, None);
    assert_eq!(p.body, "new body");
    assert_eq!(p.tags, tagset(&["keep"]));
    assert_eq!(p.content_kind, ContentKind::Markdown);
    let args = EditArgs { reference: None, message: None, title: None, tags: vec!["New".to_owned()], plain: true, markdown: false, json: false };
    let p = edit_patch(&args, &current, "b").unwrap();
    assert_eq!(p.title.as_deref(), Some("Old"));
    assert_eq!(p.tags, tagset(&["new"]));
    assert_eq!(p.content_kind, ContentKind::Plain);
    let args = EditArgs { reference: None, message: None, title: Some(" ".to_owned()), tags: vec![], plain: false, markdown: false, json: false };
    let err = edit_patch(&args, &current, "  ").unwrap_err();
    assert_eq!(err.message, "refusing to leave an empty note (give a title, --message, or a body)");
}

#[test]
fn editor_flows() {
    assert_eq!(editor_seed(""), "");
    assert_eq!(editor_seed("meu titulo"), "# meu titulo\n\n");
    let n = editor_new_note("# meu titulo\n\nbody [[x]]\n").unwrap();
    assert_eq!(n.title, None);
    assert_eq!(n.body, "# meu titulo\n\nbody [[x]]");
    assert_eq!(n.links.len(), 1);
    assert!(editor_new_note(" \n").is_none());
    let id: NoteId = CANONICAL.parse().unwrap();
    let fresh = note(id, None, "old");
    assert!(editor_patch(&fresh, "   ").is_none());
    let titled = note(id, Some("T"), "old");
    let p = editor_patch(&titled, "  ").unwrap();
    assert_eq!(p.body, "");
    assert_eq!(p.title.as_deref(), Some("T"));
}

#[test]
fn import_requests_from_markdown() {
    let imported = from_markdown("---\ntitle:   \n---\n").unwrap();
    let err = import_request_from_markdown(imported, "empty.md").unwrap_err();
    assert_eq!(err.message, "refusing to import an empty note: empty.md");
    let imported = from_markdown("---\ntitle: T\ncreated: 3\n---\nsee [[A]]").unwrap();
    let req = import_request_from_markdown(imported, "t.md").unwrap();
    assert_eq!(req.title.as_deref(), Some("T"));
    assert_eq!(req.created, Some(Timestamp::from_unix_millis(3)));
    assert_eq!(req.updated, None);
    assert_eq!(req.links.len(), 1);
}

#[test]
fn import_tally_and_relinking() {
    let t = ImportTally::of(&vec![Some(ImportOutcome::Created), None, Some(ImportOutcome::Updated), Some(ImportOutcome::Created)]);
    assert_eq!((t.created, t.updated, t.failed), (2, 1, 1));
    assert!(!t.succeeded());
    assert_eq!(t.summary(), "imported 2 new, 1 updated, 1 failed");
    let link = WikiLink { target: WikiTarget::ByTitle("A".to_owned()), display: None };
    let a = NoteId::from_parts(1, 1);
    let b = NoteId::from_parts(2, 2);
    assert!(relink_indices(&vec![(a, vec![link.clone()])]).is_empty());
    assert_eq!(relink_indices(&vec![(a, vec![]), (b, vec![link])]), vec![1]);
}

#[test]
fn resolution_and_picking() {
    let a: NoteId = CANONICAL.parse().unwrap();
    let n = note(a, Some("T"), "x");
    let err = settle_candidates("nope", vec![]).unwrap_err();
    assert_eq!(err.message, "no note matches \"nope\"");
    assert!(matches!(settle_candidates("t", vec![n.clone()]), Ok(Ok(_))));
    assert!(matches!(settle_candidates("t", vec![n.clone(), n.clone()]), Ok(Err(v)) if v.len() == 2));
    assert!(matches!(settle_pick(Some(Pick::Chosen(n.clone()))), Resolved::Found(_)));
    assert!(matches!(settle_pick(Some(Pick::Aborted)), Resolved::Aborted));
    assert!(matches!(settle_pick(Some(Pick::NoFzf)), Resolved::Ambiguous));
    assert!(matches!(settle_pick(None), Resolved::Ambiguous));
    assert!(matches!(Resolved::Aborted.into_flow(), Flow::Exit { success: true }));
    assert!(matches!(Resolved::Ambiguous.into_flow(), Flow::Exit { success: false }));
    assert!(matches!(Resolved::Found(n).into_flow(), Flow::Continue(_)));
}

#[test]
fn delete_prompt_answers() {
    assert!(confirms(" Y \n"));
    assert!(confirms("yes"));
    assert!(!confirms("no"));
    assert!(!confirms(""));
}

#[test]
fn follow_targets_are_unique_in_order() {
    let a = NoteId::from_parts(1, 1);
    let b = NoteId::from_parts(2, 2);
    assert_eq!(unique_resolved(&vec![Some(b), None, Some(a), Some(b)]), vec![b, a]);
}

#[test]
fn settled_config_applies_override_and_editor_fallback() {
    let base = Config { data_dir: "/data".to_owned(), editor: None };
    let c = base.clone().settled(Some("/other".to_owned()), Some(String::new()), Some("vi".to_owned()));
    assert_eq!(c.data_dir, "/other");
    assert_eq!(c.editor.as_deref(), Some("vi"));
    let c = base.clone().settled(None, Some("code -w".to_owned()), Some("vi".to_owned()));
    assert_eq!(c.data_dir, "/data");
    assert_eq!(c.editor.as_deref(), Some("code -w"));
    let c = base.clone().settled(None, None, Some(String::new()));
    assert_eq!(c.editor, None);
    let configured = Config { data_dir: "/data".to_owned(), editor: Some("nano".to_owned()) };
    assert_eq!(configured.settled(None, Some("vim".to_owned()), None).editor.as_deref(), Some("nano"));
}
