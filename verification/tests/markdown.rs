use note::content::ContentKind;
use note::id::NoteId;
use note::interchange::{frontmatter_scalar, from_markdown, to_markdown, MdError};
use note::link::{WikiLink, WikiTarget};
use note::note::Note;
use note::tag::Tag;
use note::time::Timestamp;
use note::wikilink::{extract_wikilinks, extract_wikilinks_from_events, CodeEvent};

fn sample() -> Note {
    let id = NoteId::from_parts(1_469_922_850_259, 7);
    let mut note = Note::new(
        id,
        "# Heading\nbody with [[Link]]",
        ContentKind::Markdown,
        Timestamp::from_unix_millis(1000),
        Timestamp::from_unix_millis(2000),
    );
    note.title = Some("Explicit Title".to_owned());
    note.tags.insert(Tag::new("rust").unwrap());
    note.tags.insert(Tag::new("cli").unwrap());
    note
}

#[test]
fn markdown_roundtrip_preserves_fields() {
    let note = sample();
    let md = to_markdown(&note);
    let parsed = from_markdown(&md).unwrap();
    assert_eq!(parsed.id, Some(note.id));
    assert_eq!(parsed.title, note.title);
    assert_eq!(parsed.body, note.body);
    assert_eq!(parsed.content_kind, note.content_kind);
    assert_eq!(parsed.tags, note.tags);
    assert_eq!(parsed.created, Some(note.created));
    assert_eq!(parsed.updated, Some(note.updated));
}

#[test]
fn markdown_form_is_exact() {
    let note = sample();
    let md = to_markdown(&note);
    let expected = format!(
        "---\nid: {}\ntitle: Explicit Title\ntags: cli, rust\ncontent_kind: markdown\ncreated: 1000\nupdated: 2000\n---\n# Heading\nbody with [[Link]]",
        note.id.to_string()
    );
    assert_eq!(md, expected);
}

#[test]
fn markdown_without_frontmatter_is_all_body() {
    let parsed = from_markdown("just a plain body\nwith two lines").unwrap();
    assert_eq!(parsed.id, None);
    assert_eq!(parsed.created, None);
    assert_eq!(parsed.body, "just a plain body\nwith two lines");
    assert!(parsed.tags.is_empty());
}

#[test]
fn markdown_omits_absent_title_and_tags() {
    let id = NoteId::from_parts(1, 1);
    let note = Note::new(
        id,
        "body",
        ContentKind::Plain,
        Timestamp::unix_epoch(),
        Timestamp::unix_epoch(),
    );
    let md = to_markdown(&note);
    assert!(!md.contains("title:"));
    assert!(!md.contains("tags:"));
    assert!(md.contains("content_kind: plain"));
}

#[test]
fn markdown_rejects_bad_id() {
    let err = from_markdown("---\nid: not-a-ulid\n---\nbody").unwrap_err();
    assert!(matches!(err, MdError::Id(_)));
}

#[test]
fn markdown_rejects_line_without_colon_and_bad_integer() {
    let err = from_markdown("---\nid: 01ARZ3NDEKTSV4RRFFQ69G5FAV\nnot a pair\n---\nbody");
    assert!(err.is_ok(), "a block with a prose line is body, not frontmatter");
    let err = from_markdown("---\ncreated: soon\n---\nbody").unwrap_err();
    assert_eq!(
        err,
        MdError::Frontmatter("created must be an integer, got \"soon\"".to_owned())
    );
    assert_eq!(err.to_string(), "malformed frontmatter: created must be an integer, got \"soon\"");
}

#[test]
fn markdown_rejects_bad_tag() {
    let err = from_markdown("---\ntags: ok, not ok\n---\nbody").unwrap_err();
    assert!(matches!(err, MdError::Tag(_)));
}

#[test]
fn empty_frontmatter_block_is_stripped() {
    let parsed = from_markdown("---\n---\nbody here").unwrap();
    assert_eq!(parsed.id, None);
    assert_eq!(parsed.body, "body here");
}

#[test]
fn crlf_frontmatter_is_parsed_not_swallowed() {
    let md = "---\r\ntitle: T\r\ntags: a, b\r\ncontent_kind: plain\r\ncreated: 5\r\nupdated: 9\r\n---\r\nbody\r\nline";
    let parsed = from_markdown(md).unwrap();
    assert_eq!(parsed.title.as_deref(), Some("T"));
    assert_eq!(parsed.tags.len(), 2);
    assert_eq!(parsed.content_kind, ContentKind::Plain);
    assert_eq!(parsed.created, Some(Timestamp::from_unix_millis(5)));
    assert_eq!(parsed.updated, Some(Timestamp::from_unix_millis(9)));
    assert_eq!(parsed.body, "body\nline");
}

#[test]
fn title_with_newline_roundtrips_and_keeps_metadata() {
    let id = NoteId::from_parts(7, 7);
    let mut note = Note::new(
        id,
        "body",
        ContentKind::Plain,
        Timestamp::from_unix_millis(11),
        Timestamp::from_unix_millis(22),
    );
    note.title = Some("line one\nline two".to_owned());
    let parsed = from_markdown(&to_markdown(&note)).unwrap();
    assert_eq!(parsed.title.as_deref(), Some("line one line two"));
    assert_eq!(parsed.content_kind, ContentKind::Plain);
    assert_eq!(parsed.created, Some(Timestamp::from_unix_millis(11)));
    assert_eq!(parsed.updated, Some(Timestamp::from_unix_millis(22)));
}

#[test]
fn title_with_divider_does_not_truncate_frontmatter() {
    let id = NoteId::from_parts(8, 8);
    let mut note = Note::new(
        id,
        "body",
        ContentKind::Plain,
        Timestamp::from_unix_millis(1),
        Timestamp::from_unix_millis(2),
    );
    note.title = Some("a\n---".to_owned());
    let parsed = from_markdown(&to_markdown(&note)).unwrap();
    assert_eq!(parsed.title.as_deref(), Some("a ---"));
    assert_eq!(parsed.created, Some(Timestamp::from_unix_millis(1)));
    assert_eq!(parsed.updated, Some(Timestamp::from_unix_millis(2)));
    assert_eq!(parsed.body, "body");
}

#[test]
fn leading_rule_block_of_prose_is_body_not_frontmatter() {
    let text = "---\nprose with no colon\n---\nmore body";
    let parsed = from_markdown(text).unwrap();
    assert_eq!(parsed.id, None);
    assert_eq!(parsed.body, text);
}

#[test]
fn body_with_dividers_survives_roundtrip() {
    let id = NoteId::from_parts(5, 5);
    let note = Note::new(
        id,
        "intro\n\n---\n\nsection after a divider",
        ContentKind::Markdown,
        Timestamp::from_unix_millis(1),
        Timestamp::from_unix_millis(1),
    );
    let parsed = from_markdown(&to_markdown(&note)).unwrap();
    assert_eq!(parsed.body, note.body);
}

#[test]
fn body_line_endings_are_normalized_on_roundtrip() {
    let id = NoteId::from_parts(5, 5);
    let note = Note::new(
        id,
        "a\r\nb\rc",
        ContentKind::Markdown,
        Timestamp::from_unix_millis(-3),
        Timestamp::from_unix_millis(4),
    );
    let parsed = from_markdown(&to_markdown(&note)).unwrap();
    assert_eq!(parsed.body, "a\nb\nc");
    assert_eq!(parsed.created, Some(Timestamp::from_unix_millis(-3)));
}

#[test]
fn frontmatter_scalar_flattens_line_breaks() {
    assert_eq!(frontmatter_scalar("a\r\nb\nc"), "a  b c");
    assert_eq!(frontmatter_scalar("plain"), "plain");
}

fn forms(links: &[WikiLink]) -> Vec<String> {
    links.iter().map(WikiLink::to_string).collect()
}

#[test]
fn extracts_single_title() {
    let links = extract_wikilinks("see [[Some Note]] here");
    assert_eq!(links.len(), 1);
    assert_eq!(links[0].target, WikiTarget::ByTitle("Some Note".to_owned()));
    assert!(links[0].display.is_none());
}

#[test]
fn extracts_id_target() {
    let links = extract_wikilinks("link to [[01ARZ3NDEKTSV4RRFFQ69G5FAV]]");
    assert_eq!(links.len(), 1);
    assert!(matches!(links[0].target, WikiTarget::ById(_)));
}

#[test]
fn extracts_alias_form() {
    let links = extract_wikilinks("[[Target|click here]]");
    assert_eq!(links.len(), 1);
    assert_eq!(links[0].target, WikiTarget::ByTitle("Target".to_owned()));
    assert_eq!(links[0].display.as_deref(), Some("click here"));
}

#[test]
fn extracts_multiple_in_order() {
    let links = extract_wikilinks("[[A]] then [[B]] then [[C]]");
    assert_eq!(forms(&links), vec!["A", "B", "C"]);
}

#[test]
fn dedupes_repeated_links() {
    let links = extract_wikilinks("[[A]] and again [[A]] and [[A|alias]]");
    assert_eq!(forms(&links), vec!["A", "A|alias"]);
}

#[test]
fn ignores_fenced_code_block() {
    let body = "real [[Linked]]\n\n```\ncode [[NotLinked]]\n```\n";
    assert_eq!(forms(&extract_wikilinks(body)), vec!["Linked"]);
}

#[test]
fn ignores_inline_code() {
    let links = extract_wikilinks("text `[[NotLinked]]` and [[Linked]]");
    assert_eq!(forms(&links), vec!["Linked"]);
}

#[test]
fn skips_empty_target() {
    assert!(extract_wikilinks("empty [[]] and [[   ]] here").is_empty());
}

#[test]
fn handles_unclosed_brackets() {
    assert!(extract_wikilinks("dangling [[ open").is_empty());
}

#[test]
fn finds_links_across_lines() {
    let links = extract_wikilinks("first [[A]]\nsecond line [[B]]");
    assert_eq!(forms(&links), vec!["A", "B"]);
}

#[test]
fn no_links_in_plain_text() {
    assert!(extract_wikilinks("just some prose, no links").is_empty());
}

#[test]
fn links_use_byte_offsets_for_code_ranges() {
    // "é" takes two bytes: the span at byte 3 is covered by the range 3..5
    // only when offsets are counted in bytes.
    let body = "é [[A]] [[B]]";
    let events = vec![(CodeEvent::InlineCode, 3, 5)];
    let links = extract_wikilinks_from_events(body, &events);
    assert_eq!(forms(&links), vec!["B"]);
}

#[test]
fn text_in_code_block_masks_links() {
    let body = "[[A]] [[B]]";
    let events = vec![
        (CodeEvent::CodeBlockStart, 0, 11),
        (CodeEvent::Text, 6, 11),
        (CodeEvent::CodeBlockEnd, 0, 11),
        (CodeEvent::Text, 0, 5),
    ];
    let links = extract_wikilinks_from_events(body, &events);
    assert_eq!(forms(&links), vec!["A"]);
}
