use note::content::ContentKind;
use note::error::{Error, IdError, TagError, WikiError};
use note::id::NoteId;
use note::link::{WikiLink, WikiTarget};
use note::note::Note;
use note::tag::{Tag, TagSet};
use note::time::Timestamp;
use note::title::derive_title;
use std::collections::{BTreeSet, HashSet};

const CANONICAL: &str = "01ARZ3NDEKTSV4RRFFQ69G5FAV";

#[test]
fn contentkind_default_is_markdown() {
    assert_eq!(ContentKind::default(), ContentKind::Markdown);
}

#[test]
fn contentkind_as_str_and_display() {
    assert_eq!(ContentKind::Plain.as_str(), "plain");
    assert_eq!(ContentKind::Markdown.as_str(), "markdown");
    assert_eq!(ContentKind::Plain.to_string(), "plain");
    assert_eq!(ContentKind::Markdown.to_string(), "markdown");
}

#[test]
fn contentkind_from_wire_is_lenient_inverse() {
    assert_eq!(ContentKind::from_wire("plain"), ContentKind::Plain);
    assert_eq!(ContentKind::from_wire("markdown"), ContentKind::Markdown);
    assert_eq!(ContentKind::from_wire("???"), ContentKind::Markdown);
}

#[test]
fn contentkind_is_markdown() {
    assert!(ContentKind::Markdown.is_markdown());
    assert!(!ContentKind::Plain.is_markdown());
}

#[test]
fn error_display_nonempty() {
    let cases: Vec<String> = vec![
        IdError::InvalidLength.to_string(),
        IdError::InvalidChar.to_string(),
        IdError::NonCanonical.to_string(),
        TagError::Empty.to_string(),
        TagError::InvalidChar {
            input: "a b".into(),
            ch: ' ',
        }
        .to_string(),
        WikiError::EmptyTarget.to_string(),
        Error::from(IdError::InvalidChar).to_string(),
        Error::from(TagError::Empty).to_string(),
        Error::from(WikiError::EmptyTarget).to_string(),
    ];
    for msg in cases {
        assert!(!msg.is_empty(), "error Display must be non-empty");
    }
}

#[test]
fn error_from_conversions() {
    let id: Error = IdError::NonCanonical.into();
    assert!(matches!(id, Error::Id(IdError::NonCanonical)));
    let tag: Error = TagError::Empty.into();
    assert!(matches!(tag, Error::Tag(TagError::Empty)));
    let wiki: Error = WikiError::EmptyTarget.into();
    assert!(matches!(wiki, Error::Wiki(WikiError::EmptyTarget)));
}

#[test]
fn error_messages_are_exact() {
    assert_eq!(
        TagError::InvalidChar { input: "a b".into(), ch: ' ' }.to_string(),
        "tag \"a b\" contains invalid character ' '"
    );
    assert_eq!(Error::from(WikiError::EmptyTarget).to_string(), "wikilink target is empty");
}

#[test]
fn timestamp_roundtrip_millis() {
    let t = Timestamp::from_unix_millis(1_469_922_850_259);
    assert_eq!(t.as_unix_millis(), 1_469_922_850_259);
}

#[test]
fn timestamp_ordering() {
    assert!(Timestamp::from_unix_millis(1) < Timestamp::from_unix_millis(2));
}

#[test]
fn timestamp_unix_epoch_is_zero() {
    assert_eq!(Timestamp::unix_epoch().as_unix_millis(), 0);
}

#[test]
fn tag_trims_and_lowercases() {
    assert_eq!(Tag::new("  Rust  ").unwrap().as_str(), "rust");
}

#[test]
fn tag_strips_single_leading_hash() {
    assert_eq!(Tag::new("#rust").unwrap().as_str(), "rust");
}

#[test]
fn tag_allows_dash_underscore() {
    assert_eq!(Tag::new("a_b-c").unwrap().as_str(), "a_b-c");
}

#[test]
fn tag_allows_slash() {
    assert_eq!(Tag::new("Projeto/Note").unwrap().as_str(), "projeto/note");
}

#[test]
fn tag_equality_after_normalization() {
    assert_eq!(Tag::new("Rust").unwrap(), Tag::new("  rust ").unwrap());
}

#[test]
fn tag_ord_by_canonical_value() {
    assert!(Tag::new("Apple").unwrap() < Tag::new("zebra").unwrap());
}

#[test]
fn tag_set_collapses_duplicates() {
    let set: BTreeSet<Tag> = ["Rust", "rust", " RUST ", "#rust"]
        .iter()
        .map(|s| Tag::new(s).unwrap())
        .collect();
    assert_eq!(set.len(), 1);
}

#[test]
fn tag_display_has_no_hash() {
    assert_eq!(Tag::new("#rust").unwrap().to_string(), "rust");
}

#[test]
fn tag_rejects_empty() {
    assert_eq!(Tag::new("").unwrap_err(), TagError::Empty);
}

#[test]
fn tag_rejects_whitespace_only() {
    assert_eq!(Tag::new("   ").unwrap_err(), TagError::Empty);
}

#[test]
fn tag_rejects_only_hash() {
    assert_eq!(Tag::new("#").unwrap_err(), TagError::Empty);
}

#[test]
fn tag_rejects_internal_whitespace() {
    assert!(matches!(
        Tag::new("two words").unwrap_err(),
        TagError::InvalidChar { ch: ' ', .. }
    ));
}

#[test]
fn tag_rejects_punctuation() {
    for bad in ["bad!", "a,b", "a|b"] {
        assert!(matches!(
            Tag::new(bad).unwrap_err(),
            TagError::InvalidChar { .. }
        ));
    }
}

#[test]
fn tag_set_keeps_sorted_unique_members() {
    let mut set = TagSet::new();
    assert!(set.insert(Tag::new("zebra").unwrap()));
    assert!(set.insert(Tag::new("apple").unwrap()));
    assert!(!set.insert(Tag::new("#Apple").unwrap()));
    assert_eq!(set.len(), 2);
    assert_eq!(set.get(0).as_str(), "apple");
    assert_eq!(set.get(1).as_str(), "zebra");
    assert!(set.contains(&Tag::new("zebra").unwrap()));
    assert!(set.remove(&Tag::new("zebra").unwrap()));
    assert!(!set.contains(&Tag::new("zebra").unwrap()));
    assert_eq!(set.len(), 1);
}

#[test]
fn title_explicit_wins() {
    assert_eq!(
        derive_title(Some("Explicit"), "# Other", ContentKind::Markdown),
        "Explicit"
    );
}

#[test]
fn title_empty_explicit_falls_through() {
    assert_eq!(
        derive_title(Some("   "), "# Body Title", ContentKind::Markdown),
        "Body Title"
    );
}

#[test]
fn title_md_h1_atx() {
    assert_eq!(derive_title(None, "# Hello\nbody", ContentKind::Markdown), "Hello");
}

#[test]
fn title_md_h1_trims_inner_space() {
    assert_eq!(derive_title(None, "#   Spaced   \n", ContentKind::Markdown), "Spaced");
}

#[test]
fn title_md_h1_requires_space() {
    assert_eq!(derive_title(None, "#NoSpace\n", ContentKind::Markdown), "#NoSpace");
}

#[test]
fn title_md_only_level_one() {
    assert_eq!(derive_title(None, "## Sub\n# Real", ContentKind::Markdown), "Real");
    assert_eq!(derive_title(None, "## OnlySub", ContentKind::Markdown), "## OnlySub");
}

#[test]
fn title_first_nonempty_line() {
    assert_eq!(
        derive_title(None, "plain para\nmore", ContentKind::Markdown),
        "plain para"
    );
}

#[test]
fn title_skips_leading_blanks() {
    assert_eq!(derive_title(None, "\n\n  \n# Title", ContentKind::Markdown), "Title");
    assert_eq!(
        derive_title(None, "\n\n \nFirst real", ContentKind::Markdown),
        "First real"
    );
}

#[test]
fn title_handles_crlf() {
    assert_eq!(derive_title(None, "# Title\r\nbody", ContentKind::Markdown), "Title");
}

#[test]
fn title_plain_kind_ignores_hash() {
    assert_eq!(
        derive_title(None, "# not a heading", ContentKind::Plain),
        "# not a heading"
    );
}

#[test]
fn title_empty_body() {
    assert_eq!(derive_title(None, "", ContentKind::Markdown), "");
    assert_eq!(derive_title(None, "", ContentKind::Plain), "");
}

#[test]
fn title_whitespace_only_body() {
    assert_eq!(derive_title(None, "  \n\t\n", ContentKind::Markdown), "");
}

#[test]
fn noteid_parse_display_roundtrip() {
    let id: NoteId = CANONICAL.parse().unwrap();
    assert_eq!(id.to_string(), CANONICAL);
}

#[test]
fn noteid_display_is_26_chars() {
    let id = NoteId::from_parts(1_469_922_850_259, 0xDEAD_BEEF);
    assert_eq!(id.to_string().len(), 26);
}

#[test]
fn noteid_from_parts_recovers_timestamp() {
    let id = NoteId::from_parts(1_469_922_850_259, 0xDEAD_BEEF);
    assert_eq!(id.timestamp_ms(), 1_469_922_850_259);
}

#[test]
fn noteid_from_parts_masks_to_48_and_80_bits() {
    let id = NoteId::from_parts(u64::MAX, u128::MAX);
    assert_eq!(id.0, u128::MAX);
    let id = NoteId::from_parts(1, 2);
    assert_eq!(id.0, (1u128 << 80) + 2);
}

#[test]
fn noteid_from_str_trims_whitespace() {
    let id: NoteId = format!("  {CANONICAL}  ").parse().unwrap();
    assert_eq!(id.to_string(), CANONICAL);
}

#[test]
fn noteid_accepts_lowercase() {
    let id: NoteId = CANONICAL.to_lowercase().parse().unwrap();
    assert_eq!(id.to_string(), CANONICAL);
}

#[test]
fn noteid_rejects_empty() {
    assert_eq!("".parse::<NoteId>().unwrap_err(), IdError::InvalidLength);
}

#[test]
fn noteid_rejects_too_short() {
    assert_eq!(
        "0123456789ABCDEFGHJKMNPQR".parse::<NoteId>().unwrap_err(),
        IdError::InvalidLength
    );
}

#[test]
fn noteid_rejects_too_long() {
    assert_eq!(
        "01ARZ3NDEKTSV4RRFFQ69G5FAVX".parse::<NoteId>().unwrap_err(),
        IdError::InvalidLength
    );
}

#[test]
fn noteid_rejects_invalid_char() {
    assert_eq!(
        "0123456789ABCDEFGHJKMNPQRI".parse::<NoteId>().unwrap_err(),
        IdError::InvalidChar
    );
}

#[test]
fn noteid_rejects_noncanonical_overflow() {
    assert_eq!(
        "80000000000000000000000000".parse::<NoteId>().unwrap_err(),
        IdError::NonCanonical
    );
}

#[test]
fn noteid_time_ordering() {
    let a = NoteId::from_parts(1000, 0);
    let b = NoteId::from_parts(2000, 0);
    assert!(a < b);
}

#[test]
fn noteid_hash_dedup() {
    let id: NoteId = CANONICAL.parse().unwrap();
    let set: HashSet<NoteId> = [id, id].into_iter().collect();
    assert_eq!(set.len(), 1);
}

#[test]
fn wikitarget_id_form() {
    let t: WikiTarget = CANONICAL.parse().unwrap();
    assert!(matches!(t, WikiTarget::ById(_)));
}

#[test]
fn wikitarget_title_form() {
    let t: WikiTarget = "Some Title".parse().unwrap();
    assert_eq!(t, WikiTarget::ByTitle("Some Title".to_string()));
}

#[test]
fn wikitarget_idish_but_invalid_is_title() {
    let t: WikiTarget = "01ARZ".parse().unwrap();
    assert_eq!(t, WikiTarget::ByTitle("01ARZ".to_string()));
}

#[test]
fn wikitarget_overflow_is_title() {
    let t: WikiTarget = "80000000000000000000000000".parse().unwrap();
    assert_eq!(
        t,
        WikiTarget::ByTitle("80000000000000000000000000".to_string())
    );
}

#[test]
fn wikitarget_rejects_empty() {
    assert_eq!(
        "".parse::<WikiTarget>().unwrap_err(),
        WikiError::EmptyTarget
    );
    assert_eq!(
        "   ".parse::<WikiTarget>().unwrap_err(),
        WikiError::EmptyTarget
    );
}

#[test]
fn wikitarget_display_roundtrip() {
    for s in [CANONICAL, "Some Title"] {
        let t: WikiTarget = s.parse().unwrap();
        assert_eq!(t.to_string().parse::<WikiTarget>().unwrap(), t);
    }
}

#[test]
fn wikilink_title_only() {
    let l: WikiLink = "Some Title".parse().unwrap();
    assert_eq!(l.target, WikiTarget::ByTitle("Some Title".to_string()));
    assert!(l.display.is_none());
}

#[test]
fn wikilink_id_only() {
    let l: WikiLink = CANONICAL.parse().unwrap();
    assert!(matches!(l.target, WikiTarget::ById(_)));
    assert!(l.display.is_none());
}

#[test]
fn wikilink_target_pipe_display() {
    let l: WikiLink = "Some Title|click here".parse().unwrap();
    assert_eq!(l.target, WikiTarget::ByTitle("Some Title".to_string()));
    assert_eq!(l.display.as_deref(), Some("click here"));
    assert_eq!(l.to_string().parse::<WikiLink>().unwrap(), l);
}

#[test]
fn wikilink_id_pipe_display() {
    let l: WikiLink = format!("{CANONICAL}|Display Text").parse().unwrap();
    assert!(matches!(l.target, WikiTarget::ById(_)));
    assert_eq!(l.display.as_deref(), Some("Display Text"));
    assert_eq!(l.to_string().parse::<WikiLink>().unwrap(), l);
}

#[test]
fn wikilink_strips_outer_brackets() {
    let l: WikiLink = "[[Plain]]".parse().unwrap();
    assert_eq!(l.target, WikiTarget::ByTitle("Plain".to_string()));
    assert!(l.display.is_none());
}

#[test]
fn wikilink_empty_display_is_none() {
    let l: WikiLink = "Plain|".parse().unwrap();
    assert!(l.display.is_none());
}

#[test]
fn wikilink_empty_target_errors() {
    assert_eq!(
        "|Display".parse::<WikiLink>().unwrap_err(),
        WikiError::EmptyTarget
    );
    assert_eq!("|".parse::<WikiLink>().unwrap_err(), WikiError::EmptyTarget);
}

#[test]
fn wikilink_text_roundtrip_keeps_trimmed_display() {
    let l: WikiLink = "  Target  |  alias  ".parse().unwrap();
    assert_eq!(l.to_string(), "Target|alias");
    assert_eq!(l.to_string().parse::<WikiLink>().unwrap(), l);
}

fn sample(body: &str, kind: ContentKind) -> Note {
    let id = NoteId::from_parts(1000, 7);
    Note::new(
        id,
        body,
        kind,
        Timestamp::from_unix_millis(1000),
        Timestamp::from_unix_millis(2000),
    )
}

#[test]
fn note_effective_title_from_h1() {
    let n = sample("# Heading\nrest", ContentKind::Markdown);
    assert_eq!(n.effective_title(), "Heading");
}

#[test]
fn note_effective_title_explicit_overrides() {
    let mut n = sample("# Heading", ContentKind::Markdown);
    n.title = Some("Explicit".to_string());
    assert_eq!(n.effective_title(), "Explicit");
}

#[test]
fn note_display_title_falls_back_to_untitled() {
    let n = sample("   \n", ContentKind::Markdown);
    assert_eq!(n.display_title(), "(untitled)");
}

#[test]
fn public_surface_is_reachable() {
    let id_from_parts = NoteId::from_parts(1000, 42);
    let id_from_str: NoteId = CANONICAL.parse().unwrap();
    assert_ne!(id_from_parts, id_from_str);

    let tag = Tag::new("#Rust").unwrap();
    assert_eq!(tag.as_str(), "rust");

    let link: WikiLink = "Some Title|alias".parse().unwrap();
    assert_eq!(link.target, WikiTarget::ByTitle("Some Title".to_string()));

    let target: WikiTarget = CANONICAL.parse().unwrap();
    assert!(matches!(target, WikiTarget::ById(_)));

    assert_eq!(
        derive_title(None, "# Hello", ContentKind::Markdown),
        "Hello"
    );

    let mut note = Note::new(
        id_from_parts,
        "# Title\nbody",
        ContentKind::Markdown,
        Timestamp::from_unix_millis(1),
        Timestamp::from_unix_millis(2),
    );
    note.tags.insert(tag);
    assert_eq!(note.effective_title(), "Title");
}

#[test]
fn note_uses_typed_noteid() {
    let note = Note::new(
        NoteId::from_parts(1, 1),
        "x",
        ContentKind::Plain,
        Timestamp::unix_epoch(),
        Timestamp::unix_epoch(),
    );
    let _: NoteId = note.id;
}

#[test]
fn tag_converts_to_its_canonical_string() {
    let t = Tag::new("  #Rust-Lang ").unwrap();
    assert_eq!(t.clone().into_string(), t.as_str().to_owned());
    assert_eq!(String::from(t.clone()), "rust-lang");
    assert_eq!(String::from(t.clone()), t.as_str());
}

#[test]
fn decoded_value_is_accepted_only_with_its_canonical_text() {
    let id = NoteId::parse("01ARZ3NDEKTSV4RRFFQ69G5FAV").unwrap();
    assert_eq!(
        NoteId::from_decoded("01arz3ndektsv4rrffq69g5fav", id.0, "01ARZ3NDEKTSV4RRFFQ69G5FAV"),
        Ok(id)
    );
    assert_eq!(
        NoteId::from_decoded("80000000000000000000000000", 0, "00000000000000000000000000"),
        Err(IdError::NonCanonical)
    );
}

#[test]
fn id_text_variants_parse_back() {
    let id = NoteId::parse("01ARZ3NDEKTSV4RRFFQ69G5FAV").unwrap();
    let text = id.to_string();
    assert_eq!(NoteId::parse(&text), Ok(id));
    assert_eq!(NoteId::parse(&text.to_ascii_lowercase()), Ok(id));
    assert_eq!(NoteId::parse(&format!("  {text}  ")), Ok(id));
}

#[test]
fn tags_order_by_their_canonical_text() {
    let apple = Tag::new("Apple").unwrap();
    let zebra = Tag::new("zebra").unwrap();
    assert!(apple < zebra);
    assert_eq!(apple.partial_cmp(&zebra), apple.cmp(&zebra).into());
    assert_eq!(Tag::new("a_b-c").unwrap().as_str(), "a_b-c");
    assert!(Tag::new("ab").unwrap() > Tag::new("a").unwrap());
    assert_eq!(
        Tag::new("#Rust").unwrap().partial_cmp(&Tag::new("rust").unwrap()),
        Some(std::cmp::Ordering::Equal)
    );
}

#[test]
fn timestamps_order_by_their_milliseconds() {
    for (a, b) in [(1i64, 2i64), (-5, 3), (7, 7), (i64::MAX, i64::MIN)] {
        let (x, y) = (Timestamp::from_unix_millis(a), Timestamp::from_unix_millis(b));
        assert_eq!(x < y, a < b);
        assert_eq!(x == y, a == b);
        assert_eq!(x.partial_cmp(&y), Some(a.cmp(&b)));
        assert_eq!(x.cmp(&y), a.cmp(&b));
    }
}
