//! The decisions of the subcommands: how their inputs become store requests,
//! which note a reference settles on, and the lines they print.

use crate::cli::{EditArgs, NewArgs};
use crate::config::CliError;
use crate::content::ContentKind;
use crate::error::{debug_str, str_debug, tag_error_text, TagErrorSpec};
use crate::id::{ulid_text, NoteId};
use crate::interchange::ImportedNote;
use crate::link::{link_text, target_text, WikiLink};
use crate::model::{ImportNote, ImportOutcome, Link, NewNote, NotePatch};
use crate::note::{display_title_of, opt_view, Note};
use crate::num::{nat_digits, u64_to_text};
use crate::tag::{str_lowercase, tag_new_spec, to_lowercase, Tag, TagSet};
use crate::text::{chars_of, is_whitespace, push_char, str_eq, string_of, trim, trim_end, trim_range};
use crate::wikilink::{extract_wikilinks, link_views, markdown_events, wikilinks_of};
use vstd::prelude::*;

verus! {

/// The message of a tag argument that does not parse.
pub open spec fn invalid_tag_message(raw: Seq<char>, e: TagErrorSpec) -> Seq<char> {
    "invalid tag "@ + str_debug(raw) + ": "@ + tag_error_text(e)
}

/// The tags of a list of tag arguments, or the message of the first that
/// does not parse.
pub open spec fn parse_tag_list(raws: Seq<Seq<char>>) -> Result<Set<Seq<char>>, Seq<char>>
    decreases raws.len(),
{
    if raws.len() == 0 {
        Ok(Set::empty())
    } else {
        match parse_tag_list(raws.drop_last()) {
            Err(m) => Err(m),
            Ok(s) => match tag_new_spec(raws.last()) {
                Ok(t) => Ok(s.insert(t)),
                Err(e) => Err(invalid_tag_message(raws.last(), e)),
            },
        }
    }
}

/// The views of a list of strings.
pub open spec fn texts(v: Seq<String>) -> Seq<Seq<char>> {
    v.map_values(|s: String| s@)
}

proof fn lemma_tag_list_error(raws: Seq<Seq<char>>, i: int)
    requires
        0 <= i < raws.len(),
        parse_tag_list(raws.take(i + 1)) is Err,
    ensures
        parse_tag_list(raws) == parse_tag_list(raws.take(i + 1)),
    decreases raws.len() - i,
{
    if i + 1 < raws.len() {
        assert(raws.take(i + 2).drop_last() =~= raws.take(i + 1));
        lemma_tag_list_error(raws, i + 1);
    } else {
        assert(raws.take(i + 1) =~= raws);
    }
}

/// Parse tag arguments into a tag set (see `parse_tag_list`).
pub fn parse_tags(raw: &Vec<String>) -> (r: Result<TagSet, CliError>)
    ensures
        match parse_tag_list(texts(raw@)) {
            Ok(s) => r matches Ok(t) && t@ == s,
            Err(m) => r matches Err(e) && e.message@ == m,
        },
{
    let ghost rv = texts(raw@);
    let mut out = TagSet::new();
    let mut i: usize = 0;
    assert(rv.take(0) =~= Seq::<Seq<char>>::empty());
    while i < raw.len()
        invariant
            i <= raw.len(),
            rv == texts(raw@),
            parse_tag_list(rv.take(i as int)) == Ok::<Set<Seq<char>>, Seq<char>>(out@),
        decreases raw.len() - i,
    {
        assert(rv.take(i + 1).drop_last() =~= rv.take(i as int));
        assert(rv.take(i + 1).last() == raw@[i as int]@);
        match Tag::new(raw[i].as_str()) {
            Ok(t) => {
                let _ = out.insert(t);
            },
            Err(e) => {
                let mut m = "invalid tag ".to_owned();
                let q = debug_str(raw[i].as_str());
                m.append(q.as_str());
                m.append(": ");
                let t = e.to_string();
                m.append(t.as_str());
                proof {
                    lemma_tag_list_error(rv, i as int);
                }
                return Err(CliError { message: m });
            },
        }
        i += 1;
    }
    assert(rv.take(i as int) =~= rv);
    Ok(out)
}

/// A title trimmed, absent when nothing is left.
pub open spec fn normalized_title(t: Option<Seq<char>>) -> Option<Seq<char>> {
    match t {
        Some(x) => if trim(x).len() == 0 {
            None
        } else {
            Some(trim(x))
        },
        None => None,
    }
}

/// Normalize a user-supplied title: trim, treating empty-after-trim as
/// absent.
pub fn normalize_title(title: Option<String>) -> (r: Option<String>)
    ensures
        opt_view(r) == normalized_title(opt_view(title)),
{
    match title {
        Some(t) => {
            let v = chars_of(t.as_str());
            let (a, b) = trim_range(&v, 0, v.len());
            assert(v@.subrange(0, v@.len() as int) =~= v@);
            if a == b {
                None
            } else {
                Some(string_of(&v, a, b))
            }
        },
        None => None,
    }
}

/// A note with a blank body and no title is junk that is refused.
pub open spec fn empty_note(body: Seq<char>, title: Option<Seq<char>>) -> bool {
    trim(body).len() == 0 && title is None
}

/// Whether a note with this body and title would be junk.
pub fn is_empty_note(body: &str, title: Option<&str>) -> (r: bool)
    ensures
        r == empty_note(
            body@,
            match title {
                Some(t) => Some(t@),
                None => None,
            },
        ),
{
    let v = chars_of(body);
    let (a, b) = trim_range(&v, 0, v.len());
    assert(v@.subrange(0, v@.len() as int) =~= v@);
    a == b && title.is_none()
}

/// The text with trailing whitespace removed (`str::trim_end`).
pub fn trim_end_text(s: &str) -> (r: String)
    ensures
        r@ == trim_end(s@),
{
    let v = chars_of(s);
    let mut j = v.len();
    assert(v@.subrange(0, v@.len() as int) =~= v@);
    while j > 0 && is_whitespace(v[j - 1])
        invariant
            j <= v.len(),
            trim_end(v@) == trim_end(v@.subrange(0, j as int)),
        decreases j,
    {
        assert(v@.subrange(0, j as int).drop_last() =~= v@.subrange(0, j - 1));
        j -= 1;
    }
    assert(v@.subrange(0, v@.len() as int) =~= v@);
    string_of(&v, 0, j)
}

/// The git-style short id: the first 10 characters of the canonical id.
pub fn short_id(id: NoteId) -> (r: String)
    ensures
        r@ == ulid_text(id.0).take(10),
{
    let t = id.to_string();
    let v = chars_of(t.as_str());
    string_of(&v, 0, 10)
}

/// A note's tags with `add` added and then `remove` removed.
pub fn edit_tags(current: TagSet, add: &TagSet, remove: &TagSet) -> (r: TagSet)
    ensures
        r@ == current@.union(add@).difference(remove@),
{
    let mut tags = current;
    let ghost start = tags@;
    let n = add.len();
    let mut i: usize = 0;
    while i < n
        invariant
            i <= n == add.listing().len(),
            tags@ == start.union(add.listing().take(i as int).to_set()),
        decreases n - i,
    {
        let t = add.get(i).duplicate();
        let _ = tags.insert(t);
        assert(add.listing().take(i + 1) =~= add.listing().take(i as int).push(add.listing()[i as int]));
        assert(tags@ =~= start.union(add.listing().take(i + 1).to_set())) by {
            assert forall|x: Seq<char>| add.listing().take(i + 1).to_set().contains(x) <==> (add.listing().take(i as int).to_set().contains(x) || x == add.listing()[i as int]) by {
                let l = add.listing().take(i as int);
                if l.push(add.listing()[i as int]).contains(x) {
                    let k = choose|k: int| 0 <= k < l.len() + 1 && l.push(add.listing()[i as int])[k] == x;
                    if k < l.len() {
                        assert(l[k] == x);
                    }
                }
                if l.contains(x) {
                    let k = choose|k: int| 0 <= k < l.len() && l[k] == x;
                    assert(l.push(add.listing()[i as int])[k] == x);
                }
                if x == add.listing()[i as int] {
                    assert(l.push(add.listing()[i as int])[l.len() as int] == x);
                }
            }
        }
        i += 1;
    }
    assert(add.listing().take(n as int) =~= add.listing());
    let ghost middle = tags@;
    let m = remove.len();
    let mut j: usize = 0;
    while j < m
        invariant
            j <= m == remove.listing().len(),
            tags@ == middle.difference(remove.listing().take(j as int).to_set()),
        decreases m - j,
    {
        let _ = tags.remove(remove.get(j));
        assert(remove.listing().take(j + 1) =~= remove.listing().take(j as int).push(remove.listing()[j as int]));
        assert(tags@ =~= middle.difference(remove.listing().take(j + 1).to_set())) by {
            assert forall|x: Seq<char>| remove.listing().take(j + 1).to_set().contains(x) <==> (remove.listing().take(j as int).to_set().contains(x) || x == remove.listing()[j as int]) by {
                let l = remove.listing().take(j as int);
                if l.push(remove.listing()[j as int]).contains(x) {
                    let k = choose|k: int| 0 <= k < l.len() + 1 && l.push(remove.listing()[j as int])[k] == x;
                    if k < l.len() {
                        assert(l[k] == x);
                    }
                }
                if l.contains(x) {
                    let k = choose|k: int| 0 <= k < l.len() && l[k] == x;
                    assert(l.push(remove.listing()[j as int])[k] == x);
                }
                if x == remove.listing()[j as int] {
                    assert(l.push(remove.listing()[j as int])[l.len() as int] == x);
                }
            }
        }
        j += 1;
    }
    assert(remove.listing().take(m as int) =~= remove.listing());
    assert(tags@ =~= start.union(add@).difference(remove@));
    tags
}

/// Where a command takes a note body from.
#[derive(Debug, Clone, PartialEq, Eq)]
pub enum BodySource {
    /// The `--message` text.
    Message(String),
    /// The note's current body (an edit of metadata only).
    Current,
    /// Standard input, which is not a terminal.
    Stdin,
    /// The editor, on a terminal.
    Editor,
}

/// The body source of `new`: the message, else piped stdin, else the editor.
pub fn new_body_source(args: &NewArgs, stdin_is_terminal: bool) -> (r: BodySource)
    ensures
        match args.message {
            Some(m) => r matches BodySource::Message(x) && x@ == m@,
            None => r == (if stdin_is_terminal {
                BodySource::Editor
            } else {
                BodySource::Stdin
            }),
        },
{
    match &args.message {
        Some(m) => BodySource::Message(m.clone()),
        None => if stdin_is_terminal {
            BodySource::Editor
        } else {
            BodySource::Stdin
        },
    }
}

/// Whether an edit changes metadata only: a title, tags or a kind switch.
pub open spec fn metadata_only(args: EditArgs) -> bool {
    args.title is Some || args.tags.len() > 0 || args.plain || args.markdown
}

/// The body source of `edit`: the message, else (for a metadata-only edit)
/// the current body, else piped stdin, else the editor.
pub fn edit_body_source(args: &EditArgs, stdin_is_terminal: bool) -> (r: BodySource)
    ensures
        match args.message {
            Some(m) => r matches BodySource::Message(x) && x@ == m@,
            None => r == (if metadata_only(*args) {
                BodySource::Current
            } else if stdin_is_terminal {
                BodySource::Editor
            } else {
                BodySource::Stdin
            }),
        },
{
    match &args.message {
        Some(m) => BodySource::Message(m.clone()),
        None => if args.title.is_some() || args.tags.len() > 0 || args.plain || args.markdown {
            BodySource::Current
        } else if stdin_is_terminal {
            BodySource::Editor
        } else {
            BodySource::Stdin
        },
    }
}

/// The wikilinks of a body (what every write stores alongside it).
pub open spec fn body_links(body: Seq<char>) -> Seq<crate::link::LinkSpec> {
    wikilinks_of(body, markdown_events(body))
}

/// The create request of `new`: the body with trailing whitespace removed,
/// the title normalized, plain or markdown, the tags, and the body's links.
/// A blank body without a title is refused.
pub fn new_note_request(title: Option<String>, body: &str, plain: bool, tags: TagSet) -> (r: Result<NewNote, CliError>)
    ensures
        ({
            let b = trim_end(body@);
            let t = normalized_title(opt_view(title));
            if empty_note(b, t) {
                r matches Err(e) && e.message@
                    == "refusing to create an empty note (give a title, --message, or a body)"@
            } else {
                r matches Ok(n) && n.body@ == b && opt_view(n.title) == t && n.content_kind == (if plain {
                    ContentKind::Plain
                } else {
                    ContentKind::Markdown
                }) && n.tags@ == tags@ && link_views(n.links@) == body_links(b)
            }
        }),
{
    let body = trim_end_text(body);
    let title = normalize_title(title);
    let t = match &title {
        Some(t) => Some(t.as_str()),
        None => None,
    };
    if is_empty_note(body.as_str(), t) {
        return Err(
            CliError {
                message: "refusing to create an empty note (give a title, --message, or a body)".to_owned(),
            },
        );
    }
    let kind = if plain {
        ContentKind::Plain
    } else {
        ContentKind::Markdown
    };
    let links = extract_wikilinks(body.as_str());
    Ok(NewNote { title, links, body, content_kind: kind, tags })
}

/// The update request of `edit`: the body with trailing whitespace removed;
/// the given title normalized (an empty one clears it) or the current one;
/// plain or markdown when asked, else the current kind; the given tags or
/// the current ones; and the body's links. A tag that does not parse is an
/// error, then a blank body without a title is refused.
pub fn edit_patch(args: &EditArgs, current: &Note, body: &str) -> (r: Result<NotePatch, CliError>)
    ensures
        ({
            let b = trim_end(body@);
            let t = match args.title {
                Some(x) => normalized_title(Some(x@)),
                None => opt_view(current.title),
            };
            let k = if args.plain {
                ContentKind::Plain
            } else if args.markdown {
                ContentKind::Markdown
            } else {
                current.content_kind
            };
            if args.tags.len() > 0 && parse_tag_list(texts(args.tags@)) is Err {
                r matches Err(e) && e.message@ == parse_tag_list(texts(args.tags@))->Err_0
            } else if empty_note(b, t) {
                r matches Err(e) && e.message@
                    == "refusing to leave an empty note (give a title, --message, or a body)"@
            } else {
                r matches Ok(p) && p.body@ == b && opt_view(p.title) == t && p.content_kind == k
                    && p.tags@ == (if args.tags.len() == 0 {
                    current.tags@
                } else {
                    parse_tag_list(texts(args.tags@))->Ok_0
                }) && link_views(p.links@) == body_links(b)
            }
        }),
{
    let body = trim_end_text(body);
    let title = match &args.title {
        Some(t) => normalize_title(Some(t.clone())),
        None => match &current.title {
            Some(t) => Some(t.clone()),
            None => None,
        },
    };
    let content_kind = if args.plain {
        ContentKind::Plain
    } else if args.markdown {
        ContentKind::Markdown
    } else {
        current.content_kind
    };
    let tags = if args.tags.len() == 0 {
        current.tags.duplicate()
    } else {
        match parse_tags(&args.tags) {
            Ok(t) => t,
            Err(e) => {
                return Err(e);
            },
        }
    };
    let t = match &title {
        Some(t) => Some(t.as_str()),
        None => None,
    };
    if is_empty_note(body.as_str(), t) {
        return Err(
            CliError {
                message: "refusing to leave an empty note (give a title, --message, or a body)".to_owned(),
            },
        );
    }
    let links = extract_wikilinks(body.as_str());
    Ok(NotePatch { title, content_kind, tags, links, body })
}

/// The update of `tag`: `None` (only show the tags) when nothing is added or
/// removed; otherwise the note's tags with the added ones and without the
/// removed ones, the rest of the note unchanged and its body's links kept. A
/// tag that does not parse is an error.
pub fn tag_patch(current: &Note, add: &Vec<String>, remove: &Vec<String>) -> (r: Result<Option<NotePatch>, CliError>)
    ensures
        if add.len() == 0 && remove.len() == 0 {
            r matches Ok(None)
        } else if parse_tag_list(texts(add@)) is Err {
            r matches Err(e) && e.message@ == parse_tag_list(texts(add@))->Err_0
        } else if parse_tag_list(texts(remove@)) is Err {
            r matches Err(e) && e.message@ == parse_tag_list(texts(remove@))->Err_0
        } else {
            r matches Ok(Some(p)) && p.body@ == current.body@ && opt_view(p.title) == opt_view(
                current.title,
            ) && p.content_kind == current.content_kind && p.tags@ == current.tags@.union(
                parse_tag_list(texts(add@))->Ok_0,
            ).difference(parse_tag_list(texts(remove@))->Ok_0) && link_views(p.links@)
                == body_links(current.body@)
        },
{
    if add.len() == 0 && remove.len() == 0 {
        return Ok(None);
    }
    let a = match parse_tags(add) {
        Ok(t) => t,
        Err(e) => {
            return Err(e);
        },
    };
    let rm = match parse_tags(remove) {
        Ok(t) => t,
        Err(e) => {
            return Err(e);
        },
    };
    let tags = edit_tags(current.tags.duplicate(), &a, &rm);
    let title = match &current.title {
        Some(t) => Some(t.clone()),
        None => None,
    };
    let links = extract_wikilinks(current.body.as_str());
    Ok(Some(NotePatch { title, content_kind: current.content_kind, tags, links, body: current.body.clone() }))
}

/// The body the editor starts with when the browser creates a note: the
/// title as a level-one heading and a blank line, or nothing.
pub fn editor_seed(title: &str) -> (r: String)
    ensures
        r@ == (if title@.len() == 0 {
            Seq::<char>::empty()
        } else {
            "# "@ + title@ + "\n\n"@
        }),
{
    let v = chars_of(title);
    if v.len() == 0 {
        String::new()
    } else {
        let mut s = "# ".to_owned();
        s.append(title);
        s.append("\n\n");
        s
    }
}

/// The create request for a note written from the browser: untitled (the
/// heading in the body names it), markdown, no tags; `None` when the edited
/// body is blank.
pub fn editor_new_note(body: &str) -> (r: Option<NewNote>)
    ensures
        ({
            let b = trim_end(body@);
            if trim(b).len() == 0 {
                r is None
            } else {
                r matches Some(n) && n.body@ == b && n.title is None && n.content_kind
                    == ContentKind::Markdown && n.tags@ == Set::<Seq<char>>::empty() && link_views(
                    n.links@,
                ) == body_links(b)
            }
        }),
{
    let body = trim_end_text(body);
    if is_empty_note(body.as_str(), None) {
        return None;
    }
    let links = extract_wikilinks(body.as_str());
    Some(NewNote { title: None, links, body, content_kind: ContentKind::Markdown, tags: TagSet::new() })
}

/// The update request for a body edited from the browser, over the note as
/// re-read afterwards (so concurrent metadata changes are kept); `None` when
/// the edited body is blank and the note has no title.
pub fn editor_patch(fresh: &Note, body: &str) -> (r: Option<NotePatch>)
    ensures
        ({
            let b = trim_end(body@);
            if empty_note(b, opt_view(fresh.title)) {
                r is None
            } else {
                r matches Some(p) && p.body@ == b && opt_view(p.title) == opt_view(fresh.title)
                    && p.content_kind == fresh.content_kind && p.tags@ == fresh.tags@ && link_views(
                    p.links@,
                ) == body_links(b)
            }
        }),
{
    let body = trim_end_text(body);
    let t = match &fresh.title {
        Some(t) => Some(t.as_str()),
        None => None,
    };
    if is_empty_note(body.as_str(), t) {
        return None;
    }
    let title = match &fresh.title {
        Some(t) => Some(t.clone()),
        None => None,
    };
    let links = extract_wikilinks(body.as_str());
    Some(NotePatch { title, content_kind: fresh.content_kind, tags: fresh.tags.duplicate(), links, body })
}

/// The import request of a file's note: its fields, the title normalized and
/// the body's links. A blank body without a title is refused.
pub fn import_request(
    id: Option<NoteId>,
    title: Option<String>,
    body: String,
    content_kind: ContentKind,
    tags: TagSet,
    created: Option<crate::time::Timestamp>,
    updated: Option<crate::time::Timestamp>,
    path: &str,
) -> (r: Result<ImportNote, CliError>)
    ensures
        ({
            let t = normalized_title(opt_view(title));
            if empty_note(body@, t) {
                r matches Err(e) && e.message@ == "refusing to import an empty note: "@ + path@
            } else {
                r matches Ok(n) && n.id == id && opt_view(n.title) == t && n.body@ == body@
                    && n.content_kind == content_kind && n.tags@ == tags@ && n.created == created
                    && n.updated == updated && link_views(n.links@) == body_links(body@)
            }
        }),
{
    let title = normalize_title(title);
    let t = match &title {
        Some(t) => Some(t.as_str()),
        None => None,
    };
    if is_empty_note(body.as_str(), t) {
        let mut m = "refusing to import an empty note: ".to_owned();
        m.append(path);
        return Err(CliError { message: m });
    }
    let links = extract_wikilinks(body.as_str());
    Ok(ImportNote { id, title, body, content_kind, tags, created, updated, links })
}

/// The import request of a markdown file (see `import_request`).
pub fn import_request_from_markdown(imported: ImportedNote, path: &str) -> (r: Result<ImportNote, CliError>)
    ensures
        ({
            let t = normalized_title(opt_view(imported.title));
            if empty_note(imported.body@, t) {
                r matches Err(e) && e.message@ == "refusing to import an empty note: "@ + path@
            } else {
                r matches Ok(n) && n.id == imported.id && opt_view(n.title) == t && n.body@
                    == imported.body@ && n.content_kind == imported.content_kind && n.tags@
                    == imported.tags@ && n.created == imported.created && n.updated
                    == imported.updated && link_views(n.links@) == body_links(imported.body@)
            }
        }),
{
    import_request(
        imported.id,
        imported.title,
        imported.body,
        imported.content_kind,
        imported.tags,
        imported.created,
        imported.updated,
        path,
    )
}

/// The import request of a JSON file's note: its id and timestamps are kept
/// (see `import_request`).
pub fn import_request_from_note(note: Note, path: &str) -> (r: Result<ImportNote, CliError>)
    ensures
        ({
            let t = normalized_title(opt_view(note.title));
            if empty_note(note.body@, t) {
                r matches Err(e) && e.message@ == "refusing to import an empty note: "@ + path@
            } else {
                r matches Ok(n) && n.id == Some(note.id) && opt_view(n.title) == t && n.body@
                    == note.body@ && n.content_kind == note.content_kind && n.tags@ == note.tags@
                    && n.created == Some(note.created) && n.updated == Some(note.updated)
                    && link_views(n.links@) == body_links(note.body@)
            }
        }),
{
    import_request(
        Some(note.id),
        note.title,
        note.body,
        note.content_kind,
        note.tags,
        Some(note.created),
        Some(note.updated),
        path,
    )
}

/// The counts of an import batch.
#[derive(Debug, Clone, Copy, PartialEq, Eq, Structural)]
pub struct ImportTally {
    pub created: usize,
    pub updated: usize,
    pub failed: usize,
}

/// How many of the outcomes are `o` (`None` is a failed file).
pub open spec fn count_of(outcomes: Seq<Option<ImportOutcome>>, o: Option<ImportOutcome>) -> nat
    decreases outcomes.len(),
{
    if outcomes.len() == 0 {
        0
    } else {
        count_of(outcomes.drop_last(), o) + if outcomes.last() == o {
            1nat
        } else {
            0nat
        }
    }
}

proof fn lemma_count_bound(outcomes: Seq<Option<ImportOutcome>>, o: Option<ImportOutcome>)
    ensures
        count_of(outcomes, o) <= outcomes.len(),
    decreases outcomes.len(),
{
    if outcomes.len() > 0 {
        lemma_count_bound(outcomes.drop_last(), o);
    }
}

impl ImportTally {
    /// Count the outcomes of a batch: created, updated, and failed files.
    pub fn of(outcomes: &Vec<Option<ImportOutcome>>) -> (r: Self)
        ensures
            r.created == count_of(outcomes@, Some(ImportOutcome::Created)),
            r.updated == count_of(outcomes@, Some(ImportOutcome::Updated)),
            r.failed == count_of(outcomes@, None),
    {
        let mut t = ImportTally { created: 0, updated: 0, failed: 0 };
        let mut i: usize = 0;
        while i < outcomes.len()
            invariant
                i <= outcomes.len(),
                t.created == count_of(outcomes@.take(i as int), Some(ImportOutcome::Created)),
                t.updated == count_of(outcomes@.take(i as int), Some(ImportOutcome::Updated)),
                t.failed == count_of(outcomes@.take(i as int), None),
            decreases outcomes.len() - i,
        {
            proof {
                assert(outcomes@.take(i + 1).drop_last() =~= outcomes@.take(i as int));
                lemma_count_bound(outcomes@.take(i as int), Some(ImportOutcome::Created));
                lemma_count_bound(outcomes@.take(i as int), Some(ImportOutcome::Updated));
                lemma_count_bound(outcomes@.take(i as int), None);
            }
            match outcomes[i] {
                Some(ImportOutcome::Created) => t.created = t.created + 1,
                Some(ImportOutcome::Updated) => t.updated = t.updated + 1,
                None => t.failed = t.failed + 1,
            }
            i += 1;
        }
        assert(outcomes@.take(i as int) =~= outcomes@);
        t
    }

    /// Whether the batch succeeded: no file failed.
    pub fn succeeded(&self) -> (r: bool)
        ensures
            r == (self.failed == 0),
    {
        self.failed == 0
    }

    /// The summary line: `imported C new, U updated, F failed`.
    pub fn summary(&self) -> (r: String)
        ensures
            r@ == "imported "@ + nat_digits(self.created as nat) + " new, "@ + nat_digits(
                self.updated as nat,
            ) + " updated, "@ + nat_digits(self.failed as nat) + " failed"@,
    {
        let mut s = "imported ".to_owned();
        let c = u64_to_text(self.created as u64);
        s.append(c.as_str());
        s.append(" new, ");
        let u = u64_to_text(self.updated as u64);
        s.append(u.as_str());
        s.append(" updated, ");
        let f = u64_to_text(self.failed as u64);
        s.append(f.as_str());
        s.append(" failed");
        s
    }
}

/// The imported notes whose links are re-resolved once the whole batch is
/// in: none for a single file (nothing later to refer to), else every note
/// that has links.
pub fn relink_indices(imported: &Vec<(NoteId, Vec<WikiLink>)>) -> (r: Vec<usize>)
    ensures
        imported.len() <= 1 ==> r.len() == 0,
        imported.len() > 1 ==> (forall|k: int| 0 <= k < r.len() ==> #[trigger] r@[k] < imported.len() && imported@[r@[k] as int].1.len() > 0)
            && (forall|j: int| 0 <= j < imported.len() && imported@[j].1.len() > 0 ==> r@.contains(j as usize))
            && (forall|a: int, b: int| 0 <= a < b < r.len() ==> r@[a] < r@[b]),
{
    let mut out: Vec<usize> = Vec::new();
    if imported.len() <= 1 {
        return out;
    }
    let mut i: usize = 0;
    while i < imported.len()
        invariant
            i <= imported.len(),
            forall|k: int| 0 <= k < out.len() ==> #[trigger] out@[k] < i && imported@[out@[k] as int].1.len() > 0,
            forall|j: int| 0 <= j < i && imported@[j].1.len() > 0 ==> out@.contains(j as usize),
            forall|a: int, b: int| 0 <= a < b < out.len() ==> out@[a] < out@[b],
        decreases imported.len() - i,
    {
        if imported[i].1.len() > 0 {
            let ghost before = out@;
            out.push(i);
            proof {
                assert forall|j: int| 0 <= j < i + 1 && imported@[j].1.len() > 0 implies out@.contains(j as usize) by {
                    if j < i {
                        assert(before.contains(j as usize));
                        let k = choose|k: int| 0 <= k < before.len() && before[k] == j as usize;
                        assert(out@[k] == j as usize);
                    } else {
                        assert(out@[out.len() - 1] == j as usize);
                    }
                }
            }
        }
        i += 1;
    }
    out
}

/// A note a reference settled on, or why none was.
#[derive(Debug, Clone)]
pub enum Resolved {
    /// Exactly one note (a direct match, or picked from several).
    Found(Note),
    /// Several matches and none picked (a numbered list was printed).
    Ambiguous,
    /// The user aborted the picker.
    Aborted,
}

/// Where a command goes after resolving a reference: on with a note, or out
/// with a success or failure exit.
#[derive(Debug, Clone)]
pub enum Flow {
    Continue(Note),
    Exit { success: bool },
}

impl Resolved {
    /// The note to act on, or the exit: an abort is a clean exit, an
    /// ambiguous reference a failing one.
    pub fn into_flow(self) -> (r: Flow)
        ensures
            match self {
                Resolved::Found(n) => r == Flow::Continue(n),
                Resolved::Aborted => r == (Flow::Exit { success: true }),
                Resolved::Ambiguous => r == (Flow::Exit { success: false }),
            },
    {
        match self {
            Resolved::Found(n) => Flow::Continue(n),
            Resolved::Aborted => Flow::Exit { success: true },
            Resolved::Ambiguous => Flow::Exit { success: false },
        }
    }
}

/// The answer of the interactive picker.
#[derive(Debug, Clone)]
pub enum Pick {
    /// The user selected this candidate.
    Chosen(Note),
    /// The user aborted the picker.
    Aborted,
    /// `fzf` is not installed; fall back to a numbered list.
    NoFzf,
}

/// Several candidates settle on the picked one; without a picker answer (not
/// a terminal, or no `fzf`) the reference is ambiguous.
pub fn settle_pick(pick: Option<Pick>) -> (r: Resolved)
    ensures
        match pick {
            Some(Pick::Chosen(n)) => r matches Resolved::Found(x) && x == n,
            Some(Pick::Aborted) => r matches Resolved::Aborted,
            _ => r matches Resolved::Ambiguous,
        },
{
    match pick {
        Some(Pick::Chosen(n)) => Resolved::Found(n),
        Some(Pick::Aborted) => Resolved::Aborted,
        _ => Resolved::Ambiguous,
    }
}

/// The candidates of a required reference: none is an error, one is the
/// note, several are to be chosen from.
pub fn settle_candidates(reference: &str, candidates: Vec<Note>) -> (r: Result<Result<Note, Vec<Note>>, CliError>)
    ensures
        candidates.len() == 0 ==> (r matches Err(e) && e.message@ == "no note matches "@ + str_debug(
            reference@,
        )),
        candidates.len() == 1 ==> (r matches Ok(Ok(n)) && n == candidates@[0]),
        candidates.len() > 1 ==> (r matches Ok(Err(v)) && v@ == candidates@),
{
    if candidates.len() == 0 {
        let mut m = "no note matches ".to_owned();
        let q = debug_str(reference);
        m.append(q.as_str());
        return Err(CliError { message: m });
    }
    if candidates.len() == 1 {
        let mut c = candidates;
        let n = c.remove(0);
        return Ok(Ok(n));
    }
    Ok(Err(candidates))
}

/// The answer of a user to the delete prompt: yes for `y` or `yes` in any
/// case, surrounding whitespace ignored.
pub fn confirms(answer: &str) -> (r: bool)
    ensures
        r == (str_lowercase(trim(answer@)) == "y"@ || str_lowercase(trim(answer@)) == "yes"@),
{
    let v = chars_of(answer);
    let (a, b) = trim_range(&v, 0, v.len());
    assert(v@.subrange(0, v@.len() as int) =~= v@);
    let t = string_of(&v, a, b);
    let l = to_lowercase(t.as_str());
    str_eq(l.as_str(), "y") || str_eq(l.as_str(), "yes")
}

/// The resolved ids in order of first occurrence, each once.
pub open spec fn distinct_resolved(resolved: Seq<Option<NoteId>>) -> Seq<NoteId>
    decreases resolved.len(),
{
    if resolved.len() == 0 {
        Seq::empty()
    } else {
        let prev = distinct_resolved(resolved.drop_last());
        match resolved.last() {
            Some(id) => if prev.contains(id) {
                prev
            } else {
                prev.push(id)
            },
            None => prev,
        }
    }
}

/// The distinct resolved ids in order: the notes the `links` picker offers.
pub fn unique_resolved(resolved: &Vec<Option<NoteId>>) -> (r: Vec<NoteId>)
    ensures
        r@ == distinct_resolved(resolved@),
        forall|a: int, b: int| 0 <= a < b < r.len() ==> r@[a] != r@[b],
        forall|k: int| 0 <= k < r.len() ==> resolved@.contains(Some(#[trigger] r@[k])),
        forall|j: int| 0 <= j < resolved.len() && resolved@[j] is Some ==> r@.contains(#[trigger] resolved@[j]->Some_0),
{
    let mut out: Vec<NoteId> = Vec::new();
    let mut i: usize = 0;
    while i < resolved.len()
        invariant
            i <= resolved.len(),
            forall|a: int, b: int| 0 <= a < b < out.len() ==> out@[a] != out@[b],
            forall|k: int| 0 <= k < out.len() ==> resolved@.contains(Some(#[trigger] out@[k])),
            forall|j: int| 0 <= j < i && resolved@[j] is Some ==> out@.contains(#[trigger] resolved@[j]->Some_0),
            out@ == distinct_resolved(resolved@.take(i as int)),
        decreases resolved.len() - i,
    {
        assert(resolved@.take(i + 1).drop_last() =~= resolved@.take(i as int));
        assert(resolved@.take(i + 1).last() == resolved@[i as int]);
        if let Some(id) = resolved[i] {
            let mut seen = false;
            let mut j: usize = 0;
            while j < out.len()
                invariant
                    j <= out.len(),
                    seen ==> out@.contains(id),
                    !seen ==> forall|m: int| 0 <= m < j ==> out@[m] != id,
                decreases out.len() - j,
            {
                if out[j].0 == id.0 {
                    seen = true;
                    assert(out@[j as int] == id);
                }
                j += 1;
            }
            if !seen {
                let ghost before = out@;
                out.push(id);
                proof {
                    assert(resolved@[i as int] == Some(id));
                    assert forall|j2: int| 0 <= j2 < i + 1 && resolved@[j2] is Some implies out@.contains(#[trigger] resolved@[j2]->Some_0) by {
                        if j2 < i {
                            let x = resolved@[j2]->Some_0;
                            assert(before.contains(x));
                            let k = choose|k: int| 0 <= k < before.len() && before[k] == x;
                            assert(out@[k] == x);
                        } else {
                            assert(out@[out.len() - 1] == id);
                        }
                    }
                }
            }
        }
        i += 1;
    }
    assert(resolved@.take(i as int) =~= resolved@);
    out
}

/// A number right-aligned in two columns (`{:>2}`).
pub open spec fn pad2(n: nat) -> Seq<char> {
    if n < 10 {
        seq![' '] + nat_digits(n)
    } else {
        nat_digits(n)
    }
}

/// A listing line: short id, two spaces, display title.
pub fn list_line(note: &Note) -> (r: String)
    ensures
        r@ == ulid_text(note.id.0).take(10) + "  "@ + display_title_of(*note),
{
    let mut s = short_id(note.id);
    s.append("  ");
    let t = note.display_title();
    s.append(t.as_str());
    s
}

/// A line of the numbered list of ambiguous matches (`i` counts from zero).
pub fn numbered_line(i: u64, note: &Note) -> (r: String)
    requires
        i < u64::MAX,
    ensures
        r@ == "  "@ + pad2((i + 1) as nat) + ". "@ + ulid_text(note.id.0).take(10) + "  "@
            + display_title_of(*note),
{
    let mut s = "  ".to_owned();
    let ghost start = s@;
    if i + 1 < 10 {
        s.append(" ");
        proof {
            reveal_strlit(" ");
        }
    }
    assert(s@ =~= start + if i + 1 < 10 {
        seq![' ']
    } else {
        Seq::<char>::empty()
    });
    let n = u64_to_text(i + 1);
    s.append(n.as_str());
    s.append(". ");
    let id = short_id(note.id);
    s.append(id.as_str());
    s.append("  ");
    let t = note.display_title();
    s.append(t.as_str());
    s
}

impl Link {
    /// The text the link displays as: `target` or `target|display`.
    pub fn to_string(&self) -> (r: String)
        ensures
            r@ == match self.display {
                Some(d) => target_text(self.target@) + "|"@ + d@,
                None => target_text(self.target@),
            },
    {
        let mut out = self.target.to_string();
        match &self.display {
            Some(d) => {
                out.append("|");
                out.append(d.as_str());
            },
            None => {},
        }
        out
    }
}

/// A line of `links`: the link in brackets, and the short id it resolves to
/// or `(dangling)`.
pub fn link_line(link: &Link, resolved: Option<NoteId>) -> (r: String)
    ensures
        r@ == "[["@ + match link.display {
            Some(d) => target_text(link.target@) + "|"@ + d@,
            None => target_text(link.target@),
        } + "]]  ->  "@ + match resolved {
            Some(id) => ulid_text(id.0).take(10),
            None => "(dangling)"@,
        },
{
    let mut s = "[[".to_owned();
    let l = link.to_string();
    s.append(l.as_str());
    s.append("]]  ->  ");
    match resolved {
        Some(id) => {
            let t = short_id(id);
            s.append(t.as_str());
        },
        None => {
            s.append("(dangling)");
        },
    }
    s
}

} // verus!
