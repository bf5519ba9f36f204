//! Markdown interchange: a note as markdown with a `key: value` frontmatter
//! header, and back.
//!
//! ```text
//! ---
//! id: 01ARZ3NDEKTSV4RRFFQ69G5FAV
//! title: Some Title
//! tags: cli, rust
//! content_kind: markdown
//! created: 1469922850259
//! updated: 1469922850259
//! ---
//! <body>
//! ```
//! `title`/`tags` are omitted when absent/empty.

use crate::content::{kind_from_wire, lemma_wire_roundtrip, wire_name, ContentKind};
use crate::error::{debug_str, IdError, TagError, TagErrorSpec};
use crate::id::{crockford_upper, parse_id, ulid_text, NoteId};
use crate::note::{opt_view, Note};
use crate::num::{
    i64_to_text, int_text, is_digit, lemma_i64_text_roundtrip, lemma_int_text_shape, parse_i64,
    parse_i64_text,
};
use crate::tag::{
    is_canonical_tag, lemma_canonical_tag_new, lemma_tag_char, str_lowercase, tag_new_spec, Tag,
    TagSet,
};
use crate::text::{
    chars_of, find_char, find_char_in, is_ws, lemma_find_char, lemma_find_char_unique,
    lemma_trim_end_shape, lemma_trim_noop, push_char, string_of, trim, trim_range, trim_start,
};
use crate::time::Timestamp;
use vstd::prelude::*;

verus! {

/// CRLF and lone CR line endings turned into LF.
pub open spec fn normalize_nl(s: Seq<char>) -> Seq<char>
    decreases s.len(),
{
    if s.len() == 0 {
        s
    } else if s[0] == '\r' && s.len() > 1 && s[1] == '\n' {
        seq!['\n'] + normalize_nl(s.skip(2))
    } else if s[0] == '\r' {
        seq!['\n'] + normalize_nl(s.skip(1))
    } else {
        seq![s[0]] + normalize_nl(s.skip(1))
    }
}

/// A frontmatter scalar with each CR and LF replaced by a space, so the
/// `key: value` line stays single-line.
pub open spec fn scalar_text(s: Seq<char>) -> Seq<char> {
    s.map_values(|c: char| if c == '\r' || c == '\n' { ' ' } else { c })
}

/// The fence line `---` with its newline.
pub open spec fn fence() -> Seq<char> {
    seq!['-', '-', '-', '\n']
}

/// A newline followed by the fence line.
pub open spec fn close_fence() -> Seq<char> {
    seq!['\n', '-', '-', '-', '\n']
}

/// Whether `s` starts with `p`.
pub open spec fn starts_with(s: Seq<char>, p: Seq<char>) -> bool {
    s.len() >= p.len() && s.take(p.len() as int) == p
}

/// Whether `p` occurs in `s` at offset `k`.
pub open spec fn occurs_at(s: Seq<char>, p: Seq<char>, k: int) -> bool {
    0 <= k && k + p.len() <= s.len() && s.subrange(k, k + p.len()) == p
}

/// Offset of the first occurrence of the closing fence at or after `i`.
pub open spec fn find_close(s: Seq<char>, i: int) -> Option<int>
    decreases s.len() - i,
{
    if i < 0 || i + 5 > s.len() {
        None
    } else if occurs_at(s, close_fence(), i) {
        Some(i)
    } else {
        find_close(s, i + 1)
    }
}

/// `find_close` finds the first occurrence at or after `i`.
pub proof fn lemma_find_close(s: Seq<char>, i: int)
    requires
        0 <= i,
    ensures
        match find_close(s, i) {
            Some(k) => i <= k && k + 5 <= s.len() && occurs_at(s, close_fence(), k) && forall|j: int|
                i <= j < k ==> !occurs_at(s, close_fence(), j),
            None => forall|j: int| i <= j ==> !occurs_at(s, close_fence(), j),
        },
    decreases s.len() - i,
{
    if i + 5 <= s.len() && !occurs_at(s, close_fence(), i) {
        lemma_find_close(s, i + 1);
    }
}

/// Whether every non-blank line of `block` holds a `:`.
pub open spec fn looks_like_frontmatter(block: Seq<char>) -> bool
    decreases block.len(),
{
    let e = find_char(block, '\n', 0);
    let line = block.take(e);
    let ok = trim(line).len() == 0 || find_char(line, ':', 0) < line.len();
    if !ok {
        false
    } else if e < block.len() {
        proof {
            lemma_find_char(block, '\n', 0);
        }
        looks_like_frontmatter(block.skip(e + 1))
    } else {
        true
    }
}

/// Split leading `---\n … \n---\n` frontmatter from the body: `(None, text)`
/// when there is no complete block, or when the block holds a prose line
/// (no `:`), so markdown that merely opens with a horizontal rule stays body.
pub open spec fn split_frontmatter(text: Seq<char>) -> (Option<Seq<char>>, Seq<char>) {
    if !starts_with(text, fence()) {
        (None, text)
    } else {
        let rest = text.skip(4);
        if starts_with(rest, fence()) {
            (Some(Seq::empty()), rest.skip(4))
        } else if rest == seq!['-', '-', '-'] {
            (Some(Seq::empty()), Seq::empty())
        } else {
            match find_close(rest, 0) {
                Some(end) => if looks_like_frontmatter(rest.take(end)) {
                    (Some(rest.take(end)), rest.skip(end + 5))
                } else {
                    (None, text)
                },
                None => if rest.len() >= 4 && rest.skip(rest.len() - 4) == seq!['\n', '-', '-', '-'] {
                    let stripped = rest.take(rest.len() - 4);
                    if looks_like_frontmatter(stripped) {
                        (Some(stripped), Seq::empty())
                    } else {
                        (None, text)
                    }
                } else {
                    (None, text)
                },
            }
        }
    }
}

/// Normalize line endings of `v` into a new vector.
fn normalize_vec(v: &Vec<char>) -> (r: Vec<char>)
    ensures
        r@ == normalize_nl(v@),
{
    let mut out: Vec<char> = Vec::new();
    let mut i: usize = 0;
    assert(v@.skip(0) =~= v@);
    while i < v.len()
        invariant
            i <= v.len(),
            out@ + normalize_nl(v@.skip(i as int)) == normalize_nl(v@),
        decreases v.len() - i,
    {
        let ghost s = v@.skip(i as int);
        if v[i] == '\r' && i + 1 < v.len() && v[i + 1] == '\n' {
            assert(s.skip(2) =~= v@.skip(i + 2));
            out.push('\n');
            i += 2;
        } else if v[i] == '\r' {
            assert(s.skip(1) =~= v@.skip(i + 1));
            out.push('\n');
            i += 1;
        } else {
            assert(s.skip(1) =~= v@.skip(i + 1));
            out.push(v[i]);
            i += 1;
        }
    }
    assert(v@.skip(i as int) =~= Seq::<char>::empty());
    assert(out@ + Seq::<char>::empty() =~= out@);
    out
}

/// Flatten interior CR/LF of a frontmatter scalar to spaces.
pub fn frontmatter_scalar(value: &str) -> (r: String)
    ensures
        r@ == scalar_text(value@),
{
    let v = chars_of(value);
    let mut out = String::new();
    let mut i: usize = 0;
    while i < v.len()
        invariant
            i <= v.len(),
            out@ == scalar_text(v@.take(i as int)),
        decreases v.len() - i,
    {
        let c = v[i];
        let d = if c == '\r' || c == '\n' {
            ' '
        } else {
            c
        };
        push_char(&mut out, d);
        i += 1;
        assert(scalar_text(v@.take(i as int)) =~= scalar_text(v@.take(i - 1)).push(d));
    }
    assert(v@.take(i as int) =~= v@);
    out
}

/// Copy `v[lo..hi]` into a new vector.
fn sub_vec(v: &Vec<char>, lo: usize, hi: usize) -> (r: Vec<char>)
    requires
        lo <= hi <= v.len(),
    ensures
        r@ == v@.subrange(lo as int, hi as int),
{
    let mut out: Vec<char> = Vec::new();
    let mut i = lo;
    while i < hi
        invariant
            lo <= i <= hi <= v.len(),
            out@ == v@.subrange(lo as int, i as int),
        decreases hi - i,
    {
        out.push(v[i]);
        i += 1;
        assert(out@ =~= v@.subrange(lo as int, i as int));
    }
    out
}

/// Whether `v[k..]` starts with the characters of `p`.
fn occurs_in(v: &Vec<char>, p: &Vec<char>, k: usize) -> (r: bool)
    ensures
        r == occurs_at(v@, p@, k as int),
{
    if k > v.len() || v.len() - k < p.len() {
        return false;
    }
    let mut j: usize = 0;
    while j < p.len()
        invariant
            j <= p.len(),
            k + p.len() <= v.len(),
            forall|m: int| 0 <= m < j ==> v@[k + m] == p@[m],
        decreases p.len() - j,
    {
        if v[k + j] != p[j] {
            assert(v@.subrange(k as int, k + p.len())[j as int] != p@[j as int]);
            return false;
        }
        j += 1;
    }
    assert(v@.subrange(k as int, k + p.len()) =~= p@);
    true
}

/// Offset of the first closing fence in `v` at or after `i`.
fn find_close_in(v: &Vec<char>, i: usize) -> (r: Option<usize>)
    ensures
        match r {
            Some(k) => find_close(v@, i as int) == Some(k as int),
            None => find_close(v@, i as int) is None,
        },
{
    let mut p: Vec<char> = Vec::new();
    p.push('\n');
    p.push('-');
    p.push('-');
    p.push('-');
    p.push('\n');
    assert(p@ =~= close_fence());
    let mut k = i;
    while k < v.len() && v.len() - k >= 5
        invariant
            i <= k,
            p@ == close_fence(),
            find_close(v@, i as int) == find_close(v@, k as int),
        decreases v.len() - k,
    {
        if occurs_in(v, &p, k) {
            return Some(k);
        }
        k += 1;
    }
    None
}

/// Whether every non-blank line of `v` holds a `:`.
fn looks_like_frontmatter_vec(v: &Vec<char>) -> (r: bool)
    ensures
        r == looks_like_frontmatter(v@),
{
    let mut i: usize = 0;
    assert(v@.skip(0) =~= v@);
    loop
        invariant
            i <= v.len(),
            looks_like_frontmatter(v@) == looks_like_frontmatter(v@.skip(i as int)),
        decreases v.len() - i,
    {
        let ghost s = v@.skip(i as int);
        let e = find_char_in(v, '\n', i);
        proof {
            lemma_find_char(v@, '\n', i as int);
            assert forall|k: int| 0 <= k < e - i implies s[k] != '\n' by {
                assert(s[k] == v@[i + k]);
            }
            lemma_find_char_unique(s, '\n', 0, e - i);
        }
        let (a, b) = trim_range(v, i, e);
        assert(s.take(e - i) =~= v@.subrange(i as int, e as int));
        let ghost line = s.take(e - i);
        let c = find_char_in(v, ':', i);
        proof {
            lemma_find_char(v@, ':', i as int);
            let q = if c < e { c - i } else { line.len() as int };
            assert forall|k: int| 0 <= k < q implies line[k] != ':' by {
                assert(line[k] == v@[i + k]);
            }
            if c < e {
                assert(line[c - i] == ':');
            }
            lemma_find_char_unique(line, ':', 0, q);
        }
        if !(a == b || c < e) {
            return false;
        }
        if e < v.len() {
            assert(s.skip(e - i + 1) =~= v@.skip(e + 1));
            i = e + 1;
        } else {
            return true;
        }
    }
}

/// Exec form of `split_frontmatter` over ranges of `t`: the frontmatter range
/// (if any) and the body range.
fn split_frontmatter_vec(t: &Vec<char>) -> (r: (Option<(usize, usize)>, (usize, usize)))
    ensures
        ({
            let (fm, body) = split_frontmatter(t@);
            &&& r.1.0 <= r.1.1 <= t.len()
            &&& body == t@.subrange(r.1.0 as int, r.1.1 as int)
            &&& match r.0 {
                Some((a, b)) => a <= b <= t.len() && fm == Some(t@.subrange(a as int, b as int)),
                None => fm is None,
            }
        }),
{
    let n = t.len();
    assert(t@.subrange(0, n as int) =~= t@);
    if !(n >= 4 && t[0] == '-' && t[1] == '-' && t[2] == '-' && t[3] == '\n') {
        proof {
            if starts_with(t@, fence()) {
                assert(t@.take(4)[0] == t@[0]);
                assert(t@.take(4)[1] == t@[1]);
                assert(t@.take(4)[2] == t@[2]);
                assert(t@.take(4)[3] == t@[3]);
            }
        }
        return (None, (0, n));
    }
    assert(t@.take(4) =~= fence());
    let ghost rest = t@.skip(4);
    if n >= 8 && t[4] == '-' && t[5] == '-' && t[6] == '-' && t[7] == '\n' {
        assert(rest.take(4) =~= fence());
        assert(rest.skip(4) =~= t@.subrange(8, n as int));
        assert(Seq::<char>::empty() =~= t@.subrange(4, 4));
        return (Some((4, 4)), (8, n));
    }
    proof {
        if starts_with(rest, fence()) {
            assert(rest.take(4)[0] == t@[4]);
            assert(rest.take(4)[1] == t@[5]);
            assert(rest.take(4)[2] == t@[6]);
            assert(rest.take(4)[3] == t@[7]);
        }
    }
    if n == 7 && t[4] == '-' && t[5] == '-' && t[6] == '-' {
        assert(rest =~= seq!['-', '-', '-']);
        assert(Seq::<char>::empty() =~= t@.subrange(4, 4));
        assert(Seq::<char>::empty() =~= t@.subrange(7, 7));
        return (Some((4, 4)), (7, 7));
    }
    proof {
        if rest == seq!['-', '-', '-'] {
            assert(rest[0] == t@[4]);
            assert(rest[1] == t@[5]);
            assert(rest[2] == t@[6]);
        }
    }
    let rv = sub_vec(t, 4, n);
    assert(rv@ =~= rest);
    proof {
        lemma_find_close(rv@, 0);
    }
    match find_close_in(&rv, 0) {
        Some(end) => {
            let fmv = sub_vec(&rv, 0, end);
            assert(fmv@ =~= rest.take(end as int));
            if looks_like_frontmatter_vec(&fmv) {
                assert(rest.take(end as int) =~= t@.subrange(4, 4 + end));
                assert(rest.skip(end + 5) =~= t@.subrange(4 + end + 5, n as int));
                proof {
                    assert(occurs_at(rest, close_fence(), end as int));
                }
                (Some((4, 4 + end)), (4 + end + 5, n))
            } else {
                (None, (0, n))
            }
        },
        None => {
            let m = rv.len();
            if m >= 4 && rv[m - 4] == '\n' && rv[m - 3] == '-' && rv[m - 2] == '-' && rv[m - 1]
                == '-' {
                assert(rest.skip(rest.len() - 4) =~= seq!['\n', '-', '-', '-']);
                let sv = sub_vec(&rv, 0, m - 4);
                assert(sv@ =~= rest.take(rest.len() - 4));
                if looks_like_frontmatter_vec(&sv) {
                    assert(rest.take(rest.len() - 4) =~= t@.subrange(4, n - 4));
                    assert(Seq::<char>::empty() =~= t@.subrange(n as int, n as int));
                    (Some((4, n - 4)), (n, n))
                } else {
                    (None, (0, n))
                }
            } else {
                proof {
                    if rest.len() >= 4 && rest.skip(rest.len() - 4) == seq!['\n', '-', '-', '-'] {
                        assert(rest.skip(rest.len() - 4)[0] == rv@[m - 4]);
                        assert(rest.skip(rest.len() - 4)[1] == rv@[m - 3]);
                        assert(rest.skip(rest.len() - 4)[2] == rv@[m - 2]);
                        assert(rest.skip(rest.len() - 4)[3] == rv@[m - 1]);
                    }
                }
                (None, (0, n))
            }
        },
    }
}


/// The abstract content of a note read from markdown.
pub struct ImportedSpec {
    pub id: Option<u128>,
    pub title: Option<Seq<char>>,
    pub body: Seq<char>,
    pub content_kind: ContentKind,
    pub tags: Set<Seq<char>>,
    pub created: Option<i64>,
    pub updated: Option<i64>,
}

/// The abstract content of an interchange error.
pub enum MdErrorSpec {
    Frontmatter(Seq<char>),
    Id(IdError),
    Tag(TagErrorSpec),
}

/// A note parsed from a `.md` file. `id`/`created`/`updated` are optional so
/// that markdown without frontmatter can be imported; the storage edge mints
/// whatever is missing.
#[derive(Debug, Clone, PartialEq, Eq)]
pub struct ImportedNote {
    pub id: Option<NoteId>,
    pub title: Option<String>,
    pub body: String,
    pub content_kind: ContentKind,
    pub tags: TagSet,
    pub created: Option<Timestamp>,
    pub updated: Option<Timestamp>,
}

impl View for ImportedNote {
    type V = ImportedSpec;

    open spec fn view(&self) -> ImportedSpec {
        ImportedSpec {
            id: match self.id {
                Some(i) => Some(i.0),
                None => None,
            },
            title: match self.title {
                Some(t) => Some(t@),
                None => None,
            },
            body: self.body@,
            content_kind: self.content_kind,
            tags: self.tags@,
            created: match self.created {
                Some(t) => Some(t.0),
                None => None,
            },
            updated: match self.updated {
                Some(t) => Some(t.0),
                None => None,
            },
        }
    }
}

/// Failure converting the markdown interchange format.
#[derive(Debug, Clone, PartialEq, Eq)]
pub enum MdError {
    Frontmatter(String),
    Id(IdError),
    Tag(TagError),
}

impl View for MdError {
    type V = MdErrorSpec;

    open spec fn view(&self) -> MdErrorSpec {
        match self {
            MdError::Frontmatter(m) => MdErrorSpec::Frontmatter(m@),
            MdError::Id(e) => MdErrorSpec::Id(*e),
            MdError::Tag(e) => MdErrorSpec::Tag(e@),
        }
    }
}

impl MdError {
    /// The message this error displays as.
    pub fn to_string(&self) -> (r: String)
        ensures
            r@ == match self@ {
                MdErrorSpec::Frontmatter(m) => "malformed frontmatter: "@ + m,
                MdErrorSpec::Id(e) => "invalid note id in frontmatter: "@
                    + crate::error::id_error_message(e),
                MdErrorSpec::Tag(_) => "invalid tag in frontmatter: "@
                    + crate::error::tag_error_message(match self {
                    MdError::Tag(t) => *t,
                    _ => TagError::Empty,
                }),
            },
    {
        match self {
            MdError::Frontmatter(m) => {
                let mut out = "malformed frontmatter: ".to_owned();
                out.append(m.as_str());
                out
            },
            MdError::Id(e) => {
                let mut out = "invalid note id in frontmatter: ".to_owned();
                let m = e.to_string();
                out.append(m.as_str());
                out
            },
            MdError::Tag(e) => {
                let mut out = "invalid tag in frontmatter: ".to_owned();
                let m = e.to_string();
                out.append(m.as_str());
                out
            },
        }
    }
}

/// The message for a frontmatter line without a `:`.
pub open spec fn colon_message(line: Seq<char>) -> Seq<char> {
    "expected `key: value`, got "@ + crate::error::str_debug(line)
}

/// The message for a timestamp field that is not an integer.
pub open spec fn integer_message(field: Seq<char>, value: Seq<char>) -> Seq<char> {
    field + " must be an integer, got "@ + crate::error::str_debug(value)
}

/// Add the tags of a comma-separated list (pieces trimmed, empty pieces
/// skipped), stopping at the first invalid tag.
pub open spec fn apply_tags(v: Seq<char>, acc: Set<Seq<char>>) -> Result<Set<Seq<char>>, TagErrorSpec>
    decreases v.len(),
{
    let e = find_char(v, ',', 0);
    let piece = trim(v.take(e));
    let next = if piece.len() == 0 {
        Ok(acc)
    } else {
        match tag_new_spec(piece) {
            Ok(t) => Ok(acc.insert(t)),
            Err(x) => Err(x),
        }
    };
    match next {
        Err(x) => Err(x),
        Ok(a) => if e < v.len() {
            proof {
                lemma_find_char(v, ',', 0);
            }
            apply_tags(v.skip(e + 1), a)
        } else {
            Ok(a)
        },
    }
}

/// Apply one `key: value` entry (both trimmed); unknown keys are ignored.
pub open spec fn apply_entry(key: Seq<char>, value: Seq<char>, acc: ImportedSpec) -> Result<ImportedSpec, MdErrorSpec> {
    if key == "id"@ {
        match parse_id(value) {
            Ok(v) => Ok(ImportedSpec { id: Some(v), ..acc }),
            Err(e) => Err(MdErrorSpec::Id(e)),
        }
    } else if key == "title"@ {
        Ok(ImportedSpec { title: if value.len() == 0 { None } else { Some(value) }, ..acc })
    } else if key == "tags"@ {
        match apply_tags(value, acc.tags) {
            Ok(t) => Ok(ImportedSpec { tags: t, ..acc }),
            Err(e) => Err(MdErrorSpec::Tag(e)),
        }
    } else if key == "content_kind"@ {
        Ok(ImportedSpec { content_kind: kind_from_wire(value), ..acc })
    } else if key == "created"@ {
        match parse_i64(value) {
            Some(n) => Ok(ImportedSpec { created: Some(n), ..acc }),
            None => Err(MdErrorSpec::Frontmatter(integer_message("created"@, value))),
        }
    } else if key == "updated"@ {
        match parse_i64(value) {
            Some(n) => Ok(ImportedSpec { updated: Some(n), ..acc }),
            None => Err(MdErrorSpec::Frontmatter(integer_message("updated"@, value))),
        }
    } else {
        Ok(acc)
    }
}

/// Apply one frontmatter line: blank lines are skipped; otherwise the text
/// before the first `:` is the key and the rest the value, both trimmed.
pub open spec fn apply_line(line: Seq<char>, acc: ImportedSpec) -> Result<ImportedSpec, MdErrorSpec> {
    let p = find_char(line, ':', 0);
    if trim(line).len() == 0 {
        Ok(acc)
    } else if p >= line.len() {
        Err(MdErrorSpec::Frontmatter(colon_message(line)))
    } else {
        apply_entry(trim(line.take(p)), trim(line.skip(p + 1)), acc)
    }
}

/// Apply the frontmatter lines in order, stopping at the first error.
pub open spec fn apply_frontmatter(fm: Seq<char>, acc: ImportedSpec) -> Result<ImportedSpec, MdErrorSpec>
    decreases fm.len(),
{
    let e = find_char(fm, '\n', 0);
    match apply_line(fm.take(e), acc) {
        Err(x) => Err(x),
        Ok(a) => if e < fm.len() {
            proof {
                lemma_find_char(fm, '\n', 0);
            }
            apply_frontmatter(fm.skip(e + 1), a)
        } else {
            Ok(a)
        },
    }
}

/// Whether a frontmatter key is one the reader knows.
pub open spec fn known_key(key: Seq<char>) -> bool {
    key == "id"@ || key == "title"@ || key == "tags"@ || key == "content_kind"@ || key
        == "created"@ || key == "updated"@
}

/// An entry under a key the reader does not know is ignored: the note read
/// so far is unchanged, whatever the value, and it is no error.
pub proof fn lemma_unknown_key_ignored(key: Seq<char>, value: Seq<char>, acc: ImportedSpec)
    requires
        !known_key(key),
    ensures
        apply_entry(key, value, acc) == Ok::<ImportedSpec, MdErrorSpec>(acc),
{
}

/// A frontmatter line `key: value` whose trimmed key is unknown leaves the
/// note read so far unchanged.
pub proof fn lemma_unknown_line_ignored(key: Seq<char>, value: Seq<char>, acc: ImportedSpec)
    requires
        forall|i: int| 0 <= i < key.len() ==> #[trigger] key[i] != ':',
        !known_key(trim(key)),
    ensures
        apply_line(key + seq![':'] + value, acc) == Ok::<ImportedSpec, MdErrorSpec>(acc),
{
    let line = key + seq![':'] + value;
    let k = key.len() as int;
    assert forall|i: int| 0 <= i < k implies #[trigger] line[i] != ':' by {
        assert(line[i] == key[i]);
    }
    assert(line[k] == ':');
    lemma_find_char_unique(line, ':', 0, k);
    assert(line.take(k) =~= key);
    lemma_unknown_key_ignored(trim(key), trim(line.skip(k + 1)), acc);
}

/// Frontmatter that opens with a line the reader leaves the note unchanged
/// by reads as the frontmatter without that line.
proof fn lemma_frontmatter_skip_first(line: Seq<char>, x: Seq<char>, acc: ImportedSpec)
    requires
        forall|i: int| 0 <= i < line.len() ==> #[trigger] line[i] != '\n',
        apply_line(line, acc) == Ok::<ImportedSpec, MdErrorSpec>(acc),
    ensures
        apply_frontmatter(line + seq!['\n'] + x, acc) == apply_frontmatter(x, acc),
{
    let fm = line + seq!['\n'] + x;
    let n = line.len() as int;
    assert forall|i: int| 0 <= i < n implies #[trigger] fm[i] != '\n' by {
        assert(fm[i] == line[i]);
    }
    assert(fm[n] == '\n');
    lemma_find_char_unique(fm, '\n', 0, n);
    assert(fm.take(n) =~= line);
    assert(fm.skip(n + 1) =~= x);
}

/// Reading frontmatter `p + x`, where `p` is complete lines, reads the lines
/// of `p` and then continues with `x` from where they left the note.
proof fn lemma_frontmatter_split(p: Seq<char>, x: Seq<char>, acc: ImportedSpec)
    requires
        p.len() > 0,
        p.last() == '\n',
    ensures
        apply_frontmatter(p + x, acc) == match apply_frontmatter(p.drop_last(), acc) {
            Err(e) => Err(e),
            Ok(a) => apply_frontmatter(x, a),
        },
    decreases p.len(),
{
    let s = p + x;
    lemma_find_char(p, '\n', 0);
    let e = find_char(p, '\n', 0);
    assert(e < p.len()) by {
        if e >= p.len() {
            assert(p[p.len() - 1] == '\n');
        }
    }
    assert forall|k: int| 0 <= k < e implies #[trigger] s[k] != '\n' by {
        assert(s[k] == p[k]);
    }
    assert(s[e] == p[e]);
    lemma_find_char_unique(s, '\n', 0, e);
    assert(s.take(e) =~= p.take(e));
    let d = p.drop_last();
    if e == p.len() - 1 {
        assert forall|k: int| 0 <= k < d.len() implies #[trigger] d[k] != '\n' by {
            assert(d[k] == p[k]);
        }
        lemma_find_char_unique(d, '\n', 0, d.len() as int);
        assert(d.take(d.len() as int) =~= d);
        assert(p.take(e) =~= d);
        assert(s.skip(e + 1) =~= x);
    } else {
        let q = p.skip(e + 1);
        assert(s.skip(e + 1) =~= q + x);
        assert forall|k: int| 0 <= k < e implies #[trigger] d[k] != '\n' by {
            assert(d[k] == p[k]);
        }
        assert(d[e] == p[e]);
        lemma_find_char_unique(d, '\n', 0, e);
        assert(d.take(e) =~= p.take(e));
        assert(d.skip(e + 1) =~= q.drop_last());
        assert(q.last() == p.last());
        lemma_frontmatter_split(q, x, apply_line(p.take(e), acc)->Ok_0);
    }
}

/// Adding a `key: value` line with an unknown key anywhere between the
/// lines of a frontmatter block never changes what the block reads as.
pub proof fn lemma_unknown_line_anywhere(p: Seq<char>, key: Seq<char>, value: Seq<char>, x: Seq<char>, acc: ImportedSpec)
    requires
        p.len() == 0 || p.last() == '\n',
        forall|i: int| 0 <= i < key.len() ==> #[trigger] key[i] != ':' && key[i] != '\n',
        forall|i: int| 0 <= i < value.len() ==> #[trigger] value[i] != '\n',
        !known_key(trim(key)),
    ensures
        apply_frontmatter(p + (key + seq![':'] + value) + seq!['\n'] + x, acc) == apply_frontmatter(p + x, acc),
{
    let line = key + seq![':'] + value;
    assert forall|i: int| 0 <= i < line.len() implies #[trigger] line[i] != '\n' by {
        if i < key.len() {
            assert(line[i] == key[i]);
        } else if i > key.len() {
            assert(line[i] == value[i - key.len() - 1]);
        }
    }
    assert forall|a: ImportedSpec| apply_line(line, a) == Ok::<ImportedSpec, MdErrorSpec>(a) by {
        lemma_unknown_line_ignored(key, value, a);
    }
    if p.len() == 0 {
        assert(p + line + seq!['\n'] + x =~= line + seq!['\n'] + x);
        assert(p + x =~= x);
        lemma_frontmatter_skip_first(line, x, acc);
    } else {
        let y = line + seq!['\n'] + x;
        assert(p + line + seq!['\n'] + x =~= p + y);
        lemma_frontmatter_split(p, y, acc);
        lemma_frontmatter_split(p, x, acc);
        match apply_frontmatter(p.drop_last(), acc) {
            Err(_) => {},
            Ok(a) => {
                lemma_frontmatter_skip_first(line, x, a);
            },
        }
    }
}

proof fn lemma_looks_skip_first(line: Seq<char>, x: Seq<char>)
    requires
        forall|i: int| 0 <= i < line.len() ==> #[trigger] line[i] != '\n',
        find_char(line, ':', 0) < line.len(),
    ensures
        looks_like_frontmatter(line + seq!['\n'] + x) == looks_like_frontmatter(x),
{
    let fm = line + seq!['\n'] + x;
    let n = line.len() as int;
    assert forall|i: int| 0 <= i < n implies #[trigger] fm[i] != '\n' by {
        assert(fm[i] == line[i]);
    }
    assert(fm[n] == '\n');
    lemma_find_char_unique(fm, '\n', 0, n);
    assert(fm.take(n) =~= line);
    assert(fm.skip(n + 1) =~= x);
}

proof fn lemma_looks_split(p: Seq<char>, x: Seq<char>)
    requires
        p.len() > 0,
        p.last() == '\n',
    ensures
        looks_like_frontmatter(p + x) == (looks_like_frontmatter(p.drop_last())
            && looks_like_frontmatter(x)),
    decreases p.len(),
{
    let s = p + x;
    lemma_find_char(p, '\n', 0);
    let e = find_char(p, '\n', 0);
    assert(e < p.len()) by {
        if e >= p.len() {
            assert(p[p.len() - 1] == '\n');
        }
    }
    assert forall|k: int| 0 <= k < e implies #[trigger] s[k] != '\n' by {
        assert(s[k] == p[k]);
    }
    assert(s[e] == p[e]);
    lemma_find_char_unique(s, '\n', 0, e);
    assert(s.take(e) =~= p.take(e));
    let d = p.drop_last();
    if e == p.len() - 1 {
        assert forall|k: int| 0 <= k < d.len() implies #[trigger] d[k] != '\n' by {
            assert(d[k] == p[k]);
        }
        lemma_find_char_unique(d, '\n', 0, d.len() as int);
        assert(d.take(d.len() as int) =~= d);
        assert(p.take(e) =~= d);
        assert(s.skip(e + 1) =~= x);
    } else {
        let q = p.skip(e + 1);
        assert(s.skip(e + 1) =~= q + x);
        assert forall|k: int| 0 <= k < e implies #[trigger] d[k] != '\n' by {
            assert(d[k] == p[k]);
        }
        assert(d[e] == p[e]);
        lemma_find_char_unique(d, '\n', 0, e);
        assert(d.take(e) =~= p.take(e));
        assert(d.skip(e + 1) =~= q.drop_last());
        assert(q.last() == p.last());
        lemma_looks_split(q, x);
    }
}

/// Adding a `key: value` line anywhere between the lines of a block never
/// changes whether the block is taken for frontmatter (every non-blank line
/// holding a `:`), whatever the key.
pub proof fn lemma_keyed_line_keeps_frontmatter(p: Seq<char>, key: Seq<char>, value: Seq<char>, x: Seq<char>)
    requires
        p.len() == 0 || p.last() == '\n',
        forall|i: int| 0 <= i < key.len() ==> #[trigger] key[i] != '\n',
        forall|i: int| 0 <= i < value.len() ==> #[trigger] value[i] != '\n',
    ensures
        looks_like_frontmatter(p + (key + seq![':'] + value) + seq!['\n'] + x) == looks_like_frontmatter(p + x),
{
    let line = key + seq![':'] + value;
    assert forall|i: int| 0 <= i < line.len() implies #[trigger] line[i] != '\n' by {
        if i < key.len() {
            assert(line[i] == key[i]);
        } else if i > key.len() {
            assert(line[i] == value[i - key.len() - 1]);
        }
    }
    lemma_find_char(line, ':', 0);
    assert(line[key.len() as int] == ':');
    assert(find_char(line, ':', 0) < line.len());
    if p.len() == 0 {
        assert(p + line + seq!['\n'] + x =~= line + seq!['\n'] + x);
        assert(p + x =~= x);
        lemma_looks_skip_first(line, x);
    } else {
        let y = line + seq!['\n'] + x;
        assert(p + line + seq!['\n'] + x =~= p + y);
        lemma_looks_split(p, y);
        lemma_looks_split(p, x);
        lemma_looks_skip_first(line, x);
    }
}

/// What a note without frontmatter reads as: all body, markdown, no metadata.
pub open spec fn bare_import(body: Seq<char>) -> ImportedSpec {
    ImportedSpec {
        id: None,
        title: None,
        body,
        content_kind: ContentKind::Markdown,
        tags: Set::empty(),
        created: None,
        updated: None,
    }
}

/// The outcome of reading markdown text: line endings normalized, the
/// frontmatter split off, and its lines applied over the bare body.
pub open spec fn read_markdown(text: Seq<char>) -> Result<ImportedSpec, MdErrorSpec> {
    let t = normalize_nl(text);
    let (fm, body) = split_frontmatter(t);
    match fm {
        None => Ok(bare_import(body)),
        Some(f) => apply_frontmatter(f, bare_import(body)),
    }
}

/// Whether `v[lo..hi]` is the text of `lit`.
fn range_is(v: &Vec<char>, lo: usize, hi: usize, lit: &str) -> (r: bool)
    requires
        lo <= hi <= v.len(),
    ensures
        r == (v@.subrange(lo as int, hi as int) == lit@),
{
    let l = chars_of(lit);
    if l.len() != hi - lo {
        return false;
    }
    let mut k: usize = 0;
    while k < l.len()
        invariant
            k <= l.len() == hi - lo,
            lo <= hi <= v.len(),
            l@ == lit@,
            forall|j: int| 0 <= j < k ==> v@[lo + j] == l@[j],
        decreases l.len() - k,
    {
        if v[lo + k] != l[k] {
            assert(v@.subrange(lo as int, hi as int)[k as int] != l@[k as int]);
            return false;
        }
        k += 1;
    }
    assert(v@.subrange(lo as int, hi as int) =~= l@);
    true
}

/// Apply a comma-separated tag list held in `val`.
fn apply_tags_vec(val: &Vec<char>, tags: &mut TagSet) -> (r: Result<(), TagError>)
    ensures
        match r {
            Ok(()) => apply_tags(val@, old(tags)@) == Ok::<Set<Seq<char>>, TagErrorSpec>(final(tags)@),
            Err(e) => apply_tags(val@, old(tags)@) == Err::<Set<Seq<char>>, TagErrorSpec>(e@),
        },
{
    let ghost start = tags@;
    let mut i: usize = 0;
    assert(val@.skip(0) =~= val@);
    loop
        invariant
            i <= val.len(),
            start == old(tags)@,
            apply_tags(val@, start) == apply_tags(val@.skip(i as int), tags@),
        decreases val.len() - i,
    {
        let ghost s = val@.skip(i as int);
        let e = find_char_in(val, ',', i);
        proof {
            lemma_find_char(val@, ',', i as int);
            assert forall|k: int| 0 <= k < e - i implies s[k] != ',' by {
                assert(s[k] == val@[i + k]);
            }
            lemma_find_char_unique(s, ',', 0, e - i);
        }
        assert(s.take(e - i) =~= val@.subrange(i as int, e as int));
        let (a, b) = trim_range(val, i, e);
        if a < b {
            let piece = string_of(val, a, b);
            match Tag::new(piece.as_str()) {
                Ok(t) => {
                    tags.insert(t);
                },
                Err(x) => {
                    return Err(x);
                },
            }
        }
        if e < val.len() {
            assert(s.skip(e - i + 1) =~= val@.skip(e + 1));
            i = e + 1;
        } else {
            return Ok(());
        }
    }
}

/// Parse a timestamp field value.
fn parse_ts(value: &Vec<char>, field: &str) -> (r: Result<Timestamp, MdError>)
    ensures
        match r {
            Ok(t) => parse_i64(value@) == Some(t.0),
            Err(e) => parse_i64(value@) is None && e@ == MdErrorSpec::Frontmatter(integer_message(field@, value@)),
        },
{
    let text = crate::text::string_of_all(value);
    match parse_i64_text(text.as_str()) {
        Some(n) => Ok(Timestamp(n)),
        None => {
            let mut msg = field.to_owned();
            msg.append(" must be an integer, got ");
            let q = debug_str(text.as_str());
            msg.append(q.as_str());
            Err(MdError::Frontmatter(msg))
        },
    }
}

/// Apply one frontmatter line held in `line`.
fn apply_line_vec(line: &Vec<char>, note: &mut ImportedNote) -> (r: Result<(), MdError>)
    ensures
        match r {
            Ok(()) => apply_line(line@, old(note)@) == Ok::<ImportedSpec, MdErrorSpec>(final(note)@),
            Err(e) => apply_line(line@, old(note)@) == Err::<ImportedSpec, MdErrorSpec>(e@),
        },
{
    let n = line.len();
    assert(line@.subrange(0, n as int) =~= line@);
    let (a, b) = trim_range(line, 0, n);
    if a == b {
        return Ok(());
    }
    let p = find_char_in(line, ':', 0);
    proof {
        lemma_find_char(line@, ':', 0);
    }
    if p >= n {
        let text = crate::text::string_of_all(line);
        let mut msg = "expected `key: value`, got ".to_owned();
        let q = debug_str(text.as_str());
        msg.append(q.as_str());
        return Err(MdError::Frontmatter(msg));
    }
    let (ka, kb) = trim_range(line, 0, p);
    assert(line@.take(p as int) =~= line@.subrange(0, p as int));
    let (va, vb) = trim_range(line, p + 1, n);
    assert(line@.skip(p + 1) =~= line@.subrange(p + 1, n as int));
    let value = sub_vec(line, va, vb);
    if range_is(line, ka, kb, "id") {
        let vs = crate::text::string_of_all(&value);
        match NoteId::parse(vs.as_str()) {
            Ok(id) => {
                note.id = Some(id);
                Ok(())
            },
            Err(e) => Err(MdError::Id(e)),
        }
    } else if range_is(line, ka, kb, "title") {
        if value.len() == 0 {
            note.title = None;
        } else {
            note.title = Some(crate::text::string_of_all(&value));
        }
        Ok(())
    } else if range_is(line, ka, kb, "tags") {
        match apply_tags_vec(&value, &mut note.tags) {
            Ok(()) => Ok(()),
            Err(e) => Err(MdError::Tag(e)),
        }
    } else if range_is(line, ka, kb, "content_kind") {
        let vs = crate::text::string_of_all(&value);
        note.content_kind = ContentKind::from_wire(vs.as_str());
        Ok(())
    } else if range_is(line, ka, kb, "created") {
        match parse_ts(&value, "created") {
            Ok(t) => {
                note.created = Some(t);
                Ok(())
            },
            Err(e) => Err(e),
        }
    } else if range_is(line, ka, kb, "updated") {
        match parse_ts(&value, "updated") {
            Ok(t) => {
                note.updated = Some(t);
                Ok(())
            },
            Err(e) => Err(e),
        }
    } else {
        Ok(())
    }
}

/// Parse a `.md` file (optionally with frontmatter) into an [`ImportedNote`].
/// CRLF and lone-CR line endings are normalized first.
pub fn from_markdown(text: &str) -> (r: Result<ImportedNote, MdError>)
    ensures
        match r {
            Ok(n) => read_markdown(text@) == Ok::<ImportedSpec, MdErrorSpec>(n@),
            Err(e) => read_markdown(text@) == Err::<ImportedSpec, MdErrorSpec>(e@),
        },
{
    let raw = chars_of(text);
    let t = normalize_vec(&raw);
    let (fm, (bs, be)) = split_frontmatter_vec(&t);
    let body = string_of(&t, bs, be);
    let mut note = ImportedNote {
        id: None,
        title: None,
        body,
        content_kind: ContentKind::Markdown,
        tags: TagSet::new(),
        created: None,
        updated: None,
    };
    assert(note@ =~= bare_import(t@.subrange(bs as int, be as int)));
    match fm {
        None => Ok(note),
        Some((fs, fe)) => {
            let f = sub_vec(&t, fs, fe);
            let ghost start = note@;
            let mut i: usize = 0;
            assert(f@.skip(0) =~= f@);
            loop
                invariant
                    i <= f.len(),
                    read_markdown(text@) == apply_frontmatter(f@, start),
                    apply_frontmatter(f@, start) == apply_frontmatter(f@.skip(i as int), note@),
                decreases f.len() - i,
            {
                let ghost s = f@.skip(i as int);
                let e = find_char_in(&f, '\n', i);
                proof {
                    lemma_find_char(f@, '\n', i as int);
                    assert forall|k: int| 0 <= k < e - i implies s[k] != '\n' by {
                        assert(s[k] == f@[i + k]);
                    }
                    lemma_find_char_unique(s, '\n', 0, e - i);
                }
                let line = sub_vec(&f, i, e);
                assert(s.take(e - i) =~= line@);
                match apply_line_vec(&line, &mut note) {
                    Ok(()) => {},
                    Err(x) => {
                        return Err(x);
                    },
                }
                if e < f.len() {
                    assert(s.skip(e - i + 1) =~= f@.skip(e + 1));
                    i = e + 1;
                } else {
                    return Ok(note);
                }
            }
        },
    }
}


/// A frontmatter line `key: value` (without its newline).
pub open spec fn key_line(key: Seq<char>, value: Seq<char>) -> Seq<char> {
    key + seq![':', ' '] + value
}

/// The lines, each followed by a newline.
pub open spec fn concat_lines(ls: Seq<Seq<char>>) -> Seq<char>
    decreases ls.len(),
{
    if ls.len() == 0 {
        Seq::empty()
    } else {
        ls[0] + seq!['\n'] + concat_lines(ls.drop_first())
    }
}

/// Tag texts joined with `", "`.
pub open spec fn join_tags(l: Seq<Seq<char>>) -> Seq<char>
    decreases l.len(),
{
    if l.len() == 0 {
        Seq::empty()
    } else if l.len() == 1 {
        l[0]
    } else {
        l[0] + seq![',', ' '] + join_tags(l.drop_first())
    }
}

/// The frontmatter lines of a note: `id`, then `title` when there is one,
/// `tags` when there are any, then `content_kind`, `created`, `updated`.
pub open spec fn header_lines(n: Note) -> Seq<Seq<char>> {
    seq![key_line("id"@, ulid_text(n.id.0))] + match n.title {
        Some(t) => seq![key_line("title"@, scalar_text(t@))],
        None => Seq::empty(),
    } + if n.tags.listing().len() == 0 {
        Seq::empty()
    } else {
        seq![key_line("tags"@, join_tags(n.tags.listing()))]
    } + seq![
        key_line("content_kind"@, wire_name(n.content_kind)),
        key_line("created"@, int_text(n.created.0 as int)),
        key_line("updated"@, int_text(n.updated.0 as int)),
    ]
}

/// The markdown form of a note: the fenced frontmatter, then the body.
pub open spec fn markdown_text(n: Note) -> Seq<char> {
    fence() + concat_lines(header_lines(n)) + fence() + n.body@
}

/// How an exported title reads back: flattened to one line and trimmed, and
/// absent when nothing is left.
pub open spec fn title_read_back(t: Option<Seq<char>>) -> Option<Seq<char>> {
    match t {
        None => None,
        Some(t) => {
            let v = trim(scalar_text(t));
            if v.len() == 0 {
                None
            } else {
                Some(v)
            }
        },
    }
}

/// What reading back the markdown form of a note yields: every field, the
/// title as `title_read_back` gives it and the body with its line endings
/// normalized.
pub open spec fn exported_import(n: Note) -> ImportedSpec {
    ImportedSpec {
        id: Some(n.id.0),
        title: title_read_back(opt_view(n.title)),
        body: normalize_nl(n.body@),
        content_kind: n.content_kind,
        tags: n.tags@,
        created: Some(n.created.0),
        updated: Some(n.updated.0),
    }
}

/// Whether lowercasing leaves each of the tag texts unchanged.
pub open spec fn lowercase_stable(l: Seq<Seq<char>>) -> bool {
    forall|i: int| 0 <= i < l.len() ==> str_lowercase(#[trigger] l[i]) == l[i]
}

/// Apply lines in order, stopping at the first error.
pub open spec fn apply_lines(ls: Seq<Seq<char>>, acc: ImportedSpec) -> Result<ImportedSpec, MdErrorSpec>
    decreases ls.len(),
{
    if ls.len() == 0 {
        Ok(acc)
    } else {
        match apply_line(ls[0], acc) {
            Err(x) => Err(x),
            Ok(a) => apply_lines(ls.drop_first(), a),
        }
    }
}

/// Neither a line feed nor a carriage return.
pub open spec fn no_breaks(s: Seq<char>) -> bool {
    forall|i: int| 0 <= i < s.len() ==> #[trigger] s[i] != '\n' && s[i] != '\r'
}

/// A well-formed header line: non-empty, not starting with `-`, single-line
/// and holding a `:`.
pub open spec fn line_ok(l: Seq<char>) -> bool {
    &&& l.len() > 0
    &&& l[0] != '-'
    &&& no_breaks(l)
    &&& find_char(l, ':', 0) < l.len()
}

proof fn lemma_normalize_prefix(a: Seq<char>, b: Seq<char>)
    requires
        forall|i: int| 0 <= i < a.len() ==> #[trigger] a[i] != '\r',
    ensures
        normalize_nl(a + b) == a + normalize_nl(b),
    decreases a.len(),
{
    if a.len() > 0 {
        let t = a + b;
        assert(t[0] == a[0]);
        assert(t.skip(1) =~= a.drop_first() + b);
        lemma_normalize_prefix(a.drop_first(), b);
        assert(a =~= seq![a[0]] + a.drop_first());
    } else {
        assert(a + b =~= b);
    }
}

proof fn lemma_concat_push(ls: Seq<Seq<char>>, l: Seq<char>)
    ensures
        concat_lines(ls.push(l)) == concat_lines(ls) + l + seq!['\n'],
    decreases ls.len(),
{
    if ls.len() == 0 {
        let e = ls.push(l).drop_first();
        assert(e =~= Seq::<Seq<char>>::empty());
        assert(concat_lines(e) == Seq::<char>::empty());
        assert(concat_lines(ls.push(l)) =~= l + seq!['\n']);
    } else {
        assert(ls.push(l).drop_first() =~= ls.drop_first().push(l));
        lemma_concat_push(ls.drop_first(), l);
        assert(concat_lines(ls.push(l)) =~= concat_lines(ls) + l + seq!['\n']);
    }
}

proof fn lemma_concat_shape(ls: Seq<Seq<char>>)
    requires
        forall|i: int| 0 <= i < ls.len() ==> line_ok(#[trigger] ls[i]),
    ensures
        forall|j: int| 0 <= j < concat_lines(ls).len() ==> #[trigger] concat_lines(ls)[j] != '\r',
        ls.len() > 0 ==> concat_lines(ls).len() > ls[0].len() && concat_lines(ls).last() == '\n'
            && concat_lines(ls)[0] == ls[0][0],
        forall|j: int|
            0 <= j < concat_lines(ls).len() - 1 && #[trigger] concat_lines(ls)[j] == '\n'
                ==> concat_lines(ls)[j + 1] != '-',
    decreases ls.len(),
{
    if ls.len() > 0 {
        let rest = ls.drop_first();
        assert forall|i: int| 0 <= i < rest.len() implies line_ok(#[trigger] rest[i]) by {
            assert(rest[i] == ls[i + 1]);
        }
        lemma_concat_shape(rest);
        let c = concat_lines(ls);
        let a = ls[0];
        let cr = concat_lines(rest);
        assert(c == a + seq!['\n'] + cr);
        assert(line_ok(ls[0]));
        assert forall|j: int| 0 <= j < c.len() implies #[trigger] c[j] != '\r' by {
            if j < a.len() {
                assert(c[j] == a[j]);
            } else if j > a.len() {
                assert(c[j] == cr[j - a.len() - 1]);
            }
        }
        if rest.len() > 0 {
            assert(c.last() == cr.last());
        }
        assert forall|j: int| 0 <= j < c.len() - 1 && #[trigger] c[j] == '\n' implies c[j + 1]
            != '-' by {
            if j < a.len() {
                assert(c[j] == a[j]);
            } else if j == a.len() {
                assert(rest.len() > 0);
                assert(line_ok(rest[0]));
                assert(c[j + 1] == cr[0]);
            } else {
                assert(c[j] == cr[j - a.len() - 1]);
                assert(c[j + 1] == cr[j - a.len()]);
            }
        }
    }
}

proof fn lemma_concat_lines(ls: Seq<Seq<char>>, acc: ImportedSpec)
    requires
        ls.len() > 0,
        forall|i: int| 0 <= i < ls.len() ==> line_ok(#[trigger] ls[i]),
    ensures
        apply_frontmatter(concat_lines(ls).drop_last(), acc) == apply_lines(ls, acc),
        looks_like_frontmatter(concat_lines(ls).drop_last()),
    decreases ls.len(),
{
    let f = concat_lines(ls).drop_last();
    let a = ls[0];
    let rest = ls.drop_first();
    assert(line_ok(a));
    assert forall|i: int| 0 <= i < rest.len() implies line_ok(#[trigger] rest[i]) by {
        assert(rest[i] == ls[i + 1]);
    }
    assert(concat_lines(ls) == a + seq!['\n'] + concat_lines(rest));
    assert forall|k: int| 0 <= k < a.len() implies f[k] != '\n' by {
        assert(f[k] == a[k]);
    }
    if rest.len() == 0 {
        assert(f =~= a);
        lemma_find_char_unique(f, '\n', 0, a.len() as int);
        assert(f.take(a.len() as int) =~= a);
        assert(apply_lines(rest, acc) == Ok::<ImportedSpec, MdErrorSpec>(acc));
        match apply_line(a, acc) {
            Ok(x) => {
                assert(apply_lines(rest, x) == Ok::<ImportedSpec, MdErrorSpec>(x));
            },
            Err(_) => {},
        }
    } else {
        let cr = concat_lines(rest);
        lemma_concat_shape(rest);
        assert(f =~= a + seq!['\n'] + cr.drop_last());
        lemma_find_char_unique(f, '\n', 0, a.len() as int);
        assert(f.take(a.len() as int) =~= a);
        assert(f.skip(a.len() + 1int) =~= cr.drop_last());
        match apply_line(a, acc) {
            Ok(x) => {
                lemma_concat_lines(rest, x);
            },
            Err(_) => {
                lemma_concat_lines(rest, acc);
            },
        }
    }
}

proof fn lemma_find_close_at(s: Seq<char>, k: int)
    requires
        0 <= k,
        occurs_at(s, close_fence(), k),
        forall|j: int| 0 <= j < k ==> !occurs_at(s, close_fence(), j),
    ensures
        find_close(s, 0) == Some(k),
{
    lemma_find_close(s, 0);
    match find_close(s, 0) {
        Some(m) => {
            if m > k {
                assert(!occurs_at(s, close_fence(), k));
            }
        },
        None => {
            assert(!occurs_at(s, close_fence(), k));
        },
    }
}

/// The frontmatter of a header made of well-formed lines splits off exactly.
proof fn lemma_split_header(ls: Seq<Seq<char>>, body: Seq<char>)
    requires
        ls.len() > 0,
        forall|i: int| 0 <= i < ls.len() ==> line_ok(#[trigger] ls[i]),
    ensures
        split_frontmatter(fence() + concat_lines(ls) + fence() + body) == (
        Some(concat_lines(ls).drop_last()),
        body,
        ),
{
    let c = concat_lines(ls);
    let text = fence() + c + fence() + body;
    lemma_concat_shape(ls);
    lemma_concat_lines(ls, bare_import(body));
    assert(line_ok(ls[0]));
    assert(text.take(4) =~= fence());
    let rest = text.skip(4);
    assert(rest =~= c + fence() + body);
    assert(rest[0] == c[0]);
    assert(rest.take(4)[0] == rest[0]);
    assert(!starts_with(rest, fence()));
    assert(rest != seq!['-', '-', '-']) by {
        if rest == seq!['-', '-', '-'] {
            assert(rest[0] == '-');
        }
    }
    let k = c.len() - 1;
    assert(rest.subrange(k, k + 5) =~= close_fence()) by {
        assert(rest[k] == c[k]);
    }
    assert forall|j: int| 0 <= j < k implies !occurs_at(rest, close_fence(), j) by {
        assert(rest[j] == c[j]);
        assert(rest[j + 1] == c[j + 1]);
        if occurs_at(rest, close_fence(), j) {
            assert(rest.subrange(j, j + 5)[0] == rest[j]);
            assert(rest.subrange(j, j + 5)[1] == rest[j + 1]);
            assert(close_fence()[0] == '\n');
        }
    }
    lemma_find_close_at(rest, k);
    assert(rest.take(k) =~= c.drop_last());
    assert(rest.skip(k + 5) =~= body);
}

proof fn lemma_trim_space_prefix(p: Seq<char>, x: Seq<char>)
    requires
        p.len() <= 1,
        forall|i: int| 0 <= i < p.len() ==> p[i] == ' ',
    ensures
        trim(p + x) == trim(x),
{
    if p.len() == 1 {
        assert((p + x).drop_first() =~= x);
        assert(is_ws((p + x)[0]));
    } else {
        assert(p + x =~= x);
    }
}

proof fn lemma_key_line(k: Seq<char>, v: Seq<char>, acc: ImportedSpec)
    requires
        k.len() > 0,
        !is_ws(k[0]),
        !is_ws(k.last()),
        forall|i: int| 0 <= i < k.len() ==> #[trigger] k[i] != ':',
    ensures
        apply_line(key_line(k, v), acc) == apply_entry(k, trim(v), acc),
{
    let line = key_line(k, v);
    assert(line[0] == k[0]);
    lemma_trim_end_shape(line);
    assert(trim_start(line) == line);
    assert(line[k.len() as int] == ':');
    lemma_find_char_unique(line, ':', 0, k.len() as int);
    assert(line.take(k.len() as int) =~= k);
    lemma_trim_noop(k);
    assert(line.skip(k.len() + 1int) =~= seq![' '] + v);
    lemma_trim_space_prefix(seq![' '], v);
}

proof fn lemma_key_line_ok(k: Seq<char>, v: Seq<char>)
    requires
        k.len() > 0,
        k[0] != '-',
        no_breaks(k),
        no_breaks(v),
    ensures
        line_ok(key_line(k, v)),
{
    let line = key_line(k, v);
    assert(line[0] == k[0]);
    assert forall|i: int| 0 <= i < line.len() implies #[trigger] line[i] != '\n' && line[i] != '\r' by {
        if i < k.len() {
            assert(line[i] == k[i]);
        } else if i >= k.len() + 2 {
            assert(line[i] == v[i - k.len() - 2]);
        }
    }
    lemma_find_char(line, ':', 0);
    if find_char(line, ':', 0) >= line.len() {
        assert(line[k.len() as int] == ':');
    }
}

proof fn lemma_join_push(l: Seq<Seq<char>>, x: Seq<char>)
    requires
        l.len() > 0,
    ensures
        join_tags(l.push(x)) == join_tags(l) + seq![',', ' '] + x,
    decreases l.len(),
{
    if l.len() == 1 {
        assert(l.push(x).drop_first() =~= seq![x]);
        assert(join_tags(seq![x]) == x);
    } else {
        assert(l.push(x).drop_first() =~= l.drop_first().push(x));
        lemma_join_push(l.drop_first(), x);
        assert(join_tags(l.push(x)) =~= join_tags(l) + seq![',', ' '] + x);
    }
}

proof fn lemma_join_shape(l: Seq<Seq<char>>)
    requires
        l.len() > 0,
        forall|i: int| 0 <= i < l.len() ==> is_canonical_tag(#[trigger] l[i]),
    ensures
        join_tags(l).len() > 0,
        !is_ws(join_tags(l)[0]),
        !is_ws(join_tags(l).last()),
        no_breaks(join_tags(l)),
    decreases l.len(),
{
    let x = l[0];
    let j = join_tags(l);
    assert(is_canonical_tag(x));
    lemma_tag_char(x[0]);
    assert forall|i: int| 0 <= i < x.len() implies #[trigger] x[i] != '\n' && x[i] != '\r' by {
        lemma_tag_char(x[i]);
    }
    if l.len() == 1 {
        lemma_tag_char(x[x.len() - 1]);
    } else {
        let rest = l.drop_first();
        assert forall|i: int| 0 <= i < rest.len() implies is_canonical_tag(#[trigger] rest[i]) by {
            assert(rest[i] == l[i + 1]);
        }
        lemma_join_shape(rest);
        let jr = join_tags(rest);
        assert(j == x + seq![',', ' '] + jr);
        assert(j[0] == x[0]);
        assert(j.last() == jr.last());
        assert forall|i: int| 0 <= i < j.len() implies #[trigger] j[i] != '\n' && j[i] != '\r' by {
            if i < x.len() {
                assert(j[i] == x[i]);
            } else if i >= x.len() + 2 {
                assert(j[i] == jr[i - x.len() - 2]);
            }
        }
    }
}

proof fn lemma_apply_tags_join(p: Seq<char>, l: Seq<Seq<char>>, acc: Set<Seq<char>>)
    requires
        p.len() <= 1,
        forall|i: int| 0 <= i < p.len() ==> p[i] == ' ',
        l.len() > 0,
        forall|i: int| 0 <= i < l.len() ==> is_canonical_tag(#[trigger] l[i]),
        lowercase_stable(l),
    ensures
        apply_tags(p + join_tags(l), acc) == Ok::<Set<Seq<char>>, TagErrorSpec>(
            acc.union(l.to_set()),
        ),
    decreases l.len(),
{
    let x = l[0];
    let s = p + join_tags(l);
    assert(is_canonical_tag(x));
    assert(str_lowercase(l[0]) == l[0]);
    lemma_canonical_tag_new(x);
    lemma_tag_char(x[0]);
    lemma_tag_char(x[x.len() - 1]);
    assert forall|i: int| 0 <= i < x.len() implies #[trigger] x[i] != ',' by {
        lemma_tag_char(x[i]);
    }
    lemma_trim_space_prefix(p, x);
    lemma_trim_noop(x);
    if l.len() == 1 {
        assert(s =~= p + x);
        assert forall|k: int| 0 <= k < s.len() implies s[k] != ',' by {
            if k >= p.len() {
                assert(s[k] == x[k - p.len()]);
            }
        }
        lemma_find_char_unique(s, ',', 0, s.len() as int);
        assert(s.take(s.len() as int) =~= s);
        assert(acc.insert(x) =~= acc.union(l.to_set())) by {
            assert forall|y: Seq<char>| l.to_set().contains(y) <==> y == x by {
                if l.contains(y) {
                    let i = choose|i: int| 0 <= i < l.len() && l[i] == y;
                    assert(i == 0);
                }
                if y == x {
                    assert(l[0] == y);
                }
            }
        }
    } else {
        let rest = l.drop_first();
        assert forall|i: int| 0 <= i < rest.len() implies is_canonical_tag(#[trigger] rest[i]) by {
            assert(rest[i] == l[i + 1]);
        }
        assert forall|i: int| 0 <= i < rest.len() implies str_lowercase(#[trigger] rest[i]) == rest[i] by {
            assert(rest[i] == l[i + 1]);
        }
        let e = (p.len() + x.len()) as int;
        assert(s =~= p + x + seq![',', ' '] + join_tags(rest));
        assert forall|k: int| 0 <= k < e implies s[k] != ',' by {
            if k >= p.len() {
                assert(s[k] == x[k - p.len()]);
            }
        }
        lemma_find_char_unique(s, ',', 0, e);
        assert(s.take(e) =~= p + x);
        assert(s.skip(e + 1) =~= seq![' '] + join_tags(rest));
        lemma_apply_tags_join(seq![' '], rest, acc.insert(x));
        assert(acc.insert(x).union(rest.to_set()) =~= acc.union(l.to_set())) by {
            assert forall|y: Seq<char>| l.to_set().contains(y) <==> (y == x || rest.to_set().contains(y)) by {
                if l.contains(y) {
                    let i = choose|i: int| 0 <= i < l.len() && l[i] == y;
                    if i > 0 {
                        assert(rest[i - 1] == y);
                    }
                }
                if y == x {
                    assert(l[0] == y);
                }
                if rest.contains(y) {
                    let i = choose|i: int| 0 <= i < rest.len() && rest[i] == y;
                    assert(l[i + 1] == y);
                }
            }
        }
    }
}

proof fn lemma_apply_lines_append(a: Seq<Seq<char>>, b: Seq<Seq<char>>, acc: ImportedSpec)
    ensures
        apply_lines(a + b, acc) == match apply_lines(a, acc) {
            Ok(x) => apply_lines(b, x),
            Err(e) => Err(e),
        },
    decreases a.len(),
{
    if a.len() == 0 {
        assert(a + b =~= b);
    } else {
        assert((a + b)[0] == a[0]);
        assert((a + b).drop_first() =~= a.drop_first() + b);
        match apply_line(a[0], acc) {
            Ok(x) => lemma_apply_lines_append(a.drop_first(), b, x),
            Err(_) => {},
        }
    }
}

proof fn lemma_apply_lines_one(l: Seq<char>, acc: ImportedSpec)
    ensures
        apply_lines(seq![l], acc) == apply_line(l, acc),
{
    let e = seq![l].drop_first();
    assert(e =~= Seq::<Seq<char>>::empty());
    match apply_line(l, acc) {
        Ok(x) => {
            assert(apply_lines(e, x) == Ok::<ImportedSpec, MdErrorSpec>(x));
        },
        Err(_) => {},
    }
}

proof fn lemma_all_lines_ok(a: Seq<Seq<char>>, b: Seq<Seq<char>>)
    requires
        forall|i: int| 0 <= i < a.len() ==> line_ok(#[trigger] a[i]),
        forall|i: int| 0 <= i < b.len() ==> line_ok(#[trigger] b[i]),
    ensures
        forall|i: int| 0 <= i < (a + b).len() ==> line_ok(#[trigger] (a + b)[i]),
{
    assert forall|i: int| 0 <= i < (a + b).len() implies line_ok(#[trigger] (a + b)[i]) by {
        if i < a.len() {
            assert((a + b)[i] == a[i]);
        } else {
            assert((a + b)[i] == b[i - a.len()]);
        }
    }
}

proof fn lemma_int_value(n: i64)
    ensures
        no_breaks(int_text(n as int)),
        trim(int_text(n as int)) == int_text(n as int),
        parse_i64(int_text(n as int)) == Some(n),
{
    let s = int_text(n as int);
    lemma_int_text_shape(n as int);
    assert forall|i: int| 0 <= i < s.len() implies #[trigger] s[i] != '\n' && s[i] != '\r' by {
        if i > 0 {
            assert(is_digit(s[i]));
        }
    }
    assert(!is_ws(s[0]));
    assert(!is_ws(s.last()));
    lemma_trim_noop(s);
    lemma_i64_text_roundtrip(n);
}

/// The facts the round trip needs of a note: its id text is the canonical
/// text of its id, and its tags are valid and unchanged by lowercasing.
pub open spec fn exportable(n: Note) -> bool {
    &&& ulid_text(n.id.0).len() == 26
    &&& forall|i: int| 0 <= i < 26 ==> crockford_upper(#[trigger] ulid_text(n.id.0)[i])
    &&& parse_id(ulid_text(n.id.0)) == Ok::<u128, IdError>(n.id.0)
    &&& n.tags.valid()
    &&& lowercase_stable(n.tags.listing())
}

/// The frontmatter keys are distinct, non-empty, single-line, free of `:`,
/// not surrounded by whitespace and do not start with `-`.
proof fn lemma_keys_ok()
    ensures
        forall|k: Seq<char>|
            k == "id"@ || k == "title"@ || k == "tags"@ || k == "content_kind"@ || k == "created"@
                || k == "updated"@ ==> #[trigger] k.len() > 0 && k[0] != '-' && no_breaks(k)
                && !is_ws(k[0]) && !is_ws(k.last()) && forall|i: int|
                0 <= i < k.len() ==> k[i] != ':',
        "id"@ != "title"@ && "id"@ != "tags"@ && "id"@ != "content_kind"@ && "id"@ != "created"@
            && "id"@ != "updated"@,
        "title"@ != "tags"@ && "title"@ != "content_kind"@ && "title"@ != "created"@ && "title"@
            != "updated"@,
        "tags"@ != "content_kind"@ && "tags"@ != "created"@ && "tags"@ != "updated"@,
        "content_kind"@ != "created"@ && "content_kind"@ != "updated"@,
        "created"@ != "updated"@,
{
    reveal_strlit("id");
    reveal_strlit("title");
    reveal_strlit("tags");
    reveal_strlit("content_kind");
    reveal_strlit("created");
    reveal_strlit("updated");
    assert("id"@.len() == 2);
    assert("title"@.len() == 5);
    assert("tags"@.len() == 4);
    assert("content_kind"@.len() == 12);
    assert("created"@.len() == 7);
    assert("updated"@.len() == 7);
    assert("updated"@[0] != "created"@[0]);
}

/// A text of 26 uppercase Crockford characters is single-line and trimmed.
proof fn lemma_crockford_text_plain(t: Seq<char>)
    requires
        t.len() == 26,
        forall|i: int| 0 <= i < 26 ==> crockford_upper(#[trigger] t[i]),
    ensures
        no_breaks(t),
        trim(t) == t,
{
    assert forall|i: int| 0 <= i < t.len() implies #[trigger] t[i] != '\n' && t[i] != '\r' by {
        assert(crockford_upper(t[i]));
    }
    assert(crockford_upper(t[0]) && crockford_upper(t[25]));
    lemma_trim_noop(t);
}

/// The kind's wire name is single-line and trimmed.
proof fn lemma_wire_plain(k: ContentKind)
    ensures
        no_breaks(wire_name(k)),
        trim(wire_name(k)) == wire_name(k),
{
    let w = wire_name(k);
    assert(no_breaks(w) && !is_ws(w[0]) && !is_ws(w.last()));
    lemma_trim_noop(w);
}

/// A non-empty tag listing joins into single-line, trimmed text.
proof fn lemma_tags_plain(n: Note)
    requires
        exportable(n),
    ensures
        n.tags.listing().len() > 0 ==> no_breaks(join_tags(n.tags.listing())) && trim(
            join_tags(n.tags.listing()),
        ) == join_tags(n.tags.listing()),
{
    let listing = n.tags.listing();
    if listing.len() > 0 {
        lemma_join_shape(listing);
        lemma_trim_noop(join_tags(listing));
    }
}

/// The header values are single-line and already trimmed.
proof fn lemma_values_ok(n: Note)
    requires
        exportable(n),
    ensures
        no_breaks(ulid_text(n.id.0)),
        trim(ulid_text(n.id.0)) == ulid_text(n.id.0),
        no_breaks(wire_name(n.content_kind)),
        trim(wire_name(n.content_kind)) == wire_name(n.content_kind),
        no_breaks(int_text(n.created.0 as int)),
        no_breaks(int_text(n.updated.0 as int)),
        n.tags.listing().len() > 0 ==> no_breaks(join_tags(n.tags.listing())) && trim(
            join_tags(n.tags.listing()),
        ) == join_tags(n.tags.listing()),
{
    lemma_crockford_text_plain(ulid_text(n.id.0));
    lemma_int_value(n.created.0);
    lemma_int_value(n.updated.0);
    lemma_wire_plain(n.content_kind);
    lemma_tags_plain(n);
}

/// Every header line is well formed, and each value is already trimmed.
proof fn lemma_header_ok(n: Note)
    requires
        exportable(n),
    ensures
        forall|i: int| 0 <= i < header_lines(n).len() ==> line_ok(#[trigger] header_lines(n)[i]),
        trim(ulid_text(n.id.0)) == ulid_text(n.id.0),
        trim(wire_name(n.content_kind)) == wire_name(n.content_kind),
        n.tags.listing().len() > 0 ==> trim(join_tags(n.tags.listing())) == join_tags(
            n.tags.listing(),
        ),
{
    lemma_keys_ok();
    lemma_values_ok(n);
    let idt = ulid_text(n.id.0);
    let listing = n.tags.listing();
    let w = wire_name(n.content_kind);
    let l_id = key_line("id"@, idt);
    let t_ls: Seq<Seq<char>> = match n.title {
        Some(t) => seq![key_line("title"@, scalar_text(t@))],
        None => Seq::empty(),
    };
    let g_ls: Seq<Seq<char>> = if listing.len() == 0 {
        Seq::empty()
    } else {
        seq![key_line("tags"@, join_tags(listing))]
    };
    let l_k = key_line("content_kind"@, w);
    let l_c = key_line("created"@, int_text(n.created.0 as int));
    let l_u = key_line("updated"@, int_text(n.updated.0 as int));
    let tail = seq![l_k, l_c, l_u];
    assert(header_lines(n) == seq![l_id] + t_ls + g_ls + tail);
    assert("id"@.len() > 0);
    assert("content_kind"@.len() > 0);
    assert("created"@.len() > 0);
    assert("updated"@.len() > 0);
    lemma_key_line_ok("id"@, idt);
    lemma_key_line_ok("content_kind"@, w);
    lemma_key_line_ok("created"@, int_text(n.created.0 as int));
    lemma_key_line_ok("updated"@, int_text(n.updated.0 as int));
    match n.title {
        Some(t) => {
            assert("title"@.len() > 0);
            lemma_key_line_ok("title"@, scalar_text(t@));
        },
        None => {},
    }
    if listing.len() > 0 {
        assert("tags"@.len() > 0);
        lemma_key_line_ok("tags"@, join_tags(listing));
    }
    assert forall|i: int| 0 <= i < tail.len() implies line_ok(#[trigger] tail[i]) by {
        if i == 0 {
            assert(tail[i] == l_k);
        } else if i == 1 {
            assert(tail[i] == l_c);
        } else {
            assert(tail[i] == l_u);
        }
    }
    lemma_all_lines_ok(seq![l_id], t_ls);
    lemma_all_lines_ok(seq![l_id] + t_ls, g_ls);
    lemma_all_lines_ok(seq![l_id] + t_ls + g_ls, tail);
}

/// Reading the markdown form applies the header lines over the body.
proof fn lemma_read_header(n: Note)
    requires
        exportable(n),
    ensures
        read_markdown(markdown_text(n)) == apply_lines(
            header_lines(n),
            bare_import(normalize_nl(n.body@)),
        ),
{
    let ls = header_lines(n);
    lemma_header_ok(n);
    let c = concat_lines(ls);
    lemma_concat_shape(ls);
    let pre = fence() + c + fence();
    assert forall|i: int| 0 <= i < pre.len() implies #[trigger] pre[i] != '\r' by {
        if 4 <= i < 4 + c.len() {
            assert(pre[i] == c[i - 4]);
        }
    }
    assert(markdown_text(n) =~= pre + n.body@);
    lemma_normalize_prefix(pre, n.body@);
    let nb = normalize_nl(n.body@);
    lemma_split_header(ls, nb);
    lemma_concat_lines(ls, bare_import(nb));
}

proof fn lemma_step_id(idt: Seq<char>, v: u128, acc: ImportedSpec)
    requires
        trim(idt) == idt,
        parse_id(idt) == Ok::<u128, IdError>(v),
    ensures
        apply_line(key_line("id"@, idt), acc) == Ok::<ImportedSpec, MdErrorSpec>(
            ImportedSpec { id: Some(v), ..acc },
        ),
{
    lemma_keys_ok();
    lemma_key_line("id"@, idt, acc);
}

proof fn lemma_step_title(t: Seq<char>, acc: ImportedSpec)
    ensures
        apply_line(key_line("title"@, scalar_text(t)), acc) == Ok::<ImportedSpec, MdErrorSpec>(
            ImportedSpec { title: title_read_back(Some(t)), ..acc },
        ),
{
    lemma_keys_ok();
    lemma_key_line("title"@, scalar_text(t), acc);
}

proof fn lemma_step_tags(l: Seq<Seq<char>>, acc: ImportedSpec)
    requires
        l.len() > 0,
        forall|i: int| 0 <= i < l.len() ==> is_canonical_tag(#[trigger] l[i]),
        lowercase_stable(l),
        acc.tags == Set::<Seq<char>>::empty(),
    ensures
        apply_line(key_line("tags"@, join_tags(l)), acc) == Ok::<ImportedSpec, MdErrorSpec>(
            ImportedSpec { tags: l.to_set(), ..acc },
        ),
{
    lemma_keys_ok();
    let j = join_tags(l);
    lemma_join_shape(l);
    lemma_trim_noop(j);
    lemma_key_line("tags"@, j, acc);
    lemma_apply_tags_join(Seq::empty(), l, Set::empty());
    assert(Seq::<char>::empty() + j =~= j);
    assert(Set::<Seq<char>>::empty().union(l.to_set()) =~= l.to_set());
}

proof fn lemma_step_kind(k: ContentKind, acc: ImportedSpec)
    ensures
        apply_line(key_line("content_kind"@, wire_name(k)), acc) == Ok::<
            ImportedSpec,
            MdErrorSpec,
        >(ImportedSpec { content_kind: k, ..acc }),
{
    lemma_keys_ok();
    let w = wire_name(k);
    assert(!is_ws(w[0]) && !is_ws(w.last()));
    lemma_trim_noop(w);
    lemma_key_line("content_kind"@, w, acc);
    lemma_wire_roundtrip(k);
}

proof fn lemma_step_created(v: i64, acc: ImportedSpec)
    ensures
        apply_line(key_line("created"@, int_text(v as int)), acc) == Ok::<
            ImportedSpec,
            MdErrorSpec,
        >(ImportedSpec { created: Some(v), ..acc }),
{
    lemma_keys_ok();
    lemma_int_value(v);
    lemma_key_line("created"@, int_text(v as int), acc);
}

proof fn lemma_step_updated(v: i64, acc: ImportedSpec)
    ensures
        apply_line(key_line("updated"@, int_text(v as int)), acc) == Ok::<
            ImportedSpec,
            MdErrorSpec,
        >(ImportedSpec { updated: Some(v), ..acc }),
{
    lemma_keys_ok();
    lemma_int_value(v);
    lemma_key_line("updated"@, int_text(v as int), acc);
}

/// Reading back the markdown form of a note gives each of its fields.
proof fn lemma_markdown_roundtrip(n: Note)
    requires
        exportable(n),
    ensures
        read_markdown(markdown_text(n)) == Ok::<ImportedSpec, MdErrorSpec>(exported_import(n)),
{
    lemma_read_header(n);
    lemma_header_ok(n);
    let idt = ulid_text(n.id.0);
    let listing = n.tags.listing();
    let l_id = key_line("id"@, idt);
    let t_ls: Seq<Seq<char>> = match n.title {
        Some(t) => seq![key_line("title"@, scalar_text(t@))],
        None => Seq::empty(),
    };
    let g_ls: Seq<Seq<char>> = if listing.len() == 0 {
        Seq::empty()
    } else {
        seq![key_line("tags"@, join_tags(listing))]
    };
    let l_k = key_line("content_kind"@, wire_name(n.content_kind));
    let l_c = key_line("created"@, int_text(n.created.0 as int));
    let l_u = key_line("updated"@, int_text(n.updated.0 as int));
    let tail = seq![l_k, l_c, l_u];
    assert(header_lines(n) =~= seq![l_id] + t_ls + g_ls + tail);
    let acc0 = bare_import(normalize_nl(n.body@));
    let acc1 = ImportedSpec { id: Some(n.id.0), ..acc0 };
    lemma_step_id(idt, n.id.0, acc0);
    lemma_apply_lines_one(l_id, acc0);
    let acc2 = ImportedSpec { title: title_read_back(opt_view(n.title)), ..acc1 };
    match n.title {
        Some(t) => {
            lemma_step_title(t@, acc1);
            lemma_apply_lines_one(key_line("title"@, scalar_text(t@)), acc1);
        },
        None => {},
    }
    assert(apply_lines(t_ls, acc1) == Ok::<ImportedSpec, MdErrorSpec>(acc2));
    lemma_apply_lines_append(seq![l_id], t_ls, acc0);
    let acc3 = ImportedSpec { tags: n.tags@, ..acc2 };
    if listing.len() > 0 {
        lemma_step_tags(listing, acc2);
        lemma_apply_lines_one(key_line("tags"@, join_tags(listing)), acc2);
    } else {
        assert(n.tags@ =~= Set::<Seq<char>>::empty());
    }
    assert(apply_lines(g_ls, acc2) == Ok::<ImportedSpec, MdErrorSpec>(acc3));
    lemma_apply_lines_append(seq![l_id] + t_ls, g_ls, acc0);
    let acc4 = ImportedSpec { content_kind: n.content_kind, ..acc3 };
    let acc5 = ImportedSpec { created: Some(n.created.0), ..acc4 };
    let acc6 = ImportedSpec { updated: Some(n.updated.0), ..acc5 };
    lemma_step_kind(n.content_kind, acc3);
    lemma_step_created(n.created.0, acc4);
    lemma_step_updated(n.updated.0, acc5);
    assert(tail.drop_first() =~= seq![l_c, l_u]);
    assert(seq![l_c, l_u].drop_first() =~= seq![l_u]);
    lemma_apply_lines_one(l_u, acc5);
    assert(seq![l_c, l_u][0] == l_c);
    assert(apply_lines(seq![l_c, l_u], acc4) == Ok::<ImportedSpec, MdErrorSpec>(acc6));
    assert(tail[0] == l_k);
    assert(apply_lines(tail, acc3) == Ok::<ImportedSpec, MdErrorSpec>(acc6));
    lemma_apply_lines_append(seq![l_id] + t_ls + g_ls, tail, acc0);
    assert(acc6 == exported_import(n));
}

/// Append a `key: value` line and its newline.
fn push_line(out: &mut String, key: &str, value: &str)
    ensures
        final(out)@ == old(out)@ + key_line(key@, value@) + seq!['\n'],
{
    out.append(key);
    out.append(": ");
    out.append(value);
    out.append("\n");
    proof {
        reveal_strlit(": ");
        reveal_strlit("\n");
    }
    assert(out@ =~= old(out)@ + key_line(key@, value@) + seq!['\n']);
}

/// The tag texts joined with `", "`.
fn join_tag_texts(tags: &TagSet) -> (r: String)
    ensures
        r@ == join_tags(tags.listing()),
{
    let n = tags.len();
    let ghost listing = tags.listing();
    let mut joined = String::new();
    let mut i: usize = 0;
    while i < n
        invariant
            i <= n,
            n == listing.len(),
            listing == tags.listing(),
            i == 0 ==> joined@ == Seq::<char>::empty(),
            i > 0 ==> joined@ == join_tags(listing.take(i as int)),
        decreases n - i,
    {
        if i > 0 {
            joined.append(", ");
            proof {
                reveal_strlit(", ");
            }
        }
        let t = tags.get(i);
        joined.append(t.as_str());
        proof {
            if i == 0 {
                assert(listing.take(1) =~= seq![listing[0]]);
                assert(joined@ =~= listing[0]);
            } else {
                assert(listing.take(i + 1) =~= listing.take(i as int).push(listing[i as int]));
                lemma_join_push(listing.take(i as int), listing[i as int]);
                assert(joined@ =~= join_tags(listing.take(i + 1)));
            }
        }
        i += 1;
    }
    assert(listing.take(n as int) =~= listing);
    joined
}

/// Build the markdown form of a note whose id text is `id`.
fn render_markdown(note: &Note, id: &str) -> (r: String)
    requires
        id@ == ulid_text(note.id.0),
    ensures
        r@ == markdown_text(*note),
        note.tags.valid(),
{
    let mut out = "---\n".to_owned();
    proof {
        reveal_strlit("---\n");
    }
    assert(out@ =~= fence());
    let ghost mut ls: Seq<Seq<char>> = Seq::empty();
    push_line(&mut out, "id", id);
    proof {
        lemma_concat_push(ls, key_line("id"@, id@));
        ls = ls.push(key_line("id"@, id@));
    }
    assert(out@ =~= fence() + concat_lines(ls));
    match &note.title {
        Some(t) => {
            let v = frontmatter_scalar(t.as_str());
            push_line(&mut out, "title", v.as_str());
            proof {
                lemma_concat_push(ls, key_line("title"@, v@));
                ls = ls.push(key_line("title"@, v@));
            }
            assert(out@ =~= fence() + concat_lines(ls));
        },
        None => {},
    }
    if note.tags.len() > 0 {
        let joined = join_tag_texts(&note.tags);
        push_line(&mut out, "tags", joined.as_str());
        proof {
            lemma_concat_push(ls, key_line("tags"@, joined@));
            ls = ls.push(key_line("tags"@, joined@));
        }
        assert(out@ =~= fence() + concat_lines(ls));
    }
    push_line(&mut out, "content_kind", note.content_kind.as_str());
    proof {
        lemma_concat_push(ls, key_line("content_kind"@, wire_name(note.content_kind)));
        ls = ls.push(key_line("content_kind"@, wire_name(note.content_kind)));
    }
    assert(out@ =~= fence() + concat_lines(ls));
    let created = i64_to_text(note.created.0);
    push_line(&mut out, "created", created.as_str());
    proof {
        lemma_concat_push(ls, key_line("created"@, created@));
        ls = ls.push(key_line("created"@, created@));
    }
    assert(out@ =~= fence() + concat_lines(ls));
    let updated = i64_to_text(note.updated.0);
    push_line(&mut out, "updated", updated.as_str());
    proof {
        lemma_concat_push(ls, key_line("updated"@, updated@));
        ls = ls.push(key_line("updated"@, updated@));
    }
    assert(out@ =~= fence() + concat_lines(ls));
    assert(ls =~= header_lines(*note));
    out.append("---\n");
    out.append(note.body.as_str());
    assert(out@ =~= markdown_text(*note));
    out
}

/// Render a note as markdown with a frontmatter header. A title is written
/// on one line (its line breaks turned into spaces); `title` and `tags` are
/// left out when absent or empty. Reading the text back gives every field of
/// the note, provided lowercasing leaves its tags unchanged.
pub fn to_markdown(note: &Note) -> (r: String)
    ensures
        r@ == markdown_text(*note),
        lowercase_stable(note.tags.listing()) ==> read_markdown(r@) == Ok::<
            ImportedSpec,
            MdErrorSpec,
        >(exported_import(*note)),
{
    let id = note.id.to_string();
    let r = render_markdown(note, id.as_str());
    proof {
        if lowercase_stable(note.tags.listing()) {
            assert(exportable(*note));
            lemma_markdown_roundtrip(*note);
        }
    }
    r
}

} // verus!
