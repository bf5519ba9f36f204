//! The read side's decisions: query text for full-text search, how a user
//! reference is resolved step by step, which candidates match a title, and
//! how stored rows map back to notes, tags and links.

use crate::content::kind_from_wire;
use crate::error::{debug_str, str_debug, tag_error_text, TagErrorSpec};
use crate::id::{ascii_upper, crockford_decodable, parse_id, ulid_text, upper_char, NoteId};
use crate::link::WikiTarget;
use crate::model::{content_kind_from_db, corrupt_id_message, stored_id, Link, StoreError};
use crate::note::{opt_view, Note, NoteView};
use crate::tag::{str_lowercase, tag_new_spec, to_lowercase, Tag};
use crate::text::{chars_of, is_ws, is_whitespace, push_char, str_eq, string_of, trim, trim_range};
use crate::title::{derive_title, effective_title};
use vstd::prelude::*;

verus! {

/// Clamp a count or offset into SQLite's signed 64-bit domain.
pub fn clamp_i64(n: usize) -> (r: i64)
    ensures
        r == (if n <= i64::MAX {
            n as int
        } else {
            i64::MAX as int
        }),
{
    if n as u128 <= i64::MAX as u128 {
        n as i64
    } else {
        i64::MAX
    }
}

/// Whether `s` looks like a git-style ULID prefix: 1 to 25 characters, each a
/// Crockford base32 digit in either case. A full 26-character id is handled
/// by exact parsing instead.
pub fn is_ulid_prefix(s: &str) -> (r: bool)
    ensures
        r == (1 <= s@.len() < 26 && forall|i: int|
            0 <= i < s@.len() ==> crockford_decodable(#[trigger] s@[i])),
{
    let v = chars_of(s);
    if v.len() == 0 || v.len() >= 26 {
        return false;
    }
    let mut i: usize = 0;
    while i < v.len()
        invariant
            i <= v.len(),
            v@ == s@,
            forall|k: int| 0 <= k < i ==> crockford_decodable(#[trigger] v@[k]),
        decreases v.len() - i,
    {
        let c = v[i];
        let ok = ('0' <= c && c <= '9') || ('A' <= c && c <= 'Z' && c != 'I' && c != 'L' && c != 'O'
            && c != 'U') || ('a' <= c && c <= 'z' && c != 'i' && c != 'l' && c != 'o' && c != 'u');
        if !ok {
            return false;
        }
        i += 1;
    }
    true
}

/// The text with every `"` doubled.
pub open spec fn double_quotes(s: Seq<char>) -> Seq<char>
    decreases s.len(),
{
    if s.len() == 0 {
        Seq::empty()
    } else {
        double_quotes(s.drop_last()) + if s.last() == '"' {
            seq!['"', '"']
        } else {
            seq![s.last()]
        }
    }
}

/// A raw string as a single FTS5 phrase: quoted, embedded quotes doubled, so
/// user input is never read as query syntax.
pub open spec fn fts_phrase(s: Seq<char>) -> Seq<char> {
    seq!['"'] + double_quotes(s) + seq!['"']
}

/// Wrap a raw string as a single FTS5 phrase.
pub fn quote_fts(s: &str) -> (r: String)
    ensures
        r@ == fts_phrase(s@),
{
    let v = chars_of(s);
    let mut out = String::new();
    push_char(&mut out, '"');
    let mut i: usize = 0;
    while i < v.len()
        invariant
            i <= v.len(),
            out@ == seq!['"'] + double_quotes(v@.take(i as int)),
        decreases v.len() - i,
    {
        assert(v@.take(i + 1).drop_last() =~= v@.take(i as int));
        if v[i] == '"' {
            push_char(&mut out, '"');
            push_char(&mut out, '"');
        } else {
            push_char(&mut out, v[i]);
        }
        i += 1;
        assert(out@ =~= seq!['"'] + double_quotes(v@.take(i as int)));
    }
    assert(v@.take(i as int) =~= s@);
    push_char(&mut out, '"');
    out
}

/// Index of the first non-whitespace character at or after `i` (or the end).
pub open spec fn skip_ws(s: Seq<char>, i: int) -> int
    decreases s.len() - i,
{
    if i < 0 || i >= s.len() || !is_ws(s[i]) {
        i
    } else {
        skip_ws(s, i + 1)
    }
}

/// Index of the first whitespace character at or after `i` (or the end).
pub open spec fn word_end(s: Seq<char>, i: int) -> int
    decreases s.len() - i,
{
    if i < 0 || i >= s.len() || is_ws(s[i]) {
        i
    } else {
        word_end(s, i + 1)
    }
}

pub proof fn lemma_skip_ws(s: Seq<char>, i: int)
    requires
        0 <= i <= s.len(),
    ensures
        i <= skip_ws(s, i) <= s.len(),
        skip_ws(s, i) < s.len() ==> !is_ws(s[skip_ws(s, i)]),
    decreases s.len() - i,
{
    if i < s.len() && is_ws(s[i]) {
        lemma_skip_ws(s, i + 1);
    }
}

pub proof fn lemma_word_end(s: Seq<char>, i: int)
    requires
        0 <= i <= s.len(),
    ensures
        i <= word_end(s, i) <= s.len(),
        i < s.len() && !is_ws(s[i]) ==> word_end(s, i) > i,
    decreases s.len() - i,
{
    if i < s.len() && !is_ws(s[i]) {
        lemma_word_end(s, i + 1);
    }
}

/// The whitespace-separated words of `s` from index `i` on
/// (`str::split_whitespace`).
pub open spec fn words_from(s: Seq<char>, i: int) -> Seq<Seq<char>>
    decreases s.len() - i,
{
    let a = skip_ws(s, i);
    if i < 0 || i > s.len() || a >= s.len() {
        Seq::empty()
    } else {
        let b = word_end(s, a);
        proof {
            lemma_skip_ws(s, i);
            lemma_word_end(s, a);
        }
        seq![s.subrange(a, b)] + words_from(s, b)
    }
}

/// The word with every `"` and `*` removed.
pub open spec fn strip_fts_chars(w: Seq<char>) -> Seq<char>
    decreases w.len(),
{
    if w.len() == 0 {
        Seq::empty()
    } else if w.last() == '"' || w.last() == '*' {
        strip_fts_chars(w.drop_last())
    } else {
        strip_fts_chars(w.drop_last()).push(w.last())
    }
}

/// Stripping works character by character: it distributes over
/// concatenation.
pub proof fn lemma_strip_concat(a: Seq<char>, b: Seq<char>)
    ensures
        strip_fts_chars(a + b) == strip_fts_chars(a) + strip_fts_chars(b),
    decreases b.len(),
{
    if b.len() == 0 {
        assert(a + b =~= a);
        assert(strip_fts_chars(a) + strip_fts_chars(b) =~= strip_fts_chars(a));
    } else {
        assert((a + b).drop_last() =~= a + b.drop_last());
        assert((a + b).last() == b.last());
        lemma_strip_concat(a, b.drop_last());
        if b.last() == '"' || b.last() == '*' {
        } else {
            assert(strip_fts_chars(a) + strip_fts_chars(b.drop_last()).push(b.last()) =~= (
            strip_fts_chars(a) + strip_fts_chars(b.drop_last())).push(b.last()));
        }
    }
}

/// Only `"` and `*` are removed: a single character is dropped exactly when
/// it is one of those two.
pub proof fn lemma_strip_char(c: char)
    ensures
        strip_fts_chars(seq![c]) == (if c == '"' || c == '*' {
            Seq::<char>::empty()
        } else {
            seq![c]
        }),
{
    assert(seq![c].drop_last() =~= Seq::<char>::empty());
    assert(strip_fts_chars(Seq::<char>::empty()) == Seq::<char>::empty());
    assert(seq![c].last() == c);
    assert(Seq::<char>::empty().push(c) =~= seq![c]);
}

/// A word holding neither `"` nor `*` is kept whole, and what stripping
/// leaves holds neither.
pub proof fn lemma_strip_keeps_other_chars(w: Seq<char>)
    ensures
        (forall|i: int| 0 <= i < w.len() ==> #[trigger] w[i] != '"' && w[i] != '*')
            ==> strip_fts_chars(w) == w,
        forall|i: int| 0 <= i < strip_fts_chars(w).len() ==> #[trigger] strip_fts_chars(w)[i] != '"'
            && strip_fts_chars(w)[i] != '*',
    decreases w.len(),
{
    if w.len() > 0 {
        let d = w.drop_last();
        lemma_strip_keeps_other_chars(d);
        let sd = strip_fts_chars(d);
        if w.last() == '"' || w.last() == '*' {
            assert(strip_fts_chars(w) == sd);
        } else {
            assert(strip_fts_chars(w) == sd.push(w.last()));
            assert forall|i: int| 0 <= i < sd.push(w.last()).len() implies #[trigger] sd.push(w.last())[i] != '"'
                && sd.push(w.last())[i] != '*' by {
                if i < sd.len() {
                    assert(sd.push(w.last())[i] == sd[i]);
                }
            }
        }
        if forall|i: int| 0 <= i < w.len() ==> #[trigger] w[i] != '"' && w[i] != '*' {
            assert forall|i: int| 0 <= i < d.len() implies #[trigger] d[i] != '"' && d[i] != '*' by {
                assert(d[i] == w[i]);
            }
            assert(w.last() == w[w.len() - 1]);
            assert(d.push(w.last()) =~= w);
        }
    } else {
        assert(strip_fts_chars(w) =~= Seq::<char>::empty());
    }
}

proof fn lemma_word_end_all(s: Seq<char>, i: int)
    requires
        0 <= i <= s.len(),
        forall|k: int| i <= k < s.len() ==> !is_ws(#[trigger] s[k]),
    ensures
        word_end(s, i) == s.len(),
    decreases s.len() - i,
{
    if i < s.len() {
        lemma_word_end_all(s, i + 1);
    }
}

/// A single word without whitespace, `"` or `*` becomes exactly one quoted
/// prefix term: `"word"*`, every character of the word kept.
pub proof fn lemma_single_word_query(w: Seq<char>)
    requires
        w.len() > 0,
        forall|i: int| 0 <= i < w.len() ==> !is_ws(#[trigger] w[i]) && w[i] != '"' && w[i] != '*',
    ensures
        prefix_query(w) == seq!['"'] + w + seq!['"', '*'],
{
    lemma_word_end_all(w, 0);
    assert(skip_ws(w, 0) == 0);
    assert(words_from(w, w.len() as int) =~= Seq::<Seq<char>>::empty());
    assert(w.subrange(0, w.len() as int) =~= w);
    assert(words_from(w, 0) =~= seq![w]);
    lemma_strip_keeps_other_chars(w);
    let ws = seq![w];
    assert(ws.drop_last() =~= Seq::<Seq<char>>::empty());
    assert(prefix_terms(Seq::<Seq<char>>::empty()) == Seq::<Seq<char>>::empty());
    assert(ws.last() == w);
    assert(prefix_terms(ws) =~= seq![w]);
    assert(render_prefix_terms(seq![w]) == seq!['"'] + w + seq!['"', '*']);
}

proof fn lemma_word_end_at(s: Seq<char>, i: int, j: int)
    requires
        0 <= i <= j <= s.len(),
        forall|k: int| i <= k < j ==> !is_ws(#[trigger] s[k]),
        j == s.len() || is_ws(s[j]),
    ensures
        word_end(s, i) == j,
    decreases j - i,
{
    if i < j {
        lemma_word_end_at(s, i + 1, j);
    }
}

/// Two words separated by a space become two quoted prefix terms, in order,
/// each word kept whole.
pub proof fn lemma_two_word_query(w1: Seq<char>, w2: Seq<char>)
    requires
        w1.len() > 0,
        w2.len() > 0,
        forall|i: int| 0 <= i < w1.len() ==> !is_ws(#[trigger] w1[i]) && w1[i] != '"' && w1[i] != '*',
        forall|i: int| 0 <= i < w2.len() ==> !is_ws(#[trigger] w2[i]) && w2[i] != '"' && w2[i] != '*',
    ensures
        prefix_query(w1 + seq![' '] + w2) == seq!['"'] + w1 + seq!['"', '*', ' ', '"'] + w2 + seq!['"', '*'],
{
    let s = w1 + seq![' '] + w2;
    let n = w1.len() as int;
    assert forall|k: int| 0 <= k < n implies !is_ws(#[trigger] s[k]) by {
        assert(s[k] == w1[k]);
    }
    assert(s[n] == ' ');
    lemma_word_end_at(s, 0, n);
    assert(!is_ws(s[0]));
    assert(skip_ws(s, 0) == 0);
    assert forall|k: int| n + 1 <= k < s.len() implies !is_ws(#[trigger] s[k]) by {
        assert(s[k] == w2[k - n - 1]);
    }
    lemma_word_end_at(s, n + 1, s.len() as int);
    assert(!is_ws(s[n + 1])) by {
        assert(s[n + 1] == w2[0]);
    }
    assert(skip_ws(s, n + 1) == n + 1);
    assert(skip_ws(s, n) == n + 1);
    assert(skip_ws(s, s.len() as int) == s.len());
    assert(words_from(s, s.len() as int) =~= Seq::<Seq<char>>::empty());
    assert(s.subrange(n + 1, s.len() as int) =~= w2);
    assert(words_from(s, n) =~= seq![w2]);
    assert(s.subrange(0, n) =~= w1);
    assert(words_from(s, 0) =~= seq![w1, w2]);
    lemma_strip_keeps_other_chars(w1);
    lemma_strip_keeps_other_chars(w2);
    let ws = seq![w1, w2];
    assert(ws.drop_last() =~= seq![w1]);
    assert(seq![w1].drop_last() =~= Seq::<Seq<char>>::empty());
    assert(prefix_terms(Seq::<Seq<char>>::empty()) == Seq::<Seq<char>>::empty());
    assert(prefix_terms(seq![w1]) =~= seq![w1]);
    assert(prefix_terms(ws) =~= seq![w1, w2]);
    assert(seq![w1, w2].drop_last() =~= seq![w1]);
    assert(render_prefix_terms(seq![w1]) == seq!['"'] + w1 + seq!['"', '*']);
    assert(render_prefix_terms(seq![w1, w2]) =~= seq!['"'] + w1 + seq!['"', '*', ' ', '"'] + w2 + seq!['"', '*']);
}

/// The prefix-query terms of a list of words: each stripped of FTS syntax
/// characters, the empty ones dropped.
pub open spec fn prefix_terms(ws: Seq<Seq<char>>) -> Seq<Seq<char>>
    decreases ws.len(),
{
    if ws.len() == 0 {
        Seq::empty()
    } else {
        let t = strip_fts_chars(ws.last());
        prefix_terms(ws.drop_last()) + if t.len() == 0 {
            Seq::empty()
        } else {
            seq![t]
        }
    }
}

/// Terms rendered as quoted prefix phrases (`"term"*`) separated by spaces.
pub open spec fn render_prefix_terms(ts: Seq<Seq<char>>) -> Seq<char>
    decreases ts.len(),
{
    if ts.len() == 0 {
        Seq::empty()
    } else if ts.len() == 1 {
        seq!['"'] + ts[0] + seq!['"', '*']
    } else {
        render_prefix_terms(ts.drop_last()) + seq![' ', '"'] + ts.last() + seq!['"', '*']
    }
}

/// The FTS5 prefix query for free user text: every whitespace-separated word
/// becomes a quoted prefix phrase, AND-ed together; empty when there are no
/// usable words.
pub open spec fn prefix_query(s: Seq<char>) -> Seq<char> {
    render_prefix_terms(prefix_terms(words_from(s, 0)))
}

/// Build an FTS5 prefix query from free user text (`"term"*` per word, quotes
/// and `*` stripped from each word, empty words dropped, joined by spaces).
pub fn to_prefix_query(input: &str) -> (r: String)
    ensures
        r@ == prefix_query(input@),
{
    let v = chars_of(input);
    let ghost all = words_from(v@, 0);
    let ghost mut done: Seq<Seq<char>> = Seq::empty();
    let mut out = String::new();
    let mut has_terms = false;
    let mut i: usize = 0;
    loop
        invariant
            i <= v.len(),
            v@ == input@,
            all == words_from(v@, 0),
            done + words_from(v@, i as int) == all,
            out@ == render_prefix_terms(prefix_terms(done)),
            has_terms == (prefix_terms(done).len() > 0),
        decreases v.len() - i,
    {
        let mut a = i;
        while a < v.len() && is_whitespace(v[a])
            invariant
                i <= a <= v.len(),
                skip_ws(v@, i as int) == skip_ws(v@, a as int),
            decreases v.len() - a,
        {
            a += 1;
        }
        if a >= v.len() {
            assert(words_from(v@, i as int) =~= Seq::<Seq<char>>::empty());
            assert(done =~= all);
            return out;
        }
        let mut b = a;
        while b < v.len() && !is_whitespace(v[b])
            invariant
                a <= b <= v.len(),
                word_end(v@, a as int) == word_end(v@, b as int),
            decreases v.len() - b,
        {
            b += 1;
        }
        let ghost w = v@.subrange(a as int, b as int);
        assert(words_from(v@, i as int) == seq![w] + words_from(v@, b as int));
        let mut term = String::new();
        let mut nonempty = false;
        let mut k = a;
        while k < b
            invariant
                a <= k <= b <= v.len(),
                term@ == strip_fts_chars(v@.subrange(a as int, k as int)),
                nonempty == (term@.len() > 0),
            decreases b - k,
        {
            let c = v[k];
            assert(v@.subrange(a as int, k + 1).drop_last() =~= v@.subrange(a as int, k as int));
            if c != '"' && c != '*' {
                push_char(&mut term, c);
                nonempty = true;
            }
            k += 1;
        }
        let ghost before = done;
        proof {
            assert(done.push(w) + words_from(v@, b as int) =~= all);
            assert(done.push(w).drop_last() =~= done);
            done = done.push(w);
        }
        if nonempty {
            let ghost prev_terms = prefix_terms(before);
            assert(prefix_terms(done) =~= prev_terms.push(term@));
            if has_terms {
                out.append(" ");
                proof {
                    reveal_strlit(" ");
                }
            }
            push_char(&mut out, '"');
            out.append(term.as_str());
            push_char(&mut out, '"');
            push_char(&mut out, '*');
            proof {
                let ts = prefix_terms(done);
                assert(ts.drop_last() =~= prev_terms);
                if prev_terms.len() == 0 {
                    assert(out@ =~= render_prefix_terms(ts));
                } else {
                    assert(out@ =~= render_prefix_terms(ts));
                }
            }
            has_terms = true;
        } else {
            assert(prefix_terms(done) =~= prefix_terms(before));
        }
        i = b;
    }
}

/// The full-text query and lowercase needle of a title lookup, or `None`
/// when the trimmed, lowercased title is empty (nothing can match).
pub fn title_lookup(title: &str) -> (r: Option<(String, String)>)
    ensures
        match r {
            None => str_lowercase(trim(title@)).len() == 0,
            Some((q, n)) => {
                &&& str_lowercase(trim(title@)).len() > 0
                &&& q@ == fts_phrase(trim(title@))
                &&& n@ == str_lowercase(trim(title@))
            },
        },
{
    let v = chars_of(title);
    let (a, b) = trim_range(&v, 0, v.len());
    assert(v@.subrange(0, v@.len() as int) =~= v@);
    let t = string_of(&v, a, b);
    let needle = to_lowercase(t.as_str());
    let nv = chars_of(needle.as_str());
    if nv.len() == 0 {
        return None;
    }
    let q = quote_fts(t.as_str());
    Some((q, needle))
}

/// A candidate row of a title lookup: the id, title, body and content-kind
/// columns of a note.
#[derive(Debug, Clone)]
pub struct TitleRow {
    pub id: String,
    pub title: Option<String>,
    pub body: String,
    pub kind: String,
}

/// Whether the row's effective title, lowercased, is the needle.
pub open spec fn row_matches(r: TitleRow, needle: Seq<char>) -> bool {
    str_lowercase(effective_title(opt_view(r.title), r.body@, kind_from_wire(r.kind@))) == needle
}

/// The ids of the matching rows in order, or the message of the first
/// matching row whose id does not parse.
pub open spec fn title_match_ids(rows: Seq<TitleRow>, needle: Seq<char>) -> Result<Seq<u128>, Seq<char>>
    decreases rows.len(),
{
    if rows.len() == 0 {
        Ok(Seq::empty())
    } else {
        match title_match_ids(rows.drop_last(), needle) {
            Err(m) => Err(m),
            Ok(ids) => if row_matches(rows.last(), needle) {
                match parse_id(rows.last().id@) {
                    Ok(v) => Ok(ids.push(v)),
                    Err(e) => Err(corrupt_id_message(rows.last().id@, e)),
                }
            } else {
                Ok(ids)
            },
        }
    }
}

/// The ids of the candidate notes whose effective title equals the title
/// looked up, case-insensitively; a matching row with a corrupt id is an
/// error.
pub fn matching_title_ids(rows: &Vec<TitleRow>, needle: &str) -> (r: Result<Vec<NoteId>, StoreError>)
    ensures
        match title_match_ids(rows@, needle@) {
            Ok(ids) => r matches Ok(v) && v@.map_values(|i: NoteId| i.0) == ids,
            Err(m) => r matches Err(StoreError::Corrupt(x)) && x@ == m,
        },
{
    let mut out: Vec<NoteId> = Vec::new();
    let mut i: usize = 0;
    while i < rows.len()
        invariant
            i <= rows.len(),
            title_match_ids(rows@.take(i as int), needle@) matches Ok(ids) && out@.map_values(
                |i: NoteId| i.0,
            ) == ids,
        decreases rows.len() - i,
    {
        let row = &rows[i];
        assert(rows@.take(i + 1).drop_last() =~= rows@.take(i as int));
        assert(rows@.take(i + 1).last() == rows@[i as int]);
        let t = match &row.title {
            Some(t) => Some(t.as_str()),
            None => None,
        };
        let effective = derive_title(t, row.body.as_str(), content_kind_from_db(row.kind.as_str()));
        let lower = to_lowercase(effective.as_str());
        if str_eq(lower.as_str(), needle) {
            match stored_id(row.id.as_str()) {
                Ok(id) => {
                    let ghost before = out@;
                    out.push(id);
                    assert(out@.map_values(|i: NoteId| i.0) =~= before.map_values(
                        |i: NoteId| i.0,
                    ).push(id.0));
                },
                Err(e) => {
                    proof {
                        let ids = title_match_ids(rows@, needle@);
                        lemma_match_ids_error(rows@, needle@, i as int);
                    }
                    return Err(e);
                },
            }
        }
        i += 1;
    }
    assert(rows@.take(i as int) =~= rows@);
    Ok(out)
}

proof fn lemma_match_ids_error(rows: Seq<TitleRow>, needle: Seq<char>, i: int)
    requires
        0 <= i < rows.len(),
        title_match_ids(rows.take(i + 1), needle) is Err,
    ensures
        title_match_ids(rows, needle) == title_match_ids(rows.take(i + 1), needle),
    decreases rows.len() - i,
{
    if i + 1 < rows.len() {
        assert(rows.take(i + 2).drop_last() =~= rows.take(i + 1));
        lemma_match_ids_error(rows, needle, i + 1);
    } else {
        assert(rows.take(i + 1) =~= rows);
    }
}

/// The single id of a lookup, or `None` when there is no match or the match
/// is ambiguous (so a link stays dangling rather than resolving arbitrarily).
pub fn unique_id(ids: &Vec<NoteId>) -> (r: Option<NoteId>)
    ensures
        r == (if ids@.len() == 1 {
            Some(ids@[0])
        } else {
            None::<NoteId>
        }),
{
    if ids.len() == 1 {
        Some(ids[0])
    } else {
        None
    }
}

/// A lookup step in resolving a user reference to candidate notes.
#[derive(Debug, Clone, PartialEq, Eq)]
pub enum Lookup {
    /// The note with exactly this id.
    Id(NoteId),
    /// Notes whose id matches this SQL `LIKE` pattern (an uppercased prefix
    /// followed by `%`), in id order, at most 50.
    IdPrefix(String),
    /// Notes whose effective title is this text, case-insensitively.
    Title(String),
    /// Notes matching this full-text phrase, best first, at most 50.
    FullText(String),
}

/// The abstract content of a lookup.
pub enum LookupSpec {
    Id(u128),
    IdPrefix(Seq<char>),
    Title(Seq<char>),
    FullText(Seq<char>),
}

impl View for Lookup {
    type V = LookupSpec;

    open spec fn view(&self) -> LookupSpec {
        match self {
            Lookup::Id(id) => LookupSpec::Id(id.0),
            Lookup::IdPrefix(p) => LookupSpec::IdPrefix(p@),
            Lookup::Title(t) => LookupSpec::Title(t@),
            Lookup::FullText(q) => LookupSpec::FullText(q@),
        }
    }
}

/// The first lookup for a reference: none for a blank reference; a full
/// canonical id is looked up exactly; a git-style prefix by id; anything
/// else by title.
pub open spec fn first_lookup_spec(reference: Seq<char>) -> Option<LookupSpec> {
    let r = trim(reference);
    if r.len() == 0 {
        None
    } else {
        match parse_id(r) {
            Ok(v) => Some(LookupSpec::Id(v)),
            Err(_) => if 1 <= r.len() < 26 && forall|i: int|
                0 <= i < r.len() ==> crockford_decodable(#[trigger] r[i]) {
                Some(LookupSpec::IdPrefix(ascii_upper(r) + seq!['%']))
            } else {
                Some(LookupSpec::Title(r))
            },
        }
    }
}

/// The lookup after one that found `found` candidates: an id prefix that
/// finds nothing falls back to the title, a title that finds nothing to a
/// full-text search of the reference; otherwise the candidates found are the
/// answer.
pub open spec fn next_lookup_spec(reference: Seq<char>, done: LookupSpec, found: nat) -> Option<LookupSpec> {
    let r = trim(reference);
    if found > 0 {
        None
    } else {
        match done {
            LookupSpec::IdPrefix(_) => Some(LookupSpec::Title(r)),
            LookupSpec::Title(_) => Some(LookupSpec::FullText(fts_phrase(r))),
            _ => None,
        }
    }
}

/// The first lookup for a user reference (see `first_lookup_spec`).
pub fn first_lookup(reference: &str) -> (r: Option<Lookup>)
    ensures
        match r {
            Some(l) => first_lookup_spec(reference@) == Some(l@),
            None => first_lookup_spec(reference@) is None,
        },
{
    let v = chars_of(reference);
    let (a, b) = trim_range(&v, 0, v.len());
    assert(v@.subrange(0, v@.len() as int) =~= v@);
    if a == b {
        return None;
    }
    let r = string_of(&v, a, b);
    proof {
        crate::text::lemma_trim_idempotent(reference@);
    }
    match NoteId::parse(r.as_str()) {
        Ok(id) => Some(Lookup::Id(id)),
        Err(_) => {
            if is_ulid_prefix(r.as_str()) {
                let rv = chars_of(r.as_str());
                let mut p = String::new();
                let mut i: usize = 0;
                while i < rv.len()
                    invariant
                        i <= rv.len(),
                        p@ == ascii_upper(rv@.take(i as int)),
                    decreases rv.len() - i,
                {
                    let c = rv[i];
                    let u = if 'a' <= c && c <= 'z' {
                        ((c as u8) - 32) as char
                    } else {
                        c
                    };
                    assert(u == upper_char(c));
                    push_char(&mut p, u);
                    assert(ascii_upper(rv@.take(i + 1)) =~= ascii_upper(rv@.take(i as int)).push(
                        upper_char(c),
                    ));
                    i += 1;
                }
                assert(rv@.take(i as int) =~= rv@);
                push_char(&mut p, '%');
                assert(p@ =~= ascii_upper(trim(reference@)) + seq!['%']);
                Some(Lookup::IdPrefix(p))
            } else {
                Some(Lookup::Title(r))
            }
        },
    }
}

/// The lookup that follows `done` when it found `found` candidates (see
/// `next_lookup_spec`); `None` means the candidates found are the answer.
pub fn next_lookup(reference: &str, done: &Lookup, found: usize) -> (r: Option<Lookup>)
    ensures
        match r {
            Some(l) => next_lookup_spec(reference@, done@, found as nat) == Some(l@),
            None => next_lookup_spec(reference@, done@, found as nat) is None,
        },
{
    if found > 0 {
        return None;
    }
    let v = chars_of(reference);
    let (a, b) = trim_range(&v, 0, v.len());
    assert(v@.subrange(0, v@.len() as int) =~= v@);
    let r = string_of(&v, a, b);
    match done {
        Lookup::IdPrefix(_) => Some(Lookup::Title(r)),
        Lookup::Title(_) => Some(Lookup::FullText(quote_fts(r.as_str()))),
        _ => None,
    }
}

/// Convert a stored link row (target kind, target value, display, resolved
/// id) of `source` into a link; a corrupt id is an error.
pub fn link_from_row(
    source: NoteId,
    kind: &str,
    value: String,
    display: Option<String>,
    resolved: Option<String>,
) -> (r: Result<Link, StoreError>)
    ensures
        match r {
            Ok(l) => {
                &&& l.source == source
                &&& l.display == display
                &&& (if kind@ == "id"@ {
                    parse_id(value@) == Ok::<u128, crate::error::IdError>(l.target->ById_0.0)
                        && l.target is ById
                } else {
                    l.target == WikiTarget::ByTitle(value)
                })
                &&& match resolved {
                    None => l.resolved is None,
                    Some(x) => parse_id(x@) == Ok::<u128, crate::error::IdError>(
                        l.resolved->Some_0.0,
                    ) && l.resolved is Some,
                }
            },
            Err(e) => {
                &&& e is Corrupt
                &&& (kind@ == "id"@ && parse_id(value@) is Err) || (resolved matches Some(x)
                    && parse_id(x@) is Err)
            },
        },
{
    let target = if str_eq(kind, "id") {
        match stored_id(value.as_str()) {
            Ok(id) => WikiTarget::ById(id),
            Err(e) => {
                return Err(e);
            },
        }
    } else {
        WikiTarget::ByTitle(value)
    };
    let resolved = match resolved {
        None => None,
        Some(x) => match stored_id(x.as_str()) {
            Ok(id) => Some(id),
            Err(e) => {
                return Err(e);
            },
        },
    };
    Ok(Link { source, target, display, resolved })
}

/// A stored count as a `usize` (zero when it does not fit).
pub fn count_from_db(n: i64) -> (r: usize)
    ensures
        r == (if 0 <= n <= usize::MAX {
            n as int
        } else {
            0
        }),
{
    if n < 0 {
        0
    } else if n as u128 <= usize::MAX as u128 {
        n as usize
    } else {
        0
    }
}

/// The message of a stored tag that does not parse.
pub open spec fn corrupt_tag_message(raw: Seq<char>, e: TagErrorSpec) -> Seq<char> {
    "tag "@ + str_debug(raw) + ": "@ + tag_error_text(e)
}

/// Parse a stored tag; a value that does not parse is corrupt data.
pub fn stored_tag(raw: &str) -> (r: Result<Tag, StoreError>)
    ensures
        match tag_new_spec(raw@) {
            Ok(t) => r matches Ok(x) && x@ == t,
            Err(e) => r matches Err(StoreError::Corrupt(m)) && m@ == corrupt_tag_message(raw@, e),
        },
{
    match Tag::new(raw) {
        Ok(t) => Ok(t),
        Err(e) => {
            let mut m = "tag ".to_owned();
            let q = debug_str(raw);
            m.append(q.as_str());
            m.append(": ");
            let t = e.to_string();
            m.append(t.as_str());
            Err(StoreError::Corrupt(m))
        },
    }
}

/// A row of the tag listing (tag text, note count) as a tag and a count.
pub fn tag_count_from_row(raw: &str, count: i64) -> (r: Result<(Tag, usize), StoreError>)
    ensures
        match tag_new_spec(raw@) {
            Ok(t) => r matches Ok((x, c)) && x@ == t && c == (if 0 <= count <= usize::MAX {
                count as int
            } else {
                0
            }),
            Err(e) => r matches Err(StoreError::Corrupt(m)) && m@ == corrupt_tag_message(raw@, e),
        },
{
    match stored_tag(raw) {
        Ok(t) => Ok((t, count_from_db(count))),
        Err(e) => Err(e),
    }
}

/// The views of a list of notes.
pub open spec fn notes_view(s: Seq<Note>) -> Seq<NoteView> {
    s.map_values(|n: Note| n@)
}

/// The views of a list of strings.
pub open spec fn strings_view(s: Seq<String>) -> Seq<Seq<char>> {
    s.map_values(|x: String| x@)
}

/// Index of the last note whose id text is `id`, or -1 when there is none.
pub open spec fn last_with_id(notes: Seq<NoteView>, id: Seq<char>) -> int
    decreases notes.len(),
{
    if notes.len() == 0 {
        -1
    } else if ulid_text(notes.last().id) == id {
        notes.len() - 1
    } else {
        last_with_id(notes.drop_last(), id)
    }
}

proof fn lemma_last_with_id(notes: Seq<NoteView>, id: Seq<char>)
    ensures
        -1 <= last_with_id(notes, id) < notes.len(),
        last_with_id(notes, id) >= 0 ==> ulid_text(notes[last_with_id(notes, id)].id) == id,
        forall|k: int|
            last_with_id(notes, id) < k < notes.len() ==> ulid_text(#[trigger] notes[k].id) != id,
    decreases notes.len(),
{
    if notes.len() > 0 && ulid_text(notes.last().id) != id {
        lemma_last_with_id(notes.drop_last(), id);
        assert forall|k: int| last_with_id(notes, id) < k < notes.len() implies ulid_text(
            #[trigger] notes[k].id,
        ) != id by {
            if k < notes.len() - 1 {
                assert(notes[k] == notes.drop_last()[k]);
            }
        }
    }
}

/// Two note lists with the same ids in the same places find the same index.
proof fn lemma_last_with_id_same_ids(a: Seq<NoteView>, b: Seq<NoteView>, id: Seq<char>)
    requires
        a.len() == b.len(),
        forall|k: int| 0 <= k < a.len() ==> (#[trigger] a[k]).id == b[k].id,
    ensures
        last_with_id(a, id) == last_with_id(b, id),
    decreases a.len(),
{
    if a.len() > 0 {
        assert(a.last().id == b.last().id);
        lemma_last_with_id_same_ids(a.drop_last(), b.drop_last(), id);
    }
}

/// The notes in the requested id order: for each id, the last loaded note
/// with that id; repeated ids and ids with no loaded note are skipped.
pub open spec fn requested_order(ids: Seq<Seq<char>>, notes: Seq<NoteView>) -> Seq<NoteView>
    decreases ids.len(),
{
    if ids.len() == 0 {
        Seq::empty()
    } else {
        let prev = requested_order(ids.drop_last(), notes);
        let id = ids.last();
        let k = last_with_id(notes, id);
        if k >= 0 && !ids.drop_last().contains(id) {
            prev.push(notes[k])
        } else {
            prev
        }
    }
}

/// The canonical id texts of the notes.
fn id_texts(notes: &Vec<Note>) -> (r: Vec<String>)
    ensures
        r.len() == notes.len(),
        forall|k: int| 0 <= k < r.len() ==> (#[trigger] r@[k])@ == ulid_text(notes@[k].id.0),
{
    let mut out: Vec<String> = Vec::new();
    let mut i: usize = 0;
    while i < notes.len()
        invariant
            i <= notes.len(),
            out.len() == i,
            forall|k: int| 0 <= k < i ==> (#[trigger] out@[k])@ == ulid_text(notes@[k].id.0),
        decreases notes.len() - i,
    {
        out.push(notes[i].id.to_string());
        i += 1;
    }
    out
}

/// Index of the last text equal to `id`.
fn last_index(texts: &Vec<String>, id: &str) -> (r: Option<usize>)
    ensures
        match r {
            Some(k) => k < texts.len() && texts@[k as int]@ == id@ && forall|j: int|
                k < j < texts.len() ==> (#[trigger] texts@[j])@ != id@,
            None => forall|j: int| 0 <= j < texts.len() ==> (#[trigger] texts@[j])@ != id@,
        },
{
    let mut j = texts.len();
    while j > 0
        invariant
            j <= texts.len(),
            forall|m: int| j <= m < texts.len() ==> (#[trigger] texts@[m])@ != id@,
        decreases j,
    {
        j -= 1;
        if str_eq(texts[j].as_str(), id) {
            return Some(j);
        }
    }
    None
}

proof fn lemma_last_index(notes: Seq<NoteView>, texts: Seq<String>, id: Seq<char>, r: Option<usize>)
    requires
        texts.len() == notes.len(),
        forall|k: int| 0 <= k < texts.len() ==> (#[trigger] texts[k])@ == ulid_text(notes[k].id),
        match r {
            Some(k) => k < texts.len() && texts[k as int]@ == id && forall|j: int|
                k < j < texts.len() ==> (#[trigger] texts[j])@ != id,
            None => forall|j: int| 0 <= j < texts.len() ==> (#[trigger] texts[j])@ != id,
        },
    ensures
        match r {
            Some(k) => last_with_id(notes, id) == k,
            None => last_with_id(notes, id) == -1,
        },
{
    lemma_last_with_id(notes, id);
    let l = last_with_id(notes, id);
    match r {
        Some(k) => {
            if l < k {
                assert(ulid_text(notes[k as int].id) == id);
            } else if l > k {
                assert(texts[l]@ == ulid_text(notes[l].id));
            }
        },
        None => {
            if l >= 0 {
                assert(texts[l]@ == ulid_text(notes[l].id));
            }
        },
    }
}

/// Whether `ids[i]` occurs among `ids[..i]`.
fn seen_before(ids: &Vec<String>, i: usize) -> (r: bool)
    requires
        i < ids.len(),
    ensures
        r == strings_view(ids@).take(i as int).contains(ids@[i as int]@),
{
    let ghost sv = strings_view(ids@);
    let mut j: usize = 0;
    while j < i
        invariant
            j <= i < ids.len(),
            sv == strings_view(ids@),
            forall|m: int| 0 <= m < j ==> sv[m] != sv[i as int],
        decreases i - j,
    {
        if str_eq(ids[j].as_str(), ids[i].as_str()) {
            assert(sv.take(i as int)[j as int] == sv[i as int]);
            return true;
        }
        j += 1;
    }
    proof {
        if sv.take(i as int).contains(sv[i as int]) {
            let m = choose|m: int| 0 <= m < i && sv.take(i as int)[m] == sv[i as int];
            assert(sv[m] == sv[i as int]);
        }
    }
    false
}

/// The loaded notes in the requested id order (see `requested_order`).
pub fn in_requested_order(ids: &Vec<String>, notes: &Vec<Note>) -> (r: Vec<Note>)
    ensures
        notes_view(r@) == requested_order(strings_view(ids@), notes_view(notes@)),
{
    let texts = id_texts(notes);
    let ghost nv = notes_view(notes@);
    let ghost sv = strings_view(ids@);
    let mut out: Vec<Note> = Vec::new();
    let mut i: usize = 0;
    assert(sv.take(0) =~= Seq::<Seq<char>>::empty());
    while i < ids.len()
        invariant
            i <= ids.len(),
            nv == notes_view(notes@),
            sv == strings_view(ids@),
            texts.len() == notes.len(),
            forall|k: int| 0 <= k < texts.len() ==> (#[trigger] texts@[k])@ == ulid_text(notes@[k].id.0),
            notes_view(out@) == requested_order(sv.take(i as int), nv),
        decreases ids.len() - i,
    {
        assert(sv.take(i + 1).drop_last() =~= sv.take(i as int));
        assert(sv.take(i + 1).last() == ids@[i as int]@);
        let dup = seen_before(ids, i);
        let k = last_index(&texts, ids[i].as_str());
        proof {
            assert forall|m: int| 0 <= m < texts.len() implies (#[trigger] texts@[m])@ == ulid_text(nv[m].id) by {
                assert(nv[m] == notes@[m]@);
            }
            lemma_last_index(nv, texts@, ids@[i as int]@, k);
        }
        if !dup {
            match k {
                Some(k) => {
                    let n = notes[k].duplicate();
                    let ghost before = out@;
                    out.push(n);
                    assert(notes_view(out@) =~= notes_view(before).push(nv[k as int]));
                },
                None => {},
            }
        }
        i += 1;
    }
    assert(sv.take(i as int) =~= sv);
    out
}

/// The tag rows (note id, tag text) applied to loaded notes: each adds its
/// tag to the last note with that id; rows of other ids are ignored; a tag
/// that does not parse on a loaded note is corrupt data.
pub open spec fn with_tags(notes: Seq<NoteView>, rows: Seq<(Seq<char>, Seq<char>)>) -> Result<
    Seq<NoteView>,
    Seq<char>,
>
    decreases rows.len(),
{
    if rows.len() == 0 {
        Ok(notes)
    } else {
        match with_tags(notes, rows.drop_last()) {
            Err(m) => Err(m),
            Ok(ns) => {
                let nid = rows.last().0;
                let raw = rows.last().1;
                let k = last_with_id(ns, nid);
                if k < 0 {
                    Ok(ns)
                } else {
                    match tag_new_spec(raw) {
                        Ok(t) => Ok(ns.update(k, NoteView { tags: ns[k].tags.insert(t), ..ns[k] })),
                        Err(e) => Err(corrupt_tag_message(raw, e)),
                    }
                }
            },
        }
    }
}

/// The views of a list of string pairs.
pub open spec fn pairs_view(s: Seq<(String, String)>) -> Seq<(Seq<char>, Seq<char>)> {
    s.map_values(|p: (String, String)| (p.0@, p.1@))
}

proof fn lemma_with_tags_error(notes: Seq<NoteView>, rows: Seq<(Seq<char>, Seq<char>)>, i: int)
    requires
        0 <= i < rows.len(),
        with_tags(notes, rows.take(i + 1)) is Err,
    ensures
        with_tags(notes, rows) == with_tags(notes, rows.take(i + 1)),
    decreases rows.len() - i,
{
    if i + 1 < rows.len() {
        assert(rows.take(i + 2).drop_last() =~= rows.take(i + 1));
        lemma_with_tags_error(notes, rows, i + 1);
    } else {
        assert(rows.take(i + 1) =~= rows);
    }
}

/// Attach the tag rows to the loaded notes (see `with_tags`).
pub fn attach_tags(notes: &mut Vec<Note>, rows: &Vec<(String, String)>) -> (r: Result<(), StoreError>)
    ensures
        match with_tags(notes_view(old(notes)@), pairs_view(rows@)) {
            Ok(ns) => r is Ok && notes_view(final(notes)@) == ns,
            Err(m) => r matches Err(StoreError::Corrupt(x)) && x@ == m,
        },
{
    let texts = id_texts(notes);
    let ghost start = notes_view(notes@);
    let ghost pv = pairs_view(rows@);
    let mut i: usize = 0;
    assert(pv.take(0) =~= Seq::<(Seq<char>, Seq<char>)>::empty());
    while i < rows.len()
        invariant
            i <= rows.len(),
            start == notes_view(old(notes)@),
            pv == pairs_view(rows@),
            texts.len() == notes.len(),
            forall|k: int| 0 <= k < texts.len() ==> (#[trigger] texts@[k])@ == ulid_text(notes@[k].id.0),
            with_tags(start, pv.take(i as int)) == Ok::<Seq<NoteView>, Seq<char>>(notes_view(notes@)),
        decreases rows.len() - i,
    {
        assert(pv.take(i + 1).drop_last() =~= pv.take(i as int));
        assert(pv.take(i + 1).last() == (rows@[i as int].0@, rows@[i as int].1@));
        let ghost nv = notes_view(notes@);
        let k = last_index(&texts, rows[i].0.as_str());
        proof {
            assert forall|m: int| 0 <= m < texts.len() implies (#[trigger] texts@[m])@ == ulid_text(nv[m].id) by {
                assert(nv[m] == notes@[m]@);
            }
            lemma_last_index(nv, texts@, rows@[i as int].0@, k);
        }
        match k {
            Some(k) => {
                match stored_tag(rows[i].1.as_str()) {
                    Ok(t) => {
                        let mut n = notes[k].duplicate();
                        let ghost tv = t@;
                        let _ = n.tags.insert(t);
                        let ghost before = notes@;
                        notes.set(k, n);
                        assert(notes_view(notes@) =~= nv.update(
                            k as int,
                            NoteView { tags: nv[k as int].tags.insert(tv), ..nv[k as int] },
                        ));
                        assert forall|m: int| 0 <= m < texts.len() implies (#[trigger] texts@[m])@ == ulid_text(notes@[m].id.0) by {
                            if m != k {
                                assert(notes@[m] == before[m]);
                            }
                        }
                    },
                    Err(e) => {
                        proof {
                            lemma_with_tags_error(start, pv, i as int);
                        }
                        return Err(e);
                    },
                }
            },
            None => {},
        }
        i += 1;
    }
    assert(pv.take(i as int) =~= pv);
    Ok(())
}

} // verus!
