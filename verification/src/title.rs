//! Deriving the effective (display) title of a note.

use crate::content::ContentKind;
use crate::text::{chars_of, is_whitespace, is_ws, string_of, trim, trim_range};
use vstd::prelude::*;

verus! {

/// Index of the first `'\n'` at or after `i`, or `s.len()` when there is none.
pub open spec fn find_nl(s: Seq<char>, i: int) -> int
    decreases s.len() - i,
{
    if i >= s.len() || i < 0 {
        s.len() as int
    } else if s[i] == '\n' {
        i
    } else {
        find_nl(s, i + 1)
    }
}

/// `find_nl` lands on a newline or at the end, never before `i`.
pub proof fn lemma_find_nl(s: Seq<char>, i: int)
    requires
        0 <= i <= s.len(),
    ensures
        i <= find_nl(s, i) <= s.len(),
        find_nl(s, i) < s.len() ==> s[find_nl(s, i)] == '\n',
        forall|k: int| i <= k < find_nl(s, i) ==> s[k] != '\n',
    decreases s.len() - i,
{
    if i < s.len() && s[i] != '\n' {
        lemma_find_nl(s, i + 1);
    }
}

/// The heading text of a line that is an ATX level-one heading: the trimmed
/// line is `#`, then whitespace, then non-empty text.
pub open spec fn h1_of(line: Seq<char>) -> Option<Seq<char>> {
    let t = trim(line);
    if t.len() > 0 && t[0] == '#' {
        let rest = t.drop_first();
        if rest.len() > 0 && is_ws(rest[0]) && trim(rest).len() > 0 {
            Some(trim(rest))
        } else {
            None
        }
    } else {
        None
    }
}

/// The first level-one heading among the lines starting at offset `i`.
pub open spec fn first_h1_from(s: Seq<char>, i: int) -> Option<Seq<char>>
    decreases s.len() - i,
{
    if i < 0 || i > s.len() {
        None
    } else {
        let e = find_nl(s, i);
        proof {
            lemma_find_nl(s, i);
        }
        match h1_of(s.subrange(i, e)) {
            Some(h) => Some(h),
            None => if e < s.len() {
                first_h1_from(s, e + 1)
            } else {
                None
            },
        }
    }
}

proof fn lemma_trim_end_keeps(s: Seq<char>, k: int)
    requires
        0 <= k < s.len(),
        !is_ws(s[k]),
    ensures
        crate::text::trim_end(s).len() > k,
    decreases s.len(),
{
    if s.len() > 0 && is_ws(s.last()) {
        assert(s.drop_last()[k] == s[k]);
        lemma_trim_end_keeps(s.drop_last(), k);
    }
}

/// What a level-one heading line is: `# ` before trimmed, non-empty text
/// is one, with that text; `##` (a deeper level) and `#` followed directly
/// by text are not.
pub proof fn lemma_h1_shape(h: Seq<char>, x: Seq<char>)
    requires
        h.len() > 0,
        trim(h) == h,
    ensures
        h1_of(seq!['#', ' '] + h) == Some(h),
        h1_of(seq!['#', '#'] + x) is None,
        x.len() > 0 && !is_ws(x[0]) ==> h1_of(seq!['#'] + x) is None,
{
    let l = seq!['#', ' '] + h;
    crate::text::lemma_trim_ends(h);
    assert(!is_ws(h[0]) && !is_ws(h.last()));
    assert(l[0] == '#' && l.last() == h.last());
    crate::text::lemma_trim_noop(l);
    let r = l.drop_first();
    assert(r =~= seq![' '] + h);
    assert(r.drop_first() =~= h);
    assert(crate::text::trim_start(h) == h);
    assert(crate::text::trim_start(r) == h);
    assert(crate::text::trim_end(h) == h);
    let d = seq!['#', '#'] + x;
    let td = trim(d);
    assert(d[0] == '#');
    assert(!is_ws(d[0]));
    assert(crate::text::trim_start(d) == d);
    crate::text::lemma_trim_end_shape(d);
    assert(td == crate::text::trim_end(d));
    assert(d[1] == '#');
    lemma_trim_end_keeps(d, 1);
    assert(td[0] == d[0] && td[1] == d[1]);
    assert(td.drop_first()[0] == '#');
    if x.len() > 0 && !is_ws(x[0]) {
        let e = seq!['#'] + x;
        assert(!is_ws(e[0]));
        assert(crate::text::trim_start(e) == e);
        assert(e[1] == x[0]);
        lemma_trim_end_keeps(e, 1);
        crate::text::lemma_trim_end_shape(e);
        let te = trim(e);
        assert(te == crate::text::trim_end(e));
        assert(te[0] == e[0] && te[1] == e[1]);
        assert(te.drop_first()[0] == x[0]);
    }
}

/// Lines joined into a text, each followed by a line feed.
pub open spec fn lines_text(ls: Seq<Seq<char>>) -> Seq<char>
    decreases ls.len(),
{
    if ls.len() == 0 {
        Seq::empty()
    } else {
        ls[0] + seq!['\n'] + lines_text(ls.drop_first())
    }
}

/// Whether every line is single-line and not a level-one heading.
pub open spec fn plain_lines(ls: Seq<Seq<char>>) -> bool {
    forall|k: int| 0 <= k < ls.len() ==> #[trigger] h1_of(ls[k]) is None && forall|i: int|
        0 <= i < ls[k].len() ==> ls[k][i] != '\n'
}

proof fn lemma_find_nl_at(s: Seq<char>, i: int, j: int)
    requires
        0 <= i <= j <= s.len(),
        forall|k: int| i <= k < j ==> #[trigger] s[k] != '\n',
        j == s.len() || s[j] == '\n',
    ensures
        find_nl(s, i) == j,
{
    lemma_find_nl(s, i);
    let f = find_nl(s, i);
    if f < j {
        assert(s[f] != '\n');
    } else if j < f {
        assert(s[j] != '\n');
    }
}

/// The heading search passes over lines that are not headings.
proof fn lemma_skip_plain_lines(s: Seq<char>, i: int, ls: Seq<Seq<char>>)
    requires
        0 <= i,
        i + lines_text(ls).len() <= s.len(),
        s.subrange(i, i + lines_text(ls).len()) == lines_text(ls),
        plain_lines(ls),
    ensures
        first_h1_from(s, i) == first_h1_from(s, i + lines_text(ls).len()),
    decreases ls.len(),
{
    if ls.len() > 0 {
        let l0 = ls[0];
        let tail = ls.drop_first();
        let n = l0.len() as int;
        let lt = lines_text(ls);
        assert(lt == l0 + seq!['\n'] + lines_text(tail));
        assert(h1_of(ls[0]) is None);
        assert forall|k: int| i <= k < i + n implies #[trigger] s[k] != '\n' by {
            assert(s[k] == s.subrange(i, i + lt.len())[k - i]);
            assert(lt[k - i] == l0[k - i]);
        }
        assert(s[i + n] == lt[n]);
        lemma_find_nl_at(s, i, i + n);
        assert(s.subrange(i, i + n) =~= l0) by {
            assert forall|k: int| 0 <= k < n implies s.subrange(i, i + n)[k] == l0[k] by {
                assert(s[i + k] == s.subrange(i, i + lt.len())[k]);
            }
        }
        assert(plain_lines(tail)) by {
            assert forall|k: int| 0 <= k < tail.len() implies #[trigger] h1_of(tail[k]) is None && forall|j: int|
                0 <= j < tail[k].len() ==> tail[k][j] != '\n' by {
                assert(tail[k] == ls[k + 1]);
            }
        }
        let m = i + n + 1;
        assert(s.subrange(m, m + lines_text(tail).len()) =~= lines_text(tail)) by {
            assert forall|k: int| 0 <= k < lines_text(tail).len() implies s.subrange(m, m + lines_text(tail).len())[k]
                == lines_text(tail)[k] by {
                assert(s[m + k] == s.subrange(i, i + lt.len())[n + 1 + k]);
                assert(lt[n + 1 + k] == lines_text(tail)[k]);
            }
        }
        lemma_skip_plain_lines(s, m, tail);
    }
}

/// For markdown without an explicit title, the title is the text of the
/// first level-one heading wherever it stands: any number of lines that are
/// not headings may come before it.
pub proof fn lemma_first_h1_wherever(ls: Seq<Seq<char>>, l: Seq<char>, rest: Seq<char>)
    requires
        plain_lines(ls),
        forall|i: int| 0 <= i < l.len() ==> #[trigger] l[i] != '\n',
        h1_of(l) is Some,
        rest.len() == 0 || rest[0] == '\n',
    ensures
        effective_title(None, lines_text(ls) + l + rest, ContentKind::Markdown) == h1_of(l)->0,
{
    let body = lines_text(ls) + l + rest;
    let p = lines_text(ls).len() as int;
    let n = l.len() as int;
    assert(body.subrange(0, p) =~= lines_text(ls));
    lemma_skip_plain_lines(body, 0, ls);
    assert forall|k: int| p <= k < p + n implies #[trigger] body[k] != '\n' by {
        assert(body[k] == l[k - p]);
    }
    if rest.len() > 0 {
        assert(body[p + n] == rest[0]);
    }
    lemma_find_nl_at(body, p, p + n);
    assert(body.subrange(p, p + n) =~= l);
}

/// The first non-blank line (trimmed) among the lines starting at offset `i`.
pub open spec fn first_line_from(s: Seq<char>, i: int) -> Option<Seq<char>>
    decreases s.len() - i,
{
    if i < 0 || i > s.len() {
        None
    } else {
        let e = find_nl(s, i);
        proof {
            lemma_find_nl(s, i);
        }
        let t = trim(s.subrange(i, e));
        if t.len() > 0 {
            Some(t)
        } else if e < s.len() {
            first_line_from(s, e + 1)
        } else {
            None
        }
    }
}

/// The effective title, in priority order: an explicit non-blank (trimmed)
/// title; for markdown, the first level-one ATX heading; otherwise the first
/// non-blank line, trimmed; otherwise empty.
pub open spec fn effective_title(title: Option<Seq<char>>, body: Seq<char>, kind: ContentKind) -> Seq<char> {
    if title is Some && trim(title->0).len() > 0 {
        trim(title->0)
    } else if kind == ContentKind::Markdown && first_h1_from(body, 0) is Some {
        first_h1_from(body, 0)->0
    } else {
        match first_line_from(body, 0) {
            Some(l) => l,
            None => Seq::empty(),
        }
    }
}

/// Index of the first `'\n'` in `v[i..]`, or `v.len()`.
pub fn next_newline(v: &Vec<char>, i: usize) -> (e: usize)
    requires
        i <= v.len(),
    ensures
        e == find_nl(v@, i as int),
{
    let mut j = i;
    while j < v.len() && v[j] != '\n'
        invariant
            i <= j <= v.len(),
            find_nl(v@, i as int) == find_nl(v@, j as int),
        decreases v.len() - j,
    {
        j += 1;
    }
    j
}

/// The heading of `v[lo..hi]` when that line is a level-one heading.
fn h1_range(v: &Vec<char>, lo: usize, hi: usize) -> (r: Option<(usize, usize)>)
    requires
        lo <= hi <= v.len(),
    ensures
        match r {
            Some((a, b)) => a <= b <= v.len() && h1_of(v@.subrange(lo as int, hi as int)) == Some(
                v@.subrange(a as int, b as int),
            ),
            None => h1_of(v@.subrange(lo as int, hi as int)) is None,
        },
{
    let (a, b) = trim_range(v, lo, hi);
    let ghost t = v@.subrange(a as int, b as int);
    if a < b && v[a] == '#' {
        assert(t.drop_first() =~= v@.subrange(a + 1, b as int));
        if a + 1 < b && is_whitespace(v[a + 1]) {
            let (c, d) = trim_range(v, a + 1, b);
            if c < d {
                return Some((c, d));
            }
        }
    }
    None
}

/// The trimmed text of the first level-one heading in `body`, if any.
fn first_h1(v: &Vec<char>) -> (r: Option<(usize, usize)>)
    ensures
        match r {
            Some((a, b)) => a <= b <= v.len() && first_h1_from(v@, 0) == Some(
                v@.subrange(a as int, b as int),
            ),
            None => first_h1_from(v@, 0) is None,
        },
{
    let mut i: usize = 0;
    loop
        invariant
            i <= v.len(),
            first_h1_from(v@, 0) == first_h1_from(v@, i as int),
        decreases v.len() - i,
    {
        let e = next_newline(v, i);
        proof {
            lemma_find_nl(v@, i as int);
        }
        match h1_range(v, i, e) {
            Some(r) => {
                return Some(r);
            },
            None => {},
        }
        if e < v.len() {
            i = e + 1;
        } else {
            return None;
        }
    }
}

/// The first non-blank line of `body`, trimmed.
fn first_non_empty_line(v: &Vec<char>) -> (r: Option<(usize, usize)>)
    ensures
        match r {
            Some((a, b)) => a <= b <= v.len() && first_line_from(v@, 0) == Some(
                v@.subrange(a as int, b as int),
            ),
            None => first_line_from(v@, 0) is None,
        },
{
    let mut i: usize = 0;
    loop
        invariant
            i <= v.len(),
            first_line_from(v@, 0) == first_line_from(v@, i as int),
        decreases v.len() - i,
    {
        let e = next_newline(v, i);
        proof {
            lemma_find_nl(v@, i as int);
        }
        let (a, b) = trim_range(v, i, e);
        if a < b {
            return Some((a, b));
        }
        if e < v.len() {
            i = e + 1;
        } else {
            return None;
        }
    }
}

/// Derive the effective (display) title, in priority order:
///
/// 1. an explicit, non-empty (trimmed) title;
/// 2. for markdown, the first ATX level-one heading (a line whose trimmed form
///    is `#`, whitespace, then text);
/// 3. otherwise the first non-empty line, trimmed;
/// 4. otherwise an empty string.
pub fn derive_title(title: Option<&str>, body: &str, kind: ContentKind) -> (r: String)
    ensures
        r@ == effective_title(
            match title {
                Some(t) => Some(t@),
                None => None,
            },
            body@,
            kind,
        ),
{
    if let Some(t) = title {
        let tv = chars_of(t);
        let (a, b) = trim_range(&tv, 0, tv.len());
        assert(tv@.subrange(0, tv@.len() as int) =~= tv@);
        if a < b {
            return string_of(&tv, a, b);
        }
    }
    let v = chars_of(body);
    if kind.is_markdown() {
        if let Some((a, b)) = first_h1(&v) {
            return string_of(&v, a, b);
        }
    }
    match first_non_empty_line(&v) {
        Some((a, b)) => string_of(&v, a, b),
        None => String::new(),
    }
}

} // verus!
