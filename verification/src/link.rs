//! Wikilink targets and occurrences: `[[target]]` / `[[target|display]]`.

use crate::error::WikiError;
use crate::id::{crockford_upper, lemma_parsed_id_text, parse_id, ulid_text, NoteId};
use crate::text::{
    chars_of, find_char, find_char_in, is_ws, lemma_find_char, lemma_find_char_unique,
    lemma_trim_absent, lemma_trim_ends, lemma_trim_idempotent, lemma_trim_noop, string_of, trim,
    trim_range,
};
use vstd::prelude::*;

verus! {

/// The abstract target of a wikilink: an id, or a (possibly dangling) title.
pub enum TargetSpec {
    ById(u128),
    ByTitle(Seq<char>),
}

/// The abstract content of a wikilink occurrence.
pub struct LinkSpec {
    pub target: TargetSpec,
    pub display: Option<Seq<char>>,
}

/// A token is an id target exactly when it parses as a canonical id.
pub open spec fn classify(t: Seq<char>) -> TargetSpec {
    match parse_id(t) {
        Ok(v) => TargetSpec::ById(v),
        Err(_) => TargetSpec::ByTitle(t),
    }
}

/// Parsing a target: trim; empty is an error; otherwise classify.
pub open spec fn parse_target(s: Seq<char>) -> Result<TargetSpec, WikiError> {
    let t = trim(s);
    if t.len() == 0 {
        Err(WikiError::EmptyTarget)
    } else {
        Ok(classify(t))
    }
}

/// The text a target displays as.
pub open spec fn target_text(t: TargetSpec) -> Seq<char> {
    match t {
        TargetSpec::ById(v) => ulid_text(v),
        TargetSpec::ByTitle(x) => x,
    }
}

/// Whether `s` is wrapped in `[[` … `]]`.
pub open spec fn has_brackets(s: Seq<char>) -> bool {
    s.len() >= 4 && s[0] == '[' && s[1] == '[' && s[s.len() - 2] == ']' && s[s.len() - 1]
        == ']'
}

/// `s` with one surrounding `[[` … `]]` removed, when present.
pub open spec fn strip_brackets(s: Seq<char>) -> Seq<char> {
    if has_brackets(s) {
        s.subrange(2, s.len() - 2)
    } else {
        s
    }
}

/// Parsing a wikilink: trim; drop surrounding brackets; the text left of the
/// first `|` is the target, the trimmed text right of it the display (absent
/// when empty).
pub open spec fn parse_link(s: Seq<char>) -> Result<LinkSpec, WikiError> {
    let inner = strip_brackets(trim(s));
    let p = find_char(inner, '|', 0);
    let ts = if p < inner.len() {
        inner.subrange(0, p)
    } else {
        inner
    };
    let display = if p < inner.len() {
        let d = trim(inner.subrange(p + 1, inner.len() as int));
        if d.len() == 0 {
            None
        } else {
            Some(d)
        }
    } else {
        None
    };
    match parse_target(ts) {
        Ok(t) => Ok(LinkSpec { target: t, display }),
        Err(e) => Err(e),
    }
}

/// The text a wikilink displays as: `target` or `target|display`.
pub open spec fn link_text(l: LinkSpec) -> Seq<char> {
    match l.display {
        Some(d) => target_text(l.target) + seq!['|'] + d,
        None => target_text(l.target),
    }
}

/// Target of a `[[wikilink]]`: a stable id or a (possibly dangling) title.
#[derive(Debug, Clone, PartialEq, Eq, Hash)]
pub enum WikiTarget {
    ById(NoteId),
    ByTitle(String),
}

impl View for WikiTarget {
    type V = TargetSpec;

    open spec fn view(&self) -> TargetSpec {
        match self {
            WikiTarget::ById(id) => TargetSpec::ById(id.0),
            WikiTarget::ByTitle(t) => TargetSpec::ByTitle(t@),
        }
    }
}

/// A parsed wikilink occurrence. Text left of `|` is the target, text right
/// of it the display alias.
#[derive(Debug, Clone, PartialEq, Eq, Hash)]
pub struct WikiLink {
    pub target: WikiTarget,
    pub display: Option<String>,
}

impl View for WikiLink {
    type V = LinkSpec;

    open spec fn view(&self) -> LinkSpec {
        LinkSpec {
            target: self.target@,
            display: match self.display {
                Some(d) => Some(d@),
                None => None,
            },
        }
    }
}

/// Classify the characters `v[lo..hi]` as an id or a title target.
fn classify_range(v: &Vec<char>, lo: usize, hi: usize) -> (r: WikiTarget)
    requires
        lo <= hi <= v.len(),
    ensures
        r@ == classify(v@.subrange(lo as int, hi as int)),
{
    let token = string_of(v, lo, hi);
    match NoteId::parse(token.as_str()) {
        Ok(id) => WikiTarget::ById(id),
        Err(_) => WikiTarget::ByTitle(token),
    }
}

/// Parse the target in `v[lo..hi]`.
fn parse_target_range(v: &Vec<char>, lo: usize, hi: usize) -> (r: Result<WikiTarget, WikiError>)
    requires
        lo <= hi <= v.len(),
    ensures
        match r {
            Ok(t) => parse_target(v@.subrange(lo as int, hi as int)) == Ok::<TargetSpec, WikiError>(t@),
            Err(e) => parse_target(v@.subrange(lo as int, hi as int)) == Err::<TargetSpec, WikiError>(e),
        },
{
    let (a, b) = trim_range(v, lo, hi);
    if a == b {
        return Err(WikiError::EmptyTarget);
    }
    Ok(classify_range(v, a, b))
}

impl WikiTarget {
    /// Parse a target: trimmed; empty is an error; an id when the token
    /// parses as a canonical id, otherwise a title.
    pub fn parse(s: &str) -> (r: Result<WikiTarget, WikiError>)
        ensures
            match r {
                Ok(t) => parse_target(s@) == Ok::<TargetSpec, WikiError>(t@),
                Err(e) => parse_target(s@) == Err::<TargetSpec, WikiError>(e),
            },
    {
        let v = chars_of(s);
        assert(v@.subrange(0, v@.len() as int) =~= v@);
        parse_target_range(&v, 0, v.len())
    }

    /// The text this target displays as.
    pub fn to_string(&self) -> (r: String)
        ensures
            r@ == target_text(self@),
    {
        match self {
            WikiTarget::ById(id) => id.to_string(),
            WikiTarget::ByTitle(t) => t.clone(),
        }
    }
}

impl core::str::FromStr for WikiTarget {
    type Err = WikiError;

    fn from_str(s: &str) -> (r: Result<Self, Self::Err>)
        ensures
            match r {
                Ok(t) => parse_target(s@) == Ok::<TargetSpec, WikiError>(t@),
                Err(e) => parse_target(s@) == Err::<TargetSpec, WikiError>(e),
            },
    {
        WikiTarget::parse(s)
    }
}

impl WikiLink {
    /// Parse a wikilink's inner content, tolerating surrounding `[[ ]]`.
    #[verifier::rlimit(40)]
    pub fn parse(s: &str) -> (r: Result<WikiLink, WikiError>)
        ensures
            match r {
                Ok(l) => parse_link(s@) == Ok::<LinkSpec, WikiError>(l@),
                Err(e) => parse_link(s@) == Err::<LinkSpec, WikiError>(e),
            },
    {
        let v = chars_of(s);
        let (a0, b0) = trim_range(&v, 0, v.len());
        assert(v@.subrange(0, v@.len() as int) =~= v@);
        let ghost t = v@.subrange(a0 as int, b0 as int);
        let (a, b) = if b0 - a0 >= 4 && v[a0] == '[' && v[a0 + 1] == '[' && v[b0 - 2] == ']'
            && v[b0 - 1] == ']' {
            (a0 + 2, b0 - 2)
        } else {
            (a0, b0)
        };
        let ghost inner = v@.subrange(a as int, b as int);
        assert(inner =~= strip_brackets(t));
        let p = find_char_in(&v, '|', a);
        proof {
            lemma_find_char(v@, '|', a as int);
            lemma_find_char(inner, '|', 0);
            let q = if p < b { p - a } else { inner.len() as int };
            assert forall|k: int| 0 <= k < q implies inner[k] != '|' by {
                assert(inner[k] == v@[a + k]);
            }
            lemma_find_char_unique(inner, '|', 0, q);
        }
        let (te, display) = if p < b {
            let (c, d) = trim_range(&v, p + 1, b);
            assert(inner.subrange(p - a + 1, inner.len() as int) =~= v@.subrange(p + 1, b as int));
            if c == d {
                (p, None)
            } else {
                (p, Some(string_of(&v, c, d)))
            }
        } else {
            (b, None)
        };
        assert(te < b ==> inner.subrange(0, te - a) =~= v@.subrange(a as int, te as int));
        assert(te == b ==> inner =~= v@.subrange(a as int, te as int));
        match parse_target_range(&v, a, te) {
            Ok(target) => Ok(WikiLink { target, display }),
            Err(e) => Err(e),
        }
    }

    /// The text this link displays as: `target` or `target|display`.
    pub fn to_string(&self) -> (r: String)
        ensures
            r@ == link_text(self@),
    {
        let mut out = self.target.to_string();
        match &self.display {
            Some(d) => {
                out.append("|");
                out.append(d.as_str());
                proof {
                    reveal_strlit("|");
                }
            },
            None => {},
        }
        out
    }
}

impl core::str::FromStr for WikiLink {
    type Err = WikiError;

    fn from_str(s: &str) -> (r: Result<Self, Self::Err>)
        ensures
            match r {
                Ok(l) => parse_link(s@) == Ok::<LinkSpec, WikiError>(l@),
                Err(e) => parse_link(s@) == Err::<LinkSpec, WikiError>(e),
            },
    {
        WikiLink::parse(s)
    }
}

/// The text of a parsed target has no whitespace at either end, no `|`, and
/// classifies back to the same target.
proof fn lemma_target_text(ts: Seq<char>)
    requires
        parse_target(ts) is Ok,
        forall|k: int| 0 <= k < ts.len() ==> ts[k] != '|',
    ensures
        ({
            let tgt = parse_target(ts)->Ok_0;
            let x = target_text(tgt);
            &&& x.len() > 0
            &&& !is_ws(x[0])
            &&& !is_ws(x.last())
            &&& forall|k: int| 0 <= k < x.len() ==> x[k] != '|'
            &&& trim(x) == x
            &&& parse_target(x) == Ok::<TargetSpec, WikiError>(tgt)
        }),
{
    let t = trim(ts);
    lemma_trim_ends(ts);
    lemma_trim_absent(ts, '|');
    match parse_id(t) {
        Ok(v) => {
            lemma_parsed_id_text(t);
            let x = ulid_text(v);
            assert(crockford_upper(x[0]));
            assert(crockford_upper(x[25]));
            assert forall|k: int| 0 <= k < x.len() implies x[k] != '|' by {
                assert(crockford_upper(x[k]));
            }
            lemma_trim_noop(x);
        },
        Err(_) => {
            lemma_trim_idempotent(ts);
        },
    }
}

/// Showing a parsed wikilink and parsing the text again gives the same link,
/// unless the shown text is itself wrapped in `[[` … `]]` (then the second
/// parse strips those brackets).
pub proof fn lemma_link_text_roundtrip(s: Seq<char>)
    requires
        parse_link(s) is Ok,
        !has_brackets(link_text(parse_link(s)->Ok_0)),
    ensures
        parse_link(link_text(parse_link(s)->Ok_0)) == parse_link(s),
{
    let l = parse_link(s)->Ok_0;
    let inner = strip_brackets(trim(s));
    let p = find_char(inner, '|', 0);
    lemma_find_char(inner, '|', 0);
    let ts = if p < inner.len() {
        inner.subrange(0, p)
    } else {
        inner
    };
    assert forall|k: int| 0 <= k < ts.len() implies ts[k] != '|' by {
        assert(ts[k] == inner[k]);
    }
    lemma_target_text(ts);
    let x = target_text(l.target);
    let text = link_text(l);
    match l.display {
        Some(d) => {
            let rest = inner.subrange(p + 1, inner.len() as int);
            lemma_trim_ends(rest);
            lemma_trim_idempotent(rest);
            assert(text.len() > 0 && text[0] == x[0]);
            assert(text.last() == d.last());
            lemma_trim_noop(text);
            assert(strip_brackets(trim(text)) == text);
            assert forall|k: int| 0 <= k < x.len() implies text[k] != '|' by {
                assert(text[k] == x[k]);
            }
            assert(text[x.len() as int] == '|');
            lemma_find_char_unique(text, '|', 0, x.len() as int);
            assert(text.subrange(0, x.len() as int) =~= x);
            assert(text.subrange(x.len() as int + 1, text.len() as int) =~= d);
        },
        None => {
            assert(text == x);
            lemma_trim_noop(text);
            lemma_find_char_unique(text, '|', 0, text.len() as int);
        },
    }
}

/// Showing a parsed target and parsing the text again gives the same target.
pub proof fn lemma_target_text_roundtrip(s: Seq<char>)
    requires
        parse_target(s) is Ok,
        forall|k: int| 0 <= k < s.len() ==> s[k] != '|',
    ensures
        parse_target(target_text(parse_target(s)->Ok_0)) == parse_target(s),
{
    lemma_target_text(s);
}

} // verus!
