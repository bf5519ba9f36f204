//! How a note's body is interpreted: plain text or markdown.

use crate::text::chars_of;
use vstd::prelude::*;

verus! {

/// Whether a note's body is interpreted as plain text or markdown.
#[derive(Debug, Clone, Copy, PartialEq, Eq, Structural, Hash)]
pub enum ContentKind {
    Plain,
    Markdown,
}

/// The wire spelling of each kind (`"plain"` / `"markdown"`).
pub open spec fn wire_name(k: ContentKind) -> Seq<char> {
    match k {
        ContentKind::Plain => seq!['p', 'l', 'a', 'i', 'n'],
        ContentKind::Markdown => seq!['m', 'a', 'r', 'k', 'd', 'o', 'w', 'n'],
    }
}

/// The lenient decoding of a wire string: `"plain"` is plain, anything else
/// is markdown.
pub open spec fn kind_from_wire(s: Seq<char>) -> ContentKind {
    if s == wire_name(ContentKind::Plain) {
        ContentKind::Plain
    } else {
        ContentKind::Markdown
    }
}

impl Default for ContentKind {
    /// Markdown is the default kind.
    fn default() -> (r: Self)
        ensures
            r == ContentKind::Markdown,
    {
        ContentKind::Markdown
    }
}

impl ContentKind {
    /// The stable wire spelling of this kind.
    pub fn as_str(self) -> (r: &'static str)
        ensures
            r@ == wire_name(self),
    {
        match self {
            ContentKind::Plain => {
                proof {
                    reveal_strlit("plain");
                }
                "plain"
            },
            ContentKind::Markdown => {
                proof {
                    reveal_strlit("markdown");
                }
                "markdown"
            },
        }
    }

    /// Lenient inverse of [`as_str`](Self::as_str): `"plain"` is
    /// [`Plain`](Self::Plain); any other string is the markdown default.
    pub fn from_wire(s: &str) -> (r: Self)
        ensures
            r == kind_from_wire(s@),
    {
        let v = chars_of(s);
        if v.len() == 5 && v[0] == 'p' && v[1] == 'l' && v[2] == 'a' && v[3] == 'i' && v[4]
            == 'n' {
            assert(v@ =~= wire_name(ContentKind::Plain));
            ContentKind::Plain
        } else {
            ContentKind::Markdown
        }
    }

    /// Whether the body is markdown.
    pub fn is_markdown(self) -> (r: bool)
        ensures
            r == (self == ContentKind::Markdown),
    {
        matches!(self, ContentKind::Markdown)
    }

    /// The wire spelling as an owned string (what the kind displays as).
    pub fn to_string(&self) -> (r: String)
        ensures
            r@ == wire_name(*self),
    {
        self.as_str().to_owned()
    }
}

/// Decoding the wire spelling of a kind gives the kind back.
pub proof fn lemma_wire_roundtrip(k: ContentKind)
    ensures
        kind_from_wire(wire_name(k)) == k,
{
    if k == ContentKind::Markdown {
        assert(wire_name(k)[0] != wire_name(ContentKind::Plain)[0]);
    }
}

} // verus!
