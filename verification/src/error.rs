//! The error taxonomy of the domain model.

use vstd::prelude::*;

verus! {

/// Failure parsing a ULID-backed id (26-char Crockford base32).
#[derive(Debug, Clone, Copy, PartialEq, Eq, Structural)]
pub enum IdError {
    InvalidLength,
    InvalidChar,
    /// 26 valid characters whose value overflows 128 bits: the decoder would
    /// silently mask it to a different canonical string, so it is rejected.
    NonCanonical,
}

/// Failure normalizing/validating a tag.
#[derive(Debug, Clone, PartialEq, Eq)]
pub enum TagError {
    Empty,
    InvalidChar { input: String, ch: char },
}

/// The abstract content of a tag error.
pub enum TagErrorSpec {
    Empty,
    InvalidChar(Seq<char>, char),
}

impl View for TagError {
    type V = TagErrorSpec;

    open spec fn view(&self) -> TagErrorSpec {
        match self {
            TagError::Empty => TagErrorSpec::Empty,
            TagError::InvalidChar { input, ch } => TagErrorSpec::InvalidChar(input@, *ch),
        }
    }
}

/// Failure parsing the inner content of a wikilink target.
#[derive(Debug, Clone, Copy, PartialEq, Eq, Structural)]
pub enum WikiError {
    EmptyTarget,
}

/// Umbrella error for multi-step fallible flows.
#[derive(Debug, Clone, PartialEq, Eq)]
pub enum Error {
    Id(IdError),
    Tag(TagError),
    Wiki(WikiError),
}

/// The `Debug` rendering of a string (quoted and escaped).
pub uninterp spec fn str_debug(s: Seq<char>) -> Seq<char>;

/// The `Debug` rendering of a character (quoted and escaped).
pub uninterp spec fn char_debug(c: char) -> Seq<char>;

/// The `Debug` rendering of a string slice (`<str as Debug>::fmt`).
#[verifier::external_body]
pub(crate) fn debug_str(s: &str) -> (r: String)
    ensures
        r@ == str_debug(s@),
{
    format!("{:?}", s)
}

/// The `Debug` rendering of a character (`<char as Debug>::fmt`).
#[verifier::external_body]
fn debug_char(c: char) -> (r: String)
    ensures
        r@ == char_debug(c),
{
    format!("{:?}", c)
}

/// The human-readable message of an id error.
pub open spec fn id_error_message(e: IdError) -> Seq<char> {
    match e {
        IdError::InvalidLength => "note id has invalid length (expected 26 Crockford base32 chars)"@,
        IdError::InvalidChar => "note id contains an invalid character"@,
        IdError::NonCanonical => "note id is not in canonical form (value out of range)"@,
    }
}

/// The human-readable message of a tag error, from its content.
pub open spec fn tag_error_text(e: TagErrorSpec) -> Seq<char> {
    match e {
        TagErrorSpec::Empty => "tag is empty after normalization"@,
        TagErrorSpec::InvalidChar(input, ch) => "tag "@ + str_debug(input)
            + " contains invalid character "@ + char_debug(ch),
    }
}

/// The human-readable message of a tag error.
pub open spec fn tag_error_message(e: TagError) -> Seq<char> {
    tag_error_text(e@)
}

/// The human-readable message of a wikilink error.
pub open spec fn wiki_error_message(e: WikiError) -> Seq<char> {
    match e {
        WikiError::EmptyTarget => "wikilink target is empty"@,
    }
}

/// The human-readable message of the umbrella error (that of the inner error).
pub open spec fn error_message(e: Error) -> Seq<char> {
    match e {
        Error::Id(i) => id_error_message(i),
        Error::Tag(t) => tag_error_message(t),
        Error::Wiki(w) => wiki_error_message(w),
    }
}

impl IdError {
    /// The message this error displays as.
    pub fn to_string(&self) -> (r: String)
        ensures
            r@ == id_error_message(*self),
    {
        match self {
            IdError::InvalidLength => "note id has invalid length (expected 26 Crockford base32 chars)".to_owned(),
            IdError::InvalidChar => "note id contains an invalid character".to_owned(),
            IdError::NonCanonical => "note id is not in canonical form (value out of range)".to_owned(),
        }
    }
}

impl TagError {
    /// The message this error displays as.
    pub fn to_string(&self) -> (r: String)
        ensures
            r@ == tag_error_message(*self),
    {
        match self {
            TagError::Empty => "tag is empty after normalization".to_owned(),
            TagError::InvalidChar { input, ch } => {
                let mut out = "tag ".to_owned();
                let quoted = debug_str(input.as_str());
                out.append(quoted.as_str());
                out.append(" contains invalid character ");
                let c = debug_char(*ch);
                out.append(c.as_str());
                out
            },
        }
    }
}

impl WikiError {
    /// The message this error displays as.
    pub fn to_string(&self) -> (r: String)
        ensures
            r@ == wiki_error_message(*self),
    {
        "wikilink target is empty".to_owned()
    }
}

impl Error {
    /// The message this error displays as (transparent over the inner error).
    pub fn to_string(&self) -> (r: String)
        ensures
            r@ == error_message(*self),
    {
        match self {
            Error::Id(e) => e.to_string(),
            Error::Tag(e) => e.to_string(),
            Error::Wiki(e) => e.to_string(),
        }
    }
}

impl From<IdError> for Error {
    fn from(e: IdError) -> (r: Self) {
        Error::Id(e)
    }
}

impl vstd::std_specs::convert::FromSpecImpl<IdError> for Error {
    open spec fn obeys_from_spec() -> bool {
        true
    }

    open spec fn from_spec(e: IdError) -> Self {
        Error::Id(e)
    }
}

impl From<TagError> for Error {
    fn from(e: TagError) -> (r: Self) {
        Error::Tag(e)
    }
}

impl vstd::std_specs::convert::FromSpecImpl<TagError> for Error {
    open spec fn obeys_from_spec() -> bool {
        true
    }

    open spec fn from_spec(e: TagError) -> Self {
        Error::Tag(e)
    }
}

impl From<WikiError> for Error {
    fn from(e: WikiError) -> (r: Self) {
        Error::Wiki(e)
    }
}

impl vstd::std_specs::convert::FromSpecImpl<WikiError> for Error {
    open spec fn obeys_from_spec() -> bool {
        true
    }

    open spec fn from_spec(e: WikiError) -> Self {
        Error::Wiki(e)
    }
}

} // verus!
