//! TTY-aware output decisions: styled markdown on a terminal, raw text when
//! piped, and raw text to a terminal neutralized of control sequences.

use crate::text::{chars_of, push_char};
use vstd::prelude::*;

verus! {

/// How a note body should be emitted.
#[derive(Debug, Clone, Copy, PartialEq, Eq, Structural)]
pub enum Mode {
    /// Decide from whether stdout is a terminal.
    Auto,
    /// Always raw.
    Raw,
    /// Always styled.
    Styled,
}

impl Mode {
    /// Resolve from the `--raw` / `--render` flags; `--raw` wins.
    pub fn from_flags(raw: bool, render: bool) -> (r: Self)
        ensures
            r == (if raw {
                Mode::Raw
            } else if render {
                Mode::Styled
            } else {
                Mode::Auto
            }),
    {
        if raw {
            Mode::Raw
        } else if render {
            Mode::Styled
        } else {
            Mode::Auto
        }
    }

    /// Whether to style the output, given whether stdout is a terminal.
    pub fn styled(self, stdout_is_terminal: bool) -> (r: bool)
        ensures
            r == match self {
                Mode::Raw => false,
                Mode::Styled => true,
                Mode::Auto => stdout_is_terminal,
            },
    {
        match self {
            Mode::Raw => false,
            Mode::Styled => true,
            Mode::Auto => stdout_is_terminal,
        }
    }
}

/// A control character (`char::is_control`, the general category `Cc`):
/// U+0000 to U+001F and U+007F to U+009F.
pub open spec fn is_control(c: char) -> bool {
    c <= '\u{1f}' || ('\u{7f}' <= c && c <= '\u{9f}')
}

/// Each control character other than tab and line feed replaced by U+FFFD.
pub open spec fn sanitized(s: Seq<char>) -> Seq<char> {
    s.map_values(
        |c: char|
            if c == '\t' || c == '\n' {
                c
            } else if is_control(c) {
                '\u{fffd}'
            } else {
                c
            },
    )
}

/// Replace C0/C1 control characters (and DEL) with U+FFFD, keeping only tab
/// and newline, so raw note content cannot drive the terminal.
pub fn sanitize_for_tty(body: &str) -> (r: String)
    ensures
        r@ == sanitized(body@),
{
    let v = chars_of(body);
    let mut out = String::new();
    let mut i: usize = 0;
    while i < v.len()
        invariant
            i <= v.len(),
            out@ == sanitized(v@.take(i as int)),
        decreases v.len() - i,
    {
        let c = v[i];
        let d = if c == '\t' || c == '\n' {
            c
        } else if c <= '\u{1f}' || ('\u{7f}' <= c && c <= '\u{9f}') {
            '\u{fffd}'
        } else {
            c
        };
        push_char(&mut out, d);
        i += 1;
        assert(sanitized(v@.take(i as int)) =~= sanitized(v@.take(i - 1)).push(d));
    }
    assert(v@.take(i as int) =~= v@);
    out
}

/// What raw output prints: the body (sanitized when stdout is a terminal),
/// followed by a newline unless it already ends with one.
pub open spec fn raw_text(body: Seq<char>, stdout_is_terminal: bool) -> Seq<char> {
    let out = if stdout_is_terminal {
        sanitized(body)
    } else {
        body
    };
    if out.len() > 0 && out.last() == '\n' {
        out
    } else {
        out.push('\n')
    }
}

/// The raw output of a note body (see `raw_text`).
pub fn raw_output(body: &str, stdout_is_terminal: bool) -> (r: String)
    ensures
        r@ == raw_text(body@, stdout_is_terminal),
{
    let mut out = if stdout_is_terminal {
        sanitize_for_tty(body)
    } else {
        body.to_owned()
    };
    let v = chars_of(out.as_str());
    if !(v.len() > 0 && v[v.len() - 1] == '\n') {
        push_char(&mut out, '\n');
    }
    out
}

} // verus!
