//! The text side of the optional `fzf` picker: the candidate lines it is fed,
//! its preview command, and how its answer maps back to a candidate.

use crate::id::ulid_text;
use crate::note::{note_title, Note};
use crate::query::{notes_view, strings_view};
use crate::text::{chars_of, find_char, find_char_in, lemma_find_char, push_char, str_eq, string_of, trim, trim_range};
use vstd::prelude::*;

verus! {

/// The text with each `'` written as `'\''`.
pub open spec fn escape_single_quotes(s: Seq<char>) -> Seq<char>
    decreases s.len(),
{
    if s.len() == 0 {
        Seq::empty()
    } else {
        escape_single_quotes(s.drop_last()) + if s.last() == '\'' {
            seq!['\'', '\\', '\'', '\'']
        } else {
            seq![s.last()]
        }
    }
}

/// Single-quote a string for a POSIX shell.
pub open spec fn shell_quoted(s: Seq<char>) -> Seq<char> {
    seq!['\''] + escape_single_quotes(s) + seq!['\'']
}

/// Minimal single-quote shell escaping for the preview command.
pub fn shell_quote(s: &str) -> (r: String)
    ensures
        r@ == shell_quoted(s@),
{
    let v = chars_of(s);
    let mut out = String::new();
    push_char(&mut out, '\'');
    let mut i: usize = 0;
    while i < v.len()
        invariant
            i <= v.len(),
            out@ == seq!['\''] + escape_single_quotes(v@.take(i as int)),
        decreases v.len() - i,
    {
        assert(v@.take(i + 1).drop_last() =~= v@.take(i as int));
        if v[i] == '\'' {
            push_char(&mut out, '\'');
            push_char(&mut out, '\\');
            push_char(&mut out, '\'');
            push_char(&mut out, '\'');
        } else {
            push_char(&mut out, v[i]);
        }
        i += 1;
        assert(out@ =~= seq!['\''] + escape_single_quotes(v@.take(i as int)));
    }
    assert(v@.take(i as int) =~= s@);
    push_char(&mut out, '\'');
    out
}

/// The preview command: this program, against the same data directory,
/// showing the chosen id raw.
pub fn preview_command(exe: &str, data_dir: &str) -> (r: String)
    ensures
        r@ == shell_quoted(exe@) + " --data-dir "@ + shell_quoted(data_dir@) + " show {1} --raw"@,
{
    let mut out = shell_quote(exe);
    out.append(" --data-dir ");
    let d = shell_quote(data_dir);
    out.append(d.as_str());
    out.append(" show {1} --raw");
    out
}

/// The text with tabs and line feeds turned into spaces.
pub open spec fn one_field(s: Seq<char>) -> Seq<char> {
    s.map_values(|c: char| if c == '\t' || c == '\n' { ' ' } else { c })
}

/// The line a candidate is offered as: its id, a tab, and its effective
/// title on one field.
pub open spec fn picker_line_text(n: Note) -> Seq<char> {
    ulid_text(n.id.0) + seq!['\t'] + one_field(note_title(n)) + seq!['\n']
}

/// The picker line of a candidate (see `picker_line_text`).
pub fn picker_line(note: &Note) -> (r: String)
    ensures
        r@ == picker_line_text(*note),
{
    let mut out = note.id.to_string();
    push_char(&mut out, '\t');
    let t = note.effective_title();
    let v = chars_of(t.as_str());
    let ghost start = out@;
    let mut i: usize = 0;
    while i < v.len()
        invariant
            i <= v.len(),
            out@ == start + one_field(v@.take(i as int)),
        decreases v.len() - i,
    {
        let c = v[i];
        let d = if c == '\t' || c == '\n' {
            ' '
        } else {
            c
        };
        push_char(&mut out, d);
        i += 1;
        assert(one_field(v@.take(i as int)) =~= one_field(v@.take(i - 1)).push(d));
    }
    assert(v@.take(i as int) =~= v@);
    push_char(&mut out, '\n');
    out
}

/// The id the picker answered: the text before its first tab, trimmed.
pub open spec fn picked_id(output: Seq<char>) -> Seq<char> {
    trim(output.take(find_char(output, '\t', 0)))
}

/// The candidate the picker's answer names: the first whose id text is the
/// answered id, or none (treated as an abort).
pub fn picked_candidate(candidates: &Vec<Note>, output: &str) -> (r: Option<usize>)
    ensures
        match r {
            Some(k) => k < candidates.len() && ulid_text(candidates@[k as int].id.0) == picked_id(
                output@,
            ) && forall|j: int|
                0 <= j < k ==> ulid_text(#[trigger] candidates@[j].id.0) != picked_id(output@),
            None => forall|j: int|
                0 <= j < candidates.len() ==> ulid_text(#[trigger] candidates@[j].id.0) != picked_id(
                    output@,
                ),
        },
{
    let v = chars_of(output);
    let e = find_char_in(&v, '\t', 0);
    proof {
        lemma_find_char(v@, '\t', 0);
    }
    let (a, b) = trim_range(&v, 0, e);
    assert(v@.subrange(0, e as int) =~= v@.take(e as int));
    let id = string_of(&v, a, b);
    let mut j: usize = 0;
    while j < candidates.len()
        invariant
            j <= candidates.len(),
            id@ == picked_id(output@),
            forall|m: int| 0 <= m < j ==> ulid_text(#[trigger] candidates@[m].id.0) != id@,
        decreases candidates.len() - j,
    {
        let t = candidates[j].id.to_string();
        if str_eq(t.as_str(), id.as_str()) {
            return Some(j);
        }
        j += 1;
    }
    None
}

} // verus!
