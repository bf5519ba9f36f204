//! Extract `[[wikilinks]]` from a markdown body, ignoring code.
//!
//! The body is scanned for `[[ … ]]` spans directly; the markdown parser is
//! only asked which byte ranges are code (fenced or indented blocks and inline
//! spans), since it may split a `[[…]]` run across several text events.

use pulldown_cmark::{Event, Tag, TagEnd};
use crate::link::{link_text, parse_link, LinkSpec, WikiLink};
use crate::text::{char_utf8_len, chars_of, str_eq, string_of, utf8_len, utf8_size};
use vstd::prelude::*;

verus! {

/// The parser events that decide where code is; every other event is `Other`.
#[derive(Debug, Clone, Copy, PartialEq, Eq, Structural)]
pub enum CodeEvent {
    CodeBlockStart,
    CodeBlockEnd,
    InlineCode,
    Text,
    Other,
}

/// The events `pulldown_cmark::Parser::new(body).into_offset_iter()` yields,
/// each with the byte range of the source it covers.
pub uninterp spec fn markdown_events(body: Seq<char>) -> Seq<(CodeEvent, usize, usize)>;

/// `pulldown_cmark::Parser::new(..).into_offset_iter()`: the events of the
/// CommonMark parse of `body` (default options), in order, each with its byte
/// range. The parse depends on the text alone; this contract names its
/// result without describing it.
#[verifier::external_body]
fn parse_events(body: &str) -> (r: Vec<(CodeEvent, usize, usize)>)
    ensures
        r@ == markdown_events(body@),
{
    let mut out = Vec::new();
    for (event, range) in pulldown_cmark::Parser::new(body).into_offset_iter() {
        let kind = match event {
            Event::Start(Tag::CodeBlock(_)) => CodeEvent::CodeBlockStart,
            Event::End(TagEnd::CodeBlock) => CodeEvent::CodeBlockEnd,
            Event::Code(_) => CodeEvent::InlineCode,
            Event::Text(_) => CodeEvent::Text,
            _ => CodeEvent::Other,
        };
        out.push((kind, range.start, range.end));
    }
    out
}

/// `str::len`: the number of bytes of the string's UTF-8 encoding.
#[verifier::external_body]
fn byte_len(s: &str) -> (r: usize)
    ensures
        r == utf8_size(s@),
{
    s.len()
}

/// Number of code blocks open after the events.
pub open spec fn code_depth(ev: Seq<(CodeEvent, usize, usize)>) -> nat
    decreases ev.len(),
{
    if ev.len() == 0 {
        0
    } else {
        let d = code_depth(ev.drop_last());
        match ev.last().0 {
            CodeEvent::CodeBlockStart => d + 1,
            CodeEvent::CodeBlockEnd => if d == 0 {
                0
            } else {
                (d - 1) as nat
            },
            _ => d,
        }
    }
}

/// The byte ranges that are code: inline code spans, and text inside a code
/// block.
pub open spec fn code_spans(ev: Seq<(CodeEvent, usize, usize)>) -> Seq<(usize, usize)>
    decreases ev.len(),
{
    if ev.len() == 0 {
        Seq::empty()
    } else {
        let prev = code_spans(ev.drop_last());
        let e = ev.last();
        match e.0 {
            CodeEvent::InlineCode => prev.push((e.1, e.2)),
            CodeEvent::Text => if code_depth(ev.drop_last()) > 0 {
                prev.push((e.1, e.2))
            } else {
                prev
            },
            _ => prev,
        }
    }
}

/// Whether byte offset `o` lies in one of the ranges.
pub open spec fn in_code(code: Seq<(usize, usize)>, o: int) -> bool {
    exists|i: int| 0 <= i < code.len() && (#[trigger] code[i]).0 <= o < code[i].1
}

/// First index at or after `i` where `c` occurs twice in a row, or `s.len()`.
pub open spec fn find_double(s: Seq<char>, c: char, i: int) -> int
    decreases s.len() - i,
{
    if i < 0 || i + 1 >= s.len() {
        s.len() as int
    } else if s[i] == c && s[i + 1] == c {
        i
    } else {
        find_double(s, c, i + 1)
    }
}

/// `find_double` finds the first double occurrence, or none is left.
pub proof fn lemma_find_double(s: Seq<char>, c: char, i: int)
    requires
        0 <= i,
    ensures
        find_double(s, c, i) == s.len() || (i <= find_double(s, c, i) && find_double(s, c, i) + 1
            < s.len() && s[find_double(s, c, i)] == c && s[find_double(s, c, i) + 1] == c),
        forall|k: int|
            i <= k < find_double(s, c, i) && k + 1 < s.len() ==> !(#[trigger] s[k] == c && s[k
                + 1] == c),
    decreases s.len() - i,
{
    if i + 1 < s.len() && !(s[i] == c && s[i + 1] == c) {
        lemma_find_double(s, c, i + 1);
    }
}

/// The `[[ … ]]` spans of `s` from index `i` on, left to right and not
/// nesting: the index of each `[[` and the text up to the next `]]`. An
/// unclosed `[[` ends the scan.
pub open spec fn bracket_spans(s: Seq<char>, i: int) -> Seq<(int, Seq<char>)>
    decreases s.len() - i,
{
    let open = find_double(s, '[', i);
    let close = find_double(s, ']', open + 2);
    if i < 0 || open >= s.len() || close >= s.len() {
        Seq::empty()
    } else {
        proof {
            lemma_find_double(s, '[', i);
            lemma_find_double(s, ']', open + 2);
        }
        seq![(open, s.subrange(open + 2, close))] + bracket_spans(s, close + 2)
    }
}

/// Whether some link in `links` displays as `t`.
pub open spec fn has_text(links: Seq<LinkSpec>, t: Seq<char>) -> bool {
    exists|j: int| 0 <= j < links.len() && link_text(links[j]) == t
}

/// The links of the spans in order: spans that start in code and spans that
/// do not parse are skipped, and a link is kept only the first time its text
/// occurs.
pub open spec fn collect_links(
    spans: Seq<(int, Seq<char>)>,
    s: Seq<char>,
    code: Seq<(usize, usize)>,
) -> Seq<LinkSpec>
    decreases spans.len(),
{
    if spans.len() == 0 {
        Seq::empty()
    } else {
        let prev = collect_links(spans.drop_last(), s, code);
        let open = spans.last().0;
        let inner = spans.last().1;
        if in_code(code, utf8_size(s.take(open)) as int) {
            prev
        } else {
            match parse_link(inner) {
                Ok(l) => if has_text(prev, link_text(l)) {
                    prev
                } else {
                    prev.push(l)
                },
                Err(_) => prev,
            }
        }
    }
}

/// The wikilinks of `body` given the parser's events for it.
pub open spec fn wikilinks_of(body: Seq<char>, events: Seq<(CodeEvent, usize, usize)>) -> Seq<
    LinkSpec,
> {
    collect_links(bracket_spans(body, 0), body, code_spans(events))
}

/// The views of a list of links.
pub open spec fn link_views(v: Seq<WikiLink>) -> Seq<LinkSpec> {
    v.map_values(|l: WikiLink| l@)
}

/// No two of the links display as the same text.
pub open spec fn distinct_texts(links: Seq<LinkSpec>) -> bool {
    forall|i: int, j: int|
        0 <= i < j < links.len() ==> link_text(#[trigger] links[i]) != link_text(
            #[trigger] links[j],
        )
}

/// The collected links never repeat a text.
pub proof fn lemma_collect_distinct(
    spans: Seq<(int, Seq<char>)>,
    s: Seq<char>,
    code: Seq<(usize, usize)>,
)
    ensures
        distinct_texts(collect_links(spans, s, code)),
    decreases spans.len(),
{
    if spans.len() > 0 {
        lemma_collect_distinct(spans.drop_last(), s, code);
        let prev = collect_links(spans.drop_last(), s, code);
        let r = collect_links(spans, s, code);
        if r != prev {
            assert forall|i: int, j: int| 0 <= i < j < r.len() implies link_text(
                #[trigger] r[i],
            ) != link_text(#[trigger] r[j]) by {
                if j == r.len() - 1 {
                    assert(r[i] == prev[i]);
                } else {
                    assert(r[i] == prev[i] && r[j] == prev[j]);
                }
            }
        }
    }
}

proof fn lemma_prefix_size(s: Seq<char>, j: int)
    requires
        0 <= j < s.len(),
    ensures
        utf8_size(s.take(j + 1)) == utf8_size(s.take(j)) + utf8_len(s[j]),
{
    assert(s.take(j + 1).drop_last() =~= s.take(j));
}

proof fn lemma_prefix_size_bound(s: Seq<char>, j: int)
    requires
        0 <= j <= s.len(),
    ensures
        utf8_size(s.take(j)) <= utf8_size(s),
    decreases s.len() - j,
{
    if j < s.len() {
        lemma_prefix_size(s, j);
        lemma_prefix_size_bound(s, j + 1);
    } else {
        assert(s.take(j) =~= s);
    }
}

/// `bytes` advanced from the byte offset of index `pos` to that of `target`.
fn advance_bytes(v: &Vec<char>, pos: usize, bytes: usize, target: usize, total: usize) -> (r: usize)
    requires
        pos <= target <= v.len(),
        bytes == utf8_size(v@.take(pos as int)),
        total == utf8_size(v@),
    ensures
        r == utf8_size(v@.take(target as int)),
{
    let mut p = pos;
    let mut b = bytes;
    while p < target
        invariant
            pos <= p <= target <= v.len(),
            b == utf8_size(v@.take(p as int)),
            total == utf8_size(v@),
        decreases target - p,
    {
        proof {
            lemma_prefix_size(v@, p as int);
            lemma_prefix_size_bound(v@, p + 1);
        }
        b = b + char_utf8_len(v[p]);
        p += 1;
    }
    b
}

/// Index of the first double `c` in `v` at or after `i`, or `v.len()`.
fn find_double_in(v: &Vec<char>, c: char, i: usize) -> (r: usize)
    requires
        i <= v.len(),
    ensures
        r == find_double(v@, c, i as int),
{
    let mut j = i;
    while j < v.len() && j + 1 < v.len() && !(v[j] == c && v[j + 1] == c)
        invariant
            i <= j <= v.len(),
            find_double(v@, c, i as int) == find_double(v@, c, j as int),
        decreases v.len() - j,
    {
        j += 1;
    }
    if j >= v.len() || j + 1 >= v.len() {
        v.len()
    } else {
        j
    }
}

/// The exec record of a span: the byte offset of its `[[` and the index
/// range of its inner text.
pub open spec fn span_matches(s: Seq<char>, r: (usize, usize, usize), sp: (int, Seq<char>)) -> bool {
    &&& 0 <= sp.0
    &&& r.1 == sp.0 + 2
    &&& r.1 <= r.2 <= s.len()
    &&& s.subrange(r.1 as int, r.2 as int) == sp.1
    &&& r.0 == utf8_size(s.take(sp.0))
}

/// The `[[ … ]]` spans of `v`, each as the byte offset of `[[` and the index
/// range of the inner text.
fn scan_double_brackets(v: &Vec<char>, total: usize) -> (r: Vec<(usize, usize, usize)>)
    requires
        total == utf8_size(v@),
    ensures
        r.len() == bracket_spans(v@, 0).len(),
        forall|i: int|
            0 <= i < r.len() ==> span_matches(v@, #[trigger] r@[i], bracket_spans(v@, 0)[i]),
{
    let ghost all = bracket_spans(v@, 0);
    let ghost mut done: Seq<(int, Seq<char>)> = Seq::empty();
    let mut out: Vec<(usize, usize, usize)> = Vec::new();
    let mut idx: usize = 0;
    let mut bytes: usize = 0;
    assert(v@.take(0) =~= Seq::<char>::empty());
    loop
        invariant
            idx <= v.len(),
            bytes == utf8_size(v@.take(idx as int)),
            total == utf8_size(v@),
            all == bracket_spans(v@, 0),
            done + bracket_spans(v@, idx as int) == all,
            out.len() == done.len(),
            forall|i: int| 0 <= i < out.len() ==> span_matches(v@, #[trigger] out@[i], done[i]),
        decreases v.len() - idx,
    {
        let open = find_double_in(v, '[', idx);
        proof {
            lemma_find_double(v@, '[', idx as int);
        }
        if open >= v.len() {
            assert(bracket_spans(v@, idx as int) =~= Seq::<(int, Seq<char>)>::empty());
            assert(done =~= all);
            return out;
        }
        let close = find_double_in(v, ']', open + 2);
        proof {
            lemma_find_double(v@, ']', open + 2);
        }
        if close >= v.len() {
            assert(bracket_spans(v@, idx as int) =~= Seq::<(int, Seq<char>)>::empty());
            assert(done =~= all);
            return out;
        }
        let ob = advance_bytes(v, idx, bytes, open, total);
        let ghost sp = (open as int, v@.subrange(open + 2, close as int));
        out.push((ob, open + 2, close));
        proof {
            assert(bracket_spans(v@, idx as int) == seq![sp] + bracket_spans(v@, close + 2));
            assert(done.push(sp) + bracket_spans(v@, close + 2) =~= all);
            done = done.push(sp);
        }
        bytes = advance_bytes(v, open, ob, close + 2, total);
        idx = close + 2;
    }
}

/// The byte ranges of code among the parser's events.
fn code_ranges(events: &Vec<(CodeEvent, usize, usize)>) -> (r: Vec<(usize, usize)>)
    ensures
        r@ == code_spans(events@),
{
    let mut ranges: Vec<(usize, usize)> = Vec::new();
    let mut depth: usize = 0;
    let mut i: usize = 0;
    while i < events.len()
        invariant
            i <= events.len(),
            depth == code_depth(events@.take(i as int)),
            depth <= i,
            ranges@ == code_spans(events@.take(i as int)),
        decreases events.len() - i,
    {
        let (kind, start, end) = events[i];
        assert(events@.take(i + 1).drop_last() =~= events@.take(i as int));
        match kind {
            CodeEvent::CodeBlockStart => {
                depth = depth + 1;
            },
            CodeEvent::CodeBlockEnd => {
                depth = if depth == 0 {
                    0
                } else {
                    depth - 1
                };
            },
            CodeEvent::InlineCode => {
                ranges.push((start, end));
            },
            CodeEvent::Text => {
                if depth > 0 {
                    ranges.push((start, end));
                }
            },
            CodeEvent::Other => {},
        }
        i += 1;
    }
    assert(events@.take(i as int) =~= events@);
    ranges
}

/// Whether byte offset `o` lies in one of the ranges.
fn covered(code: &Vec<(usize, usize)>, o: usize) -> (r: bool)
    ensures
        r == in_code(code@, o as int),
{
    let mut i: usize = 0;
    while i < code.len()
        invariant
            i <= code.len(),
            forall|k: int| 0 <= k < i ==> !((#[trigger] code@[k]).0 <= o < code@[k].1),
        decreases code.len() - i,
    {
        if code[i].0 <= o && o < code[i].1 {
            return true;
        }
        i += 1;
    }
    false
}

/// Whether one of the texts is `t`.
fn seen_text(seen: &Vec<String>, t: &str) -> (r: bool)
    ensures
        r == exists|j: int| 0 <= j < seen.len() && seen@[j]@ == t@,
{
    let mut j: usize = 0;
    while j < seen.len()
        invariant
            j <= seen.len(),
            forall|k: int| 0 <= k < j ==> seen@[k]@ != t@,
        decreases seen.len() - j,
    {
        if str_eq(seen[j].as_str(), t) {
            return true;
        }
        j += 1;
    }
    false
}

/// The links of the spans that are outside code, first occurrence of each
/// text only.
fn links_outside_code(
    v: &Vec<char>,
    spans: &Vec<(usize, usize, usize)>,
    code: &Vec<(usize, usize)>,
) -> (r: Vec<WikiLink>)
    requires
        spans.len() == bracket_spans(v@, 0).len(),
        forall|i: int|
            0 <= i < spans.len() ==> span_matches(v@, #[trigger] spans@[i], bracket_spans(v@, 0)[i]),
    ensures
        link_views(r@) == collect_links(bracket_spans(v@, 0), v@, code@),
{
    let ghost all = bracket_spans(v@, 0);
    let mut out: Vec<WikiLink> = Vec::new();
    let mut seen: Vec<String> = Vec::new();
    let mut i: usize = 0;
    assert(all.take(0) =~= Seq::<(int, Seq<char>)>::empty());
    while i < spans.len()
        invariant
            i <= spans.len() == all.len(),
            all == bracket_spans(v@, 0),
            forall|k: int| 0 <= k < spans.len() ==> span_matches(v@, #[trigger] spans@[k], all[k]),
            link_views(out@) == collect_links(all.take(i as int), v@, code@),
            seen.len() == out.len(),
            forall|j: int| 0 <= j < seen.len() ==> (#[trigger] seen@[j])@ == link_text(out@[j]@),
        decreases spans.len() - i,
    {
        let (b, lo, hi) = spans[i];
        let ghost prev = link_views(out@);
        assert(all.take(i + 1).drop_last() =~= all.take(i as int));
        assert(all.take(i + 1).last() == all[i as int]);
        assert(span_matches(v@, spans@[i as int], all[i as int]));
        if !covered(code, b) {
            let inner = string_of(v, lo, hi);
            match WikiLink::parse(inner.as_str()) {
                Ok(link) => {
                    let text = link.to_string();
                    let dup = seen_text(&seen, text.as_str());
                    proof {
                        if dup {
                            let j = choose|j: int| 0 <= j < seen.len() && seen@[j]@ == text@;
                            assert(prev[j] == out@[j]@);
                        }
                        if has_text(prev, link_text(link@)) {
                            let j = choose|j: int|
                                0 <= j < prev.len() && link_text(prev[j]) == link_text(link@);
                            assert(seen@[j]@ == link_text(out@[j]@));
                        }
                    }
                    if !dup {
                        out.push(link);
                        seen.push(text);
                        assert(link_views(out@) =~= prev.push(link@));
                    }
                },
                Err(_) => {},
            }
        }
        i += 1;
    }
    assert(all.take(i as int) =~= all);
    out
}

/// The wikilinks of `body` given the parser's events for it, in document
/// order and de-duplicated by their text. Spans whose `[[` lies in code and
/// malformed targets (e.g. `[[]]`) are skipped.
pub fn extract_wikilinks_from_events(body: &str, events: &Vec<(CodeEvent, usize, usize)>) -> (r:
    Vec<WikiLink>)
    ensures
        link_views(r@) == wikilinks_of(body@, events@),
        distinct_texts(link_views(r@)),
{
    let v = chars_of(body);
    let total = byte_len(body);
    let spans = scan_double_brackets(&v, total);
    let code = code_ranges(events);
    let r = links_outside_code(&v, &spans, &code);
    proof {
        lemma_collect_distinct(bracket_spans(v@, 0), v@, code@);
    }
    r
}

/// Extract the `[[wikilinks]]` from a markdown body in document order,
/// de-duplicated by their text. Links inside fenced/indented code blocks and
/// inline code spans are ignored; malformed targets are skipped. A body with
/// no `[[…]]` span is not parsed at all.
pub fn extract_wikilinks(body: &str) -> (r: Vec<WikiLink>)
    ensures
        link_views(r@) == wikilinks_of(body@, markdown_events(body@)),
        distinct_texts(link_views(r@)),
{
    let v = chars_of(body);
    let total = byte_len(body);
    let spans = scan_double_brackets(&v, total);
    if spans.len() == 0 {
        let r: Vec<WikiLink> = Vec::new();
        assert(link_views(r@) =~= Seq::<LinkSpec>::empty());
        return r;
    }
    let events = parse_events(body);
    let code = code_ranges(&events);
    let r = links_outside_code(&v, &spans, &code);
    proof {
        lemma_collect_distinct(bracket_spans(v@, 0), v@, code@);
    }
    r
}

} // verus!
