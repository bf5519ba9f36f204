//! Typed note identity: a 128-bit ULID shown as 26 Crockford base32 chars.

use crate::error::IdError;
use crate::text::{chars_of, is_ws, string_of, trim, trim_range, utf8_size};
use vstd::prelude::*;

verus! {

/// `2^80`: the width of the random part of a ULID.
pub open spec fn rand_span() -> int {
    0x1_0000_0000_0000_0000_0000
}

/// `2^48`: the range of the millisecond timestamp part of a ULID.
pub open spec fn time_span() -> int {
    0x1_0000_0000_0000
}

/// The 32 digits of Crockford base32 as the encoder writes them.
pub open spec fn crockford_upper(c: char) -> bool {
    ('0' <= c && c <= '9') || ('A' <= c && c <= 'Z' && c != 'I' && c != 'L' && c != 'O' && c
        != 'U')
}

/// A character the decoder accepts: a Crockford digit, or the lowercase form
/// of one of its letters.
pub open spec fn crockford_decodable(c: char) -> bool {
    crockford_upper(c) || ('a' <= c && c <= 'z' && c != 'i' && c != 'l' && c != 'o' && c != 'u')
}

/// The Crockford base32 digit of value `d` (`0..32`): `0`–`9`, then the
/// uppercase letters without `I`, `L`, `O` and `U`.
pub open spec fn crockford_digit(d: int) -> char {
    if d < 10 {
        (48 + d) as char
    } else if d < 18 {
        (65 + d - 10) as char
    } else if d < 20 {
        (74 + d - 18) as char
    } else if d < 22 {
        (77 + d - 20) as char
    } else if d < 27 {
        (80 + d - 22) as char
    } else {
        (86 + d - 27) as char
    }
}

/// The value of an uppercase Crockford base32 digit.
pub open spec fn digit_value(c: char) -> int {
    let u = c as int;
    if u <= 57 {
        u - 48
    } else if u <= 72 {
        u - 55
    } else if u <= 75 {
        u - 56
    } else if u <= 78 {
        u - 57
    } else if u <= 84 {
        u - 58
    } else {
        u - 59
    }
}

/// `32^n`.
pub open spec fn pow32(n: nat) -> int
    decreases n,
{
    if n == 0 {
        1
    } else {
        32 * pow32((n - 1) as nat)
    }
}

/// `2^128`.
pub open spec fn u128_span() -> int {
    u128::MAX + 1
}

/// The 26-character Crockford base32 text of a 128-bit value
/// (`ulid::Ulid`'s `Display`): five bits per character from the most
/// significant end (the first character holds the top three bits).
pub open spec fn ulid_text(v: u128) -> Seq<char> {
    Seq::new(26, |i: int| crockford_digit((v as int / pow32((25 - i) as nat)) % 32))
}

/// The value the base32 decoder computes for a string of uppercase Crockford
/// characters (`ulid::Ulid::from_string`): each character shifts the value
/// left by five bits, dropping what leaves the 128 bits, and adds its digit.
pub open spec fn ulid_value(s: Seq<char>) -> u128
    decreases s.len(),
{
    if s.len() == 0 {
        0
    } else {
        ((ulid_value(s.drop_last()) as int * 32 + digit_value(s.last())) % u128_span()) as u128
    }
}

/// `ulid::Ulid::from_string`: fails with `InvalidLength` unless the string is
/// 26 bytes long, then with `InvalidChar` when a character is not decodable,
/// and otherwise yields the decoded value, which is that of the uppercased
/// text (the decoder's table maps each lowercase letter to the value of its
/// uppercase form); bits shifted past the 128th are dropped silently.
#[verifier::external_body]
fn ulid_from_string(s: &str) -> (r: Result<u128, IdError>)
    ensures
        r == (if utf8_size(s@) != 26 {
            Err(IdError::InvalidLength)
        } else if exists|i: int| 0 <= i < s@.len() && !crockford_decodable(#[trigger] s@[i]) {
            Err(IdError::InvalidChar)
        } else {
            Ok(ulid_value(ascii_upper(s@)))
        }),
{
    match ulid::Ulid::from_string(s) {
        Ok(u) => Ok(u.0),
        Err(ulid::DecodeError::InvalidLength) => Err(IdError::InvalidLength),
        Err(ulid::DecodeError::InvalidChar) => Err(IdError::InvalidChar),
    }
}

/// `ulid::Ulid`'s `Display`: 26 characters from the uppercase Crockford
/// alphabet, five bits each from the most significant end.
#[verifier::external_body]
fn ulid_to_string(v: u128) -> (r: String)
    ensures
        r@ == ulid_text(v),
{
    ulid::Ulid(v).to_string()
}

/// `ulid::Ulid::from_parts`: the timestamp masked to 48 bits above the
/// random part masked to 80 bits.
#[verifier::external_body]
fn ulid_from_parts(timestamp_ms: u64, random: u128) -> (r: u128)
    ensures
        r == (timestamp_ms as int % time_span()) * rand_span() + (random as int % rand_span()),
{
    ulid::Ulid::from_parts(timestamp_ms, random).0
}

/// `ulid::Ulid::timestamp_ms`: the top 48 bits.
#[verifier::external_body]
fn ulid_timestamp_ms(v: u128) -> (r: u64)
    ensures
        r == v as int / rand_span(),
{
    ulid::Ulid(v).timestamp_ms()
}

/// ASCII uppercase of one character.
pub open spec fn upper_char(c: char) -> char {
    if 'a' <= c && c <= 'z' {
        ((c as int) - 32) as char
    } else {
        c
    }
}

/// ASCII uppercase of a string (`str::to_ascii_uppercase`).
pub open spec fn ascii_upper(s: Seq<char>) -> Seq<char> {
    s.map_values(|c: char| upper_char(c))
}

/// The outcome of parsing `s` as a note id: trim; decode; reject a value whose
/// canonical text is not the (ASCII-uppercased) input.
pub open spec fn parse_id(s: Seq<char>) -> Result<u128, IdError> {
    let t = trim(s);
    if utf8_size(t) != 26 {
        Err(IdError::InvalidLength)
    } else if exists|i: int| 0 <= i < t.len() && !crockford_decodable(#[trigger] t[i]) {
        Err(IdError::InvalidChar)
    } else if ulid_text(ulid_value(ascii_upper(t))) != ascii_upper(t) {
        Err(IdError::NonCanonical)
    } else {
        Ok(ulid_value(ascii_upper(t)))
    }
}

/// Typed identity for a note: a 128-bit ULID, lexicographically
/// time-sortable, shown as 26 Crockford base32 characters.
#[derive(Debug, Clone, Copy, PartialEq, Eq, Structural, Hash, PartialOrd, Ord)]
pub struct NoteId(pub u128);

/// Whether `v[lo..hi]` equals `ascii_upper(u)` character by character.
fn upper_matches(v: &Vec<char>, lo: usize, hi: usize, u: &Vec<char>) -> (r: bool)
    requires
        lo <= hi <= v.len(),
    ensures
        r == (u@ == ascii_upper(v@.subrange(lo as int, hi as int))),
{
    let ghost t = v@.subrange(lo as int, hi as int);
    if u.len() != hi - lo {
        return false;
    }
    let mut k: usize = 0;
    while k < u.len()
        invariant
            k <= u.len() == hi - lo,
            lo <= hi <= v.len(),
            t == v@.subrange(lo as int, hi as int),
            forall|j: int| 0 <= j < k ==> u@[j] == upper_char(#[trigger] t[j]),
        decreases u.len() - k,
    {
        let c = v[lo + k];
        let up = if 'a' <= c && c <= 'z' {
            ((c as u8) - 32) as char
        } else {
            c
        };
        assert(up == upper_char(t[k as int])) by {
            assert(t[k as int] == c);
        }
        if u[k] != up {
            assert(ascii_upper(t)[k as int] == upper_char(t[k as int]));
            return false;
        }
        k += 1;
    }
    assert(u@ =~= ascii_upper(t));
    true
}

impl NoteId {
    /// Deterministic id from a millisecond timestamp and random bits (no
    /// clock, no RNG): the timestamp masked to 48 bits, the random part to 80.
    pub fn from_parts(timestamp_ms: u64, random: u128) -> (r: Self)
        ensures
            r.0 == (timestamp_ms as int % time_span()) * rand_span() + (random as int
                % rand_span()),
    {
        NoteId(ulid_from_parts(timestamp_ms, random))
    }

    /// The millisecond timestamp part (the top 48 bits).
    pub fn timestamp_ms(self) -> (r: u64)
        ensures
            r == self.0 as int / rand_span(),
    {
        ulid_timestamp_ms(self.0)
    }

    /// The canonical 26-character text; parsing it gives this id back.
    pub fn to_string(&self) -> (r: String)
        ensures
            r@ == ulid_text(self.0),
            r@.len() == 26,
            forall|i: int| 0 <= i < 26 ==> crockford_upper(#[trigger] r@[i]),
            parse_id(r@) == Ok::<u128, IdError>(self.0),
    {
        let r = ulid_to_string(self.0);
        proof {
            lemma_ulid_text(self.0);
            lemma_id_text_roundtrip(self.0, r@);
        }
        r
    }

    /// Parse an id: surrounding whitespace is ignored, lowercase is accepted,
    /// and a 26-character text whose value overflows 128 bits is rejected as
    /// non-canonical.
    pub fn parse(s: &str) -> (r: Result<NoteId, IdError>)
        ensures
            match r {
                Ok(id) => parse_id(s@) == Ok::<u128, IdError>(id.0),
                Err(e) => parse_id(s@) == Err::<u128, IdError>(e),
            },
    {
        let v = chars_of(s);
        let (a, b) = trim_range(&v, 0, v.len());
        assert(v@.subrange(0, v@.len() as int) =~= v@);
        let t = string_of(&v, a, b);
        match ulid_from_string(t.as_str()) {
            Err(e) => Err(e),
            Ok(value) => {
                let canon = ulid_to_string(value);
                NoteId::from_decoded(t.as_str(), value, canon.as_str())
            },
        }
    }

    /// The id a trimmed text decoded to, given the canonical text of the
    /// decoded value: accepted only when the canonical text is the input in
    /// ASCII uppercase (a 26-character text whose value overflows 128 bits
    /// decodes to a value whose canonical text differs).
    pub fn from_decoded(trimmed: &str, value: u128, canonical: &str) -> (r: Result<NoteId, IdError>)
        ensures
            r == (if canonical@ == ascii_upper(trimmed@) {
                Ok::<NoteId, IdError>(NoteId(value))
            } else {
                Err(IdError::NonCanonical)
            }),
    {
        let v = chars_of(trimmed);
        let cv = chars_of(canonical);
        assert(v@.subrange(0, v@.len() as int) =~= v@);
        if upper_matches(&v, 0, v.len(), &cv) {
            Ok(NoteId(value))
        } else {
            Err(IdError::NonCanonical)
        }
    }
}

impl core::str::FromStr for NoteId {
    type Err = IdError;

    fn from_str(s: &str) -> (r: Result<Self, Self::Err>)
        ensures
            match r {
                Ok(id) => parse_id(s@) == Ok::<u128, IdError>(id.0),
                Err(e) => parse_id(s@) == Err::<u128, IdError>(e),
            },
    {
        NoteId::parse(s)
    }
}

/// Ids are time-sortable: an id minted at an earlier millisecond (within the
/// 48-bit timestamp range) is smaller, whatever the random parts.
pub proof fn lemma_id_time_order(ts1: u64, r1: u128, ts2: u64, r2: u128)
    requires
        ts1 < ts2 < time_span(),
    ensures
        (ts1 as int % time_span()) * rand_span() + (r1 as int % rand_span()) < (ts2 as int
            % time_span()) * rand_span() + (r2 as int % rand_span()),
{
    let a = ts1 as int;
    let b = ts2 as int;
    assert(a % time_span() == a);
    assert(b % time_span() == b);
    let x = r1 as int % rand_span();
    let y = r2 as int % rand_span();
    assert(0 <= x < rand_span());
    assert(0 <= y < rand_span());
    assert(a * rand_span() + rand_span() <= b * rand_span()) by (nonlinear_arith)
        requires
            a < b,
            rand_span() > 0,
    ;
}

/// The timestamp of an id built from parts is the (48-bit masked) timestamp.
pub proof fn lemma_id_timestamp_recovered(ts: u64, r: u128)
    ensures
        ((ts as int % time_span()) * rand_span() + (r as int % rand_span())) / rand_span()
            == ts as int % time_span(),
{
    let a = ts as int % time_span();
    let x = r as int % rand_span();
    assert(0 <= x < rand_span());
    assert((a * rand_span() + x) / rand_span() == a) by (nonlinear_arith)
        requires
            0 <= x < rand_span(),
            rand_span() > 0,
    ;
}

/// Each digit is an uppercase Crockford character whose value is the digit.
proof fn lemma_crockford_digit(d: int)
    requires
        0 <= d < 32,
    ensures
        crockford_upper(crockford_digit(d)),
        digit_value(crockford_digit(d)) == d,
{
}

/// The decoder reads the first `k` characters of a value's text as the value
/// without its last `26 - k` digits.
proof fn lemma_ulid_prefix_value(v: u128, k: int)
    requires
        0 <= k <= 26,
    ensures
        ulid_value(ulid_text(v).take(k)) == v as int / pow32((26 - k) as nat),
    decreases k,
{
    let t = ulid_text(v);
    let x = v as int;
    if k == 0 {
        assert(t.take(0) =~= Seq::<char>::empty());
        assert(pow32(26) > u128_span()) by {
            reveal_with_fuel(pow32, 27);
        }
        assert(x / pow32(26) == 0) by {
            vstd::arithmetic::div_mod::lemma_basic_div_specific_divisor(pow32(26));
        }
    } else {
        lemma_ulid_prefix_value(v, k - 1);
        assert(t.take(k).drop_last() =~= t.take(k - 1));
        let c = pow32((26 - k) as nat);
        lemma_pow32_pos((26 - k) as nat);
        assert(pow32((26 - (k - 1)) as nat) == c * 32);
        let q = x / c;
        vstd::arithmetic::div_mod::lemma_div_pos_is_pos(x, c);
        lemma_crockford_digit(q % 32);
        assert(t.take(k).last() == crockford_digit(q % 32));
        vstd::arithmetic::div_mod::lemma_div_denominator(x, c, 32);
        vstd::arithmetic::div_mod::lemma_fundamental_div_mod(q, 32);
        vstd::arithmetic::div_mod::lemma_div_is_ordered_by_denominator(x, 1, c);
        vstd::arithmetic::div_mod::lemma_div_basics(x);
        assert(q <= x);
        assert((q / 32) * 32 + q % 32 == q) by (nonlinear_arith)
            requires
                q == 32 * (q / 32) + (q % 32),
        ;
        assert(0 <= q < u128_span());
        assert(q % u128_span() == q) by {
            vstd::arithmetic::div_mod::lemma_small_mod(q as nat, u128_span() as nat);
        }
    }
}

proof fn lemma_pow32_pos(n: nat)
    ensures
        pow32(n) >= 1,
    decreases n,
{
    if n > 0 {
        lemma_pow32_pos((n - 1) as nat);
    }
}

/// The text of a value is 26 uppercase Crockford characters, which the
/// decoder reads back as the value.
pub proof fn lemma_ulid_text(v: u128)
    ensures
        ulid_text(v).len() == 26,
        forall|i: int| 0 <= i < 26 ==> crockford_upper(#[trigger] ulid_text(v)[i]),
        ulid_value(ulid_text(v)) == v,
{
    let t = ulid_text(v);
    assert forall|i: int| 0 <= i < 26 implies crockford_upper(#[trigger] t[i]) by {
        let c = pow32((25 - i) as nat);
        lemma_pow32_pos((25 - i) as nat);
        lemma_crockford_digit((v as int / c) % 32);
    }
    lemma_ulid_prefix_value(v, 26);
    assert(t.take(26) =~= t);
    assert(pow32(0) == 1);
    vstd::arithmetic::div_mod::lemma_div_basics(v as int);
}

/// Showing an id and parsing the text back gives the same id.
proof fn lemma_id_text_roundtrip(v: u128, text: Seq<char>)
    requires
        text == ulid_text(v),
        text.len() == 26,
        forall|i: int| 0 <= i < 26 ==> crockford_upper(#[trigger] text[i]),
        ulid_value(text) == v,
    ensures
        parse_id(text) == Ok::<u128, IdError>(v),
{
    assert forall|i: int| 0 <= i < text.len() implies (#[trigger] text[i] as int) < 0x80 by {
        assert(crockford_upper(text[i]));
    }
    crate::text::lemma_ascii_size(text);
    assert(!is_ws(text[0]) && !is_ws(text.last())) by {
        assert(crockford_upper(text[0]));
        assert(crockford_upper(text[25]));
    }
    crate::text::lemma_trim_noop(text);
    assert(ascii_upper(text) =~= text) by {
        assert forall|i: int| 0 <= i < text.len() implies ascii_upper(text)[i] == text[i] by {
            assert(crockford_upper(text[i]));
        }
    }
    assert forall|i: int| 0 <= i < text.len() implies crockford_decodable(#[trigger] text[i]) by {
        assert(crockford_upper(text[i]));
    }
}


/// The uppercase form of a decodable character is an uppercase Crockford digit.
proof fn lemma_upper_decodable(c: char)
    requires
        crockford_decodable(c),
    ensures
        crockford_upper(upper_char(c)),
        (upper_char(c) as int) < 0x80,
        upper_char(upper_char(c)) == upper_char(c),
{
}

/// The text of a parsed id is the trimmed input in ASCII uppercase: 26
/// uppercase Crockford characters, which parse back to the same id.
pub proof fn lemma_parsed_id_text(s: Seq<char>)
    requires
        parse_id(s) is Ok,
    ensures
        ulid_text(parse_id(s)->Ok_0) == ascii_upper(trim(s)),
        ulid_text(parse_id(s)->Ok_0).len() == 26,
        forall|i: int| 0 <= i < 26 ==> crockford_upper(#[trigger] ulid_text(parse_id(s)->Ok_0)[i]),
        parse_id(ulid_text(parse_id(s)->Ok_0)) == parse_id(s),
{
    let t = trim(s);
    let u = ascii_upper(t);
    let v = parse_id(s)->Ok_0;
    assert forall|i: int| 0 <= i < t.len() implies (#[trigger] t[i] as int) < 0x80 by {
        assert(crockford_decodable(t[i]));
    }
    crate::text::lemma_ascii_size(t);
    assert forall|i: int| 0 <= i < u.len() implies crockford_upper(#[trigger] u[i]) && (u[i] as int) < 0x80 && crockford_decodable(u[i]) && upper_char(u[i]) == u[i] by {
        assert(crockford_decodable(t[i]));
        lemma_upper_decodable(t[i]);
    }
    crate::text::lemma_ascii_size(u);
    assert(!is_ws(u[0]) && !is_ws(u.last())) by {
        assert(crockford_upper(u[0]));
        assert(crockford_upper(u[u.len() - 1]));
    }
    crate::text::lemma_trim_noop(u);
    assert(ascii_upper(u) =~= u);
}

/// ASCII lowercase of one character.
pub open spec fn lower_char(c: char) -> char {
    if 'A' <= c && c <= 'Z' {
        ((c as int) + 32) as char
    } else {
        c
    }
}

/// ASCII lowercase of a string (`str::to_ascii_lowercase`).
pub open spec fn ascii_lower(s: Seq<char>) -> Seq<char> {
    s.map_values(|c: char| lower_char(c))
}

/// The canonical text of a parsed id parses back to the same id, and so do
/// its lowercase form and the form padded with spaces.
pub proof fn lemma_id_text_variants(s: Seq<char>)
    requires
        parse_id(s) is Ok,
    ensures
        parse_id(ulid_text(parse_id(s)->Ok_0)) == parse_id(s),
        parse_id(ascii_lower(ulid_text(parse_id(s)->Ok_0))) == parse_id(s),
        parse_id(seq![' ', ' '] + ulid_text(parse_id(s)->Ok_0) + seq![' ', ' ']) == parse_id(s),
{
    lemma_parsed_id_text(s);
    let v = parse_id(s)->Ok_0;
    let t = ulid_text(v);
    // The canonical text is its own trim and uppercase form.
    assert forall|i: int| 0 <= i < t.len() implies (#[trigger] t[i] as int) < 0x80 by {
        assert(crockford_upper(t[i]));
    }
    crate::text::lemma_ascii_size(t);
    assert(!is_ws(t[0]) && !is_ws(t.last())) by {
        assert(crockford_upper(t[0]));
        assert(crockford_upper(t[25]));
    }
    crate::text::lemma_trim_noop(t);
    assert(ascii_upper(t) =~= t) by {
        assert forall|i: int| 0 <= i < t.len() implies ascii_upper(t)[i] == t[i] by {
            assert(crockford_upper(t[i]));
        }
    }
    assert(parse_id(t) == parse_id(s));
    assert(ulid_text(ulid_value(t)) == t);
    assert(ulid_value(t) == v);
    // Lowercase form.
    let l = ascii_lower(t);
    assert forall|i: int| 0 <= i < l.len() implies (#[trigger] l[i] as int) < 0x80
        && crockford_decodable(l[i]) && upper_char(l[i]) == t[i] by {
        assert(crockford_upper(t[i]));
    }
    crate::text::lemma_ascii_size(l);
    assert(!is_ws(l[0]) && !is_ws(l.last())) by {
        assert(crockford_decodable(l[0]));
        assert(crockford_decodable(l[25]));
    }
    crate::text::lemma_trim_noop(l);
    assert(ascii_upper(l) =~= t);
    assert(!(exists|i: int| 0 <= i < l.len() && !crockford_decodable(#[trigger] l[i])));
    // Padded form.
    let p = seq![' ', ' '] + t + seq![' ', ' '];
    assert(p.drop_first().drop_first() =~= t + seq![' ', ' ']);
    assert(is_ws(p[0]) && is_ws(p.drop_first()[0]));
    let q = t + seq![' ', ' '];
    assert(q[0] == t[0]);
    assert(crate::text::trim_start(q) == q);
    assert(crate::text::trim_start(p.drop_first()) == crate::text::trim_start(q));
    assert(crate::text::trim_start(p) == q);
    assert(q.drop_last().drop_last() =~= t);
    assert(is_ws(q.last()) && is_ws(q.drop_last().last()));
    assert(crate::text::trim_end(t) == t);
    assert(crate::text::trim_end(q.drop_last()) == crate::text::trim_end(t));
    assert(crate::text::trim(p) == t);
}

} // verus!
