//! Canonical tags and sorted tag sets.

use crate::error::{TagError, TagErrorSpec};
use crate::text::{
    chars_of, lemma_lt_asym, lemma_lt_irrefl, lemma_lt_total, lemma_lt_trans, seq_lt, str_eq, str_lt,
    string_of, trim, trim_range,
};
use core::cmp::Ordering;
use vstd::prelude::*;

verus! {

/// Unicode lowercase mapping of a whole string (`str::to_lowercase`).
pub uninterp spec fn str_lowercase(s: Seq<char>) -> Seq<char>;

/// The Unicode `Alphabetic` or `Numeric` property (`char::is_alphanumeric`).
pub uninterp spec fn char_alphanumeric(c: char) -> bool;

/// `str::to_lowercase`: the lowercase equivalent of the string.
#[verifier::external_body]
pub(crate) fn to_lowercase(s: &str) -> (r: String)
    ensures
        r@ == str_lowercase(s@),
        r@.len() >= s@.len(),
{
    s.to_lowercase()
}

/// `char::is_alphanumeric`: alphabetic or numeric in the Unicode sense.
/// Only asked of non-ASCII, non-whitespace characters.
#[verifier::external_body]
fn is_alphanumeric(c: char) -> (r: bool)
    ensures
        r == char_alphanumeric(c),
{
    c.is_alphanumeric()
}

/// `char::is_alphanumeric`: for ASCII, exactly the letters and digits; no
/// whitespace character is alphanumeric; other characters go by the Unicode
/// `Alphabetic`/`Numeric` properties.
pub open spec fn is_alnum(c: char) -> bool {
    if (c as int) < 0x80 {
        ('0' <= c && c <= '9') || ('a' <= c && c <= 'z') || ('A' <= c && c <= 'Z')
    } else if crate::text::is_ws(c) {
        false
    } else {
        char_alphanumeric(c)
    }
}

/// Alphanumeric test with the ASCII and whitespace cases decided directly and
/// the rest asked of `char::is_alphanumeric`.
fn alnum(c: char) -> (r: bool)
    ensures
        r == is_alnum(c),
{
    if (c as u32) < 0x80 {
        ('0' <= c && c <= '9') || ('a' <= c && c <= 'z') || ('A' <= c && c <= 'Z')
    } else if crate::text::is_whitespace(c) {
        false
    } else {
        is_alphanumeric(c)
    }
}

/// A character a canonical tag may hold: alphanumeric, `-`, `_` or `/`.
pub open spec fn tag_char_allowed(c: char) -> bool {
    is_alnum(c) || c == '-' || c == '_' || c == '/'
}

/// The raw text trimmed, with one leading `#` removed and trimmed again.
pub open spec fn tag_core(raw: Seq<char>) -> Seq<char> {
    let s = trim(raw);
    if s.len() > 0 && s[0] == '#' {
        trim(s.drop_first())
    } else {
        s
    }
}

/// Index of the first character of `s` that a tag may not hold, or `s.len()`.
pub open spec fn first_disallowed(s: Seq<char>, i: int) -> int
    decreases s.len() - i,
{
    if i < 0 || i >= s.len() {
        s.len() as int
    } else if !tag_char_allowed(s[i]) {
        i
    } else {
        first_disallowed(s, i + 1)
    }
}

proof fn lemma_first_disallowed(s: Seq<char>, i: int)
    requires
        0 <= i <= s.len(),
    ensures
        i <= first_disallowed(s, i) <= s.len(),
        first_disallowed(s, i) < s.len() ==> !tag_char_allowed(s[first_disallowed(s, i)]),
        forall|k: int| i <= k < first_disallowed(s, i) ==> tag_char_allowed(s[k]),
    decreases s.len() - i,
{
    if i < s.len() && tag_char_allowed(s[i]) {
        lemma_first_disallowed(s, i + 1);
    }
}

/// The abstract outcome of normalizing raw tag text: the canonical text, or
/// the error (`Empty`, or the offending character of the lowercased text).
pub open spec fn tag_new_spec(raw: Seq<char>) -> Result<Seq<char>, TagErrorSpec> {
    let core = tag_core(raw);
    if core.len() == 0 {
        Err(TagErrorSpec::Empty)
    } else {
        let canon = str_lowercase(core);
        let k = first_disallowed(canon, 0);
        if k < canon.len() {
            Err(TagErrorSpec::InvalidChar(canon, canon[k]))
        } else {
            Ok(canon)
        }
    }
}

/// Canonical tag text: non-empty and made only of allowed characters.
pub open spec fn is_canonical_tag(s: Seq<char>) -> bool {
    s.len() > 0 && forall|i: int| 0 <= i < s.len() ==> tag_char_allowed(#[trigger] s[i])
}

/// A character a canonical tag may hold is not whitespace and none of the
/// separators of the interchange formats.
pub proof fn lemma_tag_char(c: char)
    requires
        tag_char_allowed(c),
    ensures
        !crate::text::is_ws(c),
        c != ',' && c != '\n' && c != '\r' && c != '#',
{
}

/// Canonical text that lowercasing leaves unchanged normalizes to itself.
pub proof fn lemma_canonical_tag_new(x: Seq<char>)
    requires
        is_canonical_tag(x),
        str_lowercase(x) == x,
    ensures
        tag_new_spec(x) == Ok::<Seq<char>, TagErrorSpec>(x),
{
    lemma_tag_char(x[0]);
    lemma_tag_char(x[x.len() - 1]);
    crate::text::lemma_trim_noop(x);
    lemma_first_disallowed(x, 0);
    if first_disallowed(x, 0) < x.len() {
        assert(tag_char_allowed(x[first_disallowed(x, 0)]));
    }
}

/// Every alphanumeric character is allowed in a tag, beyond ASCII too: an
/// ASCII letter or digit, `-`, `_`, `/`, and every non-ASCII character that
/// `char::is_alphanumeric` accepts (no whitespace character is one).
pub proof fn lemma_alphanumeric_allowed(c: char)
    ensures
        ('0' <= c && c <= '9') || ('a' <= c && c <= 'z') || ('A' <= c && c <= 'Z') ==> tag_char_allowed(c),
        c == '-' || c == '_' || c == '/' ==> tag_char_allowed(c),
        (c as int) >= 0x80 && !crate::text::is_ws(c) && char_alphanumeric(c) ==> tag_char_allowed(c),
{
}

/// Whether a character is one a tag is promised to accept (see
/// `lemma_alphanumeric_allowed`).
pub open spec fn accepted_tag_char(c: char) -> bool {
    ||| ('0' <= c && c <= '9') || ('a' <= c && c <= 'z') || ('A' <= c && c <= 'Z')
    ||| c == '-' || c == '_' || c == '/'
    ||| ((c as int) >= 0x80 && !crate::text::is_ws(c) && char_alphanumeric(c))
}

/// Normalizing succeeds whenever the lowercased core is non-empty and made
/// only of alphanumerics (Unicode ones included) and `-`, `_`, `/`: the tag
/// is that lowercased text.
pub proof fn lemma_tag_new_accepts(raw: Seq<char>)
    requires
        tag_core(raw).len() > 0,
        forall|i: int| 0 <= i < str_lowercase(tag_core(raw)).len() ==> accepted_tag_char(
            #[trigger] str_lowercase(tag_core(raw))[i],
        ),
    ensures
        tag_new_spec(raw) == Ok::<Seq<char>, TagErrorSpec>(str_lowercase(tag_core(raw))),
{
    let canon = str_lowercase(tag_core(raw));
    lemma_first_disallowed(canon, 0);
    if first_disallowed(canon, 0) < canon.len() {
        let k = first_disallowed(canon, 0);
        assert(accepted_tag_char(canon[k]));
        lemma_alphanumeric_allowed(canon[k]);
    }
}

/// What `Tag::new` yields for raw text: the canonical tag text, or the error.
pub open spec fn tag_outcome_ok(raw: Seq<char>) -> bool {
    tag_core(raw).len() > 0 && is_canonical_tag(str_lowercase(tag_core(raw)))
}

/// Canonical tag. Form: trim; strip one leading `#`; trim; Unicode-lowercase;
/// every character must be alphanumeric or `-`, `_`, `/`. Empty after
/// normalization is an error.
#[derive(Debug, PartialEq, Eq, Hash, Ord)]
pub struct Tag(String);

impl View for Tag {
    type V = Seq<char>;

    open spec fn view(&self) -> Seq<char> {
        self.text()@
    }
}

impl Tag {
    /// The string holding the canonical text.
    pub closed spec fn text(self) -> String {
        self.0
    }

    #[verifier::type_invariant]
    closed spec fn wf(self) -> bool {
        is_canonical_tag(self.0@)
    }

    /// Normalize and validate raw tag text.
    pub fn new(raw: &str) -> (r: Result<Tag, TagError>)
        ensures
            match r {
                Ok(t) => tag_new_spec(raw@) == Ok::<Seq<char>, TagErrorSpec>(t@),
                Err(e) => tag_new_spec(raw@) == Err::<Seq<char>, TagErrorSpec>(e@),
            },
            r is Ok <==> tag_outcome_ok(raw@),
    {
        let v = chars_of(raw);
        let (a, b) = trim_range(&v, 0, v.len());
        assert(v@.subrange(0, v@.len() as int) =~= v@);
        let (c, d) = if a < b && v[a] == '#' {
            assert(v@.subrange(a as int, b as int).drop_first() =~= v@.subrange(a + 1, b as int));
            trim_range(&v, a + 1, b)
        } else {
            (a, b)
        };
        assert(v@.subrange(c as int, d as int) == tag_core(raw@));
        if c == d {
            return Err(TagError::Empty);
        }
        let core = string_of(&v, c, d);
        let canon = to_lowercase(core.as_str());
        let cv = chars_of(canon.as_str());
        let mut i: usize = 0;
        while i < cv.len()
            invariant
                i <= cv.len(),
                cv@ == str_lowercase(tag_core(raw@)),
                canon@ == cv@,
                tag_core(raw@).len() > 0,
                first_disallowed(cv@, 0) == first_disallowed(cv@, i as int),
                forall|k: int| 0 <= k < i ==> tag_char_allowed(#[trigger] cv@[k]),
            decreases cv.len() - i,
        {
            let ch = cv[i];
            if !(alnum(ch) || ch == '-' || ch == '_' || ch == '/') {
                proof {
                    lemma_first_disallowed(cv@, 0);
                    assert(first_disallowed(cv@, i as int) == i);
                    assert(!tag_char_allowed(cv@[i as int]));
                    assert(!is_canonical_tag(cv@));
                    assert(canon@ == str_lowercase(tag_core(raw@)));
                    assert(tag_core(raw@).len() > 0);
                    assert(ch == cv@[first_disallowed(cv@, 0)]);
                }
                return Err(TagError::InvalidChar { input: canon, ch });
            }
            i += 1;
        }
        proof {
            lemma_first_disallowed(cv@, 0);
            assert(first_disallowed(cv@, 0) == cv@.len());
        }
        assert(cv@.len() > 0) by {
            assert(core@.len() > 0);
        }
        Ok(Tag(canon))
    }

    /// The canonical text.
    pub fn as_str(&self) -> (r: &str)
        ensures
            r@ == self@,
            is_canonical_tag(r@),
    {
        proof {
            use_type_invariant(self);
        }
        self.0.as_str()
    }

    /// The canonical text, owned.
    pub fn into_string(self) -> (r: String)
        ensures
            r@ == self@,
    {
        self.0
    }

    /// The canonical text (what the tag displays as; no `#`).
    pub fn to_string(&self) -> (r: String)
        ensures
            r@ == self@,
    {
        self.0.clone()
    }

    /// A copy of this tag.
    pub fn duplicate(&self) -> (r: Tag)
        ensures
            r@ == self@,
    {
        proof {
            use_type_invariant(self);
        }
        Tag(self.0.clone())
    }
}

/// How two tag texts compare: in the order of their characters' code
/// points (the order of their UTF-8 bytes).
pub open spec fn tag_order(a: Seq<char>, b: Seq<char>) -> Option<Ordering> {
    if seq_lt(a, b) {
        Some(Ordering::Less)
    } else if a == b {
        Some(Ordering::Equal)
    } else {
        Some(Ordering::Greater)
    }
}

/// Tags are totally ordered by their texts: two tags compare as equal
/// exactly when their texts are the same, and swapping them swaps `Less`
/// and `Greater`.
pub proof fn lemma_tag_order(a: Seq<char>, b: Seq<char>)
    ensures
        (tag_order(a, b) == Some(Ordering::Equal)) <==> a == b,
        (tag_order(a, b) == Some(Ordering::Less)) <==> (tag_order(b, a) == Some(
            Ordering::Greater,
        )),
{
    lemma_lt_irrefl(a);
    if seq_lt(a, b) {
        lemma_lt_asym(a, b);
    }
    if seq_lt(b, a) {
        lemma_lt_asym(b, a);
    }
    if a != b {
        lemma_lt_total(a, b);
    }
}

impl PartialOrd for Tag {
    /// Tags compare as their canonical texts do.
    fn partial_cmp(&self, other: &Self) -> (r: Option<Ordering>) {
        if str_lt(self.0.as_str(), other.0.as_str()) {
            Some(Ordering::Less)
        } else if str_eq(self.0.as_str(), other.0.as_str()) {
            Some(Ordering::Equal)
        } else {
            Some(Ordering::Greater)
        }
    }
}

impl vstd::std_specs::cmp::PartialOrdSpecImpl for Tag {
    open spec fn obeys_partial_cmp_spec() -> bool {
        true
    }

    open spec fn partial_cmp_spec(&self, other: &Self) -> Option<Ordering> {
        tag_order(self@, other@)
    }
}

impl From<Tag> for String {
    /// The canonical text of the tag.
    fn from(t: Tag) -> (r: String) {
        t.0
    }
}

impl vstd::std_specs::convert::FromSpecImpl<Tag> for String {
    open spec fn obeys_from_spec() -> bool {
        true
    }

    open spec fn from_spec(t: Tag) -> String {
        t.text()
    }
}

impl Clone for Tag {
    fn clone(&self) -> (r: Self)
        ensures
            r@ == self@,
    {
        self.duplicate()
    }
}

impl Clone for TagSet {
    fn clone(&self) -> (r: Self)
        ensures
            r@ == self@,
    {
        self.duplicate()
    }
}

impl core::str::FromStr for Tag {
    type Err = TagError;

    fn from_str(s: &str) -> (r: Result<Self, Self::Err>)
        ensures
            match r {
                Ok(t) => tag_new_spec(s@) == Ok::<Seq<char>, TagErrorSpec>(t@),
                Err(e) => tag_new_spec(s@) == Err::<Seq<char>, TagErrorSpec>(e@),
            },
            r is Ok <==> tag_outcome_ok(s@),
    {
        Tag::new(s)
    }
}

/// Strictly increasing in the code point order.
pub open spec fn sorted_strict(s: Seq<Seq<char>>) -> bool {
    forall|i: int, j: int| 0 <= i < j < s.len() ==> seq_lt(#[trigger] s[i], #[trigger] s[j])
}

/// A strictly ascending listing has no duplicates and as many members as
/// entries.
pub proof fn lemma_sorted_set(l: Seq<Seq<char>>)
    requires
        sorted_strict(l),
    ensures
        l.no_duplicates(),
        l.to_set().len() == l.len(),
{
    assert(l.no_duplicates()) by {
        assert forall|i: int, j: int| 0 <= i < l.len() && 0 <= j < l.len() && i != j implies l[i] != l[j] by {
            if i < j {
                lemma_lt_irrefl(l[i]);
            } else {
                lemma_lt_irrefl(l[j]);
            }
        }
    }
    l.unique_seq_to_set();
}

/// A set of tags kept in ascending canonical order, without duplicates.
#[derive(Debug, PartialEq, Eq, Hash)]
pub struct TagSet {
    items: Vec<Tag>,
}

impl View for TagSet {
    type V = Set<Seq<char>>;

    open spec fn view(&self) -> Set<Seq<char>> {
        self.listing().to_set()
    }
}

impl TagSet {
    /// The tags' texts in ascending order.
    pub closed spec fn listing(&self) -> Seq<Seq<char>> {
        self.items@.map_values(|t: Tag| t@)
    }

    /// The listing is strictly ascending and every member is canonical
    /// (always true of a live set).
    pub open spec fn valid(&self) -> bool {
        &&& sorted_strict(self.listing())
        &&& forall|i: int| 0 <= i < self.listing().len() ==> is_canonical_tag(#[trigger] self.listing()[i])
    }

    #[verifier::type_invariant]
    closed spec fn wf(self) -> bool {
        self.valid()
    }

    /// The empty set.
    pub fn new() -> (r: Self)
        ensures
            r@ == Set::<Seq<char>>::empty(),
            r.listing() == Seq::<Seq<char>>::empty(),
    {
        let r = TagSet { items: Vec::new() };
        assert(r.listing() =~= Seq::<Seq<char>>::empty());
        r
    }

    /// Number of tags.
    pub fn len(&self) -> (r: usize)
        ensures
            self.valid(),
            r == self@.len(),
            r == self.listing().len(),
    {
        proof {
            use_type_invariant(&*self);
            lemma_sorted_set(self.listing());
        }
        self.items.len()
    }

    /// Whether there are no tags.
    pub fn is_empty(&self) -> (r: bool)
        ensures
            r == (self@.len() == 0),
    {
        proof {
            use_type_invariant(&*self);
            lemma_sorted_set(self.listing());
        }
        self.items.len() == 0
    }

    /// The `i`-th tag in ascending order.
    pub fn get(&self, i: usize) -> (r: &Tag)
        requires
            i < self.listing().len(),
        ensures
            r@ == self.listing()[i as int],
            is_canonical_tag(r@),
    {
        let r = &self.items[i];
        proof {
            use_type_invariant(r);
        }
        r
    }

    /// A copy of this set.
    pub fn duplicate(&self) -> (r: TagSet)
        ensures
            r@ == self@,
            r.listing() == self.listing(),
    {
        proof {
            use_type_invariant(self);
        }
        let mut items: Vec<Tag> = Vec::new();
        let mut i: usize = 0;
        while i < self.items.len()
            invariant
                i <= self.items.len(),
                items@.map_values(|t: Tag| t@) =~= self.listing().take(i as int),
            decreases self.items.len() - i,
        {
            let t = self.items[i].duplicate();
            let ghost before = items@;
            items.push(t);
            assert(self.listing()[i as int] == self.items@[i as int]@);
            assert(items@ == before.push(t));
            assert(items@.map_values(|t: Tag| t@) =~= before.map_values(|t: Tag| t@).push(t@));
            assert(self.listing().take(i + 1) =~= self.listing().take(i as int).push(self.listing()[i as int]));
            i += 1;
        }
        assert(self.listing().take(i as int) =~= self.listing());
        TagSet { items }
    }

    /// Position of the first tag not below `t`.
    fn lower_bound(&self, t: &Tag) -> (p: usize)
        ensures
            p <= self.listing().len(),
            forall|k: int| 0 <= k < p ==> seq_lt(#[trigger] self.listing()[k], t@),
            p < self.listing().len() ==> !seq_lt(self.listing()[p as int], t@),
    {
        let mut p: usize = 0;
        while p < self.items.len() && str_lt(self.items[p].as_str(), t.as_str())
            invariant
                p <= self.items.len(),
                forall|k: int| 0 <= k < p ==> seq_lt(#[trigger] self.listing()[k], t@),
            decreases self.items.len() - p,
        {
            p += 1;
        }
        p
    }

    /// Whether the set holds `t`.
    pub fn contains(&self, t: &Tag) -> (r: bool)
        ensures
            r == self@.contains(t@),
    {
        proof {
            use_type_invariant(&*self);
            lemma_sorted_set(self.listing());
        }
        let p = self.lower_bound(t);
        if p < self.items.len() && self.items[p].0 == t.0 {
            return true;
        }
        proof {
            if self.listing().contains(t@) {
                let k = choose|k: int| 0 <= k < self.listing().len() && self.listing()[k] == t@;
                if k < p {
                    lemma_lt_irrefl(t@);
                } else if k > p {
                    assert(seq_lt(self.listing()[p as int], self.listing()[k]));
                    lemma_lt_total(self.listing()[p as int], t@);
                } else {
                }
            }
        }
        false
    }

    /// Add `t`; returns whether it was not already present.
    pub fn insert(&mut self, t: Tag) -> (r: bool)
        ensures
            final(self)@ == old(self)@.insert(t@),
            final(self).valid(),
            r == !old(self)@.contains(t@),
    {
        proof {
            use_type_invariant(&*self);
            lemma_sorted_set(self.listing());
        }
        let p = self.lower_bound(&t);
        if p < self.items.len() && self.items[p].0 == t.0 {
            return false;
        }
        let ghost old_list = self.listing();
        proof {
            if p < old_list.len() {
                lemma_lt_total(old_list[p as int], t@);
            }
            if old_list.contains(t@) {
                let k = choose|k: int| 0 <= k < old_list.len() && old_list[k] == t@;
                if k < p {
                    lemma_lt_irrefl(t@);
                } else if k > p {
                    assert(seq_lt(old_list[p as int], old_list[k]));
                    lemma_lt_asym(t@, old_list[p as int]);
                    lemma_lt_trans(t@, old_list[p as int], old_list[k]);
                    lemma_lt_irrefl(t@);
                }
            }
        }
        let ghost tv = t@;
        proof {
            use_type_invariant(&t);
        }
        let mut items: Vec<Tag> = Vec::new();
        core::mem::swap(&mut items, &mut self.items);
        items.insert(p, t);
        let ghost new_list = items@.map_values(|x: Tag| x@);
        assert(new_list =~= old_list.insert(p as int, tv));
        proof {
            assert forall|i: int, j: int| 0 <= i < j < new_list.len() implies seq_lt(#[trigger] new_list[i], #[trigger] new_list[j]) by {
                if j < p {
                } else if j == p {
                } else if i == p {
                    if j - 1 > p {
                        lemma_lt_trans(tv, old_list[p as int], old_list[j - 1]);
                    }
                } else if i < p {
                    lemma_lt_total(old_list[p as int], tv);
                    if j - 1 > p {
                        lemma_lt_trans(tv, old_list[p as int], old_list[j - 1]);
                    }
                    lemma_lt_trans(old_list[i], tv, old_list[j - 1]);
                } else {
                }
            }
            assert(new_list.to_set() =~= old_list.to_set().insert(tv)) by {
                assert forall|x: Seq<char>| new_list.to_set().contains(x) <==> old_list.to_set().insert(tv).contains(x) by {
                    if new_list.contains(x) {
                        let k = choose|k: int| 0 <= k < new_list.len() && new_list[k] == x;
                        if k < p {
                            assert(old_list[k] == x);
                        } else if k > p {
                            assert(old_list[k - 1] == x);
                        }
                    }
                    if old_list.contains(x) {
                        let k = choose|k: int| 0 <= k < old_list.len() && old_list[k] == x;
                        if k < p {
                            assert(new_list[k] == x);
                        } else {
                            assert(new_list[k + 1] == x);
                        }
                    }
                    if x == tv {
                        assert(new_list[p as int] == tv);
                    }
                }
            }
        }
        self.items = items;
        true
    }

    /// Remove `t`; returns whether it was present.
    pub fn remove(&mut self, t: &Tag) -> (r: bool)
        ensures
            final(self)@ == old(self)@.remove(t@),
            final(self).valid(),
            r == old(self)@.contains(t@),
    {
        proof {
            use_type_invariant(&*self);
            lemma_sorted_set(self.listing());
        }
        let p = self.lower_bound(t);
        if !(p < self.items.len() && self.items[p].0 == t.0) {
            proof {
                let old_list = self.listing();
                if old_list.contains(t@) {
                    let k = choose|k: int| 0 <= k < old_list.len() && old_list[k] == t@;
                    if k < p {
                        lemma_lt_irrefl(t@);
                    } else if k > p {
                        assert(seq_lt(old_list[p as int], old_list[k]));
                        lemma_lt_total(old_list[p as int], t@);
                    }
                }
                assert(old_list.to_set().remove(t@) =~= old_list.to_set());
            }
            return false;
        }
        let ghost old_list = self.listing();
        let ghost tv = t@;
        let mut items: Vec<Tag> = Vec::new();
        core::mem::swap(&mut items, &mut self.items);
        let _ = items.remove(p);
        let ghost new_list = items@.map_values(|x: Tag| x@);
        assert(new_list =~= old_list.remove(p as int));
        proof {
            assert forall|i: int, j: int| 0 <= i < j < new_list.len() implies seq_lt(#[trigger] new_list[i], #[trigger] new_list[j]) by {
                if i < p && j >= p {
                    assert(seq_lt(old_list[i], old_list[j + 1]));
                } else if i >= p {
                    assert(seq_lt(old_list[i + 1], old_list[j + 1]));
                } else {
                    assert(seq_lt(old_list[i], old_list[j]));
                }
            }
            assert(new_list.to_set() =~= old_list.to_set().remove(tv)) by {
                assert forall|x: Seq<char>| new_list.to_set().contains(x) <==> old_list.to_set().remove(tv).contains(x) by {
                    if new_list.contains(x) {
                        let k = choose|k: int| 0 <= k < new_list.len() && new_list[k] == x;
                        if k < p {
                            assert(old_list[k] == x);
                            assert(seq_lt(x, tv));
                            lemma_lt_irrefl(x);
                        } else {
                            assert(old_list[k + 1] == x);
                            assert(seq_lt(tv, x));
                            lemma_lt_irrefl(x);
                        }
                    }
                    if old_list.contains(x) && x != tv {
                        let k = choose|k: int| 0 <= k < old_list.len() && old_list[k] == x;
                        if k < p {
                            assert(new_list[k] == x);
                        } else {
                            assert(k != p);
                            assert(new_list[k - 1] == x);
                        }
                    }
                }
            }
        }
        self.items = items;
        true
    }
}

} // verus!
