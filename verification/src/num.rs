//! Decimal text of 64-bit integers: printing and strict parsing.

use crate::text::chars_of;
use vstd::prelude::*;

verus! {

/// The ASCII digit for `d` in `0..10`.
pub open spec fn digit_char(d: int) -> char {
    (d + 48) as char
}

/// Whether `c` is an ASCII decimal digit.
pub open spec fn is_digit(c: char) -> bool {
    '0' <= c && c <= '9'
}

/// The value of an ASCII decimal digit.
pub open spec fn digit_value(c: char) -> int {
    (c as int) - 48
}

/// Decimal digits of a natural number, most significant first, no leading
/// zeros (`"0"` for zero).
pub open spec fn nat_digits(n: nat) -> Seq<char>
    decreases n,
{
    if n < 10 {
        seq![digit_char(n as int)]
    } else {
        nat_digits(n / 10) + seq![digit_char((n % 10) as int)]
    }
}

/// The decimal text of an integer (`Display` of `i64`): a `-` for negatives.
pub open spec fn int_text(n: int) -> Seq<char> {
    if n < 0 {
        seq!['-'] + nat_digits((-n) as nat)
    } else {
        nat_digits(n as nat)
    }
}

/// The value of a string of decimal digits.
pub open spec fn digits_value(s: Seq<char>) -> int
    decreases s.len(),
{
    if s.len() == 0 {
        0
    } else {
        digits_value(s.drop_last()) * 10 + digit_value(s.last())
    }
}

/// Whether every character is a decimal digit.
pub open spec fn all_digits(s: Seq<char>) -> bool {
    forall|i: int| 0 <= i < s.len() ==> is_digit(#[trigger] s[i])
}

/// `str::parse::<i64>`: an optional `+` or `-`, then at least one decimal
/// digit and nothing else; the value must fit in `i64`.
pub open spec fn parse_i64(s: Seq<char>) -> Option<i64> {
    let neg = s.len() > 0 && s[0] == '-';
    let signed = s.len() > 0 && (s[0] == '-' || s[0] == '+');
    let d = if signed {
        s.drop_first()
    } else {
        s
    };
    if d.len() == 0 || !all_digits(d) {
        None
    } else {
        let v = if neg {
            -digits_value(d)
        } else {
            digits_value(d)
        };
        if i64::MIN <= v && v <= i64::MAX {
            Some(v as i64)
        } else {
            None
        }
    }
}

proof fn lemma_nat_digits(n: nat)
    ensures
        nat_digits(n).len() > 0,
        all_digits(nat_digits(n)),
        digits_value(nat_digits(n)) == n,
        nat_digits(n)[0] != '-' && nat_digits(n)[0] != '+',
    decreases n,
{
    assert(digit_value(digit_char((n % 10) as int)) == n % 10);
    if n < 10 {
        assert(n % 10 == n);
        assert(nat_digits(n).drop_last() =~= Seq::<char>::empty());
        assert(nat_digits(n).last() == digit_char(n as int));
        assert(digits_value(nat_digits(n)) == digits_value(Seq::<char>::empty()) * 10 + digit_value(digit_char(n as int)));
    }
    if n >= 10 {
        lemma_nat_digits(n / 10);
        let s = nat_digits(n);
        assert(s.drop_last() =~= nat_digits(n / 10));
        assert(s.last() == digit_char((n % 10) as int));
        assert(digits_value(s) == (n / 10) * 10 + n % 10);
        assert forall|i: int| 0 <= i < s.len() implies is_digit(#[trigger] s[i]) by {
            if i < s.len() - 1 {
                assert(s[i] == nat_digits(n / 10)[i]);
            }
        }
    }
}

proof fn lemma_digits_monotone(s: Seq<char>, k: int)
    requires
        all_digits(s),
        0 <= k <= s.len(),
    ensures
        digits_value(s.take(k)) <= digits_value(s),
        digits_value(s.take(k)) >= 0,
    decreases s.len(),
{
    if s.len() > 0 {
        if k == s.len() {
            assert(s.take(k) =~= s);
            lemma_digits_monotone(s.drop_last(), 0);
            assert(s.drop_last().take(0) =~= s.take(0));
        } else {
            lemma_digits_monotone(s.drop_last(), k);
            assert(s.drop_last().take(k) =~= s.take(k));
            lemma_digits_monotone(s.drop_last(), s.drop_last().len() as int);
            assert(s.drop_last().take(s.drop_last().len() as int) =~= s.drop_last());
        }
    } else {
        assert(s.take(k) =~= s);
    }
}

/// The decimal text of an integer is non-empty, holds only digits after an
/// optional leading `-`, and ends with a digit.
pub proof fn lemma_int_text_shape(n: int)
    ensures
        int_text(n).len() > 0,
        is_digit(int_text(n).last()),
        int_text(n)[0] == '-' || is_digit(int_text(n)[0]),
        forall|i: int| 0 < i < int_text(n).len() ==> is_digit(#[trigger] int_text(n)[i]),
{
    if n < 0 {
        let m = (-n) as nat;
        lemma_nat_digits(m);
        let s = int_text(n);
        assert forall|i: int| 0 < i < s.len() implies is_digit(#[trigger] s[i]) by {
            assert(s[i] == nat_digits(m)[i - 1]);
        }
        assert(s.last() == nat_digits(m).last());
    } else {
        lemma_nat_digits(n as nat);
    }
}

/// Printing an `i64` and parsing the text gives the number back.
pub proof fn lemma_i64_text_roundtrip(n: i64)
    ensures
        parse_i64(int_text(n as int)) == Some(n),
{
    if n < 0 {
        let m = (-(n as int)) as nat;
        lemma_nat_digits(m);
        let s = int_text(n as int);
        assert(s.drop_first() =~= nat_digits(m));
    } else {
        lemma_nat_digits(n as nat);
    }
}

/// The decimal digits of `m` (an unsigned integer's `Display`).
pub fn u64_to_text(m: u64) -> (r: String)
    ensures
        r@ == nat_digits(m as nat),
{
    let ghost total = m as nat;
    let mut m = m;
    let mut rev: Vec<char> = Vec::new();
    loop
        invariant_except_break
            m <= total,
            nat_digits(total) == nat_digits(m as nat) + rev@.reverse(),
        ensures
            nat_digits(total) == rev@.reverse(),
        decreases m,
    {
        let d = (m % 10) as u8;
        let c = (d + 48) as char;
        assert(c == digit_char((m % 10) as int));
        let ghost old_rev = rev@;
        rev.push(c);
        assert(rev@.reverse() =~= seq![c] + old_rev.reverse());
        if m < 10 {
            assert(nat_digits(m as nat) =~= seq![c]);
            assert(nat_digits(total) =~= rev@.reverse());
            break;
        }
        assert(nat_digits(m as nat) == nat_digits((m / 10) as nat) + seq![c]);
        assert(nat_digits(total) =~= nat_digits((m / 10) as nat) + rev@.reverse());
        m = m / 10;
    }
    let mut out = String::new();
    let mut i = rev.len();
    while i > 0
        invariant
            i <= rev.len(),
            out@ == rev@.reverse().take((rev.len() - i) as int),
        decreases i,
    {
        i -= 1;
        crate::text::push_char(&mut out, rev[i]);
        assert(rev@.reverse().take((rev.len() - i) as int) =~= rev@.reverse().take(
            (rev.len() - i - 1) as int,
        ).push(rev@[i as int]));
    }
    assert(rev@.reverse().take(rev.len() as int) =~= rev@.reverse());
    out
}

/// The decimal text of `n` (`i64`'s `Display`).
pub fn i64_to_text(n: i64) -> (r: String)
    ensures
        r@ == int_text(n as int),
{
    let neg = n < 0;
    let m: u64 = if neg {
        ((-(n as i128)) as u64)
    } else {
        n as u64
    };
    let digits = u64_to_text(m);
    if neg {
        let mut out = String::new();
        crate::text::push_char(&mut out, '-');
        out.append(digits.as_str());
        assert(out@ =~= int_text(n as int));
        out
    } else {
        digits
    }
}

/// Whether `v[start..]` is made only of decimal digits.
fn digits_from(v: &Vec<char>, start: usize) -> (r: bool)
    requires
        start <= v.len(),
    ensures
        r == all_digits(v@.skip(start as int)),
{
    let ghost d = v@.skip(start as int);
    let mut k = start;
    while k < v.len()
        invariant
            start <= k <= v.len(),
            d == v@.skip(start as int),
            forall|j: int| 0 <= j < k - start ==> is_digit(#[trigger] d[j]),
        decreases v.len() - k,
    {
        if !('0' <= v[k] && v[k] <= '9') {
            assert(d[k - start] == v@[k as int]);
            return false;
        }
        k += 1;
    }
    true
}

/// Parse decimal text as an `i64` exactly as `str::parse::<i64>` does.
pub fn parse_i64_text(s: &str) -> (r: Option<i64>)
    ensures
        r == parse_i64(s@),
{
    let v = chars_of(s);
    let neg = v.len() > 0 && v[0] == '-';
    let signed = v.len() > 0 && (v[0] == '-' || v[0] == '+');
    let start: usize = if signed {
        1
    } else {
        0
    };
    let ghost d = if signed {
        v@.drop_first()
    } else {
        v@
    };
    assert(d =~= v@.skip(start as int));
    if start == v.len() {
        return None;
    }
    if !digits_from(&v, start) {
        return None;
    }
    let bound: u128 = 9223372036854775808;
    let mut acc: u128 = 0;
    let mut i = start;
    assert(d.take(0) =~= Seq::<char>::empty());
    while i < v.len()
        invariant
            start <= i <= v.len(),
            d == v@.skip(start as int),
            v@ == s@,
            d == (if s@.len() > 0 && (s@[0] == '-' || s@[0] == '+') {
                s@.drop_first()
            } else {
                s@
            }),
            d.len() > 0,
            all_digits(d),
            bound == 9223372036854775808,
            acc <= bound,
            acc == digits_value(d.take(i - start)),
        decreases v.len() - i,
    {
        let c = v[i];
        assert(d[i - start] == c);
        let dv = (c as u32 - 48) as u128;
        assert(d.take(i - start + 1).drop_last() =~= d.take(i - start));
        assert(d.take(i - start + 1).last() == c);
        assert(acc * 10 <= bound * 10) by (nonlinear_arith)
            requires
                acc <= bound,
        ;
        let ghost old_acc = acc;
        acc = acc * 10 + dv;
        i += 1;
        assert(dv == digit_value(c));
        assert(acc == digits_value(d.take(i - start)));
        if acc > bound {
            proof {
                lemma_digits_monotone(d, i - start);
                assert(digits_value(d) > 9223372036854775808);
                assert(d.len() > 0);
            }
            return None;
        }
    }
    assert(d.take(i - start) =~= d);
    if neg {
        Some((0 - (acc as i128)) as i64)
    } else {
        if acc == bound {
            None
        } else {
            Some(acc as i64)
        }
    }
}

} // verus!
