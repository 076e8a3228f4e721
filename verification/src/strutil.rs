//! Character-level string helpers, verified against sequence specifications.
//!
//! Routing patterns, storage paths and recorded durations are all plain
//! strings, so the rest of the library leans on the helpers here: prefix and
//! suffix tests, first-occurrence search, token replacement, and decimal
//! conversion in both directions.

use vstd::prelude::*;

verus! {

/// `p` is a prefix of `s`.
pub open spec fn starts_with(s: Seq<char>, p: Seq<char>) -> bool {
    p.len() <= s.len() && s.subrange(0, p.len() as int) == p
}

/// `p` is a suffix of `s`.
pub open spec fn ends_with(s: Seq<char>, p: Seq<char>) -> bool {
    p.len() <= s.len() && s.subrange(s.len() - p.len(), s.len() as int) == p
}

/// `t` occurs in `s` at position `i`.
pub open spec fn occurs_at(s: Seq<char>, t: Seq<char>, i: int) -> bool {
    0 <= i && i + t.len() <= s.len() && s.subrange(i, i + t.len()) == t
}

/// The first position `>= i` at which `t` occurs in `s`, if any.
pub open spec fn first_occurrence_from(s: Seq<char>, t: Seq<char>, i: int) -> Option<int>
    decreases s.len() - i
    when 0 <= i <= s.len() && t.len() >= 1
{
    if i + t.len() > s.len() {
        None
    } else if occurs_at(s, t, i) {
        Some(i)
    } else {
        first_occurrence_from(s, t, i + 1)
    }
}

/// The first position at which `t` occurs in `s`, if any.
pub open spec fn first_occurrence(s: Seq<char>, t: Seq<char>) -> Option<int> {
    first_occurrence_from(s, t, 0)
}

/// If no occurrence starts before `i`, the first occurrence overall is the
/// first occurrence at or after `i`.
pub proof fn lemma_first_occurrence_from(s: Seq<char>, t: Seq<char>, i: int)
    requires
        0 <= i <= s.len(),
        t.len() >= 1,
        forall|j: int| 0 <= j < i ==> !occurs_at(s, t, j),
    ensures
        first_occurrence(s, t) == first_occurrence_from(s, t, i),
    decreases i,
{
    if i > 0 {
        lemma_first_occurrence_from(s, t, i - 1);
        assert(first_occurrence_from(s, t, i - 1) == first_occurrence_from(s, t, i));
    }
}

/// `s` with every non-overlapping occurrence of `from`, scanned left to
/// right, replaced by `to`.
pub open spec fn replace_spec(s: Seq<char>, from: Seq<char>, to: Seq<char>) -> Seq<char>
    decreases s.len()
    when from.len() >= 1
{
    if s.len() < from.len() {
        s
    } else if s.subrange(0, from.len() as int) == from {
        to + replace_spec(s.subrange(from.len() as int, s.len() as int), from, to)
    } else {
        seq![s[0]] + replace_spec(s.subrange(1, s.len() as int), from, to)
    }
}

/// The digit character for a value below ten.
pub open spec fn digit_char(d: int) -> char {
    if d == 0 {
        '0'
    } else if d == 1 {
        '1'
    } else if d == 2 {
        '2'
    } else if d == 3 {
        '3'
    } else if d == 4 {
        '4'
    } else if d == 5 {
        '5'
    } else if d == 6 {
        '6'
    } else if d == 7 {
        '7'
    } else if d == 8 {
        '8'
    } else {
        '9'
    }
}

/// The decimal digit string of `n`, most significant digit first.
pub open spec fn dec_str(n: nat) -> Seq<char>
    decreases n,
{
    if n < 10 {
        seq![digit_char(n as int)]
    } else {
        dec_str(n / 10) + seq![digit_char((n % 10) as int)]
    }
}

/// `c` is a decimal digit.
pub open spec fn is_digit(c: char) -> bool {
    '0' <= c && c <= '9'
}

/// The value of a digit character.
pub open spec fn digit_val(c: char) -> int {
    c as int - '0' as int
}

/// Every character of `s` is a decimal digit.
pub open spec fn all_digits(s: Seq<char>) -> bool {
    forall|i: int| 0 <= i < s.len() ==> is_digit(#[trigger] s[i])
}

/// The value of a digit string, most significant digit first.
pub open spec fn dec_val(s: Seq<char>) -> int
    decreases s.len(),
{
    if s.len() == 0 {
        0
    } else {
        dec_val(s.drop_last()) * 10 + digit_val(s.last())
    }
}

/// Decimal rendering round-trips: the digit string of `n` is made of
/// digits, is never empty, and is worth exactly `n`.
pub proof fn lemma_dec_str_val(n: nat)
    ensures
        all_digits(dec_str(n)),
        dec_str(n).len() >= 1,
        dec_val(dec_str(n)) == n,
    decreases n,
{
    if n < 10 {
        let s = dec_str(n);
        assert(s == seq![digit_char(n as int)]);
        assert(is_digit(digit_char(n as int)));
        assert(s.drop_last() =~= Seq::<char>::empty());
        assert(s.last() == digit_char(n as int));
        assert(dec_val(s.drop_last()) == 0);
        assert(dec_val(s) == dec_val(s.drop_last()) * 10 + digit_val(s.last()));
        assert(digit_val(digit_char(n as int)) == n);
    } else {
        lemma_dec_str_val(n / 10);
        let s = dec_str(n);
        assert(s == dec_str(n / 10) + seq![digit_char((n % 10) as int)]);
        assert(s.drop_last() =~= dec_str(n / 10));
        assert(s.last() == digit_char((n % 10) as int));
        assert(is_digit(digit_char((n % 10) as int)));
        assert(digit_val(digit_char((n % 10) as int)) == n % 10);
        assert forall|i: int| 0 <= i < s.len() implies is_digit(#[trigger] s[i]) by {
            if i < s.len() - 1 {
                assert(s[i] == dec_str(n / 10)[i]);
            }
        }
        assert(dec_val(s) == dec_val(dec_str(n / 10)) * 10 + digit_val(s.last()));
        assert((n / 10) * 10 + n % 10 == n);
    }
}

/// A digit string has a non-negative value.
pub proof fn lemma_dec_val_nonneg(s: Seq<char>)
    requires
        all_digits(s),
    ensures
        dec_val(s) >= 0,
    decreases s.len(),
{
    if s.len() > 0 {
        assert(all_digits(s.drop_last()));
        lemma_dec_val_nonneg(s.drop_last());
    }
}

/// A digit string is worth at least any of its prefixes.
pub proof fn lemma_dec_val_prefix(s: Seq<char>, i: int)
    requires
        all_digits(s),
        0 <= i <= s.len(),
    ensures
        dec_val(s.subrange(0, i)) <= dec_val(s),
    decreases s.len() - i,
{
    if i < s.len() {
        let p = s.subrange(0, i + 1);
        assert(all_digits(p));
        assert(p.drop_last() =~= s.subrange(0, i));
        lemma_dec_val_nonneg(s.subrange(0, i));
        assert(dec_val(s.subrange(0, i)) <= dec_val(p));
        lemma_dec_val_prefix(s, i + 1);
        assert(s.subrange(0, s.len() as int) =~= s);
    } else {
        assert(s.subrange(0, i) =~= s);
    }
}

/// Character-for-character equality of two strings.
pub fn str_eq(a: &str, b: &str) -> (r: bool)
    ensures
        r == (a@ == b@),
{
    let alen = a.unicode_len();
    let blen = b.unicode_len();
    if alen != blen {
        return false;
    }
    let mut i: usize = 0;
    while i < alen
        invariant
            alen == a@.len(),
            alen == b@.len(),
            i <= alen,
            forall|j: int| 0 <= j < i ==> a@[j] == b@[j],
        decreases alen - i,
    {
        if a.get_char(i) != b.get_char(i) {
            return false;
        }
        i += 1;
    }
    proof {
        assert(a@ =~= b@);
    }
    true
}

/// Whether `p` is a prefix of `s`.
pub fn str_starts_with(s: &str, p: &str) -> (r: bool)
    ensures
        r == starts_with(s@, p@),
{
    let slen = s.unicode_len();
    let plen = p.unicode_len();
    if plen > slen {
        return false;
    }
    let mut i: usize = 0;
    while i < plen
        invariant
            slen == s@.len(),
            plen == p@.len(),
            plen <= slen,
            i <= plen,
            forall|j: int| 0 <= j < i ==> s@[j] == p@[j],
        decreases plen - i,
    {
        if s.get_char(i) != p.get_char(i) {
            proof {
                assert(starts_with(s@, p@) ==> s@.subrange(0, p@.len() as int)[i as int]
                    == p@[i as int]);
            }
            return false;
        }
        i += 1;
    }
    proof {
        assert(s@.subrange(0, p@.len() as int) =~= p@);
    }
    true
}

/// Whether `p` is a suffix of `s`.
pub fn str_ends_with(s: &str, p: &str) -> (r: bool)
    ensures
        r == ends_with(s@, p@),
{
    let slen = s.unicode_len();
    let plen = p.unicode_len();
    if plen > slen {
        return false;
    }
    let off = slen - plen;
    let mut i: usize = 0;
    while i < plen
        invariant
            slen == s@.len(),
            plen == p@.len(),
            plen <= slen,
            off == slen - plen,
            i <= plen,
            forall|j: int| 0 <= j < i ==> s@[off + j] == p@[j],
        decreases plen - i,
    {
        if s.get_char(off + i) != p.get_char(i) {
            proof {
                assert(ends_with(s@, p@) ==> s@.subrange(
                    s@.len() - p@.len(),
                    s@.len() as int,
                )[i as int] == p@[i as int]);
            }
            return false;
        }
        i += 1;
    }
    proof {
        assert(s@.subrange(s@.len() - p@.len(), s@.len() as int) =~= p@);
    }
    true
}

/// Whether `t` occurs in `s` at position `i`.
pub fn match_at(s: &str, t: &str, i: usize) -> (r: bool)
    requires
        i + t@.len() <= s@.len(),
    ensures
        r == occurs_at(s@, t@, i as int),
{
    let slen = s.unicode_len();
    let tlen = t.unicode_len();
    let mut j: usize = 0;
    while j < tlen
        invariant
            slen == s@.len(),
            tlen == t@.len(),
            i + tlen <= slen,
            j <= tlen,
            forall|k: int| 0 <= k < j ==> s@[i + k] == t@[k],
        decreases tlen - j,
    {
        if s.get_char(i + j) != t.get_char(j) {
            proof {
                assert(occurs_at(s@, t@, i as int) ==> s@.subrange(
                    i as int,
                    i + t@.len(),
                )[j as int] == t@[j as int]);
            }
            return false;
        }
        j += 1;
    }
    proof {
        assert(s@.subrange(i as int, i + t@.len()) =~= t@);
    }
    true
}

/// The first position at which `t` occurs in `s`, if any.
pub fn find_str(s: &str, t: &str) -> (r: Option<usize>)
    requires
        t@.len() >= 1,
    ensures
        match r {
            Some(i) => occurs_at(s@, t@, i as int) && first_occurrence(s@, t@) == Some(i as int),
            None => first_occurrence(s@, t@) is None,
        },
{
    let slen = s.unicode_len();
    let tlen = t.unicode_len();
    if tlen > slen {
        return None;
    }
    let mut i: usize = 0;
    while i <= slen - tlen
        invariant
            slen == s@.len(),
            tlen == t@.len(),
            1 <= tlen <= slen,
            i <= slen,
            forall|j: int| 0 <= j < i ==> !occurs_at(s@, t@, j),
        decreases slen - i,
    {
        if match_at(s, t, i) {
            proof {
                lemma_first_occurrence_from(s@, t@, i as int);
            }
            return Some(i);
        }
        i += 1;
    }
    proof {
        lemma_first_occurrence_from(s@, t@, i as int);
    }
    None
}

/// The position of the last occurrence of `c` in `s`, if any.
pub fn rfind_char(s: &str, c: char) -> (r: Option<usize>)
    ensures
        match r {
            Some(i) => i < s@.len() && s@[i as int] == c && forall|j: int|
                i < j < s@.len() ==> s@[j] != c,
            None => forall|j: int| 0 <= j < s@.len() ==> s@[j] != c,
        },
{
    let slen = s.unicode_len();
    let mut i: usize = slen;
    while i > 0
        invariant
            slen == s@.len(),
            i <= slen,
            forall|j: int| i <= j < slen ==> s@[j] != c,
        decreases i,
    {
        i -= 1;
        if s.get_char(i) == c {
            return Some(i);
        }
    }
    None
}

/// `s` with every non-overlapping occurrence of `from`, scanned left to
/// right, replaced by `to`.
pub fn replace_token(s: &str, from: &str, to: &str) -> (r: String)
    requires
        from@.len() >= 1,
    ensures
        r@ == replace_spec(s@, from@, to@),
{
    let slen = s.unicode_len();
    let flen = from.unicode_len();
    let mut out = String::new();
    let mut start: usize = 0;
    let mut i: usize = 0;
    if flen > slen {
        let whole = s.substring_char(0, slen);
        out.append(whole);
        proof {
            assert(s@.subrange(0, slen as int) =~= s@);
        }
        return out;
    }
    proof {
        assert(s@.subrange(0, slen as int) =~= s@);
        assert(out@ + s@.subrange(0, 0) + replace_spec(s@.subrange(0, slen as int), from@, to@)
            =~= replace_spec(s@, from@, to@));
    }
    while i <= slen - flen
        invariant
            slen == s@.len(),
            flen == from@.len(),
            1 <= flen <= slen,
            start <= i <= slen,
            replace_spec(s@, from@, to@) == out@ + s@.subrange(start as int, i as int)
                + replace_spec(s@.subrange(i as int, slen as int), from@, to@),
        decreases slen - i,
    {
        if match_at(s, from, i) {
            let run = s.substring_char(start, i);
            out.append(run);
            out.append(to);
            proof {
                let rest = s@.subrange(i as int, slen as int);
                assert(rest.subrange(0, from@.len() as int) =~= s@.subrange(
                    i as int,
                    i + from@.len(),
                ));
                assert(rest.subrange(from@.len() as int, rest.len() as int) =~= s@.subrange(
                    i + flen,
                    slen as int,
                ));
            }
            i += flen;
            start = i;
        } else {
            proof {
                let rest = s@.subrange(i as int, slen as int);
                assert(rest.subrange(0, from@.len() as int) =~= s@.subrange(
                    i as int,
                    i + from@.len(),
                ));
                assert(seq![rest[0]] =~= s@.subrange(i as int, i + 1));
                assert(rest.subrange(1, rest.len() as int) =~= s@.subrange(i + 1, slen as int));
                assert(s@.subrange(start as int, i as int) + s@.subrange(i as int, i + 1)
                    =~= s@.subrange(start as int, i + 1));
            }
            i += 1;
        }
    }
    let tail = s.substring_char(start, slen);
    out.append(tail);
    proof {
        assert(s@.subrange(i as int, slen as int).len() < from@.len());
        assert(s@.subrange(start as int, i as int) + s@.subrange(i as int, slen as int)
            =~= s@.subrange(start as int, slen as int));
    }
    out
}

/// The decimal digit string of a value below ten.
fn digit_str(d: u64) -> (r: &'static str)
    requires
        d < 10,
    ensures
        r@ =~= seq![digit_char(d as int)],
{
    if d == 0 {
        proof {
            reveal_strlit("0");
        }
        "0"
    } else if d == 1 {
        proof {
            reveal_strlit("1");
        }
        "1"
    } else if d == 2 {
        proof {
            reveal_strlit("2");
        }
        "2"
    } else if d == 3 {
        proof {
            reveal_strlit("3");
        }
        "3"
    } else if d == 4 {
        proof {
            reveal_strlit("4");
        }
        "4"
    } else if d == 5 {
        proof {
            reveal_strlit("5");
        }
        "5"
    } else if d == 6 {
        proof {
            reveal_strlit("6");
        }
        "6"
    } else if d == 7 {
        proof {
            reveal_strlit("7");
        }
        "7"
    } else if d == 8 {
        proof {
            reveal_strlit("8");
        }
        "8"
    } else {
        proof {
            reveal_strlit("9");
        }
        "9"
    }
}

/// The decimal rendering of `n`.
pub fn u64_to_string(n: u64) -> (r: String)
    ensures
        r@ == dec_str(n as nat),
    decreases n,
{
    if n < 10 {
        String::from_str(digit_str(n))
    } else {
        let mut s = u64_to_string(n / 10);
        s.append(digit_str(n % 10));
        s
    }
}

/// Parses a decimal digit string; `None` when `s` is empty, holds a
/// non-digit, or names a value above `usize::MAX`.
pub fn parse_usize(s: &str) -> (r: Option<usize>)
    ensures
        match r {
            Some(n) => s@.len() > 0 && all_digits(s@) && n as int == dec_val(s@),
            None => s@.len() == 0 || !all_digits(s@) || dec_val(s@) > usize::MAX,
        },
{
    let slen = s.unicode_len();
    if slen == 0 {
        return None;
    }
    let mut val: usize = 0;
    let mut i: usize = 0;
    while i < slen
        invariant
            slen == s@.len(),
            i <= slen,
            all_digits(s@.subrange(0, i as int)),
            val as int == dec_val(s@.subrange(0, i as int)),
        decreases slen - i,
    {
        let c = s.get_char(i);
        if c < '0' || c > '9' {
            return None;
        }
        let d: usize = (c as u32 as usize) - ('0' as u32 as usize);
        assert(d as int == digit_val(c)) by {
            assert(c as u32 as int == c as int);
        }
        assert(d <= 9);
        if val > (usize::MAX - d) / 10 {
            proof {
                let p = s@.subrange(0, i + 1);
                assert(all_digits(p)) by {
                    assert(forall|j: int| 0 <= j < i ==> p[j] == s@.subrange(0, i as int)[j]);
                }
                assert(p.drop_last() =~= s@.subrange(0, i as int));
                assert(dec_val(p) == val * 10 + d);
                assert(val * 10 + d > usize::MAX) by (nonlinear_arith)
                    requires
                        val > (usize::MAX - d) / 10,
                        d <= 9,
                {}
                if all_digits(s@) {
                    lemma_dec_val_prefix(s@, i + 1);
                    assert(s@.subrange(0, s@.len() as int) =~= s@);
                }
            }
            return None;
        }
        assert(val * 10 + d <= usize::MAX) by (nonlinear_arith)
            requires
                val <= (usize::MAX - d) / 10,
                d <= 9,
        {}
        val = val * 10 + d;
        proof {
            let p = s@.subrange(0, i + 1);
            assert(all_digits(p)) by {
                assert(forall|j: int| 0 <= j < i ==> p[j] == s@.subrange(0, i as int)[j]);
            }
            assert(p.drop_last() =~= s@.subrange(0, i as int));
        }
        i += 1;
    }
    proof {
        assert(s@.subrange(0, slen as int) =~= s@);
    }
    Some(val)
}

} // verus!
