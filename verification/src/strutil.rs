//! Verified string primitives: substring search, equality, lexicographic
//! order, and ASCII character classes. Positions and lengths count characters,
//! not bytes.

use vstd::prelude::*;

verus! {

/// The pattern occurs in `s` at position `i`.
pub open spec fn match_at(s: Seq<char>, pat: Seq<char>, i: int) -> bool {
    0 <= i && i + pat.len() <= s.len() && s.subrange(i, i + pat.len()) == pat
}

/// The first position at or after `from` where the pattern occurs, if any.
pub open spec fn spec_find_from(s: Seq<char>, pat: Seq<char>, from: int) -> Option<int>
    decreases s.len() - from,
{
    if from < 0 || from + pat.len() > s.len() {
        None
    } else if pat.len() == 0 {
        Some(from)
    } else if match_at(s, pat, from) {
        Some(from)
    } else {
        spec_find_from(s, pat, from + 1)
    }
}

/// The first position where the pattern occurs, if any.
pub open spec fn spec_find(s: Seq<char>, pat: Seq<char>) -> Option<int> {
    spec_find_from(s, pat, 0)
}

/// What `spec_find_from` returns: the least match position at or after
/// `from`, or nothing when no position at or after `from` matches.
pub proof fn lemma_find_from(s: Seq<char>, pat: Seq<char>, from: int)
    requires
        0 <= from,
    ensures
        match spec_find_from(s, pat, from) {
            Some(i) => match_at(s, pat, i) && from <= i && (forall|j: int|
                from <= j < i ==> !match_at(s, pat, j)),
            None => forall|j: int| from <= j ==> !match_at(s, pat, j),
        },
    decreases s.len() - from,
{
    if from + pat.len() > s.len() {
        assert forall|j: int| from <= j implies !match_at(s, pat, j) by {
            assert(j + pat.len() >= from + pat.len());
        }
    } else if pat.len() == 0 {
        assert(s.subrange(from, from + pat.len()) =~= pat);
    } else if match_at(s, pat, from) {
    } else {
        lemma_find_from(s, pat, from + 1);
    }
}

/// Whether the pattern occurs in `s` at position `i`.
#[verifier::loop_isolation(false)]
pub fn match_at_exec(s: &str, pat: &str, i: usize) -> (b: bool)
    ensures
        b == match_at(s@, pat@, i as int),
{
    let sl = s.unicode_len();
    let pl = pat.unicode_len();
    if i > sl || pl > sl - i {
        return false;
    }
    let mut k: usize = 0;
    while k < pl
        invariant
            0 <= k <= pl,
            forall|t: int| 0 <= t < k ==> s@[i + t] == pat@[t],
        decreases pl - k,
    {
        if s.get_char(i + k) != pat.get_char(k) {
            proof {
                let sub = s@.subrange(i as int, i + pat@.len());
                assert(sub[k as int] == s@[i + k]);
                assert(sub != pat@);
            }
            return false;
        }
        k += 1;
    }
    proof {
        assert(s@.subrange(i as int, i + pat@.len()) =~= pat@);
    }
    true
}

/// The first position at or after `from` where the pattern occurs in `s`.
#[verifier::loop_isolation(false)]
pub fn find_sub_from(s: &str, pat: &str, from: usize) -> (r: Option<usize>)
    ensures
        (r is None) == (spec_find_from(s@, pat@, from as int) is None),
        r matches Some(i) ==> spec_find_from(s@, pat@, from as int) == Some(i as int)
            && match_at(s@, pat@, i as int) && from <= i,
{
    proof {
        lemma_find_from(s@, pat@, from as int);
    }
    let sl = s.unicode_len();
    let pl = pat.unicode_len();
    if from > sl || pl > sl - from {
        return None;
    }
    if pl == 0 {
        proof {
            assert(s@.subrange(from as int, from as int) =~= pat@);
        }
        return Some(from);
    }
    let last = sl - pl;
    let mut i: usize = from;
    while i <= last
        invariant
            from <= i <= last + 1,
            last + pl == sl,
            1 <= pl,
            forall|j: int| from <= j < i ==> !match_at(s@, pat@, j),
        decreases last + 1 - i,
    {
        if match_at_exec(s, pat, i) {
            return Some(i);
        }
        i += 1;
    }
    proof {
        assert forall|j: int| from <= j implies !match_at(s@, pat@, j) by {
            if j <= last as int {
            } else {
                assert(j + pat@.len() > s@.len());
            }
        }
    }
    None
}

/// Searching a suffix of `s` finds the same match as searching `s` from the
/// start of that suffix, shifted by the suffix's start.
pub proof fn lemma_find_skip(s: Seq<char>, pat: Seq<char>, cur: int)
    requires
        0 <= cur <= s.len(),
    ensures
        match spec_find_from(s, pat, cur) {
            Some(i) => spec_find(s.skip(cur), pat) == Some(i - cur),
            None => spec_find(s.skip(cur), pat) is None,
        },
{
    lemma_find_from(s, pat, cur);
    lemma_find_from(s.skip(cur), pat, 0);
    assert forall|j: int| 0 <= j implies match_at(s.skip(cur), pat, j) == match_at(
        s,
        pat,
        cur + j,
    ) by {
        if cur + j + pat.len() <= s.len() {
            assert(s.skip(cur).subrange(j, j + pat.len() as int) =~= s.subrange(
                cur + j,
                cur + j + pat.len(),
            ));
        }
    }
    match spec_find_from(s, pat, cur) {
        Some(i) => {
            assert(match_at(s.skip(cur), pat, i - cur));
            match spec_find(s.skip(cur), pat) {
                Some(k) => {
                    assert(k == i - cur);
                },
                None => {
                    assert(false);
                },
            }
        },
        None => {
            match spec_find(s.skip(cur), pat) {
                Some(k) => {
                    assert(match_at(s, pat, cur + k));
                    assert(false);
                },
                None => {},
            }
        },
    }
}

/// The first position where the pattern occurs in `s`.
pub fn find_sub(s: &str, pat: &str) -> (r: Option<usize>)
    ensures
        (r is None) == (spec_find(s@, pat@) is None),
        r matches Some(i) ==> spec_find(s@, pat@) == Some(i as int) && match_at(
            s@,
            pat@,
            i as int,
        ),
{
    find_sub_from(s, pat, 0)
}

/// Whether two strings hold the same characters.
pub fn str_eq(a: &str, b: &str) -> (r: bool)
    ensures
        r == (a@ == b@),
{
    let al = a.unicode_len();
    let bl = b.unicode_len();
    if al != bl {
        return false;
    }
    let m = match_at_exec(a, b, 0);
    proof {
        if m {
            assert(a@.subrange(0, b@.len() as int) =~= a@);
        } else {
            assert(a@.subrange(0, b@.len() as int) =~= a@);
        }
    }
    m
}

/// Lexicographic order on character sequences, by code point.
pub open spec fn lex_leq(a: Seq<char>, b: Seq<char>) -> bool
    decreases a.len(),
{
    if a.len() == 0 {
        true
    } else if b.len() == 0 {
        false
    } else if a[0] != b[0] {
        (a[0] as u32) < (b[0] as u32)
    } else {
        lex_leq(a.drop_first(), b.drop_first())
    }
}

/// A shared prefix does not affect the lexicographic comparison.
pub proof fn lemma_lex_skip(a: Seq<char>, b: Seq<char>, i: int)
    requires
        0 <= i <= a.len(),
        i <= b.len(),
        forall|t: int| 0 <= t < i ==> a[t] == b[t],
    ensures
        lex_leq(a, b) == lex_leq(a.skip(i), b.skip(i)),
    decreases i,
{
    if i == 0 {
        assert(a.skip(0) =~= a);
        assert(b.skip(0) =~= b);
    } else {
        assert(a.len() > 0 && b.len() > 0 && a[0] == b[0]);
        assert(lex_leq(a, b) == lex_leq(a.drop_first(), b.drop_first()));
        assert(a.drop_first() =~= a.skip(1));
        assert(b.drop_first() =~= b.skip(1));
        lemma_lex_skip(a.skip(1), b.skip(1), i - 1);
        assert(a.skip(1).skip(i - 1) =~= a.skip(i));
        assert(b.skip(1).skip(i - 1) =~= b.skip(i));
    }
}

/// The lexicographic order is total.
pub proof fn lemma_lex_total(a: Seq<char>, b: Seq<char>)
    ensures
        lex_leq(a, b) || lex_leq(b, a),
    decreases a.len(),
{
    if a.len() == 0 || b.len() == 0 {
    } else if a[0] != b[0] {
        vstd::utf8::char_u32_cast(a[0], a[0] as u32);
        vstd::utf8::char_u32_cast(b[0], b[0] as u32);
        assert((a[0] as u32) != (b[0] as u32));
    } else {
        lemma_lex_total(a.drop_first(), b.drop_first());
    }
}

/// The lexicographic order is transitive.
pub proof fn lemma_lex_trans(a: Seq<char>, b: Seq<char>, c: Seq<char>)
    requires
        lex_leq(a, b),
        lex_leq(b, c),
    ensures
        lex_leq(a, c),
    decreases a.len(),
{
    if a.len() == 0 {
    } else {
        assert(b.len() > 0);
        assert(c.len() > 0);
        if a[0] == b[0] && b[0] == c[0] {
            lemma_lex_trans(a.drop_first(), b.drop_first(), c.drop_first());
        }
    }
}

/// Whether `a` is lexicographically at most `b`, by code point.
#[verifier::loop_isolation(false)]
pub fn str_le(a: &str, b: &str) -> (r: bool)
    ensures
        r == lex_leq(a@, b@),
{
    let al = a.unicode_len();
    let bl = b.unicode_len();
    let n = if al < bl {
        al
    } else {
        bl
    };
    let mut i: usize = 0;
    while i < n
        invariant
            0 <= i <= n,
            forall|t: int| 0 <= t < i ==> a@[t] == b@[t],
        decreases n - i,
    {
        let ca = a.get_char(i);
        let cb = b.get_char(i);
        if ca != cb {
            proof {
                lemma_lex_skip(a@, b@, i as int);
                assert(a@.skip(i as int)[0] == a@[i as int]);
                assert(b@.skip(i as int)[0] == b@[i as int]);
            }
            return (ca as u32) < (cb as u32);
        }
        i += 1;
    }
    proof {
        lemma_lex_skip(a@, b@, n as int);
        if al <= bl {
            assert(a@.skip(n as int).len() == 0);
        } else {
            assert(b@.skip(n as int).len() == 0);
            assert(a@.skip(n as int).len() > 0);
        }
    }
    al <= bl
}

/// An ASCII decimal digit.
pub open spec fn spec_is_digit(c: char) -> bool {
    48 <= (c as u32) <= 57
}

/// An ASCII letter, digit, or underscore.
pub open spec fn spec_is_word_char(c: char) -> bool {
    spec_is_digit(c) || (65 <= (c as u32) <= 90) || (97 <= (c as u32) <= 122) || c == '_'
}

/// An ASCII upper-case letter.
pub open spec fn spec_is_upper(c: char) -> bool {
    65 <= (c as u32) <= 90
}

/// Whether `c` is an ASCII decimal digit.
pub fn is_digit_char(c: char) -> (r: bool)
    ensures
        r == spec_is_digit(c),
{
    let u = c as u32;
    48 <= u && u <= 57
}

/// Whether `c` is an ASCII letter, digit, or underscore.
pub fn is_word_char(c: char) -> (r: bool)
    ensures
        r == spec_is_word_char(c),
{
    let u = c as u32;
    (48 <= u && u <= 57) || (65 <= u && u <= 90) || (97 <= u && u <= 122) || c == '_'
}

/// Whether `c` is an ASCII upper-case letter.
pub fn is_upper_char(c: char) -> (r: bool)
    ensures
        r == spec_is_upper(c),
{
    let u = c as u32;
    65 <= u && u <= 90
}

/// Every character of the sequence satisfies `spec_is_digit`.
pub open spec fn all_digits(s: Seq<char>) -> bool {
    forall|i: int| 0 <= i < s.len() ==> spec_is_digit(s[i])
}

/// Every character of the sequence satisfies `spec_is_word_char`.
pub open spec fn all_word_chars(s: Seq<char>) -> bool {
    forall|i: int| 0 <= i < s.len() ==> spec_is_word_char(s[i])
}

/// Whether every character of `s` is an ASCII digit.
#[verifier::loop_isolation(false)]
pub fn all_digits_exec(s: &str) -> (r: bool)
    ensures
        r == all_digits(s@),
{
    let n = s.unicode_len();
    let mut i: usize = 0;
    while i < n
        invariant
            0 <= i <= n,
            forall|t: int| 0 <= t < i ==> spec_is_digit(s@[t]),
        decreases n - i,
    {
        if !is_digit_char(s.get_char(i)) {
            return false;
        }
        i += 1;
    }
    true
}

/// Whether every character of `s` is an ASCII letter, digit, or underscore.
#[verifier::loop_isolation(false)]
pub fn all_word_chars_exec(s: &str) -> (r: bool)
    ensures
        r == all_word_chars(s@),
{
    let n = s.unicode_len();
    let mut i: usize = 0;
    while i < n
        invariant
            0 <= i <= n,
            forall|t: int| 0 <= t < i ==> spec_is_word_char(s@[t]),
        decreases n - i,
    {
        if !is_word_char(s.get_char(i)) {
            return false;
        }
        i += 1;
    }
    true
}

} // verus!
