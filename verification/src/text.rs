//! Character-level helpers shared by the matching and parsing code.

use vstd::prelude::*;

verus! {

/// What `str::to_lowercase` gives for a string, character by character
/// (full Unicode case mapping, which may change the length).
pub uninterp spec fn unicode_lowercase(s: Seq<char>) -> Seq<char>;

/// Whether `char::is_alphanumeric` holds of a character (Unicode
/// `Alphabetic` or `Numeric`).
pub uninterp spec fn unicode_alphanumeric(c: char) -> bool;

/// `str::to_lowercase`: the Unicode lower-case form of `s`.
/// Trusted: the result is the fixed case mapping of `s`, named
/// `unicode_lowercase`; of that mapping only the ASCII case is stated: an
/// ASCII text keeps its length, `A`..`Z` become `a`..`z` and the other
/// characters stay.
#[verifier::external_body]
pub fn to_lowercase(s: &str) -> (r: String)
    ensures
        r@ == unicode_lowercase(s@),
        (forall|i: int| 0 <= i < s@.len() ==> (s@[i] as u32) < 128) ==> {
            &&& r@.len() == s@.len()
            &&& forall|i: int| 0 <= i < s@.len() ==> (r@[i] as u32) == ascii_lower(s@[i])
        },
{
    s.to_lowercase()
}

/// `char::is_alphanumeric`. Trusted: the answer is the Unicode property named
/// `unicode_alphanumeric`; ASCII letters and digits have it, `_` and `-`
/// do not (stated in the ensures, as the std documentation shows).
#[verifier::external_body]
pub fn is_alphanumeric(c: char) -> (r: bool)
    ensures
        r == unicode_alphanumeric(c),
        ('a' <= c <= 'z' || 'A' <= c <= 'Z' || '0' <= c <= '9') ==> r,
        (c == '_' || c == '-' || c == '.' || c == ' ') ==> !r,
{
    c.is_alphanumeric()
}

/// `String::push`: appends one character.
#[verifier::external_body]
pub fn string_push(s: &mut String, c: char)
    ensures
        final(s)@ == old(s)@.push(c),
{
    s.push(c);
}

/// `String::push_str`: appends a string slice.
#[verifier::external_body]
pub fn string_push_str(s: &mut String, t: &str)
    ensures
        final(s)@ == old(s)@ + t@,
{
    s.push_str(t);
}

/// The characters of a string slice, in order.
pub fn chars_of(s: &str) -> (r: Vec<char>)
    ensures
        r@ == s@,
{
    let mut r: Vec<char> = Vec::new();
    for c in it: s.chars()
        invariant
            r@ == it.seq().take(it.index() as int),
            it.seq() == s@,
    {
        r.push(c);
    }
    r
}

/// A `String` holding exactly the given characters.
pub fn string_from_chars(cs: &[char]) -> (r: String)
    ensures
        r@ == cs@,
{
    let mut r = String::new();
    let mut i: usize = 0;
    while i < cs.len()
        invariant
            i <= cs.len(),
            r@ == cs@.take(i as int),
        decreases cs.len() - i,
    {
        string_push(&mut r, cs[i]);
        proof {
            assert(cs@.take(i + 1) =~= cs@.take(i as int).push(cs@[i as int]));
        }
        i += 1;
    }
    proof {
        assert(cs@.take(cs.len() as int) =~= cs@);
    }
    r
}

/// The code point of `c` after ASCII lower-casing (`A`..`Z` become `a`..`z`).
pub open spec fn ascii_lower(c: char) -> u32 {
    if 'A' <= c && c <= 'Z' {
        ((c as u32) + 32) as u32
    } else {
        c as u32
    }
}

/// Equality of two character sequences up to ASCII case, as
/// `str::eq_ignore_ascii_case` defines it.
pub open spec fn eq_ignore_ascii_case_spec(a: Seq<char>, b: Seq<char>) -> bool {
    &&& a.len() == b.len()
    &&& forall|i: int| 0 <= i < a.len() ==> #[trigger] ascii_lower(a[i]) == ascii_lower(b[i])
}

fn ascii_lower_code(c: char) -> (r: u32)
    ensures
        r == ascii_lower(c),
{
    if 'A' <= c && c <= 'Z' {
        (c as u32) + 32
    } else {
        c as u32
    }
}

/// Compares two strings ignoring ASCII case.
pub fn eq_ignore_ascii_case(a: &str, b: &str) -> (r: bool)
    ensures
        r == eq_ignore_ascii_case_spec(a@, b@),
{
    let x = chars_of(a);
    let y = chars_of(b);
    if x.len() != y.len() {
        return false;
    }
    let mut i: usize = 0;
    while i < x.len()
        invariant
            i <= x.len(),
            x.len() == y.len(),
            x@ == a@,
            y@ == b@,
            forall|k: int| 0 <= k < i ==> #[trigger] ascii_lower(x@[k]) == ascii_lower(y@[k]),
        decreases x.len() - i,
    {
        if ascii_lower_code(x[i]) != ascii_lower_code(y[i]) {
            return false;
        }
        i += 1;
    }
    true
}

/// `needle` occurs in `hay` as a contiguous run starting at `start`.
pub open spec fn occurs_at(hay: Seq<char>, needle: Seq<char>, start: int) -> bool {
    0 <= start && start + needle.len() <= hay.len() && hay.subrange(start, start + needle.len())
        == needle
}

/// `needle` is a contiguous part of `hay` (the empty sequence is part of every one).
pub open spec fn contains_seq(hay: Seq<char>, needle: Seq<char>) -> bool {
    exists|start: int| #[trigger] occurs_at(hay, needle, start)
}

fn occurs_at_exec(hay: &Vec<char>, needle: &Vec<char>, start: usize) -> (r: bool)
    requires
        start + needle.len() <= hay.len(),
    ensures
        r == occurs_at(hay@, needle@, start as int),
{
    let mut k: usize = 0;
    while k < needle.len()
        invariant
            k <= needle.len(),
            start + needle.len() <= hay.len(),
            forall|j: int| 0 <= j < k ==> hay@[start + j] == needle@[j],
        decreases needle.len() - k,
    {
        if hay[start + k] != needle[k] {
            proof {
                assert(hay@.subrange(start as int, start + needle.len())[k as int] != needle@[k as int]);
            }
            return false;
        }
        k += 1;
    }
    proof {
        assert(hay@.subrange(start as int, start + needle.len()) =~= needle@);
    }
    true
}

/// Whether the characters `needle` occur contiguously in `hay`.
pub fn contains_chars(hay: &Vec<char>, needle: &Vec<char>) -> (r: bool)
    ensures
        r == contains_seq(hay@, needle@),
{
    if needle.len() > hay.len() {
        return false;
    }
    if needle.len() == 0 {
        proof {
            assert(hay@.subrange(0, 0) =~= needle@);
            assert(occurs_at(hay@, needle@, 0));
        }
        return true;
    }
    let last = hay.len() - needle.len();
    let mut s: usize = 0;
    while s <= last
        invariant
            last + needle.len() == hay.len(),
            needle.len() > 0,
            s <= last + 1,
            forall|t: int| 0 <= t < s ==> !#[trigger] occurs_at(hay@, needle@, t),
        decreases last + 1 - s,
    {
        if occurs_at_exec(hay, needle, s) {
            return true;
        }
        s += 1;
    }
    proof {
        assert forall|t: int| !#[trigger] occurs_at(hay@, needle@, t) by {
            if 0 <= t < s {
            }
        }
    }
    false
}

/// Whether `needle` occurs in `hay`, as `str::contains` with a `&str` pattern
/// answers it (UTF-8 is self-synchronising, so a byte match is a character match).
pub fn str_contains(hay: &str, needle: &str) -> (r: bool)
    ensures
        r == contains_seq(hay@, needle@),
{
    let h = chars_of(hay);
    let n = chars_of(needle);
    contains_chars(&h, &n)
}


/// Whether two character vectors are equal.
pub fn chars_eq(a: &Vec<char>, b: &Vec<char>) -> (r: bool)
    ensures
        r == (a@ == b@),
{
    if a.len() != b.len() {
        return false;
    }
    let mut i: usize = 0;
    while i < a.len()
        invariant
            i <= a.len(),
            a.len() == b.len(),
            forall|k: int| 0 <= k < i ==> a@[k] == b@[k],
        decreases a.len() - i,
    {
        if a[i] != b[i] {
            return false;
        }
        i += 1;
    }
    proof {
        assert(a@ =~= b@);
    }
    true
}

/// Whether two strings are equal.
pub fn str_eq(a: &str, b: &str) -> (r: bool)
    ensures
        r == (a@ == b@),
{
    let x = chars_of(a);
    let y = chars_of(b);
    chars_eq(&x, &y)
}

/// `prefix` is a prefix of `s`.
pub open spec fn starts_with_spec(s: Seq<char>, prefix: Seq<char>) -> bool {
    prefix.len() <= s.len() && s.take(prefix.len() as int) == prefix
}

/// Whether `s` begins with `prefix`.
pub fn chars_start_with(s: &Vec<char>, prefix: &Vec<char>) -> (r: bool)
    ensures
        r == starts_with_spec(s@, prefix@),
{
    if prefix.len() > s.len() {
        return false;
    }
    let mut i: usize = 0;
    while i < prefix.len()
        invariant
            i <= prefix.len() <= s.len(),
            forall|k: int| 0 <= k < i ==> s@[k] == prefix@[k],
        decreases prefix.len() - i,
    {
        if s[i] != prefix[i] {
            proof {
                assert(s@.take(prefix.len() as int)[i as int] != prefix@[i as int]);
            }
            return false;
        }
        i += 1;
    }
    proof {
        assert(s@.take(prefix.len() as int) =~= prefix@);
    }
    true
}

/// Whether the string `s` begins with `prefix`.
pub fn str_starts_with(s: &str, prefix: &str) -> (r: bool)
    ensures
        r == starts_with_spec(s@, prefix@),
{
    let x = chars_of(s);
    let y = chars_of(prefix);
    chars_start_with(&x, &y)
}

/// Comparing while ignoring ASCII case is an equivalence: reflexive,
/// symmetric and transitive.
pub proof fn law_eq_ignore_ascii_case_is_equivalence(a: Seq<char>, b: Seq<char>, c: Seq<char>)
    ensures
        eq_ignore_ascii_case_spec(a, a),
        eq_ignore_ascii_case_spec(a, b) == eq_ignore_ascii_case_spec(b, a),
        eq_ignore_ascii_case_spec(a, b) && eq_ignore_ascii_case_spec(b, c) ==> eq_ignore_ascii_case_spec(a, c),
{
    if eq_ignore_ascii_case_spec(a, b) && eq_ignore_ascii_case_spec(b, c) {
        assert forall|i: int| 0 <= i < a.len() implies #[trigger] ascii_lower(a[i]) == ascii_lower(c[i]) by {
            assert(ascii_lower(a[i]) == ascii_lower(b[i]));
            assert(ascii_lower(b[i]) == ascii_lower(c[i]));
        }
    }
}

/// Every sequence contains itself and the empty sequence.
pub proof fn law_contains_self_and_empty(s: Seq<char>)
    ensures
        contains_seq(s, s),
        contains_seq(s, Seq::empty()),
{
    assert(s.subrange(0, s.len() as int) =~= s);
    assert(occurs_at(s, s, 0));
    assert(s.subrange(0, 0) =~= Seq::<char>::empty());
    assert(occurs_at(s, Seq::empty(), 0));
}

} // verus!
