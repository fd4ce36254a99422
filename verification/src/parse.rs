//! Small text parsers: whitespace trimming, line splitting, splitting at a
//! separator, and decimal integers, each with the meaning that the matching
//! `str` method in std gives it.

use vstd::prelude::*;

verus! {

/// `char::is_whitespace`: the Unicode `White_Space` characters.
pub open spec fn is_ws(c: char) -> bool {
    ||| c == '\t' || c == '\n' || c == '\x0B' || c == '\x0C' || c == '\r' || c == ' '
    ||| c == '\u{85}' || c == '\u{A0}' || c == '\u{1680}'
    ||| ('\u{2000}' <= c && c <= '\u{200A}')
    ||| c == '\u{2028}' || c == '\u{2029}' || c == '\u{202F}' || c == '\u{205F}' || c == '\u{3000}'
}

pub fn is_whitespace(c: char) -> (r: bool)
    ensures
        r == is_ws(c),
{
    c == '\t' || c == '\n' || c == '\x0B' || c == '\x0C' || c == '\r' || c == ' ' || c == '\u{85}'
        || c == '\u{A0}' || c == '\u{1680}' || ('\u{2000}' <= c && c <= '\u{200A}') || c == '\u{2028}'
        || c == '\u{2029}' || c == '\u{202F}' || c == '\u{205F}' || c == '\u{3000}'
}

/// `str::trim_start`: drops leading whitespace.
pub open spec fn trim_start_spec(s: Seq<char>) -> Seq<char>
    decreases s.len(),
{
    if s.len() > 0 && is_ws(s[0]) {
        trim_start_spec(s.drop_first())
    } else {
        s
    }
}

/// `str::trim_end`: drops trailing whitespace.
pub open spec fn trim_end_spec(s: Seq<char>) -> Seq<char>
    decreases s.len(),
{
    if s.len() > 0 && is_ws(s.last()) {
        trim_end_spec(s.drop_last())
    } else {
        s
    }
}

/// `str::trim`: drops leading and trailing whitespace.
pub open spec fn trim_spec(s: Seq<char>) -> Seq<char> {
    trim_end_spec(trim_start_spec(s))
}

/// Removes leading and trailing whitespace.
pub fn trim(s: &Vec<char>) -> (r: Vec<char>)
    ensures
        r@ == trim_spec(s@),
{
    let mut lo: usize = 0;
    proof {
        assert(s@.skip(0) =~= s@);
    }
    while lo < s.len() && is_whitespace(s[lo])
        invariant
            lo <= s.len(),
            trim_start_spec(s@) == trim_start_spec(s@.skip(lo as int)),
        decreases s.len() - lo,
    {
        proof {
            assert(s@.skip(lo as int).drop_first() =~= s@.skip(lo + 1));
        }
        lo += 1;
    }
    let ghost t = s@.skip(lo as int);
    proof {
        if lo < s.len() {
            assert(t[0] == s@[lo as int]);
        }
        assert(trim_start_spec(t) == t);
        assert(t.take(t.len() as int) =~= t);
    }
    let mut hi: usize = s.len();
    while hi > lo && is_whitespace(s[hi - 1])
        invariant
            lo <= hi <= s.len(),
            t == s@.skip(lo as int),
            trim_end_spec(t) == trim_end_spec(t.take(hi - lo)),
        decreases hi,
    {
        proof {
            assert(t.take(hi - lo).last() == s@[hi - 1]);
            assert(t.take(hi - lo).drop_last() =~= t.take(hi - 1 - lo));
        }
        hi -= 1;
    }
    proof {
        if hi > lo {
            assert(t.take(hi - lo).last() == s@[hi - 1]);
        }
        assert(trim_end_spec(t.take(hi - lo)) == t.take(hi - lo));
    }
    let mut r: Vec<char> = Vec::new();
    let mut k = lo;
    while k < hi
        invariant
            lo <= k <= hi <= s.len(),
            r@ == s@.subrange(lo as int, k as int),
        decreases hi - k,
    {
        r.push(s[k]);
        proof {
            assert(s@.subrange(lo as int, k + 1) =~= s@.subrange(lo as int, k as int).push(s@[k as int]));
        }
        k += 1;
    }
    proof {
        assert(t.take(hi - lo) =~= s@.subrange(lo as int, hi as int));
    }
    r
}

/// Index of the first `c` in `s` at or after `from`, or `s.len()` if none.
pub open spec fn find_from(s: Seq<char>, c: char, from: int) -> int
    decreases s.len() - from,
{
    if from < 0 || from >= s.len() {
        s.len() as int
    } else if s[from] == c {
        from
    } else {
        find_from(s, c, from + 1)
    }
}

pub proof fn lemma_find_from(s: Seq<char>, c: char, from: int)
    requires
        0 <= from <= s.len(),
    ensures
        from <= find_from(s, c, from) <= s.len(),
        find_from(s, c, from) < s.len() ==> s[find_from(s, c, from)] == c,
        forall|k: int| from <= k < find_from(s, c, from) ==> s[k] != c,
    decreases s.len() - from,
{
    if from < s.len() && s[from] != c {
        lemma_find_from(s, c, from + 1);
    }
}

/// Position of the first `c` in `s` at or after `from` (or `s.len()`).
pub fn find_char_from(s: &Vec<char>, c: char, from: usize) -> (r: usize)
    requires
        from <= s.len(),
    ensures
        r == find_from(s@, c, from as int),
{
    let mut i = from;
    while i < s.len() && s[i] != c
        invariant
            from <= i <= s.len(),
            find_from(s@, c, i as int) == find_from(s@, c, from as int),
        decreases s.len() - i,
    {
        i += 1;
    }
    i
}

/// The pieces of `s` between occurrences of `sep` (`str::split` with a
/// character): always at least one piece.
pub open spec fn split_spec(s: Seq<char>, sep: char) -> Seq<Seq<char>>
    decreases s.len(),
{
    let k = find_from(s, sep, 0);
    if k < s.len() {
        proof {
            lemma_find_from(s, sep, 0);
        }
        seq![s.take(k)] + split_spec(s.skip(k + 1), sep)
    } else {
        seq![s]
    }
}

/// The `n`-th piece of `s` split at `sep`, if there are that many.
pub open spec fn split_nth(s: Seq<char>, sep: char, n: int) -> Option<Seq<char>> {
    if 0 <= n < split_spec(s, sep).len() {
        Some(split_spec(s, sep)[n])
    } else {
        None
    }
}

/// The `n`-th piece of `s` split at `sep` (`s.split(sep).nth(n)`).
pub fn nth_piece(s: &Vec<char>, sep: char, n: usize) -> (r: Option<Vec<char>>)
    ensures
        r matches Some(v) ==> split_nth(s@, sep, n as int) == Some(v@),
        r is None ==> split_nth(s@, sep, n as int) is None,
{
    let mut start: usize = 0;
    let mut idx: usize = 0;
    proof {
        assert(s@.skip(0) =~= s@);
    }
    loop
        invariant
            start <= s.len(),
            idx <= n,
            forall|m: int| 0 <= m <= n - idx ==> #[trigger] split_nth(s@.skip(start as int), sep, m)
                == split_nth(s@, sep, m + idx),
        decreases n - idx,
    {
        let ghost rest = s@.skip(start as int);
        let k = find_char_from(s, sep, start);
        proof {
            lemma_find_from(s@, sep, start as int);
            lemma_find_from(rest, sep, 0);
            assert forall|j: int| 0 <= j < k - start implies rest[j] != sep by {
                assert(rest[j] == s@[start + j]);
            }
            if k < s.len() {
                assert(rest[k - start] == sep);
            }
            lemma_find_unique(rest, sep, k - start);
        }
        if idx == n {
            let mut v: Vec<char> = Vec::new();
            let mut i = start;
            while i < k
                invariant
                    start <= i <= k <= s.len(),
                    v@ == s@.subrange(start as int, i as int),
                decreases k - i,
            {
                v.push(s[i]);
                proof {
                    assert(s@.subrange(start as int, i + 1) =~= s@.subrange(start as int, i as int).push(s@[i as int]));
                }
                i += 1;
            }
            proof {
                if k < s.len() {
                    assert(rest.take(k - start) =~= v@);
                } else {
                    assert(rest =~= v@);
                }
                assert(split_nth(rest, sep, 0) == split_nth(s@, sep, n as int));
            }
            return Some(v);
        }
        if k >= s.len() {
            proof {
                assert(split_spec(rest, sep).len() == 1);
                assert(split_nth(rest, sep, (n - idx) as int) is None);
            }
            return None;
        }
        proof {
            let next = s@.skip(k + 1);
            assert(rest.skip(k - start + 1) =~= next);
            assert forall|m: int| 0 <= m <= n - idx - 1 implies #[trigger] split_nth(next, sep, m)
                == split_nth(s@, sep, m + idx + 1) by {
                assert(split_nth(rest, sep, m + 1) == split_nth(s@, sep, m + 1 + idx));
                assert(split_spec(rest, sep) == seq![rest.take(k - start)] + split_spec(next, sep));
                assert(split_spec(rest, sep).len() == split_spec(next, sep).len() + 1);
                if 0 <= m < split_spec(next, sep).len() {
                    assert(split_spec(rest, sep)[m + 1] == split_spec(next, sep)[m]);
                }
            }
        }
        start = k + 1;
        idx += 1;
    }
}

/// The first `c` of `s` is at `k` when no `c` comes before `k` and `k` holds
/// one (or is the end).
pub proof fn lemma_find_unique(s: Seq<char>, c: char, k: int)
    requires
        0 <= k <= s.len(),
        forall|j: int| 0 <= j < k ==> s[j] != c,
        k < s.len() ==> s[k] == c,
    ensures
        find_from(s, c, 0) == k,
{
    lemma_find_from(s, c, 0);
    let f = find_from(s, c, 0);
    if f < k {
        assert(s[f] == c);
    }
    if k < f {
        assert(s[k] != c);
    }
}

/// `str::lines`: split at `\n`, dropping one `\r` before each `\n`; a final
/// line ending adds no empty line.
pub open spec fn lines_spec(s: Seq<char>) -> Seq<Seq<char>>
    decreases s.len(),
{
    if s.len() == 0 {
        Seq::empty()
    } else {
        let k = find_from(s, '\n', 0);
        proof {
            lemma_find_from(s, '\n', 0);
        }
        if k < s.len() {
            let line = if k > 0 && s[k - 1] == '\r' {
                s.take(k - 1)
            } else {
                s.take(k)
            };
            seq![line] + lines_spec(s.skip(k + 1))
        } else {
            seq![s]
        }
    }
}

/// Splits text into lines as `str::lines` does.
pub fn lines(s: &Vec<char>) -> (r: Vec<Vec<char>>)
    ensures
        r@.len() == lines_spec(s@).len(),
        forall|i: int| 0 <= i < r@.len() ==> #[trigger] r@[i]@ == lines_spec(s@)[i],
{
    let mut out: Vec<Vec<char>> = Vec::new();
    let mut start: usize = 0;
    proof {
        assert(s@.skip(0) =~= s@);
        assert(lines_spec(s@) =~= Seq::<Seq<char>>::empty() + lines_spec(s@.skip(0)));
    }
    while start < s.len()
        invariant
            start <= s.len(),
            lines_spec(s@) == out@.map_values(|v: Vec<char>| v@) + lines_spec(s@.skip(start as int)),
        decreases s.len() - start,
    {
        let ghost rest = s@.skip(start as int);
        let k = find_char_from(s, '\n', start);
        proof {
            lemma_find_from(s@, '\n', start as int);
            assert forall|j: int| 0 <= j < k - start implies rest[j] != '\n' by {
                assert(rest[j] == s@[start + j]);
            }
            if k < s.len() {
                assert(rest[k - start] == '\n');
            }
            lemma_find_unique(rest, '\n', k - start);
        }
        let end = if k < s.len() && k > start && s[k - 1] == '\r' {
            k - 1
        } else {
            k
        };
        let mut v: Vec<char> = Vec::new();
        let mut i = start;
        while i < end
            invariant
                start <= i <= end <= s.len(),
                v@ == s@.subrange(start as int, i as int),
            decreases end - i,
        {
            v.push(s[i]);
            proof {
                assert(s@.subrange(start as int, i + 1) =~= s@.subrange(start as int, i as int).push(s@[i as int]));
            }
            i += 1;
        }
        let ghost old_out = out@;
        out.push(v);
        let next = if k < s.len() {
            k + 1
        } else {
            k
        };
        proof {
            if k < s.len() {
                if k > start && s@[k - 1] == '\r' {
                    assert(rest[k - start - 1] == s@[k - 1]);
                    assert(rest.take(k - start - 1) =~= v@);
                } else {
                    if k > start {
                        assert(rest[k - start - 1] == s@[k - 1]);
                    }
                    assert(rest.take(k - start) =~= v@);
                }
                assert(rest.skip(k - start + 1) =~= s@.skip(next as int));
            } else {
                assert(rest =~= v@);
                assert(s@.skip(next as int) =~= Seq::<char>::empty());
            }
            assert(lines_spec(rest) == seq![v@] + lines_spec(s@.skip(next as int)));
            assert(out@.map_values(|w: Vec<char>| w@) =~= old_out.map_values(|w: Vec<char>| w@) + seq![v@]);
        }
        start = next;
    }
    proof {
        assert(s@.skip(start as int) =~= Seq::<char>::empty());
        assert(lines_spec(s@) =~= out@.map_values(|v: Vec<char>| v@));
    }
    out
}

/// Whether `c` is an ASCII decimal digit.
pub open spec fn is_digit(c: char) -> bool {
    '0' <= c && c <= '9'
}

/// The number written by the decimal digits `s` (most significant first).
pub open spec fn digits_value(s: Seq<char>) -> nat
    decreases s.len(),
{
    if s.len() == 0 {
        0
    } else {
        digits_value(s.drop_last()) * 10 + ((s.last() as int) - ('0' as int)) as nat
    }
}

/// The digits of an unsigned number, after the optional `+` sign.
pub open spec fn unsigned_digits(s: Seq<char>) -> Seq<char> {
    if s.len() > 0 && s[0] == '+' {
        s.drop_first()
    } else {
        s
    }
}

/// `FromStr` for an unsigned integer type with maximum `max`: an optional
/// `+`, then one or more ASCII digits whose value is at most `max`.
pub open spec fn parse_unsigned_spec(s: Seq<char>, max: nat) -> Option<nat> {
    let d = unsigned_digits(s);
    if d.len() > 0 && (forall|i: int| 0 <= i < d.len() ==> is_digit(#[trigger] d[i])) && digits_value(d)
        <= max {
        Some(digits_value(d))
    } else {
        None
    }
}

proof fn lemma_digits_value_grows(s: Seq<char>, k: int)
    requires
        0 <= k <= s.len(),
        forall|i: int| 0 <= i < s.len() ==> is_digit(#[trigger] s[i]),
    ensures
        digits_value(s.take(k)) <= digits_value(s),
    decreases s.len() - k,
{
    if k < s.len() {
        lemma_digits_value_grows(s, k + 1);
        assert(s.take(k + 1).drop_last() =~= s.take(k));
        assert(s.take(k + 1).last() == s[k]);
        assert(is_digit(s[k]));
    } else {
        assert(s.take(k) =~= s);
    }
}

/// Parses an unsigned decimal number no larger than `max`.
pub fn parse_unsigned(s: &Vec<char>, max: u64) -> (r: Option<u64>)
    ensures
        r matches Some(v) ==> parse_unsigned_spec(s@, max as nat) == Some(v as nat),
        r is None ==> parse_unsigned_spec(s@, max as nat) is None,
{
    let start: usize = if s.len() > 0 && s[0] == '+' {
        1
    } else {
        0
    };
    let ghost d = unsigned_digits(s@);
    proof {
        assert(d =~= s@.skip(start as int));
    }
    if start >= s.len() {
        return None;
    }
    let mut value: u64 = 0;
    let mut i = start;
    while i < s.len()
        invariant
            start <= i <= s.len(),
            d == s@.skip(start as int),
            d == unsigned_digits(s@),
            forall|j: int| 0 <= j < i - start ==> is_digit(#[trigger] d[j]),
            value as nat == digits_value(d.take(i - start)),
            value <= max,
        decreases s.len() - i,
    {
        let c = s[i];
        proof {
            assert(d[i - start] == c);
        }
        if c < '0' || c > '9' {
            proof {
                assert(!is_digit(d[i - start]));
                assert(!(forall|j: int| 0 <= j < d.len() ==> is_digit(#[trigger] d[j])));
                assert(parse_unsigned_spec(s@, max as nat) is None);
            }
            return None;
        }
        let digit = (c as u64) - ('0' as u64);
        proof {
            assert(d.take(i + 1 - start).drop_last() =~= d.take(i - start));
            assert(d.take(i + 1 - start).last() == c);
        }
        let next: u128 = (value as u128) * 10 + (digit as u128);
        if next > max as u128 {
            proof {
                if parse_unsigned_spec(s@, max as nat) is Some {
                    assert(forall|j: int| 0 <= j < d.len() ==> is_digit(#[trigger] d[j]));
                    assert(digits_value(d) <= max);
                    lemma_digits_value_grows(d, i + 1 - start);
                    assert(false);
                }
            }
            return None;
        }
        value = next as u64;
        i += 1;
    }
    proof {
        assert(d.take(i - start) =~= d);
    }
    Some(value)
}

} // verus!
