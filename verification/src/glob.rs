//! Shell-style glob matching: `*` (any run of characters), `?` (one
//! character) and `[abc]` / `[!abc]` / `[^abc]` (one character of, or not of,
//! a set), compared case-insensitively.

use vstd::prelude::*;
use crate::text::{chars_of, to_lowercase, unicode_lowercase};

verus! {

/// Index of the first `]` in `p` at or after `from` (or `p.len()` if none).
pub open spec fn first_close(p: Seq<char>, from: int) -> int
    decreases p.len() - from,
{
    if from >= p.len() || from < 0 {
        p.len() as int
    } else if p[from] == ']' {
        from
    } else {
        first_close(p, from + 1)
    }
}

pub proof fn lemma_first_close_bounds(p: Seq<char>, from: int)
    requires
        0 <= from,
    ensures
        from <= p.len() ==> from <= first_close(p, from) <= p.len(),
        from > p.len() ==> first_close(p, from) == p.len(),
    decreases p.len() - from,
{
    if from < p.len() && p[from] != ']' {
        lemma_first_close_bounds(p, from + 1);
    }
}

/// For the text after a `[`: where the listed characters begin (after an
/// optional `!` or `^`).
pub open spec fn class_start(rest: Seq<char>) -> int {
    if rest.len() > 0 && (rest[0] == '!' || rest[0] == '^') {
        1
    } else {
        0
    }
}

/// For the text after a `[`: whether the class is negated.
pub open spec fn class_negated(rest: Seq<char>) -> bool {
    rest.len() > 0 && (rest[0] == '!' || rest[0] == '^')
}

/// For the text after a `[`: the characters listed in the class (up to the
/// first `]`, or to the end of the pattern if it is never closed).
pub open spec fn class_chars(rest: Seq<char>) -> Seq<char> {
    rest.subrange(class_start(rest), first_close(rest, class_start(rest)))
}

/// For the text after a `[`: the pattern that follows the class.
pub open spec fn class_tail(rest: Seq<char>) -> Seq<char> {
    let close = first_close(rest, class_start(rest));
    if close < rest.len() {
        rest.skip(close + 1)
    } else {
        Seq::empty()
    }
}

/// Whether the glob pattern `p` matches all of `v` (exact characters, no
/// case folding).
pub open spec fn glob_spec(p: Seq<char>, v: Seq<char>) -> bool
    decreases p.len(), v.len(),
{
    if p.len() == 0 {
        v.len() == 0
    } else if p[0] == '*' {
        glob_spec(p.drop_first(), v) || (v.len() > 0 && glob_spec(p, v.drop_first()))
    } else if v.len() == 0 {
        false
    } else if p[0] == '?' {
        glob_spec(p.drop_first(), v.drop_first())
    } else if p[0] == '[' {
        let rest = p.drop_first();
        proof {
            lemma_first_close_bounds(rest, class_start(rest));
        }
        (class_chars(rest).contains(v[0]) != class_negated(rest)) && glob_spec(
            class_tail(rest),
            v.drop_first(),
        )
    } else {
        p[0] == v[0] && glob_spec(p.drop_first(), v.drop_first())
    }
}

/// A pattern that starts with `*` matches `v` exactly when the rest of the
/// pattern matches some suffix of `v`.
pub proof fn lemma_star(p: Seq<char>, v: Seq<char>)
    requires
        p.len() > 0,
        p[0] == '*',
    ensures
        glob_spec(p, v) <==> exists|i: int| 0 <= i <= v.len() && #[trigger] glob_spec(p.drop_first(), v.skip(i)),
    decreases v.len(),
{
    if v.len() == 0 {
        assert(v.skip(0) =~= v);
        if glob_spec(p, v) {
            assert(glob_spec(p.drop_first(), v.skip(0)));
        }
    } else {
        lemma_star(p, v.drop_first());
        if glob_spec(p, v) {
            if glob_spec(p.drop_first(), v) {
                assert(v.skip(0) =~= v);
                assert(glob_spec(p.drop_first(), v.skip(0)));
            } else {
                let i = choose|i: int| 0 <= i <= v.drop_first().len() && #[trigger] glob_spec(p.drop_first(), v.drop_first().skip(i));
                assert(v.drop_first().skip(i) =~= v.skip(i + 1));
                assert(glob_spec(p.drop_first(), v.skip(i + 1)));
            }
        }
        if exists|i: int| 0 <= i <= v.len() && #[trigger] glob_spec(p.drop_first(), v.skip(i)) {
            let i = choose|i: int| 0 <= i <= v.len() && #[trigger] glob_spec(p.drop_first(), v.skip(i));
            if i == 0 {
                assert(v.skip(0) =~= v);
            } else {
                assert(v.drop_first().skip(i - 1) =~= v.skip(i));
                assert(glob_spec(p.drop_first(), v.drop_first().skip(i - 1)));
            }
        }
    }
}

/// Two stars in a row match what one star matches.
pub proof fn lemma_double_star(p: Seq<char>, v: Seq<char>)
    requires
        p.len() > 1,
        p[0] == '*',
        p[1] == '*',
    ensures
        glob_spec(p, v) == glob_spec(p.drop_first(), v),
{
    let q = p.drop_first();
    let r = q.drop_first();
    lemma_star(p, v);
    assert forall|i: int| 0 <= i <= v.len() implies #[trigger] glob_spec(q, v.skip(i)) == (exists|j: int|
        0 <= j <= v.skip(i).len() && #[trigger] glob_spec(r, v.skip(i).skip(j))) by {
        lemma_star(q, v.skip(i));
    }
    lemma_star(q, v);
    if glob_spec(p, v) {
        let i = choose|i: int| 0 <= i <= v.len() && #[trigger] glob_spec(q, v.skip(i));
        let j = choose|j: int| 0 <= j <= v.skip(i).len() && #[trigger] glob_spec(r, v.skip(i).skip(j));
        assert(v.skip(i).skip(j) =~= v.skip(i + j));
        assert(glob_spec(r, v.skip(i + j)));
    }
    if glob_spec(q, v) {
        let k = choose|k: int| 0 <= k <= v.len() && #[trigger] glob_spec(r, v.skip(k));
        assert(v.skip(k).skip(0) =~= v.skip(k));
        assert(glob_spec(r, v.skip(k).skip(0)));
        assert(glob_spec(q, v.skip(k)));
    }
}

/// The pattern `*` alone matches every value.
pub proof fn lemma_star_alone(v: Seq<char>)
    ensures
        glob_spec(seq!['*'], v),
{
    let p = seq!['*'];
    lemma_star(p, v);
    assert(p.drop_first() =~= Seq::<char>::empty());
    assert(v.skip(v.len() as int) =~= Seq::<char>::empty());
    assert(glob_spec(p.drop_first(), v.skip(v.len() as int)));
}

fn class_contains(p: &Vec<char>, lo: usize, hi: usize, c: char) -> (r: bool)
    requires
        lo <= hi <= p.len(),
    ensures
        r == p@.subrange(lo as int, hi as int).contains(c),
{
    let mut k = lo;
    while k < hi
        invariant
            lo <= k <= hi <= p.len(),
            forall|j: int| lo <= j < k ==> p@[j] != c,
        decreases hi - k,
    {
        if p[k] == c {
            proof {
                assert(p@.subrange(lo as int, hi as int)[k - lo] == c);
            }
            return true;
        }
        k += 1;
    }
    proof {
        if p@.subrange(lo as int, hi as int).contains(c) {
            let j = choose|j: int| 0 <= j < hi - lo && p@.subrange(lo as int, hi as int)[j] == c;
            assert(p@[lo + j] == c);
        }
    }
    false
}

/// Matches the pattern characters from `pi0` on against the value characters
/// from `vi0` on.
fn glob_from(p: &Vec<char>, pi0: usize, v: &Vec<char>, vi0: usize) -> (r: bool)
    requires
        pi0 <= p.len(),
        vi0 <= v.len(),
    ensures
        r == glob_spec(p@.skip(pi0 as int), v@.skip(vi0 as int)),
    decreases p.len() - pi0,
{
    let ghost goal = glob_spec(p@.skip(pi0 as int), v@.skip(vi0 as int));
    let mut pi = pi0;
    let mut vi = vi0;
    while pi < p.len()
        invariant
            pi0 <= pi <= p.len(),
            vi0 <= vi <= v.len(),
            goal == glob_spec(p@.skip(pi0 as int), v@.skip(vi0 as int)),
            goal == glob_spec(p@.skip(pi as int), v@.skip(vi as int)),
        decreases p.len() - pi,
    {
        let ghost ps = p@.skip(pi as int);
        let ghost vs = v@.skip(vi as int);
        assert(ps[0] == p@[pi as int]);
        let pc = p[pi];
        if pc == '*' {
            let mut k = pi + 1;
            proof {
                assert(ps.drop_first() =~= p@.skip(pi + 1));
                lemma_star(ps, vs);
            }
            while k < p.len() && p[k] == '*'
                invariant
                    pi < k <= p.len(),
                    goal == glob_spec(p@.skip(k - 1), vs),
                    p@[k - 1] == '*',
                decreases p.len() - k,
            {
                proof {
                    let s = p@.skip(k - 1);
                    assert(s[0] == '*' && s[1] == p@[k as int]);
                    lemma_double_star(s, vs);
                    assert(s.drop_first() =~= p@.skip(k as int));
                }
                k += 1;
            }
            let ghost s = p@.skip(k - 1);
            proof {
                assert(s[0] == '*');
                assert(s.drop_first() =~= p@.skip(k as int));
                lemma_star(s, vs);
            }
            if k == p.len() {
                proof {
                    assert(p@.skip(k as int) =~= Seq::<char>::empty());
                    assert(vs.skip(vs.len() as int) =~= Seq::<char>::empty());
                    assert(glob_spec(s.drop_first(), vs.skip(vs.len() as int)));
                }
                return true;
            }
            let mut i = vi;
            loop
                invariant
                    vi <= i <= v.len(),
                    pi0 <= pi < k < p.len(),
                    goal == glob_spec(p@.skip(pi0 as int), v@.skip(vi0 as int)),
                    s == p@.skip(k - 1),
                    s.len() > 0,
                    goal <==> exists|j: int| 0 <= j <= vs.len() && #[trigger] glob_spec(s.drop_first(), vs.skip(j)),
                    vs == v@.skip(vi as int),
                    s.drop_first() == p@.skip(k as int),
                    forall|j: int| vi <= j < i ==> !glob_spec(p@.skip(k as int), #[trigger] v@.skip(j)),
                ensures
                    forall|j: int| vi <= j <= v.len() ==> !glob_spec(p@.skip(k as int), #[trigger] v@.skip(j)),
                decreases v.len() - i,
            {
                if glob_from(p, k, v, i) {
                    proof {
                        assert(vs.skip(i - vi) =~= v@.skip(i as int));
                        assert(glob_spec(s.drop_first(), vs.skip(i - vi)));
                    }
                    return true;
                }
                if i == v.len() {
                    break;
                }
                i += 1;
            }
            proof {
                assert forall|j: int| 0 <= j <= vs.len() implies !#[trigger] glob_spec(s.drop_first(), vs.skip(j)) by {
                    assert(vs.skip(j) =~= v@.skip(vi + j));
                    assert(!glob_spec(p@.skip(k as int), v@.skip(vi + j)));
                }
            }
            return false;
        } else if vi >= v.len() {
            return false;
        } else if pc == '?' {
            proof {
                assert(ps.drop_first() =~= p@.skip(pi + 1));
                assert(vs.drop_first() =~= v@.skip(vi + 1));
            }
            pi += 1;
            vi += 1;
        } else if pc == '[' {
            let ghost rest = ps.drop_first();
            proof {
                assert(rest =~= p@.skip(pi + 1));
            }
            let mut j = pi + 1;
            let mut negated = false;
            if j < p.len() && (p[j] == '!' || p[j] == '^') {
                negated = true;
                j += 1;
            }
            let b = j;
            proof {
                assert(negated == class_negated(rest));
                assert(b - (pi + 1) == class_start(rest));
            }
            while j < p.len() && p[j] != ']'
                invariant
                    b <= j <= p.len(),
                    pi + 1 <= b,
                    rest == p@.skip(pi + 1),
                    first_close(rest, j - (pi + 1)) == first_close(rest, b - (pi + 1)),
                decreases p.len() - j,
            {
                proof {
                    assert(rest[j - (pi + 1)] == p@[j as int]);
                }
                j += 1;
            }
            proof {
                if j < p.len() {
                    assert(rest[j - (pi + 1)] == p@[j as int]);
                }
                assert(first_close(rest, j - (pi + 1)) == j - (pi + 1));
                assert(class_chars(rest) =~= p@.subrange(b as int, j as int));
            }
            let c = v[vi];
            let in_class = class_contains(p, b, j, c);
            proof {
                assert(vs[0] == c);
            }
            if in_class == negated {
                return false;
            }
            let next = if j < p.len() {
                j + 1
            } else {
                j
            };
            proof {
                if j < p.len() {
                    assert(class_tail(rest) =~= p@.skip(j + 1));
                } else {
                    assert(class_tail(rest) =~= p@.skip(next as int));
                }
                assert(vs.drop_first() =~= v@.skip(vi + 1));
            }
            pi = next;
            vi += 1;
        } else {
            proof {
                assert(vs[0] == v@[vi as int]);
                assert(ps.drop_first() =~= p@.skip(pi + 1));
                assert(vs.drop_first() =~= v@.skip(vi + 1));
            }
            if v[vi] != pc {
                return false;
            }
            pi += 1;
            vi += 1;
        }
    }
    proof {
        assert(p@.skip(pi as int) =~= Seq::<char>::empty());
        assert(v@.skip(vi as int).len() == v.len() - vi);
    }
    vi == v.len()
}

/// Glob matching as the routing rules use it: both the pattern and the value
/// are lower-cased (Unicode) first, then `*`, `?` and `[...]` are applied.
pub fn glob_match(pattern: &str, value: &str) -> (r: bool)
    ensures
        r == glob_spec(unicode_lowercase(pattern@), unicode_lowercase(value@)),
{
    let pl = to_lowercase(pattern);
    let vl = to_lowercase(value);
    glob_match_impl(pl.as_str(), vl.as_str())
}

/// Glob matching without case folding.
pub fn glob_match_impl(pattern: &str, value: &str) -> (r: bool)
    ensures
        r == glob_spec(pattern@, value@),
{
    let p = chars_of(pattern);
    let v = chars_of(value);
    proof {
        assert(p@.skip(0) =~= p@);
        assert(v@.skip(0) =~= v@);
    }
    glob_from(&p, 0, &v, 0)
}


/// No `*`, `?` or `[` in the pattern.
pub open spec fn is_literal_pattern(p: Seq<char>) -> bool {
    forall|i: int| 0 <= i < p.len() ==> #[trigger] p[i] != '*' && p[i] != '?' && p[i] != '['
}

/// A pattern without wildcards matches exactly the value equal to it.
pub proof fn law_literal_pattern_is_equality(p: Seq<char>, v: Seq<char>)
    requires
        is_literal_pattern(p),
    ensures
        glob_spec(p, v) == (p == v),
    decreases p.len(),
{
    if p.len() == 0 {
        if v.len() == 0 {
            assert(p =~= v);
        }
    } else if v.len() == 0 {
        assert(p != v);
    } else {
        assert(p[0] != '*' && p[0] != '?' && p[0] != '[');
        assert(is_literal_pattern(p.drop_first())) by {
            assert forall|i: int| 0 <= i < p.drop_first().len() implies #[trigger] p.drop_first()[i] != '*'
                && p.drop_first()[i] != '?' && p.drop_first()[i] != '[' by {
                assert(p.drop_first()[i] == p[i + 1]);
            }
        }
        law_literal_pattern_is_equality(p.drop_first(), v.drop_first());
        if p == v {
            assert(p.drop_first() == v.drop_first());
        }
        if p[0] == v[0] && p.drop_first() == v.drop_first() {
            assert forall|i: int| 0 <= i < p.len() implies p[i] == v[i] by {
                if i > 0 {
                    assert(p[i] == p.drop_first()[i - 1]);
                    assert(v[i] == v.drop_first()[i - 1]);
                }
            }
            assert(p =~= v);
        }
    }
}

/// The pattern `*` matches every value.
pub proof fn law_star_matches_everything(v: Seq<char>)
    ensures
        glob_spec(seq!['*'], v),
{
    lemma_star_alone(v);
}

/// `?` matches exactly the values of one character.
pub proof fn law_question_mark_matches_one_char(v: Seq<char>)
    ensures
        glob_spec(seq!['?'], v) == (v.len() == 1),
{
    let p = seq!['?'];
    assert(p.drop_first() =~= Seq::<char>::empty());
    assert(p[0] == '?');
    if v.len() > 0 {
        assert(glob_spec(p, v) == glob_spec(p.drop_first(), v.drop_first()));
        assert(glob_spec(Seq::<char>::empty(), v.drop_first()) == (v.drop_first().len() == 0));
    }
}

} // verus!
