use vstd::prelude::*;

verus! {

/// `n` occurs in `h` as the substring that starts at position `i`.
pub open spec fn spec_contains_at(h: Seq<char>, n: Seq<char>, i: int) -> bool {
    &&& 0 <= i
    &&& i + n.len() <= h.len()
    &&& h.subrange(i, i + n.len()) == n
}

/// `h` contains `n` as a substring.
pub open spec fn spec_contains(h: Seq<char>, n: Seq<char>) -> bool {
    exists|i: int| spec_contains_at(h, n, i)
}

/// The smaller of two values.
pub open spec fn min2(a: nat, b: nat) -> nat {
    if a <= b {
        a
    } else {
        b
    }
}

/// The smallest of three values.
pub open spec fn min3(a: nat, b: nat, c: nat) -> nat {
    min2(min2(a, b), c)
}

/// The larger of two values.
pub open spec fn max2(a: nat, b: nat) -> nat {
    if a >= b {
        a
    } else {
        b
    }
}

/// The Levenshtein distance: the least number of single-character
/// insertions, deletions and substitutions that turn `a` into `b`.
pub open spec fn lev(a: Seq<char>, b: Seq<char>) -> nat
    decreases a.len() + b.len(),
{
    if a.len() == 0 {
        b.len()
    } else if b.len() == 0 {
        a.len()
    } else {
        let cost: nat = if a.last() == b.last() {
            0
        } else {
            1
        };
        min3(
            lev(a.drop_last(), b) + 1,
            lev(a, b.drop_last()) + 1,
            lev(a.drop_last(), b.drop_last()) + cost,
        )
    }
}

/// The distance never exceeds the longer length.
pub proof fn lemma_lev_le_max(a: Seq<char>, b: Seq<char>)
    ensures
        lev(a, b) <= max2(a.len(), b.len()),
    decreases a.len() + b.len(),
{
    if a.len() == 0 || b.len() == 0 {
    } else {
        lemma_lev_le_max(a.drop_last(), b.drop_last());
    }
}

/// The distance is symmetric in its arguments.
pub proof fn lemma_lev_symmetric(a: Seq<char>, b: Seq<char>)
    ensures
        lev(a, b) == lev(b, a),
    decreases a.len() + b.len(),
{
    if a.len() == 0 || b.len() == 0 {
    } else {
        lemma_lev_symmetric(a.drop_last(), b);
        lemma_lev_symmetric(a, b.drop_last());
        lemma_lev_symmetric(a.drop_last(), b.drop_last());
    }
}

/// A string is at distance zero from itself.
pub proof fn lemma_lev_self(a: Seq<char>)
    ensures
        lev(a, a) == 0,
    decreases a.len(),
{
    if a.len() == 0 {
    } else {
        lemma_lev_self(a.drop_last());
    }
}

/// The fuzzy-match rule: the edit distance takes up at most half of the
/// longer string, so the similarity ratio `1 - d/n` is at least one half.
/// Two empty strings match.
pub open spec fn spec_fuzzy(a: Seq<char>, b: Seq<char>) -> bool {
    2 * lev(a, b) <= max2(a.len(), b.len())
}

/// The rule by which a fuzzy filter shows a text widget: the query
/// fuzzy-matches the content, or the content simply contains the query.
pub open spec fn spec_fuzzy_or_contains(query: Seq<char>, content: Seq<char>) -> bool {
    spec_fuzzy(query, content) || spec_contains(content, query)
}

/// A string fuzzy-matches itself; in particular every non-empty string does.
pub proof fn lemma_fuzzy_match_self(x: Seq<char>)
    ensures
        spec_fuzzy(x, x),
{
    lemma_lev_self(x);
}

/// An exact hit is a hit of the fuzzy filter as well: content that
/// contains the query is shown by the disjunction-with-contains rule.
pub proof fn lemma_exact_implies_fuzzy_shown(query: Seq<char>, content: Seq<char>)
    requires
        spec_contains(content, query),
    ensures
        spec_fuzzy_or_contains(query, content),
{
}

/// `s2` occurs in `s1` at position `i`.
fn match_at(s1: &str, s2: &str, i: usize) -> (r: bool)
    requires
        i + s2@.len() <= s1@.len(),
        s1@.len() <= usize::MAX,
    ensures
        r == spec_contains_at(s1@, s2@, i as int),
{
    let nl = s2.unicode_len();
    let mut j: usize = 0;
    while j < nl
        invariant
            j <= nl,
            nl == s2@.len(),
            i + nl <= s1@.len(),
            s1@.len() <= usize::MAX,
            forall|k: int| 0 <= k < j ==> s1@[i + k] == s2@[k],
        decreases nl - j,
    {
        if s1.get_char(i + j) != s2.get_char(j) {
            proof {
                assert(s1@.subrange(i as int, i + nl)[j as int] == s1@[i + j]);
            }
            return false;
        }
        j += 1;
    }
    proof {
        assert(s1@.subrange(i as int, i + nl) =~= s2@);
    }
    true
}

/// Return whether `s1` contains `s2` as a substring.
pub fn exact_match(s1: &str, s2: &str) -> (r: bool)
    ensures
        r == spec_contains(s1@, s2@),
{
    let hl = s1.unicode_len();
    let nl = s2.unicode_len();
    if nl > hl {
        proof {
            assert(forall|i: int| !spec_contains_at(s1@, s2@, i));
        }
        return false;
    }
    if nl == 0 {
        proof {
            assert(s1@.subrange(0, 0) =~= s2@);
            assert(spec_contains_at(s1@, s2@, 0));
        }
        return true;
    }
    let mut i: usize = 0;
    while i <= hl - nl
        invariant
            hl == s1@.len(),
            nl == s2@.len(),
            1 <= nl <= hl,
            i <= hl - nl + 1,
            forall|k: int| 0 <= k < i ==> !spec_contains_at(s1@, s2@, k),
        decreases hl - nl + 1 - i,
    {
        if match_at(s1, s2, i) {
            return true;
        }
        i += 1;
    }
    proof {
        assert(forall|k: int| spec_contains_at(s1@, s2@, k) ==> 0 <= k <= hl - nl);
    }
    false
}

/// Calculate the Levenshtein distance between `s1` and `s2` with the
/// full dynamic-programming matrix over character prefixes.
pub fn levenshtein_distance(s1: &str, s2: &str) -> (d: usize)
    requires
        s1@.len() < usize::MAX,
        s2@.len() < usize::MAX,
    ensures
        d == lev(s1@, s2@),
{
    let len1 = s1.unicode_len();
    let len2 = s2.unicode_len();
    let mut matrix: Vec<Vec<usize>> = Vec::new();
    let mut i: usize = 0;
    while i <= len1
        invariant
            len1 == s1@.len(),
            len2 == s2@.len(),
            len1 < usize::MAX,
            len2 < usize::MAX,
            i <= len1 + 1,
            matrix@.len() == i,
            forall|r: int| 0 <= r < i ==> (#[trigger] matrix@[r])@.len() == len2 + 1,
            forall|r: int, c: int|
                0 <= r < i && 0 <= c <= len2 ==> #[trigger] matrix@[r]@[c] == lev(
                    s1@.take(r),
                    s2@.take(c),
                ),
        decreases len1 + 1 - i,
    {
        let mut row: Vec<usize> = Vec::new();
        let mut j: usize = 0;
        while j <= len2
            invariant
                len1 == s1@.len(),
                len2 == s2@.len(),
                len1 < usize::MAX,
                len2 < usize::MAX,
                i <= len1,
                j <= len2 + 1,
                row@.len() == j,
                matrix@.len() == i,
                forall|r: int| 0 <= r < i ==> (#[trigger] matrix@[r])@.len() == len2 + 1,
                forall|r: int, c: int|
                    0 <= r < i && 0 <= c <= len2 ==> #[trigger] matrix@[r]@[c] == lev(
                        s1@.take(r),
                        s2@.take(c),
                    ),
                forall|c: int| 0 <= c < j ==> row@[c] == lev(s1@.take(i as int), s2@.take(c)),
            decreases len2 + 1 - j,
        {
            let v: usize;
            if i == 0 {
                v = j;
                proof {
                    assert(s1@.take(0).len() == 0);
                    assert(s2@.take(j as int).len() == j);
                }
            } else if j == 0 {
                v = i;
                proof {
                    assert(s1@.take(i as int).len() == i);
                    assert(s2@.take(0).len() == 0);
                }
            } else {
                let cost: usize = if s1.get_char(i - 1) == s2.get_char(j - 1) {
                    0
                } else {
                    1
                };
                proof {
                    lemma_lev_le_max(s1@.take(i - 1), s2@.take(j as int));
                    lemma_lev_le_max(s1@.take(i as int), s2@.take(j - 1));
                    lemma_lev_le_max(s1@.take(i - 1), s2@.take(j - 1));
                }
                let up = matrix[i - 1][j] + 1;
                let left = row[j - 1] + 1;
                let diag = matrix[i - 1][j - 1] + cost;
                let m = if up <= left {
                    up
                } else {
                    left
                };
                v = if m <= diag {
                    m
                } else {
                    diag
                };
                proof {
                    let a = s1@.take(i as int);
                    let b = s2@.take(j as int);
                    assert(a.drop_last() =~= s1@.take(i - 1));
                    assert(b.drop_last() =~= s2@.take(j - 1));
                    assert(a.last() == s1@[i - 1]);
                    assert(b.last() == s2@[j - 1]);
                    assert(v == lev(a, b));
                }
            }
            row.push(v);
            j += 1;
        }
        matrix.push(row);
        i += 1;
    }
    proof {
        assert(s1@.take(len1 as int) =~= s1@);
        assert(s2@.take(len2 as int) =~= s2@);
    }
    matrix[len1][len2]
}

/// Return whether `s1` fuzzy-matches `s2`: the ratio of the editing
/// distance to the longer length is at most one half.
pub fn fuzzy_match(s1: &str, s2: &str) -> (r: bool)
    requires
        s1@.len() < usize::MAX,
        s2@.len() < usize::MAX,
    ensures
        r == spec_fuzzy(s1@, s2@),
{
    let d = levenshtein_distance(s1, s2);
    let len1 = s1.unicode_len();
    let len2 = s2.unicode_len();
    let n = if len1 >= len2 {
        len1
    } else {
        len2
    };
    proof {
        assert(n == max2(s1@.len(), s2@.len()));
        assert(2 * (n / 2) <= n && n < 2 * (n / 2) + 2);
        assert(d <= n / 2 <==> 2 * d <= n);
    }
    d <= n / 2
}

} // verus!
