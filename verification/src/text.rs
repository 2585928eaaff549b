//! Character-level text primitives: occurrences of a pattern in a text, and
//! the search for the first occurrence at or after an offset.
use vstd::prelude::*;
use vstd::string::*;

verus! {

/// `pat` occurs in `doc` starting at offset `i`.
pub open spec fn occurs_at(doc: Seq<char>, pat: Seq<char>, i: int) -> bool {
    &&& 0 <= i
    &&& i + pat.len() <= doc.len()
    &&& doc.subrange(i, i + pat.len()) == pat
}

/// `pat` occurs nowhere in `doc`.
pub open spec fn free_of(doc: Seq<char>, pat: Seq<char>) -> bool {
    forall|j: int| !occurs_at(doc, pat, j)
}

/// `i` is the least offset at or after `from` at which `pat` occurs in `doc`.
pub open spec fn is_first_from(doc: Seq<char>, pat: Seq<char>, from: int, i: int) -> bool {
    &&& from <= i
    &&& occurs_at(doc, pat, i)
    &&& forall|j: int| from <= j < i ==> !occurs_at(doc, pat, j)
}

/// The least offset at or after `from` at which `pat` occurs in `doc`, if any.
pub open spec fn first_from(doc: Seq<char>, pat: Seq<char>, from: int) -> Option<int> {
    if exists|i: int| is_first_from(doc, pat, from, i) {
        Some(choose|i: int| is_first_from(doc, pat, from, i))
    } else {
        None
    }
}

/// A least occurrence is the one that `first_from` names.
pub proof fn lemma_first_from_some(doc: Seq<char>, pat: Seq<char>, from: int, i: int)
    requires
        is_first_from(doc, pat, from, i),
    ensures
        first_from(doc, pat, from) == Some(i),
{
    let c = choose|c: int| is_first_from(doc, pat, from, c);
    assert(is_first_from(doc, pat, from, c));
    if c < i {
        assert(!occurs_at(doc, pat, c));
    }
    if i < c {
        assert(!occurs_at(doc, pat, i));
    }
}

/// Without an occurrence at or after `from`, `first_from` names none.
pub proof fn lemma_first_from_none(doc: Seq<char>, pat: Seq<char>, from: int)
    requires
        forall|j: int| from <= j ==> !occurs_at(doc, pat, j),
    ensures
        first_from(doc, pat, from) is None,
{
    if exists|i: int| is_first_from(doc, pat, from, i) {
        let c = choose|c: int| is_first_from(doc, pat, from, c);
        assert(occurs_at(doc, pat, c));
    }
}

/// Among the occurrences at or after `from`, one is the least.
proof fn lemma_least_occurrence(doc: Seq<char>, pat: Seq<char>, from: int, j: int)
    requires
        from <= j,
        occurs_at(doc, pat, j),
    ensures
        exists|i: int| is_first_from(doc, pat, from, i),
    decreases j - from,
{
    if exists|t: int| from <= t < j && occurs_at(doc, pat, t) {
        let t = choose|t: int| from <= t < j && occurs_at(doc, pat, t);
        lemma_least_occurrence(doc, pat, from, t);
    } else {
        assert(is_first_from(doc, pat, from, j));
    }
}

/// `first_from` names the least occurrence at or after `from`, and names
/// none only where there is none.
pub proof fn lemma_first_from_exact(doc: Seq<char>, pat: Seq<char>, from: int)
    ensures
        first_from(doc, pat, from) matches Some(i) ==> is_first_from(doc, pat, from, i),
        first_from(doc, pat, from) is None ==> forall|j: int|
            from <= j ==> !occurs_at(doc, pat, j),
{
    if first_from(doc, pat, from) is None {
        assert forall|j: int| from <= j implies !occurs_at(doc, pat, j) by {
            if occurs_at(doc, pat, j) {
                lemma_least_occurrence(doc, pat, from, j);
            }
        }
    }
}

/// An occurrence fixes the characters that it covers.
pub proof fn lemma_occurrence_chars(doc: Seq<char>, pat: Seq<char>, i: int)
    requires
        occurs_at(doc, pat, i),
    ensures
        forall|k: int| 0 <= k < pat.len() ==> #[trigger] doc[i + k] == pat[k],
{
    assert forall|k: int| 0 <= k < pat.len() implies #[trigger] doc[i + k] == pat[k] by {
        assert(doc.subrange(i, i + pat.len())[k] == doc[i + k]);
    }
}

/// Whether an occurrence stands at `i` depends only on the characters from
/// `i` to `i + pat.len()`.
pub proof fn lemma_occurrence_local(a: Seq<char>, b: Seq<char>, pat: Seq<char>, i: int, j: int)
    requires
        0 <= i,
        0 <= j,
        i + pat.len() <= a.len(),
        j + pat.len() <= b.len(),
        forall|k: int| 0 <= k < pat.len() ==> #[trigger] a[i + k] == b[j + k],
    ensures
        occurs_at(a, pat, i) == occurs_at(b, pat, j),
{
    let n = pat.len() as int;
    assert forall|k: int| 0 <= k < n implies #[trigger] a.subrange(i, i + n)[k] == b.subrange(j, j + n)[k] by {
        assert(a[i + k] == b[j + k]);
    }
    assert(a.subrange(i, i + n) =~= b.subrange(j, j + n));
}

/// The characters of `s`, in order.
pub fn to_chars(s: &str) -> (v: Vec<char>)
    ensures
        v@ == s@,
{
    let mut v: Vec<char> = Vec::new();
    for c in it: s.chars()
        invariant
            v@ == it.history(),
    {
        v.push(c);
    }
    v
}

/// Whether `pat` occurs in `doc` at offset `i`.
pub fn matches_at(doc: &Vec<char>, pat: &Vec<char>, i: usize) -> (found: bool)
    ensures
        found == occurs_at(doc@, pat@, i as int),
{
    let n: usize = doc.len();
    let m: usize = pat.len();
    if i > n || m > n - i {
        return false;
    }
    let mut k: usize = 0;
    while k < m
        invariant
            n == doc.len(),
            m == pat.len(),
            i + m <= n,
            k <= m,
            forall|t: int| 0 <= t < k ==> doc@[i + t] == pat@[t],
        decreases m - k,
    {
        if doc[i + k] != pat[k] {
            proof {
                if occurs_at(doc@, pat@, i as int) {
                    lemma_occurrence_chars(doc@, pat@, i as int);
                    assert(doc@[i + k] == pat@[k as int]);
                }
            }
            return false;
        }
        k += 1;
    }
    assert(doc@.subrange(i as int, i + m) =~= pat@);
    true
}

/// The least offset at or after `from` at which `pat` occurs in `doc`.
pub fn find_from(doc: &Vec<char>, pat: &Vec<char>, from: usize) -> (found: Option<usize>)
    ensures
        found.is_some() == first_from(doc@, pat@, from as int).is_some(),
        found matches Some(i) ==> first_from(doc@, pat@, from as int) == Some(i as int)
            && is_first_from(doc@, pat@, from as int, i as int),
        found is None ==> forall|j: int| from <= j ==> !occurs_at(doc@, pat@, j),
{
    let n: usize = doc.len();
    let m: usize = pat.len();
    if from > n || m > n - from {
        proof {
            lemma_first_from_none(doc@, pat@, from as int);
        }
        return None;
    }
    let mut i: usize = from;
    loop
        invariant
            n == doc.len(),
            m == pat.len(),
            m <= n,
            from <= i <= n - m,
            forall|j: int| from <= j < i ==> !occurs_at(doc@, pat@, j),
        decreases n - m - i,
    {
        if matches_at(doc, pat, i) {
            proof {
                lemma_first_from_some(doc@, pat@, from as int, i as int);
            }
            return Some(i);
        }
        if i == n - m {
            proof {
                lemma_first_from_none(doc@, pat@, from as int);
            }
            return None;
        }
        i += 1;
    }
}

/// Whether `a` and `b` hold the same characters.
pub fn same_text(a: &str, b: &str) -> (same: bool)
    ensures
        same == (a@ == b@),
{
    let x: Vec<char> = to_chars(a);
    let y: Vec<char> = to_chars(b);
    let n: usize = x.len();
    if y.len() != n {
        return false;
    }
    let mut k: usize = 0;
    while k < n
        invariant
            n == x.len(),
            n == y.len(),
            x@ == a@,
            y@ == b@,
            k <= n,
            forall|t: int| 0 <= t < k ==> x@[t] == y@[t],
        decreases n - k,
    {
        if x[k] != y[k] {
            return false;
        }
        k += 1;
    }
    assert(x@ =~= y@);
    true
}

} // verus!
