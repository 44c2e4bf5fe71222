//! Least indices and first occurrences in sequences: the vocabulary in which
//! the grammar of a request is stated.

use vstd::prelude::*;

verus! {

/// `i` is the least natural number at which `p` holds.
pub open spec fn is_least(p: spec_fn(int) -> bool, i: int) -> bool {
    &&& 0 <= i
    &&& p(i)
    &&& forall|j: int| 0 <= j < i ==> !#[trigger] p(j)
}

/// The least natural number at which `p` holds, if there is one.
pub open spec fn least(p: spec_fn(int) -> bool) -> Option<int> {
    if exists|i: int| is_least(p, i) {
        Some(choose|i: int| is_least(p, i))
    } else {
        None
    }
}

proof fn lemma_some_least(p: spec_fn(int) -> bool, i: int)
    requires
        0 <= i,
        p(i),
    ensures
        exists|k: int| is_least(p, k),
    decreases i,
{
    if exists|j: int| 0 <= j < i && #[trigger] p(j) {
        let j = choose|j: int| 0 <= j < i && #[trigger] p(j);
        lemma_some_least(p, j);
    } else {
        assert(is_least(p, i));
    }
}

/// What `least` returns: the least witness, or `None` where `p` holds nowhere.
pub proof fn lemma_least(p: spec_fn(int) -> bool)
    ensures
        match least(p) {
            Some(i) => is_least(p, i),
            None => forall|i: int| 0 <= i ==> !#[trigger] p(i),
        },
{
    if least(p) is None {
        assert forall|i: int| 0 <= i implies !#[trigger] p(i) by {
            if p(i) {
                lemma_some_least(p, i);
            }
        }
    }
}

/// A least witness is the one that `least` returns.
pub proof fn lemma_least_is(p: spec_fn(int) -> bool, i: int)
    requires
        is_least(p, i),
    ensures
        least(p) == Some(i),
{
    let k = choose|k: int| is_least(p, k);
    assert(is_least(p, k));
    if k < i {
        assert(!p(k));
    } else if i < k {
        assert(!p(i));
    }
}

/// `pat` stands in `s` at index `i`.
pub open spec fn occurs_at<T>(s: Seq<T>, pat: Seq<T>, i: int) -> bool {
    &&& 0 <= i
    &&& i + pat.len() <= s.len()
    &&& s.subrange(i, i + pat.len()) == pat
}

/// The predicate "`pat` stands in `s` here", as a function of the index.
pub open spec fn occurrences<T>(s: Seq<T>, pat: Seq<T>) -> spec_fn(int) -> bool {
    |i: int| occurs_at(s, pat, i)
}

/// The index of the first occurrence of `pat` in `s`.
pub open spec fn first_occurrence<T>(s: Seq<T>, pat: Seq<T>) -> Option<int> {
    least(occurrences(s, pat))
}

/// `s` cut at the first occurrence of `pat`: what stands before it and what
/// stands after it.
pub open spec fn split_at_first<T>(s: Seq<T>, pat: Seq<T>) -> Option<(Seq<T>, Seq<T>)> {
    match first_occurrence(s, pat) {
        Some(i) => Some((s.subrange(0, i), s.subrange(i + pat.len(), s.len() as int))),
        None => None,
    }
}

/// `s` without `pat` at its start, where it starts with `pat`.
pub open spec fn without_prefix<T>(s: Seq<T>, pat: Seq<T>) -> Option<Seq<T>> {
    if occurs_at(s, pat, 0) {
        Some(s.subrange(pat.len() as int, s.len() as int))
    } else {
        None
    }
}

/// What `first_occurrence` returns: an index at which `pat` stands and before
/// which it does not, or `None` where it stands nowhere.
pub proof fn lemma_first_occurrence<T>(s: Seq<T>, pat: Seq<T>)
    ensures
        match first_occurrence(s, pat) {
            Some(i) => occurs_at(s, pat, i) && forall|j: int| 0 <= j < i ==> !occurs_at(s, pat, j),
            None => forall|j: int| !occurs_at(s, pat, j),
        },
{
    let p = occurrences(s, pat);
    lemma_least(p);
    match least(p) {
        Some(i) => {
            assert forall|j: int| 0 <= j < i implies !occurs_at(s, pat, j) by {
                assert(!p(j));
            }
        },
        None => {
            assert forall|j: int| !occurs_at(s, pat, j) by {
                if 0 <= j {
                    assert(!p(j));
                }
            }
        },
    }
}

/// An occurrence with none before it is the first.
pub proof fn lemma_first_occurrence_is<T>(s: Seq<T>, pat: Seq<T>, i: int)
    requires
        occurs_at(s, pat, i),
        forall|j: int| 0 <= j < i ==> !occurs_at(s, pat, j),
    ensures
        first_occurrence(s, pat) == Some(i),
{
    lemma_least_is(occurrences(s, pat), i);
}

/// Where `pat` stands nowhere there is no first occurrence.
pub proof fn lemma_no_occurrence<T>(s: Seq<T>, pat: Seq<T>)
    requires
        forall|j: int| !occurs_at(s, pat, j),
    ensures
        first_occurrence(s, pat) is None,
{
    lemma_least(occurrences(s, pat));
    if let Some(i) = least(occurrences(s, pat)) {
        assert(occurrences(s, pat)(i));
    }
}

/// The pieces of `s` between the occurrences of `pat`, found from left to
/// right: one piece more than there are separators. An empty `pat` separates
/// nothing.
pub open spec fn pieces<T>(s: Seq<T>, pat: Seq<T>) -> Seq<Seq<T>>
    decreases s.len(),
    via pieces_decreases::<T>
{
    match split_at_first(s, pat) {
        Some((head, tail)) => if pat.len() > 0 {
            seq![head] + pieces(tail, pat)
        } else {
            seq![s]
        },
        None => seq![s],
    }
}

#[via_fn]
proof fn pieces_decreases<T>(s: Seq<T>, pat: Seq<T>) {
    lemma_first_occurrence(s, pat);
}

/// Whether `needle` stands in `hay` at index `i`.
pub fn matches_at(hay: &[u8], needle: &[u8], i: usize) -> (r: bool)
    ensures
        r == occurs_at(hay@, needle@, i as int),
{
    let n = hay.len();
    let m = needle.len();
    if i > n || m > n - i {
        return false;
    }
    let mut k: usize = 0;
    while k < m
        invariant
            0 <= k <= m,
            m == needle@.len(),
            n == hay@.len(),
            i + m <= n,
            forall|j: int| 0 <= j < k ==> hay@[i + j] == needle@[j],
        decreases m - k,
    {
        if hay[i + k] != needle[k] {
            proof {
                let window = hay@.subrange(i as int, i + m);
                assert(window[k as int] != needle@[k as int]);
            }
            return false;
        }
        k += 1;
    }
    proof {
        assert(hay@.subrange(i as int, i + m) =~= needle@);
    }
    true
}

/// The index of the first occurrence of `needle` in `hay`.
pub fn find(hay: &[u8], needle: &[u8]) -> (r: Option<usize>)
    ensures
        first_occurrence(hay@, needle@) == match r {
            Some(i) => Some(i as int),
            None => None,
        },
{
    let n = hay.len();
    let m = needle.len();
    if m > n {
        proof {
            lemma_no_occurrence(hay@, needle@);
        }
        return None;
    }
    let last = n - m;
    let mut i: usize = 0;
    while i < last
        invariant
            n == hay@.len(),
            m == needle@.len(),
            last == n - m,
            0 <= i <= last,
            forall|j: int| 0 <= j < i ==> !occurs_at(hay@, needle@, j),
        decreases last - i,
    {
        if matches_at(hay, needle, i) {
            proof {
                lemma_first_occurrence_is(hay@, needle@, i as int);
            }
            return Some(i);
        }
        i += 1;
    }
    if matches_at(hay, needle, last) {
        proof {
            lemma_first_occurrence_is(hay@, needle@, last as int);
        }
        Some(last)
    } else {
        proof {
            lemma_no_occurrence(hay@, needle@);
        }
        None
    }
}

} // verus!
