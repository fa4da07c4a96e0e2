//! Patterns in sequences: where one sequence stands in another, and what lies
//! on either side of its leftmost occurrence.

use vstd::prelude::*;

verus! {

/// `pat` stands in `s` at index `i`.
pub open spec fn occurs_at<T>(s: Seq<T>, pat: Seq<T>, i: int) -> bool {
    &&& 0 <= i
    &&& i + pat.len() <= s.len()
    &&& s.subrange(i, i + pat.len()) =~= pat
}

/// `i` is the leftmost index at which `pat` stands in `s`.
pub open spec fn first_at<T>(s: Seq<T>, pat: Seq<T>, i: int) -> bool {
    &&& occurs_at(s, pat, i)
    &&& forall|j: int| 0 <= j < i ==> !occurs_at(s, pat, j)
}

/// The leftmost index at which `pat` stands in `s`, if it stands anywhere.
pub open spec fn first_index<T>(s: Seq<T>, pat: Seq<T>) -> Option<int> {
    if exists|i: int| first_at(s, pat, i) {
        Some(choose|i: int| first_at(s, pat, i))
    } else {
        None
    }
}

/// What lies before and after the leftmost `pat` in `s`.
pub open spec fn cut<T>(s: Seq<T>, pat: Seq<T>) -> Option<(Seq<T>, Seq<T>)> {
    match first_index(s, pat) {
        Some(i) => Some((s.subrange(0, i), s.subrange(i + pat.len(), s.len() as int))),
        None => None,
    }
}

/// `pat` stands somewhere in `s`.
pub open spec fn includes<T>(s: Seq<T>, pat: Seq<T>) -> bool {
    exists|i: int| occurs_at(s, pat, i)
}

/// A leftmost occurrence is the one that `first_index` names.
pub proof fn lemma_first_index_is<T>(s: Seq<T>, pat: Seq<T>, i: int)
    requires
        first_at(s, pat, i),
    ensures
        first_index(s, pat) == Some(i),
{
}

/// Where `pat` stands in `s`, it stands somewhere first.
pub proof fn lemma_first_exists<T>(s: Seq<T>, pat: Seq<T>, i: int)
    requires
        occurs_at(s, pat, i),
    ensures
        first_index(s, pat) is Some,
        first_index(s, pat)->0 <= i,
    decreases i,
{
    if exists|j: int| 0 <= j < i && occurs_at(s, pat, j) {
        let j = choose|j: int| 0 <= j < i && occurs_at(s, pat, j);
        lemma_first_exists(s, pat, j);
    } else {
        lemma_first_index_is(s, pat, i);
    }
}

/// A text made of `head`, `pat` and `tail` is cut into `head` and `tail`,
/// unless `pat` stands further left.
pub proof fn lemma_cut_is<T>(head: Seq<T>, pat: Seq<T>, tail: Seq<T>)
    requires
        forall|j: int| 0 <= j < head.len() ==> !occurs_at(head + pat + tail, pat, j),
    ensures
        cut(head + pat + tail, pat) == Some((head, tail)),
{
    lemma_first_index_is(head + pat + tail, pat, head.len() as int);
}

/// A text is cut at the leftmost `c` that it holds.
pub proof fn lemma_cut_at_item<T>(head: Seq<T>, c: T, tail: Seq<T>)
    requires
        !head.contains(c),
    ensures
        cut(head + seq![c] + tail, seq![c]) == Some((head, tail)),
{
    let s = head + seq![c] + tail;
    assert forall|j: int| 0 <= j < head.len() implies !occurs_at(s, seq![c], j) by {
        if occurs_at(s, seq![c], j) {
            assert(s.subrange(j, j + 1)[0] == c);
        }
    }
    lemma_cut_is(head, seq![c], tail);
}

/// A text without `c` is not cut at `c`.
pub proof fn lemma_no_cut_at_item<T>(s: Seq<T>, c: T)
    requires
        !s.contains(c),
    ensures
        cut(s, seq![c]) is None,
{
    assert forall|j: int| !occurs_at(s, seq![c], j) by {
        if occurs_at(s, seq![c], j) {
            assert(s.subrange(j, j + 1)[0] == c);
        }
    }
}

/// Where a text is cut, the pattern stands between the two parts, and not
/// further left.
pub proof fn lemma_cut_parts<T>(s: Seq<T>, pat: Seq<T>)
    requires
        cut(s, pat) is Some,
    ensures
        ({
            let (head, tail) = cut(s, pat)->0;
            &&& s =~= head + pat + tail
            &&& first_at(s, pat, head.len() as int)
        }),
{
}

/// Whether `pat` stands in `hay` at index `i`.
pub fn matches_at(hay: &[u8], pat: &[u8], i: usize) -> (r: bool)
    ensures
        r == occurs_at(hay@, pat@, i as int),
{
    let n: usize = hay.len();
    let m: usize = pat.len();
    if i > n || m > n - i {
        return false;
    }
    let mut k: usize = 0;
    while k < m
        invariant
            k <= m,
            m == pat@.len(),
            n == hay@.len(),
            i + m <= n,
            forall|j: int| 0 <= j < k ==> hay@[i + j] == pat@[j],
        decreases m - k,
    {
        if hay[i + k] != pat[k] {
            return false;
        }
        k += 1;
    }
    true
}

/// The leftmost index at which `pat` stands in `hay`.
pub fn find_bytes(hay: &[u8], pat: &[u8]) -> (r: Option<usize>)
    ensures
        match r {
            Some(i) => first_at(hay@, pat@, i as int),
            None => forall|j: int| !occurs_at(hay@, pat@, j),
        },
{
    if pat.len() > hay.len() {
        return None;
    }
    let last: usize = hay.len() - pat.len();
    let mut i: usize = 0;
    loop
        invariant
            i <= last,
            last == hay@.len() - pat@.len(),
            forall|j: int| 0 <= j < i ==> !occurs_at(hay@, pat@, j),
        decreases last - i,
    {
        if matches_at(hay, pat, i) {
            return Some(i);
        }
        if i == last {
            return None;
        }
        i += 1;
    }
}

} // verus!
