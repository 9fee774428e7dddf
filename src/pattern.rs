//! What it means for a byte pattern to occur in a byte sequence, and a plain
//! byte-by-byte search that serves as the reference scan.
use vstd::prelude::*;

verus! {

/// `p` occurs in `s` starting at index `i`.
pub open spec fn occurs_at(s: Seq<u8>, p: Seq<u8>, i: int) -> bool {
    &&& 0 <= i
    &&& i + p.len() <= s.len()
    &&& s.subrange(i, i + p.len()) == p
}

/// `p` occurs somewhere in `s`.
pub open spec fn occurs(s: Seq<u8>, p: Seq<u8>) -> bool {
    exists|i: int| occurs_at(s, p, i)
}

/// The first index at or after `i` where `p` occurs in `s`.
pub open spec fn first_from(s: Seq<u8>, p: Seq<u8>, i: int) -> Option<int>
    decreases s.len() + 1 - i,
{
    if i < 0 || i + p.len() > s.len() {
        None
    } else if occurs_at(s, p, i) {
        Some(i)
    } else {
        first_from(s, p, i + 1)
    }
}

/// The index of the first occurrence of `p` in `s`, if there is one.
pub open spec fn first_occurrence(s: Seq<u8>, p: Seq<u8>) -> Option<int> {
    first_from(s, p, 0)
}

/// The result of searching `s` for `p` as an offset.
pub open spec fn search_result(s: Seq<u8>, p: Seq<u8>) -> Option<u64> {
    match first_occurrence(s, p) {
        Some(k) => Some(k as u64),
        None => None,
    }
}

/// `first_from` finds an occurrence, and none between `i` and it.
pub proof fn lemma_first_from(s: Seq<u8>, p: Seq<u8>, i: int)
    requires
        0 <= i,
    ensures
        match first_from(s, p, i) {
            Some(k) => i <= k && occurs_at(s, p, k) && forall|j: int|
                i <= j < k ==> !occurs_at(s, p, j),
            None => forall|j: int| i <= j ==> !occurs_at(s, p, j),
        },
    decreases s.len() + 1 - i,
{
    if i + p.len() > s.len() {
    } else if occurs_at(s, p, i) {
    } else {
        lemma_first_from(s, p, i + 1);
        assert forall|j: int| i <= j && #[trigger] occurs_at(s, p, j) implies first_from(s, p, i)
            is Some && j >= first_from(s, p, i).unwrap() by {
            if j == i {
            }
        }
    }
}

/// With no occurrence between `i` and `j`, searching from either gives the same answer.
pub proof fn lemma_first_from_skip(s: Seq<u8>, p: Seq<u8>, i: int, j: int)
    requires
        0 <= i <= j,
        forall|t: int| i <= t < j ==> !occurs_at(s, p, t),
    ensures
        first_from(s, p, i) == first_from(s, p, j),
    decreases j - i,
{
    if i < j {
        lemma_first_from_skip(s, p, i + 1, j);
        if i + p.len() > s.len() {
            lemma_first_from(s, p, j);
            lemma_first_from(s, p, i + 1);
        }
    }
}

/// A pattern that occurs exactly once, at `k`, is found at `k`.
pub proof fn lemma_single_occurrence(s: Seq<u8>, p: Seq<u8>, k: int)
    requires
        occurs_at(s, p, k),
        forall|j: int| j != k ==> !occurs_at(s, p, j),
    ensures
        first_occurrence(s, p) == Some(k),
        k <= u64::MAX ==> search_result(s, p) == Some(k as u64),
{
    lemma_first_from_skip(s, p, 0, k);
}

/// A pattern that does not occur in `s` is reported absent, never found at
/// some offset.
pub proof fn lemma_absent_not_found(s: Seq<u8>, p: Seq<u8>)
    requires
        !occurs(s, p),
    ensures
        first_occurrence(s, p) is None,
        search_result(s, p) is None,
{
    lemma_first_from(s, p, 0);
    if first_occurrence(s, p) is Some {
        assert(occurs_at(s, p, first_occurrence(s, p).unwrap()));
    }
}

/// Whether `p` occurs in `s` at index `i`, compared byte by byte.
pub fn matches_at(s: &[u8], p: &[u8], i: usize) -> (r: bool)
    ensures
        r == occurs_at(s@, p@, i as int),
{
    if p.len() > s.len() || i > s.len() - p.len() {
        return false;
    }
    let mut j: usize = 0;
    while j < p.len()
        invariant
            j <= p@.len(),
            i + p@.len() <= s@.len(),
            s@.len() == s.len(),
            forall|t: int| 0 <= t < j ==> s@[i + t] == p@[t],
        decreases p@.len() - j,
    {
        if s[i + j] != p[j] {
            assert(s@.subrange(i as int, i + p@.len())[j as int] != p@[j as int]);
            return false;
        }
        j = j + 1;
    }
    assert(s@.subrange(i as int, i + p@.len()) =~= p@);
    true
}

/// Searches `source` for `pattern` one position at a time, without chunking.
///
/// Returns the offset of the first occurrence, or `None` when there is none.
pub fn search_bytes(source: &[u8], pattern: &[u8]) -> (r: Option<u64>)
    ensures
        r == search_result(source@, pattern@),
{
    if pattern.len() > source.len() {
        proof {
            lemma_first_from(source@, pattern@, 0);
        }
        return None;
    }
    if pattern.len() == 0 {
        assert(source@.subrange(0, 0) =~= pattern@);
        return Some(0);
    }
    let last = source.len() - pattern.len();
    let mut i: usize = 0;
    while i <= last
        invariant
            last + pattern@.len() == source@.len(),
            pattern@.len() > 0,
            source@.len() == source.len(),
            i <= last + 1,
            forall|t: int| 0 <= t < i ==> !occurs_at(source@, pattern@, t),
        decreases last + 1 - i,
    {
        if matches_at(source, pattern, i) {
            proof {
                lemma_first_from_skip(source@, pattern@, 0, i as int);
            }
            return Some(i as u64);
        }
        i = i + 1;
    }
    proof {
        lemma_first_from_skip(source@, pattern@, 0, i as int);
    }
    None
}

/// Appends the bytes of `s` to `out`.
pub fn append_bytes(out: &mut Vec<u8>, s: &[u8])
    ensures
        final(out)@ == old(out)@ + s@,
{
    out.extend_from_slice(s);
    assert(out@ =~= old(out)@ + s@);
}

} // verus!
