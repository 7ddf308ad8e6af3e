//! Lookups along a route by distance.
//!
//! Distances are real numbers that the host computes. Here each distance is
//! carried by its *distance key*: a `u64` that the host derives from the
//! distance so that keys compare exactly as the distances do. Lookups that
//! only compare distances are therefore exact on keys.

use vstd::prelude::*;

verus! {

/// Keys in non-decreasing order.
pub open spec fn keys_sorted(s: Seq<u64>) -> bool {
    forall|i: int, j: int| 0 <= i <= j < s.len() ==> s[i] <= s[j]
}

/// Whether `keys` are in non-decreasing order.
pub fn keys_in_order(keys: &Vec<u64>) -> (r: bool)
    ensures
        r == keys_sorted(keys@),
{
    let n = keys.len();
    if n == 0 {
        return true;
    }
    let mut i: usize = 1;
    while i < n
        invariant
            n == keys.len(),
            1 <= i <= n,
            forall|a: int, b: int| 0 <= a <= b < i ==> keys@[a] <= keys@[b],
        decreases n - i,
    {
        if keys[i - 1] > keys[i] {
            return false;
        }
        assert forall|a: int, b: int| 0 <= a <= b < i + 1 implies keys@[a] <= keys@[b] by {
            if b == i && a < i {
                assert(keys@[a] <= keys@[i - 1]);
            }
        }
        i = i + 1;
    }
    true
}

/// Number of keys that are at most `d`.
pub open spec fn count_at_most(s: Seq<u64>, d: u64) -> nat
    decreases s.len(),
{
    if s.len() == 0 {
        0
    } else {
        count_at_most(s.drop_last(), d) + if s.last() <= d {
            1nat
        } else {
            0nat
        }
    }
}

/// In a sorted sequence, a split point with every key before it at most `d`
/// and every key from it on above `d` is the count of keys at most `d`.
pub proof fn lemma_split_point_is_count(s: Seq<u64>, d: u64, p: int)
    requires
        keys_sorted(s),
        0 <= p <= s.len(),
        forall|i: int| 0 <= i < p ==> s[i] <= d,
        forall|i: int| p <= i < s.len() ==> s[i] > d,
    ensures
        count_at_most(s, d) == p,
    decreases s.len(),
{
    if s.len() > 0 {
        let t = s.drop_last();
        if p == s.len() {
            lemma_split_point_is_count(t, d, p - 1);
        } else {
            lemma_split_point_is_count(t, d, p);
        }
    }
}

/// In sorted keys, the keys at most `d` are exactly the first
/// `count_at_most(s, d)` of them.
pub proof fn lemma_count_at_most_splits(s: Seq<u64>, d: u64)
    requires
        keys_sorted(s),
    ensures
        count_at_most(s, d) <= s.len(),
        forall|i: int| 0 <= i < count_at_most(s, d) ==> s[i] <= d,
        forall|i: int| count_at_most(s, d) <= i < s.len() ==> s[i] > d,
    decreases s.len(),
{
    if s.len() > 0 {
        let t = s.drop_last();
        assert(keys_sorted(t));
        lemma_count_at_most_splits(t, d);
        let c = count_at_most(s, d);
        assert forall|i: int| 0 <= i < t.len() implies t[i] == s[i] by {}
        if s.last() <= d {
            assert forall|i: int| 0 <= i < s.len() implies s[i] <= d by {
                assert(s[i] <= s.last());
            }
            assert(count_at_most(t, d) == t.len()) by {
                if count_at_most(t, d) < t.len() {
                    assert(t[t.len() - 1] > d);
                    assert(s[t.len() - 1] <= s.last());
                }
            }
            assert(c == s.len());
        } else {
            assert(c == count_at_most(t, d));
            assert forall|i: int| 0 <= i < c implies s[i] <= d by {
                assert(t[i] <= d);
            }
            assert forall|i: int| c <= i < s.len() implies s[i] > d by {
                if i < t.len() {
                    assert(t[i] > d);
                }
            }
        }
    }
}

/// Count of the leading keys at most `d` in sorted `keys`: the first index
/// whose key exceeds `d`, or the length when none does.
pub fn partition_point_at_most(keys: &Vec<u64>, d: u64) -> (r: usize)
    requires
        keys_sorted(keys@),
    ensures
        r == count_at_most(keys@, d),
        r <= keys.len(),
        forall|i: int| 0 <= i < r ==> keys@[i] <= d,
        forall|i: int| r <= i < keys.len() ==> keys@[i] > d,
{
    let mut lo: usize = 0;
    let mut hi: usize = keys.len();
    while lo < hi
        invariant
            keys_sorted(keys@),
            0 <= lo <= hi <= keys.len(),
            forall|i: int| 0 <= i < lo ==> keys@[i] <= d,
            forall|i: int| hi <= i < keys.len() ==> keys@[i] > d,
        decreases hi - lo,
    {
        let mid = lo + (hi - lo) / 2;
        if keys[mid] <= d {
            lo = mid + 1;
        } else {
            hi = mid;
        }
    }
    proof {
        lemma_split_point_is_count(keys@, d, lo as int);
    }
    lo
}

/// Index of the segment holding route distance `d` along a polyline whose
/// vertex `i` lies `cumulative[i]` from the start (`cumulative[0]` is the
/// start itself): segment 0 at or before the start, the last segment at or
/// beyond the end, else the segment whose start vertex is the last one not
/// beyond `d`.
pub open spec fn segment_at(cumulative: Seq<u64>, d: u64) -> int {
    if d <= cumulative[0] {
        0
    } else {
        let idx = count_at_most(cumulative, d) as int;
        let before = if idx >= 1 {
            idx - 1
        } else {
            0
        };
        if before <= cumulative.len() - 2 {
            before
        } else {
            cumulative.len() - 2
        }
    }
}

/// Index of the segment containing route distance `d` (clamped to the
/// route), given the sorted distance keys of the polyline's vertices.
pub fn segment_at_distance(cumulative: &Vec<u64>, d: u64) -> (r: usize)
    requires
        cumulative.len() >= 2,
        keys_sorted(cumulative@),
    ensures
        r == segment_at(cumulative@, d),
        r < cumulative.len() - 1,
{
    if d <= cumulative[0] {
        return 0;
    }
    let n = cumulative.len() - 1;
    let idx = partition_point_at_most(cumulative, d);
    let before = idx.saturating_sub(1);
    if before <= n - 1 {
        before
    } else {
        n - 1
    }
}

} // verus!
