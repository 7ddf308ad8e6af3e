//! Storage of the windowed map matcher: the ranked candidate list kept for
//! each fix, and the bounded window of recent fixes the Viterbi pass runs
//! over.
//!
//! Both are fixed-capacity and allocate nothing once built. The scores the
//! matcher computes are real numbers kept by the host; candidates are ranked
//! here by the distance key of their cross-track distance (see
//! [`crate::geo`]) and then by segment index.

use vstd::prelude::*;

verus! {

/// Maximum candidates kept per fix. Denser sets are truncated to the closest.
pub const MAX_CANDIDATES: usize = 8;

/// Maximum window length; a configured window size is clamped to this.
pub const MAX_WINDOW: usize = 16;

/// Nearest-segment matcher. No memory, no heading.
#[derive(Debug, Clone, Copy, Default)]
pub struct SimpleMatcher;

/// A candidate with its ranking: the key of its distance from the fix, then
/// its segment index.
#[derive(Debug, Clone, Copy)]
pub struct Ranked<T> {
    /// Distance key of the candidate's cross-track distance.
    pub distance_key: u64,
    /// Index of the segment the candidate lies on.
    pub segment_index: usize,
    /// The candidate itself.
    pub item: T,
}

/// `a` ranks no later than `b`: nearer, or as near on a lower-or-equal
/// segment index.
pub open spec fn ranks_no_later<T>(a: Ranked<T>, b: Ranked<T>) -> bool {
    a.distance_key < b.distance_key || (a.distance_key == b.distance_key && a.segment_index
        <= b.segment_index)
}

/// Entries in ranking order.
pub open spec fn ranked_sorted<T>(s: Seq<Ranked<T>>) -> bool {
    forall|i: int, j: int| 0 <= i < j < s.len() ==> ranks_no_later(s[i], s[j])
}

/// Number of entries that rank no later than `c`: where `c` goes, after
/// every entry it does not beat.
pub open spec fn insertion_point<T>(s: Seq<Ranked<T>>, c: Ranked<T>) -> nat
    decreases s.len(),
{
    if s.len() == 0 {
        0
    } else {
        insertion_point(s.drop_last(), c) + if ranks_no_later(s.last(), c) {
            1nat
        } else {
            0nat
        }
    }
}

/// The list after offering `c`: `c` placed after every entry that ranks no
/// later than it, then cut to [`MAX_CANDIDATES`].
pub open spec fn offered<T>(s: Seq<Ranked<T>>, c: Ranked<T>) -> Seq<Ranked<T>> {
    let grown = s.insert(insertion_point(s, c) as int, c);
    if grown.len() > MAX_CANDIDATES {
        grown.take(MAX_CANDIDATES as int)
    } else {
        grown
    }
}

proof fn lemma_split_is_insertion_point<T>(s: Seq<Ranked<T>>, c: Ranked<T>, p: int)
    requires
        0 <= p <= s.len(),
        forall|i: int| 0 <= i < p ==> ranks_no_later(#[trigger] s[i], c),
        forall|i: int| p <= i < s.len() ==> !ranks_no_later(#[trigger] s[i], c),
    ensures
        insertion_point(s, c) == p,
    decreases s.len(),
{
    if s.len() > 0 {
        let t = s.drop_last();
        if p == s.len() {
            lemma_split_is_insertion_point(t, c, p - 1);
        } else {
            lemma_split_is_insertion_point(t, c, p);
        }
    }
}

/// The ranked candidates of one fix, at most [`MAX_CANDIDATES`] of them,
/// nearest first and ties broken by segment index. Fixed storage: the list
/// never allocates.
#[derive(Debug, Copy)]
pub struct CandidateList<T> {
    entries: [Ranked<T>; MAX_CANDIDATES],
    len: usize,
}

impl<T> View for CandidateList<T> {
    type V = Seq<Ranked<T>>;

    closed spec fn view(&self) -> Seq<Ranked<T>> {
        self.entries@.take(self.len as int)
    }
}

impl<T> CandidateList<T> {
    #[verifier::type_invariant]
    spec fn in_order(self) -> bool {
        &&& self.len <= MAX_CANDIDATES
        &&& ranked_sorted(self@)
    }

    /// Fit for use: in ranking order and within capacity. Every list is.
    pub open spec fn wf(&self) -> bool {
        &&& self@.len() <= MAX_CANDIDATES
        &&& ranked_sorted(self@)
    }
}

impl<T: Copy> Clone for CandidateList<T> {
    fn clone(&self) -> (r: Self)
        ensures
            r@ == self@,
    {
        *self
    }
}

impl<T: Copy> CandidateList<T> {

    /// An empty list; `blank` fills the unused storage and is never read.
    pub fn new(blank: Ranked<T>) -> (r: CandidateList<T>)
        ensures
            r@ == Seq::<Ranked<T>>::empty(),
            r.wf(),
    {
        let r = CandidateList { entries: [blank; MAX_CANDIDATES], len: 0 };
        assert(r@ =~= Seq::<Ranked<T>>::empty());
        r
    }

    /// Number of candidates held.
    pub fn len(&self) -> (r: usize)
        ensures
            r == self@.len(),
    {
        proof {
            use_type_invariant(self);
        }
        self.len
    }

    /// The `i`-th candidate in ranking order.
    pub fn get(&self, i: usize) -> (r: &Ranked<T>)
        requires
            i < self@.len(),
        ensures
            *r == self@[i as int],
    {
        proof {
            use_type_invariant(self);
        }
        &self.entries[i]
    }

    /// Drop every candidate.
    pub fn clear(&mut self)
        ensures
            final(self)@ == Seq::<Ranked<T>>::empty(),
            final(self).wf(),
    {
        self.len = 0;
        assert(self@ =~= Seq::<Ranked<T>>::empty());
    }

    /// Keep the [`MAX_CANDIDATES`] closest candidates, ordered by distance
    /// then segment index so ties resolve deterministically; a candidate
    /// goes after every entry that ranks no later than it.
    pub fn insert_by_distance(&mut self, cand: Ranked<T>)
        ensures
            final(self)@ == offered(old(self)@, cand),
            final(self).wf(),
    {
        proof {
            use_type_invariant(&*self);
        }
        let ghost s = self@;
        let len = self.len;
        let mut pos = len;
        while pos > 0 && !(self.entries[pos - 1].distance_key < cand.distance_key || (
        self.entries[pos - 1].distance_key == cand.distance_key && self.entries[pos
            - 1].segment_index <= cand.segment_index))
            invariant
                s == self@,
                len == s.len(),
                len == self.len,
                len <= MAX_CANDIDATES,
                ranked_sorted(s),
                0 <= pos <= len,
                forall|i: int| pos <= i < len ==> !ranks_no_later(#[trigger] s[i], cand),
            decreases pos,
        {
            pos = pos - 1;
        }
        assert forall|i: int| 0 <= i < pos implies ranks_no_later(#[trigger] s[i], cand) by {
            if i < pos - 1 {
                assert(ranks_no_later(s[i], s[pos - 1]));
            }
        }
        proof {
            lemma_split_is_insertion_point(s, cand, pos as int);
        }
        if pos >= MAX_CANDIDATES {
            assert(offered(s, cand) =~= s);
            return;
        }
        let new_len = if len < MAX_CANDIDATES {
            len + 1
        } else {
            MAX_CANDIDATES
        };
        let mut e = self.entries;
        let ghost old_e = e@;
        let mut i = new_len - 1;
        while i > pos
            invariant
                pos < new_len <= MAX_CANDIDATES,
                pos <= i < new_len,
                old_e.len() == MAX_CANDIDATES,
                e@.len() == MAX_CANDIDATES,
                forall|k: int| 0 <= k <= i ==> #[trigger] e@[k] == old_e[k],
                forall|k: int| i < k < new_len ==> #[trigger] e@[k] == old_e[k - 1],
            decreases i,
        {
            e[i] = e[i - 1];
            i = i - 1;
        }
        e[pos] = cand;
        let ghost g = s.insert(pos as int, cand);
        let ghost t = e@.take(new_len as int);
        assert(t =~= offered(s, cand)) by {
            assert forall|k: int| 0 <= k < new_len implies t[k] == g[k] by {
                if k < pos {
                } else if k == pos {
                } else {
                    assert(e@[k] == old_e[k - 1]);
                }
            }
        }
        assert forall|a: int, b: int| 0 <= a < b < t.len() implies ranks_no_later(t[a], t[b]) by {
            assert(t[a] == g[a]);
            assert(t[b] == g[b]);
            if b < pos {
            } else if b == pos {
            } else if a < pos {
                assert(ranks_no_later(s[a], cand));
                assert(!ranks_no_later(s[b - 1], cand));
            } else if a == pos {
                assert(!ranks_no_later(s[b - 1], cand));
            } else {
                assert(ranks_no_later(s[a - 1], s[b - 1]));
            }
        }
        *self = CandidateList { entries: e, len: new_len };
    }
}

/// Offering a candidate keeps it whenever the list has room or it ranks
/// before the current last entry, and everything kept was either held before
/// or is the candidate.
pub proof fn lemma_offered_keeps_nearest<T>(s: Seq<Ranked<T>>, c: Ranked<T>)
    requires
        ranked_sorted(s),
        s.len() <= MAX_CANDIDATES,
    ensures
        (s.len() < MAX_CANDIDATES || !ranks_no_later(s.last(), c)) ==> offered(s, c).contains(c),
        forall|x: Ranked<T>| offered(s, c).contains(x) ==> x == c || s.contains(x),
        offered(s, c).len() == if s.len() < MAX_CANDIDATES {
            s.len() + 1int
        } else {
            MAX_CANDIDATES as int
        },
{
    let p = insertion_point(s, c) as int;
    lemma_insertion_point_bounds(s, c);
    let g = s.insert(p, c);
    assert(g[p] == c);
    if s.len() == MAX_CANDIDATES && !ranks_no_later(s.last(), c) {
        lemma_insertion_point_excludes_last(s, c);
        assert(offered(s, c)[p] == c);
    } else if s.len() < MAX_CANDIDATES {
        assert(offered(s, c)[p] == c);
    }
    assert forall|x: Ranked<T>| offered(s, c).contains(x) implies x == c || s.contains(x) by {
        let k = choose|k: int| 0 <= k < offered(s, c).len() && offered(s, c)[k] == x;
        assert(g[k] == x);
        if k < p {
            assert(s[k] == x);
        } else if k > p {
            assert(s[k - 1] == x);
        }
    }
}

proof fn lemma_insertion_point_splits<T>(s: Seq<Ranked<T>>, c: Ranked<T>)
    requires
        ranked_sorted(s),
    ensures
        insertion_point(s, c) <= s.len(),
        forall|i: int| 0 <= i < insertion_point(s, c) ==> ranks_no_later(#[trigger] s[i], c),
        forall|i: int| insertion_point(s, c) <= i < s.len() ==> !ranks_no_later(#[trigger] s[i], c),
    decreases s.len(),
{
    if s.len() > 0 {
        let t = s.drop_last();
        assert forall|i: int| 0 <= i < t.len() implies t[i] == s[i] by {}
        lemma_insertion_point_splits(t, c);
        let q = insertion_point(t, c) as int;
        if ranks_no_later(s.last(), c) {
            assert forall|i: int| 0 <= i < s.len() implies ranks_no_later(#[trigger] s[i], c) by {
                if i < s.len() - 1 {
                    assert(ranks_no_later(s[i], s[s.len() - 1]));
                }
            }
            if q < t.len() {
                assert(ranks_no_later(t[q], c));
            }
        } else {
            assert forall|i: int| q <= i < s.len() implies !ranks_no_later(#[trigger] s[i], c) by {
                if i < t.len() {
                    assert(!ranks_no_later(t[i], c));
                }
            }
        }
    }
}

/// Offering a candidate keeps the best-ranked entries. The list stays in
/// ranking order. With room, it gains the candidate and keeps every entry.
/// When full, a candidate that ranks no earlier than the last entry leaves
/// the list unchanged; otherwise the candidate comes in, the last entry is
/// the one dropped, and every kept entry ranks no later than it.
pub proof fn lemma_offered_keeps_best<T>(s: Seq<Ranked<T>>, c: Ranked<T>)
    requires
        ranked_sorted(s),
        s.len() <= MAX_CANDIDATES,
    ensures
        ranked_sorted(offered(s, c)),
        s.len() < MAX_CANDIDATES ==> offered(s, c).len() == s.len() + 1 && offered(s, c).contains(
            c,
        ) && forall|i: int| 0 <= i < s.len() ==> offered(s, c).contains(#[trigger] s[i]),
        s.len() == MAX_CANDIDATES && ranks_no_later(s.last(), c) ==> offered(s, c) == s,
        s.len() == MAX_CANDIDATES && !ranks_no_later(s.last(), c) ==> ({
            &&& offered(s, c).len() == MAX_CANDIDATES
            &&& offered(s, c).contains(c)
            &&& forall|i: int| 0 <= i < s.len() - 1 ==> offered(s, c).contains(#[trigger] s[i])
            &&& forall|k: int|
                0 <= k < offered(s, c).len() ==> ranks_no_later(#[trigger] offered(s, c)[k], s.last())
        }),
{
    lemma_insertion_point_splits(s, c);
    let p = insertion_point(s, c) as int;
    let g = s.insert(p, c);
    let o = offered(s, c);
    assert forall|a: int, b: int| 0 <= a < b < g.len() implies ranks_no_later(g[a], g[b]) by {
        if b < p {
            assert(ranks_no_later(s[a], s[b]));
        } else if b == p {
        } else if a < p {
            assert(ranks_no_later(s[a], c));
            assert(!ranks_no_later(s[b - 1], c));
        } else if a == p {
            assert(!ranks_no_later(s[b - 1], c));
        } else {
            assert(ranks_no_later(s[a - 1], s[b - 1]));
        }
    }
    assert forall|a: int, b: int| 0 <= a < b < o.len() implies ranks_no_later(o[a], o[b]) by {
        assert(o[a] == g[a] && o[b] == g[b]);
    }
    if s.len() < MAX_CANDIDATES {
        assert(o == g);
        assert(g[p] == c);
        assert forall|i: int| 0 <= i < s.len() implies o.contains(#[trigger] s[i]) by {
            if i < p {
                assert(g[i] == s[i]);
            } else {
                assert(g[i + 1] == s[i]);
            }
        }
    } else if ranks_no_later(s.last(), c) {
        assert(p == s.len()) by {
            if p < s.len() {
                assert(!ranks_no_later(s[s.len() - 1], c));
            }
        }
        assert(o =~= s);
    } else {
        assert(p < s.len());
        assert(o[p] == g[p]);
        assert forall|i: int| 0 <= i < s.len() - 1 implies o.contains(#[trigger] s[i]) by {
            if i < p {
                assert(o[i] == s[i]);
            } else {
                assert(o[i + 1] == s[i]);
            }
        }
        assert forall|k: int| 0 <= k < o.len() implies ranks_no_later(#[trigger] o[k], s.last()) by {
            assert(o[k] == g[k]);
            if k < p {
                assert(ranks_no_later(s[k], s[s.len() - 1]));
            } else if k > p {
                assert(ranks_no_later(s[k - 1], s[s.len() - 1]));
            }
        }
    }
}

proof fn lemma_insertion_point_bounds<T>(s: Seq<Ranked<T>>, c: Ranked<T>)
    ensures
        insertion_point(s, c) <= s.len(),
    decreases s.len(),
{
    if s.len() > 0 {
        lemma_insertion_point_bounds(s.drop_last(), c);
    }
}

proof fn lemma_insertion_point_excludes_last<T>(s: Seq<Ranked<T>>, c: Ranked<T>)
    requires
        ranked_sorted(s),
        s.len() > 0,
        !ranks_no_later(s.last(), c),
    ensures
        insertion_point(s, c) < s.len(),
{
    lemma_insertion_point_bounds(s.drop_last(), c);
}

/// The window after adding `x` to window `w` of capacity `cap`: appended,
/// and once full the oldest dropped.
pub open spec fn pushed<T>(w: Seq<T>, cap: nat, x: T) -> Seq<T> {
    if w.len() < cap {
        w.push(x)
    } else {
        w.drop_first().push(x)
    }
}

/// The window after adding each of `xs` in turn.
pub open spec fn push_all<T>(w: Seq<T>, cap: nat, xs: Seq<T>) -> Seq<T>
    decreases xs.len(),
{
    if xs.len() == 0 {
        w
    } else {
        pushed(push_all(w, cap, xs.drop_last()), cap, xs.last())
    }
}

/// A window of capacity `cap` that started empty holds exactly the newest
/// `min(n, cap)` of the `n` fixes pushed into it, oldest first.
pub proof fn lemma_window_holds_newest<T>(cap: nat, xs: Seq<T>)
    requires
        cap >= 1,
    ensures
        push_all(Seq::<T>::empty(), cap, xs) == xs.subrange(
            if xs.len() > cap {
                xs.len() - cap
            } else {
                0
            },
            xs.len() as int,
        ),
    decreases xs.len(),
{
    if xs.len() > 0 {
        let ys = xs.drop_last();
        lemma_window_holds_newest(cap, ys);
        let prev = push_all(Seq::<T>::empty(), cap, ys);
        if ys.len() < cap {
            assert(prev.push(xs.last()) =~= xs.subrange(0, xs.len() as int));
        } else {
            assert(prev.drop_first().push(xs.last()) =~= xs.subrange(
                xs.len() - cap,
                xs.len() as int,
            ));
        }
    }
}

/// Position in storage of the `k`-th oldest of `len` slots when the newest
/// is at `head`.
pub open spec fn slot_index(head: int, len: int, k: int) -> int {
    (head + MAX_WINDOW + 1 + k - len) % (MAX_WINDOW as int)
}

/// The window of recent fixes, oldest first, holding at most `window_size`
/// (between 1 and [`MAX_WINDOW`]) of them in a ring of [`MAX_WINDOW`] slots.
/// Fixed storage: the window never allocates.
#[derive(Debug, Copy)]
pub struct SlotWindow<T> {
    /// Ring storage.
    slots: [T; MAX_WINDOW],
    /// Index of the newest slot; meaningful when `len > 0`.
    head: usize,
    len: usize,
    window_size: usize,
}

impl<T> View for SlotWindow<T> {
    type V = Seq<T>;

    closed spec fn view(&self) -> Seq<T> {
        Seq::new(self.len as nat, |k: int| self.slots@[slot_index(self.head as int, self.len as int, k)])
    }
}

impl<T> SlotWindow<T> {
    #[verifier::type_invariant]
    spec fn ring_ok(self) -> bool {
        &&& self.head < MAX_WINDOW
        &&& 1 <= self.window_size <= MAX_WINDOW
        &&& self.len <= self.window_size
    }

    /// The window length in use.
    pub closed spec fn capacity(&self) -> nat {
        self.window_size as nat
    }
}

impl<T: Copy> Clone for SlotWindow<T> {
    fn clone(&self) -> (r: Self)
        ensures
            r@ == self@,
            r.capacity() == self.capacity(),
    {
        *self
    }
}

impl<T: Copy> SlotWindow<T> {
    /// An empty window of `window_size` clamped to `1..=MAX_WINDOW`; `blank`
    /// fills the unused storage and is never read.
    pub fn new(window_size: usize, blank: T) -> (r: SlotWindow<T>)
        ensures
            r@ == Seq::<T>::empty(),
            r.capacity() == (if window_size < 1 {
                1
            } else if window_size > MAX_WINDOW {
                MAX_WINDOW as int
            } else {
                window_size as int
            }),
    {
        let size = if window_size < 1 {
            1
        } else if window_size > MAX_WINDOW {
            MAX_WINDOW
        } else {
            window_size
        };
        let r = SlotWindow { slots: [blank; MAX_WINDOW], head: 0, len: 0, window_size: size };
        assert(r@ =~= Seq::<T>::empty());
        r
    }

    /// The window size in use (clamped).
    pub fn window_size(&self) -> (r: usize)
        ensures
            r == self.capacity(),
    {
        self.window_size
    }

    /// Number of fixes currently in the window; never more than the window
    /// size.
    pub fn window_len(&self) -> (r: usize)
        ensures
            r == self@.len(),
            r <= self.capacity(),
    {
        proof {
            use_type_invariant(self);
        }
        self.len
    }

    /// Forget every fix.
    pub fn reset(&mut self)
        ensures
            final(self)@ == Seq::<T>::empty(),
            final(self).capacity() == old(self).capacity(),
    {
        proof {
            use_type_invariant(&*self);
        }
        self.len = 0;
        self.head = 0;
        assert(self@ =~= Seq::<T>::empty());
    }

    /// The `k`-th oldest fix in the window.
    pub fn get(&self, k: usize) -> (r: &T)
        requires
            k < self@.len(),
        ensures
            *r == self@[k as int],
    {
        proof {
            use_type_invariant(self);
        }
        let i = (self.head + MAX_WINDOW + 1 + k - self.len) % MAX_WINDOW;
        &self.slots[i]
    }

    /// The newest fix in the window.
    pub fn newest(&self) -> (r: &T)
        requires
            self@.len() > 0,
        ensures
            *r == self@.last(),
    {
        proof {
            use_type_invariant(self);
        }
        assert(slot_index(self.head as int, self.len as int, self.len - 1) == self.head);
        &self.slots[self.head]
    }

    /// Add the newest fix; once the window is full the oldest drops out.
    pub fn push(&mut self, slot: T)
        ensures
            final(self).capacity() == old(self).capacity(),
            final(self)@.len() <= final(self).capacity(),
            final(self)@ == pushed(old(self)@, old(self).capacity(), slot),
    {
        proof {
            use_type_invariant(&*self);
        }
        let ghost old_view = self@;
        let ghost old_slots = self.slots@;
        let ghost h = self.head as int;
        let ghost l = self.len as int;
        let nh = if self.len == 0 {
            0
        } else {
            (self.head + 1) % MAX_WINDOW
        };
        self.slots[nh] = slot;
        self.head = nh;
        if self.len < self.window_size {
            self.len = self.len + 1;
        }
        proof {
            let nhi = nh as int;
            assert(self.slots@ =~= old_slots.update(nhi, slot));
            if l == 0 {
                assert(self@ =~= old_view.push(slot));
            } else if l < self.window_size {
                assert forall|k: int| 0 <= k < l implies slot_index(nhi, l + 1, k) == slot_index(
                    h,
                    l,
                    k,
                ) && slot_index(h, l, k) != nhi by {}
                assert(slot_index(nhi, l + 1, l) == nhi);
                assert(self@ =~= old_view.push(slot));
            } else {
                assert forall|k: int| 0 <= k < l - 1 implies slot_index(nhi, l, k) == slot_index(
                    h,
                    l,
                    k + 1,
                ) && slot_index(h, l, k + 1) != nhi by {}
                assert(slot_index(nhi, l, l - 1) == nhi);
                assert(self@ =~= old_view.drop_first().push(slot));
            }
        }
    }
}

} // verus!
