//! Fixed-window median filter (no heap).
//!
//! The median of a window is characterised by counting: `m` is the median of
//! `s` when at most `len / 2` samples lie strictly below `m` and more than
//! `len / 2` samples lie at or below it. That value exists for every
//! non-empty window, is unique, and is always one of the samples.
use vstd::prelude::*;
use vstd::arithmetic::div_mod::{lemma_mod_self_0, lemma_small_mod};

verus! {

/// Sentinel for "no valid reading". It sorts above every real distance, so a
/// lone dropout is outvoted like any other outlier, while a majority of
/// dropouts makes the median itself `NO_READING`.
pub const NO_READING: u16 = 0xffff;

// ---------------------------------------------------------------------------
// Counting samples
// ---------------------------------------------------------------------------

/// Number of samples of `s` that satisfy `p`.
pub open spec fn count_where(s: Seq<u16>, p: spec_fn(u16) -> bool) -> nat
    decreases s.len(),
{
    if s.len() == 0 {
        0
    } else {
        count_where(s.drop_last(), p) + if p(s.last()) { 1nat } else { 0nat }
    }
}

/// Samples strictly below `v`.
pub open spec fn below(v: u16) -> spec_fn(u16) -> bool {
    |x: u16| x < v
}

/// Samples at or below `v`.
pub open spec fn at_most(v: u16) -> spec_fn(u16) -> bool {
    |x: u16| x <= v
}

/// Samples within `lo..=hi`.
pub open spec fn within(lo: u16, hi: u16) -> spec_fn(u16) -> bool {
    |x: u16| lo <= x && x <= hi
}

/// `m` is the median of `s`: fewer than half of the samples lie below it, more
/// than half lie at or below it.
pub open spec fn is_median(s: Seq<u16>, m: u16) -> bool {
    &&& count_where(s, below(m)) <= s.len() / 2
    &&& s.len() / 2 < count_where(s, at_most(m))
}

/// Counting over a concatenation adds up.
pub proof fn lemma_count_add(a: Seq<u16>, b: Seq<u16>, p: spec_fn(u16) -> bool)
    ensures
        count_where(a + b, p) == count_where(a, p) + count_where(b, p),
    decreases b.len(),
{
    if b.len() == 0 {
        assert(a + b =~= a);
    } else {
        lemma_count_add(a, b.drop_last(), p);
        assert((a + b).drop_last() =~= a + b.drop_last());
        assert((a + b).last() == b.last());
    }
}

/// A count never exceeds the number of samples.
pub proof fn lemma_count_le_len(s: Seq<u16>, p: spec_fn(u16) -> bool)
    ensures
        count_where(s, p) <= s.len(),
    decreases s.len(),
{
    if s.len() > 0 {
        lemma_count_le_len(s.drop_last(), p);
    }
}

/// Where every sample satisfies `p`, all of them are counted; where none does,
/// none is.
pub proof fn lemma_count_all_or_none(s: Seq<u16>, p: spec_fn(u16) -> bool)
    ensures
        (forall|i: int| 0 <= i < s.len() ==> #[trigger] p(s[i])) ==> count_where(s, p) == s.len(),
        (forall|i: int| 0 <= i < s.len() ==> !#[trigger] p(s[i])) ==> count_where(s, p) == 0,
    decreases s.len(),
{
    if s.len() > 0 {
        lemma_count_all_or_none(s.drop_last(), p);
        if forall|i: int| 0 <= i < s.len() ==> #[trigger] p(s[i]) {
            assert forall|i: int| 0 <= i < s.drop_last().len() implies #[trigger] p(
                s.drop_last()[i],
            ) by {
                assert(p(s[i]));
            }
            assert(p(s[s.len() - 1]));
        }
        if forall|i: int| 0 <= i < s.len() ==> !#[trigger] p(s[i]) {
            assert forall|i: int| 0 <= i < s.drop_last().len() implies !#[trigger] p(
                s.drop_last()[i],
            ) by {
                assert(!p(s[i]));
            }
            assert(!p(s[s.len() - 1]));
        }
    }
}

/// A predicate implied by another, on the samples of `s`, counts at least as
/// many of them.
pub proof fn lemma_count_mono(s: Seq<u16>, p: spec_fn(u16) -> bool, q: spec_fn(u16) -> bool)
    requires
        forall|i: int| 0 <= i < s.len() && #[trigger] p(s[i]) ==> q(s[i]),
    ensures
        count_where(s, p) <= count_where(s, q),
    decreases s.len(),
{
    if s.len() > 0 {
        assert forall|i: int| 0 <= i < s.drop_last().len() && #[trigger] p(s.drop_last()[i]) implies q(
            s.drop_last()[i],
        ) by {
            assert(p(s[i]));
        }
        lemma_count_mono(s.drop_last(), p, q);
        if p(s.last()) {
            assert(p(s[s.len() - 1]));
        }
    }
}

/// Two predicates that no sample satisfies together count at most all the
/// samples between them.
pub proof fn lemma_count_disjoint(s: Seq<u16>, p: spec_fn(u16) -> bool, q: spec_fn(u16) -> bool)
    requires
        forall|i: int| 0 <= i < s.len() && #[trigger] p(s[i]) ==> !q(s[i]),
    ensures
        count_where(s, p) + count_where(s, q) <= s.len(),
    decreases s.len(),
{
    if s.len() > 0 {
        assert forall|i: int|
            0 <= i < s.drop_last().len() && #[trigger] p(s.drop_last()[i]) implies !q(
            s.drop_last()[i],
        ) by {
            assert(p(s[i]));
        }
        lemma_count_disjoint(s.drop_last(), p, q);
        if p(s.last()) {
            assert(p(s[s.len() - 1]));
        }
    }
}

/// Counting over two samples.
proof fn lemma_count_pair(x: u16, y: u16, p: spec_fn(u16) -> bool)
    ensures
        count_where(seq![x, y], p) == (if p(x) { 1nat } else { 0nat }) + (if p(y) { 1nat } else { 0nat }),
{
    assert(seq![x, y].drop_last() =~= seq![x]);
    assert(seq![x].drop_last() =~= Seq::<u16>::empty());
    assert(count_where(Seq::<u16>::empty(), p) == 0);
    assert(seq![x].len() == 1 && seq![x].last() == x);
    assert(seq![x, y].len() == 2 && seq![x, y].last() == y);
    assert(count_where(seq![x], p) == (if p(x) { 1nat } else { 0nat }));
}

/// Swapping two neighbouring samples changes no count.
pub proof fn lemma_count_swap(s: Seq<u16>, j: int, p: spec_fn(u16) -> bool)
    requires
        0 <= j,
        j + 1 < s.len(),
    ensures
        count_where(s.update(j, s[j + 1]).update(j + 1, s[j]), p) == count_where(s, p),
{
    let t = s.update(j, s[j + 1]).update(j + 1, s[j]);
    let pre = s.take(j);
    let post = s.skip(j + 2);
    assert(s =~= pre + seq![s[j], s[j + 1]] + post);
    assert(t =~= pre + seq![s[j + 1], s[j]] + post);
    lemma_count_add(pre + seq![s[j], s[j + 1]], post, p);
    lemma_count_add(pre, seq![s[j], s[j + 1]], p);
    lemma_count_add(pre + seq![s[j + 1], s[j]], post, p);
    lemma_count_add(pre, seq![s[j + 1], s[j]], p);
    lemma_count_pair(s[j], s[j + 1], p);
    lemma_count_pair(s[j + 1], s[j], p);
}

/// Rotating a window changes no count.
pub proof fn lemma_count_rotate(s: Seq<u16>, k: int, p: spec_fn(u16) -> bool)
    requires
        0 <= k <= s.len(),
    ensures
        count_where(s.skip(k) + s.take(k), p) == count_where(s, p),
{
    lemma_count_add(s.skip(k), s.take(k), p);
    lemma_count_add(s.take(k), s.skip(k), p);
    assert(s.take(k) + s.skip(k) =~= s);
}

// ---------------------------------------------------------------------------
// Laws of the median
// ---------------------------------------------------------------------------

/// A window has at most one median.
pub proof fn lemma_median_unique(s: Seq<u16>, m1: u16, m2: u16)
    requires
        is_median(s, m1),
        is_median(s, m2),
    ensures
        m1 == m2,
{
    if m1 < m2 {
        lemma_count_mono(s, at_most(m1), below(m2));
    } else if m2 < m1 {
        lemma_count_mono(s, at_most(m2), below(m1));
    }
}

/// The median is one of the samples.
pub proof fn lemma_median_is_a_sample(s: Seq<u16>, m: u16)
    requires
        is_median(s, m),
    ensures
        s.contains(m),
{
    if !s.contains(m) {
        assert forall|i: int| 0 <= i < s.len() && #[trigger] at_most(m)(s[i]) implies below(m)(
            s[i],
        ) by {
            assert(s[i] != m);
        }
        lemma_count_mono(s, at_most(m), below(m));
    }
}

/// Where more than half of the samples lie within `lo..=hi`, so does the
/// median: a minority of outliers (spikes, dropouts) never reaches it.
pub proof fn lemma_majority_bounds_median(s: Seq<u16>, lo: u16, hi: u16, m: u16)
    requires
        is_median(s, m),
        count_where(s, within(lo, hi)) > s.len() / 2,
    ensures
        lo <= m <= hi,
{
    if m < lo {
        lemma_count_disjoint(s, at_most(m), within(lo, hi));
    }
    if m > hi {
        lemma_count_mono(s, within(lo, hi), below(m));
    }
}

/// A window holding one value throughout has that value as its median.
pub proof fn lemma_constant_window_median(s: Seq<u16>, v: u16, m: u16)
    requires
        s.len() > 0,
        forall|i: int| 0 <= i < s.len() ==> s[i] == v,
        is_median(s, m),
    ensures
        m == v,
{
    assert forall|i: int| 0 <= i < s.len() implies #[trigger] within(v, v)(s[i]) by {}
    lemma_count_all_or_none(s, within(v, v));
    lemma_majority_bounds_median(s, v, v, m);
}

/// The element in the middle of a sorted window is its median.
pub proof fn lemma_middle_of_sorted_is_median(s: Seq<u16>)
    requires
        s.len() > 0,
        forall|a: int, b: int| 0 <= a <= b < s.len() ==> s[a] <= s[b],
    ensures
        is_median(s, s[(s.len() / 2) as int]),
{
    let k: int = (s.len() / 2) as int;
    let m = s[k];
    let lower = s.take(k);
    let upper = s.skip(k);
    assert(s =~= lower + upper);
    lemma_count_add(lower, upper, below(m));
    lemma_count_le_len(lower, below(m));
    assert forall|i: int| 0 <= i < upper.len() implies !#[trigger] below(m)(upper[i]) by {
        assert(upper[i] == s[k + i]);
    }
    lemma_count_all_or_none(upper, below(m));
    let lower1 = s.take(k + 1);
    let upper1 = s.skip(k + 1);
    assert(s =~= lower1 + upper1);
    lemma_count_add(lower1, upper1, at_most(m));
    assert forall|i: int| 0 <= i < lower1.len() implies #[trigger] at_most(m)(lower1[i]) by {
        assert(lower1[i] == s[i]);
    }
    lemma_count_all_or_none(lower1, at_most(m));
}

// ---------------------------------------------------------------------------
// The filter
// ---------------------------------------------------------------------------

/// The last (at most) `n` elements of `s`.
pub open spec fn last_n(s: Seq<u16>, n: nat) -> Seq<u16> {
    if s.len() <= n {
        s
    } else {
        s.skip(s.len() - n)
    }
}

/// Median of the last `N` samples. `N` must be odd.
#[derive(Clone, Copy)]
pub struct MedianFilter<const N: usize> {
    window: [u16; N],
    /// Where the next value is written; wraps around `N`.
    next: usize,
    /// How many slots hold samples of the current history.
    len: usize,
}

impl<const N: usize> View for MedianFilter<N> {
    type V = Seq<u16>;

    /// The samples of the current history, oldest first (at most `N`).
    closed spec fn view(&self) -> Seq<u16> {
        if self.len < N {
            self.window@.take(self.len as int)
        } else {
            self.window@.skip(self.next as int) + self.window@.take(self.next as int)
        }
    }
}

impl<const N: usize> MedianFilter<N> {
    /// Well-formedness: the window size is odd and the cursor is consistent
    /// with the number of samples held.
    pub closed spec fn wf(&self) -> bool {
        &&& N % 2 == 1
        &&& self.len <= N
        &&& self.next < N
        &&& self.len < N ==> self.next == self.len
    }

    pub fn new() -> (f: Self)
        requires
            N % 2 == 1,
        ensures
            f.wf(),
            f@ == Seq::<u16>::empty(),
    {
        MedianFilter { window: [0u16; N], next: 0, len: 0 }
    }

    /// Feed one sample. Returns `None` until the window is full, then the
    /// median of the most recent `N` samples.
    pub fn push(&mut self, sample: u16) -> (r: Option<u16>)
        requires
            old(self).wf(),
        ensures
            final(self).wf(),
            final(self)@ == last_n(old(self)@.push(sample), N as nat),
            final(self)@.len() < N ==> r is None,
            final(self)@.len() == N ==> (r matches Some(m) && is_median(final(self)@, m)),
    {
        let ghost old_view = self@;
        let ghost old_window = self.window@;
        let ghost was_full = self.len == N;
        self.window[self.next] = sample;
        proof {
            if self.next + 1 < N {
                lemma_small_mod((self.next + 1) as nat, N as nat);
            } else {
                lemma_mod_self_0(N as int);
            }
        }
        self.next = (self.next + 1) % N;
        if self.len < N {
            self.len += 1;
        }
        proof {
            let w = self.window@;
            if !was_full {
                assert(w.take(self.len as int) =~= old_window.take(self.len - 1).push(sample));
                assert(old_view.push(sample).len() <= N);
                if self.len == N {
                    assert(self.next == 0);
                    assert(w.skip(0) =~= w);
                    assert(w.take(0) =~= Seq::<u16>::empty());
                    assert(w.skip(0) + w.take(0) =~= w.take(self.len as int));
                }
            } else {
                let k = old(self).next as int;
                let s = old_view.push(sample);
                assert(s.len() == N + 1);
                if k + 1 < N {
                    assert(self@ =~= s.skip(1));
                } else {
                    assert(self.next == 0);
                    assert(self@ =~= s.skip(1));
                }
            }
        }
        if self.len < N {
            return None;
        }
        let m = self.median();
        Some(m)
    }

    /// Forget all history.
    pub fn reset(&mut self)
        requires
            old(self).wf(),
        ensures
            final(self).wf(),
            final(self)@ == Seq::<u16>::empty(),
    {
        self.next = 0;
        self.len = 0;
    }

    /// Median of a full window: sorts a copy of it and takes the middle.
    fn median(&self) -> (m: u16)
        requires
            self.wf(),
            self.len == N,
        ensures
            is_median(self@, m),
    {
        let mut sorted = self.window;
        let ghost original = self.window@;
        let mut pass: usize = 0;
        while pass < N
            invariant
                N % 2 == 1,
                pass <= N,
                sorted@.len() == N,
                forall|p: spec_fn(u16) -> bool| #[trigger]
                    count_where(sorted@, p) == count_where(original, p),
                forall|a: int, b: int|
                    N - pass <= a <= b < N ==> sorted@[a] <= sorted@[b],
                forall|a: int, b: int|
                    0 <= a < N - pass <= b < N ==> sorted@[a] <= sorted@[b],
            decreases N - pass,
        {
            let end = N - pass;
            let mut j: usize = 0;
            while j + 1 < end
                invariant
                    N % 2 == 1,
                    pass < N,
                    end == N - pass,
                    j < end,
                    sorted@.len() == N,
                    forall|p: spec_fn(u16) -> bool| #[trigger]
                        count_where(sorted@, p) == count_where(original, p),
                    forall|a: int, b: int|
                        N - pass <= a <= b < N ==> sorted@[a] <= sorted@[b],
                    forall|a: int, b: int|
                        0 <= a < N - pass <= b < N ==> sorted@[a] <= sorted@[b],
                    forall|a: int| 0 <= a <= j ==> sorted@[a] <= sorted@[j as int],
                decreases end - j,
            {
                if sorted[j] > sorted[j + 1] {
                    let ghost before = sorted@;
                    let x = sorted[j];
                    let y = sorted[j + 1];
                    sorted[j] = y;
                    sorted[j + 1] = x;
                    proof {
                        assert(sorted@ =~= before.update(j as int, before[j + 1]).update(
                            j + 1,
                            before[j as int],
                        ));
                        assert forall|p: spec_fn(u16) -> bool| #[trigger]
                            count_where(sorted@, p) == count_where(original, p) by {
                            lemma_count_swap(before, j as int, p);
                        }
                    }
                }
                j += 1;
            }
            pass += 1;
        }
        proof {
            lemma_middle_of_sorted_is_median(sorted@);
            let k = self.next as int;
            assert forall|p: spec_fn(u16) -> bool| #[trigger]
                count_where(self@, p) == count_where(sorted@, p) by {
                lemma_count_rotate(original, k, p);
            }
            assert(count_where(self@, below(sorted@[(N / 2) as int])) == count_where(
                sorted@,
                below(sorted@[(N / 2) as int]),
            ));
            assert(count_where(self@, at_most(sorted@[(N / 2) as int])) == count_where(
                sorted@,
                at_most(sorted@[(N / 2) as int]),
            ));
        }
        sorted[N / 2]
    }
}

} // verus!
