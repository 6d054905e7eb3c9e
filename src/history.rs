use vstd::prelude::*;

verus! {

/// Largest number of history points kept for one key.
pub const MAX_HISTORY: usize = 200;

/// The last `cap` elements of `s` (all of `s` when it is no longer than that).
pub open spec fn keep_last<T>(s: Seq<T>, cap: nat) -> Seq<T> {
    if s.len() <= cap {
        s
    } else {
        s.subrange(s.len() - cap, s.len() as int)
    }
}

/// Evicting before or after one more push leaves the same suffix.
pub proof fn lemma_keep_last_push<T>(s: Seq<T>, x: T, cap: nat)
    requires
        cap >= 1,
    ensures
        keep_last(keep_last(s, cap).push(x), cap) == keep_last(s.push(x), cap),
{
    assert(keep_last(keep_last(s, cap).push(x), cap) =~= keep_last(s.push(x), cap));
}

/// The newest element survives eviction.
pub proof fn lemma_keep_last_newest<T>(s: Seq<T>, x: T, cap: nat)
    requires
        cap >= 1,
    ensures
        keep_last(s.push(x), cap).len() > 0,
        keep_last(s.push(x), cap).last() == x,
{
}

/// Eviction keeps the newest element.
pub proof fn lemma_keep_last_last<T>(s: Seq<T>, cap: nat)
    requires
        cap >= 1,
        s.len() >= 1,
    ensures
        keep_last(s, cap).len() > 0,
        keep_last(s, cap).last() == s.last(),
{
}

/// One observation recorded for a key: when it arrived, its price, and the
/// indicator value it produced, if any.
pub struct HistoryPoint<N> {
    pub timestamp: String,
    pub price: N,
    pub rsi: Option<N>,
}

/// What a history point says, with its timestamp as text.
pub ghost struct PointView<N> {
    pub timestamp: Seq<char>,
    pub price: N,
    pub rsi: Option<N>,
}

impl<N> View for HistoryPoint<N> {
    type V = PointView<N>;

    open spec fn view(&self) -> PointView<N> {
        PointView { timestamp: self.timestamp@, price: self.price, rsi: self.rsi }
    }
}

impl<N: Copy> HistoryPoint<N> {
    /// A second point holding the same values.
    pub fn duplicate(&self) -> (r: HistoryPoint<N>)
        ensures
            r@ == self@,
    {
        HistoryPoint { timestamp: self.timestamp.clone(), price: self.price, rsi: self.rsi }
    }
}

/// Removes the first `n` elements of `v`, keeping the order of the rest.
pub fn drop_front<T>(v: &mut Vec<T>, n: usize)
    requires
        n <= old(v)@.len(),
    ensures
        final(v)@ == old(v)@.subrange(n as int, old(v)@.len() as int),
{
    let ghost full = v@;
    let mut k: usize = 0;
    while k < n
        invariant
            k <= n,
            n <= full.len(),
            v@ == full.subrange(k as int, full.len() as int),
        decreases n - k,
    {
        v.remove(0);
        k = k + 1;
    }
}

/// Appends `x` to `v`, then evicts the oldest elements until at most `cap`
/// remain.
pub fn push_bounded<T>(v: &mut Vec<T>, x: T, cap: usize)
    requires
        old(v)@.len() <= cap,
    ensures
        final(v)@ == keep_last(old(v)@.push(x), cap as nat),
        final(v)@.len() <= cap,
{
    v.push(x);
    if v.len() > cap {
        let excess = v.len() - cap;
        drop_front(v, excess);
    }
}

} // verus!
