use vstd::prelude::*;

use crate::engine::{rsi_of, Computed, Phase, RsiCalculator, MAX_PERIOD};
use crate::history::{lemma_keep_last_last, lemma_keep_last_newest, HistoryPoint, MAX_HISTORY};

verus! {

/// An indicator value published for a key.
pub struct RsiResult<N> {
    pub key: String,
    pub rsi_value: N,
    pub price: N,
    pub timestamp: String,
    pub period_used: usize,
}

/// What a published result says, with its texts as character sequences.
pub ghost struct ResultView<N> {
    pub key: Seq<char>,
    pub rsi_value: N,
    pub price: N,
    pub timestamp: Seq<char>,
    pub period_used: nat,
}

impl<N> View for RsiResult<N> {
    type V = ResultView<N>;

    open spec fn view(&self) -> ResultView<N> {
        ResultView {
            key: self.key@,
            rsi_value: self.rsi_value,
            price: self.price,
            timestamp: self.timestamp@,
            period_used: self.period_used as nat,
        }
    }
}

impl<N: Copy> RsiResult<N> {
    /// A second result holding the same values.
    pub fn duplicate(&self) -> (r: RsiResult<N>)
        ensures
            r@ == self@,
    {
        RsiResult {
            key: self.key.clone(),
            rsi_value: self.rsi_value,
            price: self.price,
            timestamp: self.timestamp.clone(),
            period_used: self.period_used,
        }
    }
}

/// The view of an optional result.
pub open spec fn result_view<N>(r: Option<RsiResult<N>>) -> Option<ResultView<N>> {
    match r {
        Some(x) => Some(x@),
        None => None,
    }
}

/// A read-only digest of one key's state.
pub struct TokenSummary<N> {
    pub key: String,
    pub latest_price: Option<N>,
    pub latest_rsi: Option<N>,
    pub total_trades: usize,
    /// When the latest result was published, if one was.
    pub last_updated: Option<String>,
}

/// One key's indicator state and the last result published for it.
pub struct Slot<N> {
    pub calculator: RsiCalculator<N>,
    pub last_result: Option<RsiResult<N>>,
}

/// The newest of a sequence of accepted prices.
pub open spec fn newest<N>(s: Seq<N>) -> Option<N> {
    if s.len() == 0 {
        None
    } else {
        Some(s.last())
    }
}

/// The view of an optional text.
pub open spec fn text_view(t: Option<String>) -> Option<Seq<char>> {
    match t {
        Some(s) => Some(s@),
        None => None,
    }
}

/// The timestamp of an optional result.
pub open spec fn stamp_of<N>(r: Option<RsiResult<N>>) -> Option<Seq<char>> {
    match r {
        Some(x) => Some(x.timestamp@),
        None => None,
    }
}

/// The mapping from key to indicator state. Keys are added on their first
/// accepted price and never removed.
pub struct KeyStore<N> {
    period: usize,
    keys: Vec<String>,
    slots: Vec<Slot<N>>,
}

impl<N: Copy> KeyStore<N> {
    /// The look-back period given to every new key.
    pub closed spec fn period_spec(&self) -> nat {
        self.period as nat
    }

    /// The known keys, in the order they were first seen.
    pub closed spec fn keys_spec(&self) -> Seq<Seq<char>> {
        self.keys@.map_values(|k: String| k@)
    }

    closed spec fn index_spec(&self, k: Seq<char>) -> int {
        choose|i: int| 0 <= i < self.keys@.len() && self.keys@[i]@ == k
    }

    /// The indicator state of a known key.
    pub closed spec fn calculator_spec(&self, k: Seq<char>) -> RsiCalculator<N> {
        self.slots@[self.index_spec(k)].calculator
    }

    /// The last result published for a known key.
    pub closed spec fn last_result_spec(&self, k: Seq<char>) -> Option<RsiResult<N>> {
        self.slots@[self.index_spec(k)].last_result
    }

    /// The phase that the next accepted price for `k` falls in.
    pub open spec fn phase_spec(&self, k: Seq<char>) -> Phase {
        if self.keys_spec().contains(k) {
            self.calculator_spec(k).next_phase_spec()
        } else {
            Phase::Warmup
        }
    }

    /// `s` describes the current state of key `k`.
    pub open spec fn summarizes(&self, s: TokenSummary<N>, k: Seq<char>) -> bool {
        let c = self.calculator_spec(k);
        &&& s.key@ == k
        &&& s.latest_price == newest(c.accepted_spec())
        &&& s.latest_rsi == c.last_rsi_spec()
        &&& s.total_trades == c.total_spec()
        &&& text_view(s.last_updated) == stamp_of(self.last_result_spec(k))
    }

    closed spec fn keys_unique(&self) -> bool {
        forall|i: int, j: int|
            0 <= i < j < self.keys@.len() ==> (#[trigger] self.keys@[i])@ != (#[trigger] self.keys@[j])@
    }

    pub closed spec fn wf(&self) -> bool {
        &&& 1 <= self.period <= MAX_PERIOD
        &&& self.keys@.len() == self.slots@.len()
        &&& self.keys_unique()
        &&& forall|i: int| 0 <= i < self.slots@.len() ==> Self::slot_ok(#[trigger] self.slots@[i], self.keys@[i]@, self.period as nat)
    }

    /// A slot is consistent: its result, when present, is the one paired
    /// with the latest accepted price.
    pub open spec fn slot_ok(s: Slot<N>, k: Seq<char>, period: nat) -> bool {
        let c = s.calculator;
        &&& c.wf()
        &&& c.period_spec() == period
        &&& c.total_spec() >= 1
        &&& (s.last_result.is_some() <==> c.last_rsi_spec().is_some())
        &&& s.last_result.is_some() ==> {
            let x = s.last_result.unwrap();
            &&& x.key@ == k
            &&& Some(x.rsi_value) == c.last_rsi_spec()
            &&& Some(x.price) == newest(c.accepted_spec())
            &&& x.period_used == period
            &&& c.history_spec().len() > 0
            &&& x.timestamp@ == c.history_spec().last().timestamp@
        }
    }

    proof fn lemma_index(&self, i: int)
        requires
            self.keys_unique(),
            0 <= i < self.keys@.len(),
        ensures
            self.keys_spec().contains(self.keys@[i]@),
            self.index_spec(self.keys@[i]@) == i,
            self.keys_spec()[i] == self.keys@[i]@,
            self.keys_spec().len() == self.keys@.len(),
    {
        let k = self.keys@[i]@;
        assert(self.keys_spec()[i] == k);
        assert(exists|j: int| 0 <= j < self.keys@.len() && self.keys@[j]@ == k);
        let j = self.index_spec(k);
        if j != i {
            if j < i {
                assert(self.keys@[j]@ != self.keys@[i]@);
            } else {
                assert(self.keys@[i]@ != self.keys@[j]@);
            }
        }
    }

    proof fn lemma_slot(&self, j: int)
        requires
            self.wf(),
            0 <= j < self.keys_spec().len(),
        ensures
            Self::slot_ok(
                self.slots@[self.index_spec(self.keys_spec()[j])],
                self.keys_spec()[j],
                self.period as nat,
            ),
            self.calculator_spec(self.keys_spec()[j]) == self.slots@[j].calculator,
            self.last_result_spec(self.keys_spec()[j]) == self.slots@[j].last_result,
    {
        assert(self.keys_spec()[j] == self.keys@[j]@);
        self.lemma_index(j);
    }

    /// A store with no key.
    pub fn new(period: usize) -> (r: Self)
        requires
            1 <= period <= MAX_PERIOD,
        ensures
            r.wf(),
            r.period_spec() == period,
            r.keys_spec() == Seq::<Seq<char>>::empty(),
    {
        let r = KeyStore { period, keys: Vec::new(), slots: Vec::new() };
        assert(r.keys_spec() =~= Seq::<Seq<char>>::empty());
        r
    }

    /// The position of `key`, if it is known.
    fn find(&self, key: &String) -> (r: Option<usize>)
        requires
            self.wf(),
        ensures
            match r {
                Some(i) => i < self.keys@.len() && self.keys@[i as int]@ == key@ && self.index_spec(key@) == i
                    && self.keys_spec().contains(key@),
                None => !self.keys_spec().contains(key@),
            },
    {
        let mut i: usize = 0;
        while i < self.keys.len()
            invariant
                self.wf(),
                i <= self.keys@.len(),
                forall|j: int| 0 <= j < i ==> self.keys@[j]@ != key@,
            decreases self.keys@.len() - i,
        {
            if self.keys[i] == *key {
                proof {
                    self.lemma_index(i as int);
                }
                return Some(i);
            }
            i = i + 1;
        }
        proof {
            if self.keys_spec().contains(key@) {
                let j = choose|j: int| 0 <= j < self.keys_spec().len() && self.keys_spec()[j] == key@;
                assert(self.keys_spec()[j] == self.keys@[j]@);
            }
        }
        None
    }
    /// The look-back period given to every new key.
    pub fn period(&self) -> (r: usize)
        ensures
            r == self.period_spec(),
    {
        self.period
    }

    /// The phase that the next accepted price for `key` falls in.
    pub fn next_phase(&self, key: &String) -> (r: Phase)
        requires
            self.wf(),
        ensures
            r == self.phase_spec(key@),
    {
        match self.find(key) {
            Some(i) => {
                proof {
                    self.lemma_index(i as int);
                }
                self.slots[i].calculator.next_phase()
            },
            None => Phase::Warmup,
        }
    }

    /// The indicator state of `key`, if the key is known.
    pub fn calculator(&self, key: &String) -> (r: Option<&RsiCalculator<N>>)
        requires
            self.wf(),
        ensures
            match r {
                Some(c) => self.keys_spec().contains(key@) && *c == self.calculator_spec(key@)
                    && c.wf(),
                None => !self.keys_spec().contains(key@),
            },
    {
        match self.find(key) {
            Some(i) => {
                proof {
                    self.lemma_index(i as int);
                }
                Some(&self.slots[i].calculator)
            },
            None => None,
        }
    }

    /// Feeds one price for `key`, creating the key's state on its first
    /// accepted price. A price that is not `positive` changes nothing. When
    /// the price yields an indicator value, the result is recorded as the
    /// key's last result in the same step and handed back for publishing.
    pub fn update(
        &mut self,
        key: String,
        price: N,
        positive: bool,
        computed: Option<Computed<N>>,
        timestamp: String,
    ) -> (r: Option<RsiResult<N>>)
        requires
            old(self).wf(),
            positive ==> (computed.is_some() <==> old(self).phase_spec(key@) != Phase::Warmup),
            positive && old(self).keys_spec().contains(key@) ==> old(self).calculator_spec(
                key@,
            ).total_spec() < usize::MAX,
        ensures
            final(self).wf(),
            final(self).period_spec() == old(self).period_spec(),
            !positive ==> r.is_none() && *final(self) == *old(self),
            positive ==> {
                let known = old(self).keys_spec().contains(key@);
                let c = final(self).calculator_spec(key@);
                let period = old(self).period_spec();
                &&& final(self).keys_spec() == (if known {
                    old(self).keys_spec()
                } else {
                    old(self).keys_spec().push(key@)
                })
                &&& final(self).keys_spec().contains(key@)
                &&& forall|k: Seq<char>|
                    k != key@ && old(self).keys_spec().contains(k) ==> final(self).calculator_spec(k)
                        == old(self).calculator_spec(k) && final(self).last_result_spec(k)
                        == old(self).last_result_spec(k)
                &&& known ==> RsiCalculator::stepped(
                    old(self).calculator_spec(key@),
                    c,
                    price,
                    computed,
                    timestamp,
                )
                &&& !known ==> (exists|f: RsiCalculator<N>|
                    f.is_fresh(period) && RsiCalculator::stepped(f, c, price, computed, timestamp))
                &&& match rsi_of(computed) {
                    Some(v) => {
                        &&& r.is_some()
                        &&& r.unwrap()@ == (ResultView {
                            key: key@,
                            rsi_value: v,
                            price,
                            timestamp: timestamp@,
                            period_used: period,
                        })
                        &&& result_view(final(self).last_result_spec(key@)) == result_view(r)
                    },
                    None => {
                        &&& r.is_none()
                        &&& final(self).last_result_spec(key@) == (if known {
                            old(self).last_result_spec(key@)
                        } else {
                            None
                        })
                    },
                }
            },
    {
        if !positive {
            return None;
        }
        let found = self.find(&key);
        let i = match found {
            Some(i) => i,
            None => {
                let fresh = RsiCalculator::new(self.period);
                self.keys.push(key.clone());
                self.slots.push(Slot { calculator: fresh, last_result: None });
                let ghost prior = *old(self);
                proof {
                    assert(self.keys_spec() =~= prior.keys_spec().push(key@));
                    assert forall|a: int, b: int|
                        0 <= a < b < self.keys@.len() implies (#[trigger] self.keys@[a])@
                        != (#[trigger] self.keys@[b])@ by {
                        if b == self.keys@.len() - 1 {
                            assert(prior.keys_spec()[a] == prior.keys@[a]@);
                        }
                    }
                }
                self.keys.len() - 1
            },
        };
        let ghost mid = *self;
        proof {
            mid.lemma_index(i as int);
        }
        let stamp = timestamp.clone();
        let rsi = self.slots[i].calculator.add_price(price, true, computed, timestamp);
        let r = match rsi {
            Some(v) => {
                let result = RsiResult {
                    key,
                    rsi_value: v,
                    price,
                    timestamp: stamp,
                    period_used: self.period,
                };
                let out = result.duplicate();
                self.slots[i].last_result = Some(result);
                Some(out)
            },
            None => None,
        };
        proof {
            assert forall|j: int| 0 <= j < self.slots@.len() implies Self::slot_ok(
                #[trigger] self.slots@[j],
                self.keys@[j]@,
                self.period as nat,
            ) by {
                if j == i {
                    let c = self.slots@[j].calculator;
                    let before = mid.slots@[j].calculator;
                    assert(c.history_spec().len() > 0);
                    c.lemma_wf();
                    before.lemma_wf();
                    lemma_keep_last_newest(before.history_spec(), c.points_spec().last(), MAX_HISTORY as nat);
                    if j < old(self).slots@.len() {
                        assert(Self::slot_ok(old(self).slots@[j], old(self).keys@[j]@, self.period as nat));
                    }
                } else {
                    assert(self.slots@[j] == mid.slots@[j]);
                    assert(mid.slots@[j] == old(self).slots@[j]);
                    assert(Self::slot_ok(old(self).slots@[j], old(self).keys@[j]@, self.period as nat));
                }
            }
            self.lemma_index(i as int);
            assert forall|k: Seq<char>|
                k != key@ && old(self).keys_spec().contains(k) implies self.calculator_spec(k)
                == old(self).calculator_spec(k) && self.last_result_spec(k)
                == old(self).last_result_spec(k) by {
                let j = choose|j: int| 0 <= j < old(self).keys_spec().len() && old(self).keys_spec()[j] == k;
                old(self).lemma_index(j);
                assert(mid.keys_spec()[j] == mid.keys@[j]@);
                mid.lemma_index(j);
                self.lemma_index(j);
            }
        }
        r
    }

    fn summary_at(&self, i: usize) -> (r: TokenSummary<N>)
        requires
            self.wf(),
            i < self.keys@.len(),
        ensures
            self.summarizes(r, self.keys@[i as int]@),
    {
        proof {
            self.lemma_index(i as int);
            self.slots@[i as int].calculator.lemma_wf();
        }
        let slot = &self.slots[i];
        let last_updated = match &slot.last_result {
            Some(x) => Some(x.timestamp.clone()),
            None => None,
        };
        TokenSummary {
            key: self.keys[i].clone(),
            latest_price: slot.calculator.latest_price(),
            latest_rsi: slot.calculator.latest_rsi(),
            total_trades: slot.calculator.total_trades(),
            last_updated,
        }
    }

    /// The summary of `key`, or `None` when the key is unknown.
    pub fn snapshot(&self, key: &String) -> (r: Option<TokenSummary<N>>)
        requires
            self.wf(),
        ensures
            r.is_some() <==> self.keys_spec().contains(key@),
            r.is_some() ==> self.summarizes(r.unwrap(), key@),
    {
        match self.find(key) {
            Some(i) => Some(self.summary_at(i)),
            None => None,
        }
    }

    /// The summaries of all known keys, in the order of `keys`.
    pub fn snapshot_all(&self) -> (r: Vec<TokenSummary<N>>)
        requires
            self.wf(),
        ensures
            r@.len() == self.keys_spec().len(),
            forall|i: int| 0 <= i < r@.len() ==> self.summarizes(#[trigger] r@[i], self.keys_spec()[i]),
    {
        let mut out: Vec<TokenSummary<N>> = Vec::new();
        let mut i: usize = 0;
        while i < self.keys.len()
            invariant
                self.wf(),
                i <= self.keys@.len(),
                out@.len() == i,
                forall|j: int| 0 <= j < i ==> self.summarizes(#[trigger] out@[j], self.keys_spec()[j]),
            decreases self.keys@.len() - i,
        {
            proof {
                self.lemma_index(i as int);
            }
            out.push(self.summary_at(i));
            i = i + 1;
        }
        proof {
            if self.keys@.len() > 0 {
                self.lemma_index(0);
            } else {
                assert(self.keys_spec().len() == 0);
            }
        }
        out
    }

    /// The retained history of `key`, oldest first, or `None` when the key
    /// is unknown.
    pub fn history(&self, key: &String) -> (r: Option<Vec<HistoryPoint<N>>>)
        requires
            self.wf(),
        ensures
            r.is_some() <==> self.keys_spec().contains(key@),
            r.is_some() ==> {
                let h = self.calculator_spec(key@).history_spec();
                &&& r.unwrap()@.len() == h.len()
                &&& forall|j: int| 0 <= j < h.len() ==> (#[trigger] r.unwrap()@[j])@ == h[j]@
            },
    {
        match self.find(key) {
            Some(i) => {
                let h = self.slots[i].calculator.history();
                let mut out: Vec<HistoryPoint<N>> = Vec::new();
                let mut j: usize = 0;
                while j < h.len()
                    invariant
                        j <= h@.len(),
                        out@.len() == j,
                        forall|m: int| 0 <= m < j ==> (#[trigger] out@[m])@ == h@[m]@,
                    decreases h@.len() - j,
                {
                    out.push(h[j].duplicate());
                    j = j + 1;
                }
                Some(out)
            },
            None => None,
        }
    }

    /// All known keys, in the order they were first seen.
    pub fn keys(&self) -> (r: Vec<String>)
        requires
            self.wf(),
        ensures
            r@.len() == self.keys_spec().len(),
            forall|i: int| 0 <= i < r@.len() ==> (#[trigger] r@[i])@ == self.keys_spec()[i],
    {
        let mut out: Vec<String> = Vec::new();
        let mut i: usize = 0;
        while i < self.keys.len()
            invariant
                self.wf(),
                i <= self.keys@.len(),
                out@.len() == i,
                forall|j: int| 0 <= j < i ==> (#[trigger] out@[j])@ == self.keys_spec()[j],
            decreases self.keys@.len() - i,
        {
            proof {
                self.lemma_index(i as int);
            }
            out.push(self.keys[i].clone());
            i = i + 1;
        }
        proof {
            if self.keys@.len() > 0 {
                self.lemma_index(0);
            } else {
                assert(self.keys_spec().len() == 0);
            }
        }
        out
    }
}

/// In every state of a well-formed store, a key's summary pairs the latest
/// accepted price with the indicator value that price produced, and its
/// update time is that of the result published for that same price: a
/// reader never sees the price of one update with the value of another.
pub proof fn law_summary_is_paired<N: Copy>(store: KeyStore<N>, k: Seq<char>, s: TokenSummary<N>)
    requires
        store.wf(),
        store.keys_spec().contains(k),
        store.summarizes(s, k),
    ensures
        ({
            let c = store.calculator_spec(k);
            let last = c.points_spec().last();
            &&& c.total_spec() >= 1
            &&& s.latest_price == Some(last.price)
            &&& s.latest_rsi == last.rsi
            &&& s.last_updated.is_some() <==> s.latest_rsi.is_some()
            &&& s.last_updated.is_some() ==> s.last_updated.unwrap()@ == last.timestamp@
        }),
{
    let j = choose|j: int| 0 <= j < store.keys_spec().len() && store.keys_spec()[j] == k;
    store.lemma_slot(j);
    let c = store.calculator_spec(k);
    c.lemma_wf();
    let pts = c.points_spec();
    assert(pts.last() == pts[pts.len() - 1]);
    assert(c.accepted_spec().last() == c.accepted_spec()[pts.len() - 1]);
    if c.total_spec() >= 1 {
        lemma_keep_last_last(pts, MAX_HISTORY as nat);
    }
}

} // verus!
