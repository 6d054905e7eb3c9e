use vstd::prelude::*;

use crate::history::{keep_last, lemma_keep_last_push, push_bounded, drop_front, HistoryPoint, MAX_HISTORY};

verus! {

/// Largest look-back period a calculator accepts.
pub const MAX_PERIOD: usize = 1000000;

/// How the next accepted price is handled.
#[derive(PartialEq, Eq, Structural, Clone, Copy, Debug)]
pub enum Phase {
    /// Too few prices so far: the price is only recorded.
    Warmup,
    /// The price completes the first window: the averages are seeded from
    /// the simple mean of its `period` changes.
    Priming,
    /// The averages are carried forward by Wilder's recursion.
    Smoothing,
}

/// The phase of the `count`-th accepted price (counting from one).
pub open spec fn phase_at(count: nat, period: nat) -> Phase {
    if count <= period {
        Phase::Warmup
    } else if count == period + 1 {
        Phase::Priming
    } else {
        Phase::Smoothing
    }
}

/// The price buffer after one more price: once it holds more than
/// `period + 100` prices it is cut down to the newest `period + 50`.
pub open spec fn trim_prices<N>(s: Seq<N>, period: nat) -> Seq<N> {
    if s.len() > period + 100 {
        s.subrange(s.len() - (period + 50), s.len() as int)
    } else {
        s
    }
}

/// The numbers worked out for one price that leaves the warm-up: the new
/// average gain and loss and the indicator derived from them.
#[derive(Clone, Copy, Debug)]
pub struct Computed<N> {
    pub avg_gain: N,
    pub avg_loss: N,
    pub rsi: N,
}

/// The indicator value carried by an optional computation.
pub open spec fn rsi_of<N>(c: Option<Computed<N>>) -> Option<N> {
    match c {
        Some(c) => Some(c.rsi),
        None => None,
    }
}

/// Per-key indicator state: the recent prices, Wilder's running averages,
/// the tick count and a bounded history of what each tick produced.
///
/// The arithmetic on prices is supplied by the caller as a `Computed` value;
/// this type decides when it is owed and keeps every record consistent.
pub struct RsiCalculator<N> {
    period: usize,
    prices: Vec<N>,
    averages: Option<(N, N)>,
    total_trades: usize,
    history: Vec<HistoryPoint<N>>,
    last_rsi: Option<N>,
    accepted: Ghost<Seq<N>>,
    points: Ghost<Seq<HistoryPoint<N>>>,
}

impl<N: Copy> RsiCalculator<N> {
    /// The look-back period.
    pub closed spec fn period_spec(&self) -> nat {
        self.period as nat
    }

    /// The retained price buffer, oldest first.
    pub closed spec fn prices_spec(&self) -> Seq<N> {
        self.prices@
    }

    /// The running average gain and loss, once primed.
    pub closed spec fn averages_spec(&self) -> Option<(N, N)> {
        self.averages
    }

    /// How many prices have been accepted.
    pub closed spec fn total_spec(&self) -> nat {
        self.total_trades as nat
    }

    /// The retained history, oldest first.
    pub closed spec fn history_spec(&self) -> Seq<HistoryPoint<N>> {
        self.history@
    }

    /// The indicator value of the latest accepted price.
    pub closed spec fn last_rsi_spec(&self) -> Option<N> {
        self.last_rsi
    }

    /// Every price ever accepted, oldest first.
    pub closed spec fn accepted_spec(&self) -> Seq<N> {
        self.accepted@
    }

    /// The point recorded for every accepted price, oldest first, evicted
    /// or not.
    pub closed spec fn points_spec(&self) -> Seq<HistoryPoint<N>> {
        self.points@
    }

    /// The phase that the next accepted price falls in.
    pub open spec fn next_phase_spec(&self) -> Phase {
        phase_at(self.total_spec() + 1, self.period_spec())
    }

    /// `after` is `before` with one more accepted price, recorded at
    /// `timestamp`, whose averages and indicator value are `computed`
    /// (absent during the warm-up).
    pub open spec fn stepped(
        before: Self,
        after: Self,
        price: N,
        computed: Option<Computed<N>>,
        timestamp: String,
    ) -> bool {
        let point = HistoryPoint { timestamp, price, rsi: rsi_of(computed) };
        &&& after.wf()
        &&& after.period_spec() == before.period_spec()
        &&& after.total_spec() == before.total_spec() + 1
        &&& after.accepted_spec() == before.accepted_spec().push(price)
        &&& after.points_spec() == before.points_spec().push(point)
        &&& after.prices_spec() == trim_prices(before.prices_spec().push(price), before.period_spec())
        &&& after.averages_spec() == match computed {
            Some(c) => Some((c.avg_gain, c.avg_loss)),
            None => before.averages_spec(),
        }
        &&& after.history_spec() == keep_last(before.history_spec().push(point), MAX_HISTORY as nat)
        &&& after.last_rsi_spec() == rsi_of(computed)
    }

    /// A calculator with look-back `period` that has seen no price.
    pub open spec fn is_fresh(&self, period: nat) -> bool {
        &&& self.wf()
        &&& self.period_spec() == period
        &&& self.total_spec() == 0
        &&& self.accepted_spec() == Seq::<N>::empty()
        &&& self.points_spec() == Seq::<HistoryPoint<N>>::empty()
        &&& self.prices_spec() == Seq::<N>::empty()
        &&& self.history_spec() == Seq::<HistoryPoint<N>>::empty()
        &&& self.averages_spec() == None::<(N, N)>
        &&& self.last_rsi_spec() == None::<N>
    }

    pub closed spec fn wf(&self) -> bool {
        let acc = self.accepted@;
        let pts = self.points@;
        &&& 1 <= self.period <= MAX_PERIOD
        &&& self.total_trades == acc.len()
        &&& pts.len() == acc.len()
        &&& self.prices@.len() <= self.period + 100
        &&& self.prices@.len() <= acc.len()
        &&& self.prices@ == acc.subrange(acc.len() - self.prices@.len(), acc.len() as int)
        &&& (self.prices@.len() == acc.len() || self.prices@.len() >= self.period + 50)
        &&& (acc.len() <= self.period + 100 ==> self.prices@.len() == acc.len())
        &&& (self.averages.is_some() <==> acc.len() > self.period)
        &&& self.history@ == keep_last(pts, MAX_HISTORY as nat)
        &&& forall|i: int|
            0 <= i < pts.len() ==> (#[trigger] pts[i]).price == acc[i] && (pts[i].rsi.is_some()
                <==> i >= self.period)
        &&& self.last_rsi == (if pts.len() == 0 {
            None
        } else {
            pts.last().rsi
        })
    }

    /// What a well-formed calculator guarantees: the averages and the
    /// indicator value exist exactly once more than `period` prices were
    /// accepted; the history is the newest points, each pairing an accepted
    /// price with the value it produced; the buffer ends with the newest
    /// accepted price.
    pub proof fn lemma_wf(&self)
        requires
            self.wf(),
        ensures
            1 <= self.period_spec() <= MAX_PERIOD,
            self.accepted_spec().len() == self.total_spec(),
            self.points_spec().len() == self.total_spec(),
            self.last_rsi_spec().is_some() <==> self.total_spec() > self.period_spec(),
            self.averages_spec().is_some() <==> self.total_spec() > self.period_spec(),
            self.last_rsi_spec() == (if self.total_spec() == 0 {
                None
            } else {
                self.points_spec().last().rsi
            }),
            self.history_spec() == keep_last(self.points_spec(), MAX_HISTORY as nat),
            self.history_spec().len() <= MAX_HISTORY,
            forall|i: int|
                0 <= i < self.points_spec().len() ==> (#[trigger] self.points_spec()[i]).price
                    == self.accepted_spec()[i] && (self.points_spec()[i].rsi.is_some() <==> i
                    >= self.period_spec()),
            self.prices_spec().len() <= self.period_spec() + 100,
            self.prices_spec().len() == 0 <==> self.total_spec() == 0,
            self.prices_spec().len() > 0 ==> self.prices_spec().last() == self.accepted_spec().last(),
            self.total_spec() <= self.period_spec() + 100 ==> self.prices_spec()
                == self.accepted_spec(),
    {
        let pts = self.points@;
        if pts.len() > 0 {
            assert(pts.last() == pts[pts.len() - 1]);
            let _ = pts[pts.len() - 1].rsi;
        }
        if self.prices@.len() > 0 {
            let acc = self.accepted@;
            assert(self.prices@.last() == acc.subrange(acc.len() - self.prices@.len(), acc.len() as int)[self.prices@.len() - 1]);
        }
        if self.total_trades <= self.period + 100 {
            assert(self.prices@ =~= self.accepted@.subrange(0, self.accepted@.len() as int));
            assert(self.accepted@.subrange(0, self.accepted@.len() as int) =~= self.accepted@);
        }
    }

    /// A calculator that has seen no price.
    pub fn new(period: usize) -> (r: Self)
        requires
            1 <= period <= MAX_PERIOD,
        ensures
            r.is_fresh(period as nat),
    {
        proof {
            assert(Seq::<N>::empty().subrange(0, 0) =~= Seq::<N>::empty());
        }
        RsiCalculator {
            period,
            prices: Vec::new(),
            averages: None,
            total_trades: 0,
            history: Vec::new(),
            last_rsi: None,
            accepted: Ghost(Seq::empty()),
            points: Ghost(Seq::empty()),
        }
    }

    /// The phase that the next accepted price falls in.
    pub fn next_phase(&self) -> (r: Phase)
        requires
            self.wf(),
        ensures
            r == self.next_phase_spec(),
    {
        if self.total_trades < self.period {
            Phase::Warmup
        } else if self.total_trades == self.period {
            Phase::Priming
        } else {
            Phase::Smoothing
        }
    }

    /// Feeds one price. A price that is not `positive` is rejected and
    /// changes nothing. An accepted price is counted, buffered and recorded
    /// in the history with the indicator value of `computed`, which is
    /// present exactly when the price leaves the warm-up.
    pub fn add_price(&mut self, price: N, positive: bool, computed: Option<Computed<N>>, timestamp: String) -> (r: Option<N>)
        requires
            old(self).wf(),
            old(self).total_spec() < usize::MAX,
            positive ==> (computed.is_some() <==> old(self).next_phase_spec() != Phase::Warmup),
        ensures
            final(self).wf(),
            !positive ==> r == None::<N> && *final(self) == *old(self),
            positive ==> r == rsi_of(computed) && Self::stepped(
                *old(self),
                *final(self),
                price,
                computed,
                timestamp,
            ),
    {
        if !positive {
            return None;
        }
        let rsi = match computed {
            Some(c) => {
                self.averages = Some((c.avg_gain, c.avg_loss));
                Some(c.rsi)
            },
            None => None,
        };
        let ghost old_pts = self.points@;
        let ghost old_acc = self.accepted@;
        let point = HistoryPoint { timestamp, price, rsi };
        proof {
            self.accepted@ = old_acc.push(price);
            self.points@ = old_pts.push(point);
            assert(old_pts.push(point).last() == point);
            lemma_keep_last_push(old_pts, point, MAX_HISTORY as nat);
        }
        self.total_trades = self.total_trades + 1;
        self.last_rsi = rsi;
        push_bounded(&mut self.history, point, MAX_HISTORY);
        self.prices.push(price);
        if self.prices.len() > self.period + 100 {
            let excess = self.prices.len() - (self.period + 50);
            drop_front(&mut self.prices, excess);
        }
        proof {
            let acc = self.accepted@;
            let pts = self.points@;
            assert forall|i: int| 0 <= i < pts.len() implies (#[trigger] pts[i]).price == acc[i]
                && (pts[i].rsi.is_some() <==> i >= self.period) by {
                if i < old_pts.len() {
                    assert(pts[i] == old_pts[i]);
                }
            }
            assert(self.prices@ =~= acc.subrange(acc.len() - self.prices@.len(), acc.len() as int));
        }
        rsi
    }

    /// The look-back period.
    pub fn period(&self) -> (r: usize)
        ensures
            r == self.period_spec(),
    {
        self.period
    }

    /// The newest buffered price, if any price was accepted.
    pub fn latest_price(&self) -> (r: Option<N>)
        requires
            self.wf(),
        ensures
            r == (if self.accepted_spec().len() == 0 {
                None
            } else {
                Some(self.accepted_spec().last())
            }),
    {
        if self.prices.len() == 0 {
            None
        } else {
            Some(self.prices[self.prices.len() - 1])
        }
    }

    /// The indicator value produced by the latest accepted price.
    pub fn latest_rsi(&self) -> (r: Option<N>)
        ensures
            r == self.last_rsi_spec(),
    {
        self.last_rsi
    }

    /// How many prices have been accepted.
    pub fn total_trades(&self) -> (r: usize)
        ensures
            r == self.total_spec(),
    {
        self.total_trades
    }

    /// The running average gain and loss, once primed.
    pub fn averages(&self) -> (r: Option<(N, N)>)
        ensures
            r == self.averages_spec(),
    {
        self.averages
    }

    /// The retained price buffer, oldest first.
    pub fn prices(&self) -> (r: &Vec<N>)
        ensures
            r@ == self.prices_spec(),
    {
        &self.prices
    }

    /// The retained history, oldest first.
    pub fn history(&self) -> (r: &Vec<HistoryPoint<N>>)
        ensures
            r@ == self.history_spec(),
    {
        &self.history
    }
}

/// A price yields an indicator value exactly when it is at least the
/// `(period + 1)`-th accepted price: never earlier, and on every price from
/// then on.
pub proof fn law_first_value_after_period<N: Copy>(
    before: RsiCalculator<N>,
    after: RsiCalculator<N>,
    price: N,
    computed: Option<Computed<N>>,
    timestamp: String,
)
    requires
        before.wf(),
        computed.is_some() <==> before.next_phase_spec() != Phase::Warmup,
        RsiCalculator::stepped(before, after, price, computed, timestamp),
    ensures
        after.last_rsi_spec().is_some() <==> after.total_spec() >= after.period_spec() + 1,
        after.total_spec() == after.period_spec() + 1 ==> after.last_rsi_spec().is_some()
            && before.last_rsi_spec().is_none(),
{
    before.lemma_wf();
}

/// The history never holds more than `MAX_HISTORY` points; it is always
/// the newest points, so the oldest are the first to go.
pub proof fn law_history_bounded<N: Copy>(c: RsiCalculator<N>)
    requires
        c.wf(),
    ensures
        c.history_spec().len() <= MAX_HISTORY,
        c.history_spec().len() == if c.total_spec() < MAX_HISTORY {
            c.total_spec()
        } else {
            MAX_HISTORY as nat
        },
        c.history_spec() == c.points_spec().subrange(
            c.points_spec().len() - c.history_spec().len(),
            c.points_spec().len() as int,
        ),
{
    c.lemma_wf();
    let pts = c.points_spec();
    if pts.len() <= MAX_HISTORY {
        assert(pts.subrange(0, pts.len() as int) =~= pts);
    }
}

} // verus!
