use vstd::prelude::*;

use crate::history::{keep_last, push_bounded};
use crate::store::{ResultView, RsiResult};

verus! {

/// Unread results each subscriber may hold before the oldest is dropped.
pub const DEFAULT_CAPACITY: usize = 1000;

/// Pending results of one subscriber, as views.
pub open spec fn views_of<N>(q: Seq<RsiResult<N>>) -> Seq<ResultView<N>> {
    q.map_values(|x: RsiResult<N>| x@)
}

struct Subscriber<N> {
    id: u64,
    queue: Vec<RsiResult<N>>,
}

/// Hands every published result to each live subscriber. Each subscriber
/// has a queue of at most `capacity` unread results; when it is full, the
/// oldest unread result is dropped, so publishing never waits on a reader.
/// A new subscriber sees only what is published after it joined.
pub struct Broadcaster<N> {
    capacity: usize,
    next_id: u64,
    subscribers: Vec<Subscriber<N>>,
}

impl<N: Copy> Broadcaster<N> {
    closed spec fn has(&self, id: u64) -> bool {
        exists|i: int| 0 <= i < self.subscribers@.len() && self.subscribers@[i].id == id
    }

    closed spec fn position(&self, id: u64) -> int {
        choose|i: int| 0 <= i < self.subscribers@.len() && self.subscribers@[i].id == id
    }

    /// The live subscribers, each with its unread results, oldest first.
    pub closed spec fn view(&self) -> Map<u64, Seq<ResultView<N>>> {
        Map::new(|id: u64| self.has(id), |id: u64| views_of(self.subscribers@[self.position(id)].queue@))
    }

    /// The bound on each subscriber's unread results.
    pub closed spec fn capacity_spec(&self) -> nat {
        self.capacity as nat
    }

    /// The identifier that the next subscriber gets.
    pub closed spec fn next_id_spec(&self) -> u64 {
        self.next_id
    }

    pub closed spec fn wf(&self) -> bool {
        &&& self.capacity >= 1
        &&& forall|i: int, j: int|
            0 <= i < j < self.subscribers@.len() ==> (#[trigger] self.subscribers@[i]).id
                != (#[trigger] self.subscribers@[j]).id
        &&& forall|i: int|
            0 <= i < self.subscribers@.len() ==> (#[trigger] self.subscribers@[i]).id < self.next_id
                && self.subscribers@[i].queue@.len() <= self.capacity
    }

    proof fn lemma_position(&self, i: int)
        requires
            self.wf(),
            0 <= i < self.subscribers@.len(),
        ensures
            self.has(self.subscribers@[i].id),
            self.position(self.subscribers@[i].id) == i,
            self.view()[self.subscribers@[i].id] == views_of(self.subscribers@[i].queue@),
    {
        let id = self.subscribers@[i].id;
        assert(self.has(id));
        let j = self.position(id);
        if j != i {
            if j < i {
                assert(self.subscribers@[j].id != self.subscribers@[i].id);
            } else {
                assert(self.subscribers@[i].id != self.subscribers@[j].id);
            }
        }
    }

    /// A broadcaster with no subscriber.
    pub fn new(capacity: usize) -> (r: Self)
        requires
            capacity >= 1,
        ensures
            r.wf(),
            r.capacity_spec() == capacity,
            r@ == Map::<u64, Seq<ResultView<N>>>::empty(),
    {
        let r = Broadcaster { capacity, next_id: 0, subscribers: Vec::new() };
        assert(r@ =~= Map::<u64, Seq<ResultView<N>>>::empty());
        r
    }

    fn find(&self, id: u64) -> (r: Option<usize>)
        requires
            self.wf(),
        ensures
            match r {
                Some(i) => i < self.subscribers@.len() && self.subscribers@[i as int].id == id,
                None => !self@.dom().contains(id),
            },
    {
        let mut i: usize = 0;
        while i < self.subscribers.len()
            invariant
                i <= self.subscribers@.len(),
                forall|j: int| 0 <= j < i ==> self.subscribers@[j].id != id,
            decreases self.subscribers@.len() - i,
        {
            if self.subscribers[i].id == id {
                return Some(i);
            }
            i = i + 1;
        }
        None
    }

    /// Adds a subscriber with nothing unread and returns its identifier, or
    /// `None` once every identifier has been handed out.
    pub fn subscribe(&mut self) -> (r: Option<u64>)
        requires
            old(self).wf(),
        ensures
            final(self).wf(),
            final(self).capacity_spec() == old(self).capacity_spec(),
            r.is_none() <==> old(self).next_id_spec() == u64::MAX,
            r.is_none() ==> final(self)@ == old(self)@,
            r.is_some() ==> !old(self)@.dom().contains(r.unwrap()) && final(self)@ == old(self)@.insert(
                r.unwrap(),
                Seq::<ResultView<N>>::empty(),
            ),
    {
        if self.next_id == u64::MAX {
            return None;
        }
        let id = self.next_id;
        let ghost prior = *self;
        proof {
            if prior.has(id) {
                let i = prior.position(id);
                assert(prior.subscribers@[i].id < prior.next_id);
            }
        }
        self.next_id = self.next_id + 1;
        self.subscribers.push(Subscriber { id, queue: Vec::new() });
        proof {
            let n = prior.subscribers@.len();
            self.lemma_position(n as int);
            assert(views_of(Seq::<RsiResult<N>>::empty()) =~= Seq::<ResultView<N>>::empty());
            assert forall|k: u64| #[trigger] self@.dom().contains(k) <==> prior@.insert(id, Seq::empty()).dom().contains(k) by {
                if self.has(k) && k != id {
                    let i = self.position(k);
                    assert(prior.subscribers@[i].id == k);
                }
                if prior.has(k) {
                    let i = prior.position(k);
                    assert(self.subscribers@[i].id == k);
                }
            }
            assert forall|k: u64| #[trigger] self@.dom().contains(k) && k != id implies self@[k] == prior@[k] by {
                let i = prior.position(k);
                assert(self.subscribers@[i] == prior.subscribers@[i]);
                prior.lemma_position(i);
                self.lemma_position(i);
            }
            assert(self@ =~= prior@.insert(id, Seq::empty()));
        }
        Some(id)
    }

    /// Removes subscriber `id` and its unread results; returns whether it
    /// was live. The other subscribers are not affected.
    pub fn unsubscribe(&mut self, id: u64) -> (r: bool)
        requires
            old(self).wf(),
        ensures
            final(self).wf(),
            final(self).capacity_spec() == old(self).capacity_spec(),
            final(self).next_id_spec() == old(self).next_id_spec(),
            r == old(self)@.dom().contains(id),
            final(self)@ == old(self)@.remove(id),
    {
        match self.find(id) {
            None => {
                assert(self@ =~= old(self)@.remove(id));
                false
            },
            Some(i) => {
                let ghost prior = *self;
                proof {
                    prior.lemma_position(i as int);
                }
                self.subscribers.remove(i);
                proof {
                    assert forall|k: u64| #[trigger] self@.dom().contains(k) <==> prior@.remove(id).dom().contains(k) by {
                        if self.has(k) {
                            let j = self.position(k);
                            if j < i {
                                assert(prior.subscribers@[j].id == k);
                                assert(k != id);
                            } else {
                                assert(prior.subscribers@[j + 1].id == k);
                                assert(k != id);
                            }
                        }
                        if prior.has(k) && k != id {
                            let j = prior.position(k);
                            if j < i {
                                assert(self.subscribers@[j].id == k);
                            } else {
                                assert(self.subscribers@[j - 1].id == k);
                            }
                        }
                    }
                    assert forall|k: u64| #[trigger] self@.dom().contains(k) implies self@[k] == prior@.remove(id)[k] by {
                        let j = self.position(k);
                        self.lemma_position(j);
                        if j < i {
                            prior.lemma_position(j);
                        } else {
                            prior.lemma_position(j + 1);
                        }
                    }
                    assert(self@ =~= prior@.remove(id));
                }
                true
            },
        }
    }

    /// Appends a copy of `msg` to every subscriber's unread results,
    /// dropping that subscriber's oldest unread result when its queue is
    /// full.
    pub fn publish(&mut self, msg: &RsiResult<N>)
        requires
            old(self).wf(),
        ensures
            final(self).wf(),
            final(self).capacity_spec() == old(self).capacity_spec(),
            final(self).next_id_spec() == old(self).next_id_spec(),
            final(self)@.dom() == old(self)@.dom(),
            forall|id: u64|
                #[trigger] old(self)@.dom().contains(id) ==> final(self)@[id] == keep_last(
                    old(self)@[id].push(msg@),
                    old(self).capacity_spec(),
                ),
    {
        let ghost prior = *self;
        let mut i: usize = 0;
        while i < self.subscribers.len()
            invariant
                self.capacity == prior.capacity,
                self.next_id == prior.next_id,
                self.subscribers@.len() == prior.subscribers@.len(),
                prior.wf(),
                i <= self.subscribers@.len(),
                forall|j: int|
                    0 <= j < self.subscribers@.len() ==> (#[trigger] self.subscribers@[j]).id
                        == prior.subscribers@[j].id && self.subscribers@[j].queue@.len()
                        <= self.capacity,
                forall|j: int|
                    0 <= j < i ==> views_of((#[trigger] self.subscribers@[j]).queue@) == keep_last(
                        views_of(prior.subscribers@[j].queue@).push(msg@),
                        self.capacity as nat,
                    ),
                forall|j: int| i <= j < self.subscribers@.len() ==> (#[trigger] self.subscribers@[j]) == prior.subscribers@[j],
            decreases self.subscribers@.len() - i,
        {
            let copy = msg.duplicate();
            let ghost before = self.subscribers@[i as int].queue@;
            let sub = &mut self.subscribers[i];
            push_bounded(&mut sub.queue, copy, self.capacity);
            proof {
                let after = self.subscribers@[i as int].queue@;
                assert(views_of(after) =~= keep_last(views_of(before).push(msg@), self.capacity as nat));
            }
            i = i + 1;
        }
        proof {
            assert forall|k: u64| #[trigger] self@.dom().contains(k) <==> prior@.dom().contains(k) by {
                if self.has(k) {
                    let j = self.position(k);
                    assert(prior.subscribers@[j].id == k);
                }
                if prior.has(k) {
                    let j = prior.position(k);
                    assert(self.subscribers@[j].id == k);
                }
            }
            assert(self@.dom() =~= prior@.dom());
            assert forall|id: u64| #[trigger] prior@.dom().contains(id) implies self@[id] == keep_last(
                prior@[id].push(msg@),
                prior.capacity as nat,
            ) by {
                let j = prior.position(id);
                prior.lemma_position(j);
                self.lemma_position(j);
            }
        }
    }

    /// Takes the oldest unread result of subscriber `id`, or `None` when it
    /// has none or is not live.
    pub fn recv(&mut self, id: u64) -> (r: Option<RsiResult<N>>)
        requires
            old(self).wf(),
        ensures
            final(self).wf(),
            final(self).capacity_spec() == old(self).capacity_spec(),
            final(self).next_id_spec() == old(self).next_id_spec(),
            !old(self)@.dom().contains(id) || old(self)@[id].len() == 0 ==> r.is_none() && final(self)@
                == old(self)@,
            old(self)@.dom().contains(id) && old(self)@[id].len() > 0 ==> r.is_some() && r.unwrap()@
                == old(self)@[id][0] && final(self)@ == old(self)@.insert(id, old(self)@[id].drop_first()),
    {
        match self.find(id) {
            None => None,
            Some(i) => {
                let ghost prior = *self;
                proof {
                    prior.lemma_position(i as int);
                }
                if self.subscribers[i].queue.len() == 0 {
                    return None;
                }
                let sub = &mut self.subscribers[i];
                let first = sub.queue.remove(0);
                proof {
                    let q = prior.subscribers@[i as int].queue@;
                    assert(views_of(self.subscribers@[i as int].queue@) =~= views_of(q).drop_first());
                    self.lemma_position(i as int);
                    assert forall|k: u64| #[trigger] self@.dom().contains(k) <==> prior@.dom().contains(k) by {
                        if self.has(k) {
                            let j = self.position(k);
                            assert(prior.subscribers@[j].id == k);
                        }
                        if prior.has(k) {
                            let j = prior.position(k);
                            assert(self.subscribers@[j].id == k);
                        }
                    }
                    assert forall|k: u64| #[trigger] self@.dom().contains(k) && k != id implies self@[k] == prior@[k] by {
                        let j = prior.position(k);
                        prior.lemma_position(j);
                        self.lemma_position(j);
                    }
                    assert(self@ =~= prior@.insert(id, prior@[id].drop_first()));
                }
                Some(first)
            },
        }
    }
}

} // verus!
