//! The call scheduler: a priority-ordered backlog of remote calls admitted at
//! most one per fixed delay interval.
//!
//! The backlog dispatches the call with the highest priority first; within one
//! priority band, calls leave in enqueue order (each enqueue is stamped with a
//! monotonic sequence number). Dispatch times are tracked in a ghost history
//! whose invariant guarantees that two admissions are never closer together
//! than the configured delay.

use vstd::prelude::*;
use vstd::multiset::Multiset;
use crate::data::APIEndpoint;

verus! {

/// Admission priority of a scheduled call, totally ordered High > Normal > Low.
#[derive(Clone, Copy, PartialEq, Eq, Structural, Debug)]
pub enum Priority {
    High,
    Normal,
    Low,
}

impl Priority {
    /// The numeric rank of this priority: higher dispatches first.
    pub open spec fn spec_value(self) -> u8 {
        match self {
            Priority::High => 3,
            Priority::Normal => 2,
            Priority::Low => 1,
        }
    }

    pub fn value(&self) -> (v: u8)
        ensures
            v == self.spec_value(),
    {
        match self {
            Priority::High => 3,
            Priority::Normal => 2,
            Priority::Low => 1,
        }
    }
}

/// A call admitted to the scheduler: its priority, the monotonic sequence
/// number stamped at enqueue time (smaller = enqueued earlier), and the
/// endpoint to fetch.
#[derive(Clone, Debug)]
pub struct ScheduledCall {
    pub priority: Priority,
    pub seq: u64,
    pub endpoint: APIEndpoint,
}

/// Strict dispatch order: `a` leaves the backlog before `b` when `a` has the
/// higher priority, or equal priority and the earlier enqueue stamp.
pub open spec fn dispatches_before(a: ScheduledCall, b: ScheduledCall) -> bool {
    ||| a.priority.spec_value() > b.priority.spec_value()
    ||| (a.priority.spec_value() == b.priority.spec_value() && a.seq < b.seq)
}

/// Exec comparison deciding `dispatches_before`.
fn dispatched_first(a: &ScheduledCall, b: &ScheduledCall) -> (r: bool)
    ensures
        r == dispatches_before(*a, *b),
{
    let av = a.priority.value();
    let bv = b.priority.value();
    av > bv || (av == bv && a.seq < b.seq)
}

/// Two calls with distinct stamps are always comparable.
proof fn lemma_dispatch_order_total(a: ScheduledCall, b: ScheduledCall)
    requires
        a.seq != b.seq,
    ensures
        dispatches_before(a, b) || dispatches_before(b, a),
{
}

/// The dispatch order is transitive.
proof fn lemma_dispatch_order_trans(a: ScheduledCall, b: ScheduledCall, c: ScheduledCall)
    requires
        dispatches_before(a, b),
        dispatches_before(b, c),
    ensures
        dispatches_before(a, c),
{
}

/// A dequeue sequence is dispatch-sorted when no later element would have been
/// dispatched before an earlier one.
pub open spec fn dispatch_sorted(s: Seq<ScheduledCall>) -> bool {
    forall|i: int, j: int|
        0 <= i < j < s.len() ==> !dispatches_before(#[trigger] s[j], #[trigger] s[i])
}

/// All enqueue stamps in a sequence are distinct.
pub open spec fn distinct_stamps(s: Seq<ScheduledCall>) -> bool {
    forall|i: int, j: int| 0 <= i < j < s.len() ==> (#[trigger] s[i].seq) != (#[trigger] s[j].seq)
}

/// Successive dispatch times are separated by at least `delay`.
pub open spec fn spaced(times: Seq<u64>, delay: int) -> bool {
    forall|i: int| 1 <= i < times.len() ==> times[i - 1] + delay <= #[trigger] times[i]
}

/// The scheduler's state: the pending backlog, the next enqueue stamp, the
/// configured admission delay, and the time of the most recent dispatch,
/// with the full dispatch history kept in ghost state.
pub struct ApiQueue {
    calls: Vec<ScheduledCall>,
    next_seq: u64,
    delay_ms: u64,
    last_dispatch: Option<u64>,
    dispatch_times: Ghost<Seq<u64>>,
}

impl ApiQueue {
    /// The pending backlog, in enqueue order.
    pub closed spec fn pending(self) -> Seq<ScheduledCall> {
        self.calls@
    }

    /// The stamp the next enqueue will receive.
    pub closed spec fn next_stamp(self) -> u64 {
        self.next_seq
    }

    /// The configured admission delay.
    pub closed spec fn delay(self) -> u64 {
        self.delay_ms
    }

    /// Every dispatch time so far, oldest first.
    pub closed spec fn dispatches(self) -> Seq<u64> {
        self.dispatch_times@
    }

    /// Well-formedness: stamps in the backlog are distinct and below the next
    /// stamp, and the dispatch history is spaced by the delay, its last entry
    /// mirrored in `last_dispatch`.
    pub closed spec fn wf(self) -> bool {
        &&& forall|i: int|
            0 <= i < self.calls@.len() ==> (#[trigger] self.calls@[i].seq) < self.next_seq
        &&& distinct_stamps(self.calls@)
        &&& spaced(self.dispatch_times@, self.delay_ms as int)
        &&& match self.last_dispatch {
            Some(t) => self.dispatch_times@.len() > 0 && self.dispatch_times@.last() == t,
            None => self.dispatch_times@.len() == 0,
        }
    }

    /// Whether a dispatch at `now_ms` would respect the delay since the last
    /// dispatch.
    pub open spec fn can_dispatch(self, now_ms: u64) -> bool {
        match self.last_dispatch_time() {
            None => true,
            Some(t) => t + self.delay() <= now_ms,
        }
    }

    /// The time of the most recent dispatch, if any.
    pub closed spec fn last_dispatch_time(self) -> Option<u64> {
        self.last_dispatch
    }

    /// A fresh scheduler with an empty backlog and no dispatches yet.
    pub fn new(delay_ms: u64) -> (q: ApiQueue)
        ensures
            q.wf(),
            q.pending() == Seq::<ScheduledCall>::empty(),
            q.next_stamp() == 0,
            q.delay() == delay_ms,
            q.dispatches() == Seq::<u64>::empty(),
            q.last_dispatch_time() is None,
    {
        ApiQueue {
            calls: Vec::new(),
            next_seq: 0,
            delay_ms,
            last_dispatch: None,
            dispatch_times: Ghost(Seq::empty()),
        }
    }

    /// Drop every pending call; the dispatch history is untouched.
    pub fn clear(&mut self)
        requires
            old(self).wf(),
        ensures
            final(self).wf(),
            final(self).pending() == Seq::<ScheduledCall>::empty(),
            final(self).next_stamp() == old(self).next_stamp(),
            final(self).delay() == old(self).delay(),
            final(self).dispatches() == old(self).dispatches(),
            final(self).last_dispatch_time() == old(self).last_dispatch_time(),
    {
        self.calls.clear();
    }

    /// Number of pending calls.
    pub fn pending_len(&self) -> (n: usize)
        ensures
            n == self.pending().len(),
    {
        self.calls.len()
    }

    /// Admit a call to the backlog. Returns the stamp the call received, which
    /// is larger than every stamp handed out before; `None` only when the
    /// stamp space is exhausted, in which case nothing changes.
    pub fn enqueue(&mut self, endpoint: APIEndpoint, priority: Priority) -> (r: Option<u64>)
        requires
            old(self).wf(),
        ensures
            final(self).wf(),
            final(self).delay() == old(self).delay(),
            final(self).dispatches() == old(self).dispatches(),
            final(self).last_dispatch_time() == old(self).last_dispatch_time(),
            old(self).next_stamp() < u64::MAX ==> {
                &&& r == Some(old(self).next_stamp())
                &&& final(self).pending() == old(self).pending().push(
                    ScheduledCall { priority, seq: old(self).next_stamp(), endpoint },
                )
                &&& final(self).next_stamp() == old(self).next_stamp() + 1
            },
            old(self).next_stamp() == u64::MAX ==> {
                &&& r is None
                &&& final(self).pending() == old(self).pending()
                &&& final(self).next_stamp() == old(self).next_stamp()
            },
    {
        if self.next_seq == u64::MAX {
            return None;
        }
        let stamp = self.next_seq;
        let call = ScheduledCall { priority, seq: stamp, endpoint };
        self.calls.push(call);
        self.next_seq = stamp + 1;
        Some(stamp)
    }

    /// Remove and return the next call to dispatch: the pending call that
    /// `dispatches_before` every other pending call. Returns `None` exactly
    /// when the backlog is empty. The pacing state is untouched.
    pub fn pop_best(&mut self) -> (r: Option<ScheduledCall>)
        requires
            old(self).wf(),
        ensures
            final(self).wf(),
            final(self).next_stamp() == old(self).next_stamp(),
            final(self).delay() == old(self).delay(),
            final(self).dispatches() == old(self).dispatches(),
            final(self).last_dispatch_time() == old(self).last_dispatch_time(),
            r is None ==> old(self).pending().len() == 0
                && final(self).pending() == old(self).pending(),
            r matches Some(c) ==> {
                &&& exists|i: int|
                    0 <= i < old(self).pending().len() && old(self).pending()[i] == c
                        && final(self).pending() == old(self).pending().remove(i)
                &&& forall|j: int|
                    0 <= j < old(self).pending().len() && old(self).pending()[j] != c
                        ==> dispatches_before(c, #[trigger] old(self).pending()[j])
            },
    {
        if self.calls.len() == 0 {
            return None;
        }
        let ghost orig = self.calls@;
        let mut best: usize = 0;
        let mut i: usize = 1;
        while i < self.calls.len()
            invariant
                self.calls@ == orig,
                0 < self.calls@.len(),
                best < i <= self.calls@.len(),
                forall|k: int|
                    0 <= k < i ==> !dispatches_before(
                        #[trigger] self.calls@[k],
                        self.calls@[best as int],
                    ),
            decreases self.calls@.len() - i,
        {
            if dispatched_first(&self.calls[i], &self.calls[best]) {
                proof {
                    assert forall|k: int| 0 <= k < i + 1 implies !dispatches_before(
                        #[trigger] self.calls@[k],
                        self.calls@[i as int],
                    ) by {
                        if k < i && dispatches_before(self.calls@[k], self.calls@[i as int]) {
                            lemma_dispatch_order_trans(
                                self.calls@[k],
                                self.calls@[i as int],
                                self.calls@[best as int],
                            );
                        }
                    }
                }
                best = i;
            }
            i = i + 1;
        }
        let c = self.calls.remove(best);
        proof {
            orig.remove_ensures(best as int);
            assert forall|j: int| 0 <= j < orig.len() && orig[j] != c implies dispatches_before(
                c,
                #[trigger] orig[j],
            ) by {
                if orig[j].seq == c.seq {
                    if j < best {
                        assert(orig[j].seq != orig[best as int].seq);
                    } else if j > best {
                        assert(orig[best as int].seq != orig[j].seq);
                    } else {
                        assert(orig[j] == c);
                    }
                } else {
                    lemma_dispatch_order_total(c, orig[j]);
                }
            }
            assert forall|i2: int, j2: int|
                0 <= i2 < j2 < self.calls@.len() implies (#[trigger] self.calls@[i2].seq)
                != (#[trigger] self.calls@[j2].seq) by {
                assert(self.calls@ == orig.remove(best as int));
                if i2 < best {
                    assert(self.calls@[i2] == orig[i2]);
                } else {
                    assert(self.calls@[i2] == orig[i2 + 1]);
                }
                if j2 < best {
                    assert(self.calls@[j2] == orig[j2]);
                } else {
                    assert(self.calls@[j2] == orig[j2 + 1]);
                }
            }
            assert forall|i2: int| 0 <= i2 < self.calls@.len() implies (#[trigger] self.calls@[
                i2
            ].seq) < self.next_seq by {
                if i2 < best {
                    assert(self.calls@[i2] == orig[i2]);
                } else {
                    assert(self.calls@[i2] == orig[i2 + 1]);
                }
            }
        }
        Some(c)
    }

    /// One step of the dispatch loop at time `now_ms`: if the delay since the
    /// last dispatch has elapsed and the backlog is non-empty, admit the best
    /// pending call and record the dispatch time; otherwise do nothing.
    pub fn tick(&mut self, now_ms: u64) -> (r: Option<ScheduledCall>)
        requires
            old(self).wf(),
        ensures
            final(self).wf(),
            final(self).next_stamp() == old(self).next_stamp(),
            final(self).delay() == old(self).delay(),
            r is None ==> {
                &&& !old(self).can_dispatch(now_ms) || old(self).pending().len() == 0
                &&& final(self).pending() == old(self).pending()
                &&& final(self).dispatches() == old(self).dispatches()
                &&& final(self).last_dispatch_time() == old(self).last_dispatch_time()
            },
            r matches Some(c) ==> {
                &&& old(self).can_dispatch(now_ms)
                &&& exists|i: int|
                    0 <= i < old(self).pending().len() && old(self).pending()[i] == c
                        && final(self).pending() == old(self).pending().remove(i)
                &&& forall|j: int|
                    0 <= j < old(self).pending().len() && old(self).pending()[j] != c
                        ==> dispatches_before(c, #[trigger] old(self).pending()[j])
                &&& final(self).dispatches() == old(self).dispatches().push(now_ms)
                &&& final(self).last_dispatch_time() == Some(now_ms)
            },
    {
        let due = match self.last_dispatch {
            None => true,
            Some(t) => now_ms >= t && now_ms - t >= self.delay_ms,
        };
        if !due {
            return None;
        }
        let popped = self.pop_best();
        match popped {
            None => None,
            Some(c) => {
                self.last_dispatch = Some(now_ms);
                proof {
                    self.dispatch_times@ = self.dispatch_times@.push(now_ms);
                }
                Some(c)
            },
        }
    }

    /// Empty the backlog, returning every pending call in dispatch order:
    /// higher priorities first, and enqueue order within a priority band.
    /// The result is a permutation of the backlog with its stamps distinct,
    /// and the pacing state is untouched.
    #[verifier::rlimit(50)]
    pub fn drain(&mut self) -> (order: Vec<ScheduledCall>)
        requires
            old(self).wf(),
        ensures
            final(self).wf(),
            final(self).pending().len() == 0,
            final(self).next_stamp() == old(self).next_stamp(),
            final(self).delay() == old(self).delay(),
            final(self).dispatches() == old(self).dispatches(),
            final(self).last_dispatch_time() == old(self).last_dispatch_time(),
            order@.to_multiset() == old(self).pending().to_multiset(),
            dispatch_sorted(order@),
            distinct_stamps(order@),
    {
        broadcast use vstd::seq_lib::group_to_multiset_ensures;
        broadcast use vstd::multiset::group_multiset_axioms;

        let ghost orig = self.calls@;
        let mut order: Vec<ScheduledCall> = Vec::new();
        loop
            invariant
                self.wf(),
                self.next_stamp() == old(self).next_stamp(),
                self.delay() == old(self).delay(),
                self.dispatches() == old(self).dispatches(),
                self.last_dispatch_time() == old(self).last_dispatch_time(),
                order@.to_multiset().add(self.pending().to_multiset()) =~= orig.to_multiset(),
                dispatch_sorted(order@),
                distinct_stamps(order@),
                forall|a: int, b: int|
                    0 <= a < order@.len() && 0 <= b < self.pending().len() ==> !dispatches_before(
                        #[trigger] self.pending()[b],
                        #[trigger] order@[a],
                    ),
                forall|a: int, b: int|
                    0 <= a < order@.len() && 0 <= b < self.pending().len()
                        ==> (#[trigger] order@[a].seq) != (#[trigger] self.pending()[b].seq),
            ensures
                self.pending().len() == 0,
            decreases self.pending().len(),
        {
            let ghost before = self.pending();
            let ghost prev_order = order@;
            let popped = self.pop_best();
            match popped {
                None => {
                    break ;
                },
                Some(c) => {
                    proof {
                        broadcast use vstd::seq_lib::group_to_multiset_ensures;
                        broadcast use vstd::multiset::group_multiset_axioms;

                        assert(exists|i: int|
                            0 <= i < before.len() && before[i] == c && self.pending()
                                == before.remove(i));
                        let i = choose|i: int|
                            0 <= i < before.len() && before[i] == c && self.pending()
                                == before.remove(i);
                        before.remove_ensures(i);
                        // Each remaining call is one of the old calls, at an index other
                        // than the popped one; distinct stamps rule out its being `c`.
                        assert forall|b: int| 0 <= b < self.pending().len() implies exists|j: int|
                            0 <= j < before.len() && j != i && before[j] == #[trigger] self.pending()[b] by {
                            if b < i {
                                assert(before[b] == self.pending()[b] && b != i);
                            } else {
                                assert(before[b + 1] == self.pending()[b] && b + 1 != i);
                            }
                        }
                        assert forall|b: int| 0 <= b < self.pending().len() implies #[trigger] self.pending()[b]
                            != c && self.pending()[b].seq != c.seq by {
                            let j = choose|j: int|
                                0 <= j < before.len() && j != i && before[j] == self.pending()[b];
                            assert(before[j].seq != before[i].seq);
                        }
                        // Multiset bookkeeping: popping then pushing moves one occurrence.
                        assert(before.remove(i).to_multiset() == before.to_multiset().remove(c));
                        assert(before.contains(c));
                        assert(before.to_multiset().count(c) > 0);
                        assert(self.pending().to_multiset().insert(c) =~= before.to_multiset());
                        assert(prev_order.push(c).to_multiset() =~= prev_order.to_multiset().insert(
                            c,
                        ));
                        assert(prev_order.push(c).to_multiset().add(self.pending().to_multiset())
                            =~= prev_order.to_multiset().add(before.to_multiset()));
                    }
                    order.push(c);
                },
            }
        }
        proof {
            broadcast use vstd::seq_lib::group_to_multiset_ensures;
            broadcast use vstd::multiset::group_multiset_axioms;

            assert(self.pending().to_multiset().len() == 0);
            assert(self.pending().to_multiset() =~= Multiset::empty());
            assert(order@.to_multiset().add(Multiset::empty()) =~= order@.to_multiset());
            assert(order@.to_multiset() =~= orig.to_multiset());
        }
        order
    }

    /// No two dispatches in the history are closer together than the delay;
    /// later dispatches are at least `delay` apart from every earlier one.
    pub proof fn lemma_dispatch_spacing(self, i: int, j: int)
        requires
            self.wf(),
            0 <= i < j < self.dispatches().len(),
        ensures
            self.dispatches()[i] + self.delay() <= self.dispatches()[j],
        decreases j - i,
    {
        if i + 1 == j {
        } else {
            self.lemma_dispatch_spacing(i, j - 1);
        }
    }
}

/// Law: priority bands never interleave. In a dispatch-sorted dequeue order,
/// a call with strictly higher priority than another always leaves first, so
/// every higher-priority call enqueued before the backlog was drained is
/// dequeued before any lower-priority one.
pub proof fn lemma_higher_priority_first(order: Seq<ScheduledCall>, i: int, j: int)
    requires
        dispatch_sorted(order),
        0 <= i < order.len(),
        0 <= j < order.len(),
        order[i].priority.spec_value() > order[j].priority.spec_value(),
    ensures
        i < j,
{
    if j < i {
        assert(!dispatches_before(order[i], order[j]));
    }
}

/// Law: dequeue order is FIFO within a priority band. In a dispatch-sorted
/// dequeue order with distinct enqueue stamps, of two calls with equal
/// priority the one enqueued earlier (smaller stamp) is dequeued first.
pub proof fn lemma_fifo_within_priority(order: Seq<ScheduledCall>, i: int, j: int)
    requires
        dispatch_sorted(order),
        distinct_stamps(order),
        0 <= i < order.len(),
        0 <= j < order.len(),
        i != j,
        order[i].priority.spec_value() == order[j].priority.spec_value(),
        order[i].seq < order[j].seq,
    ensures
        i < j,
{
    if j < i {
        assert(!dispatches_before(order[i], order[j]));
    }
}

} // verus!
