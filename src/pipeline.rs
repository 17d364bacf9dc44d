//! The driver side of a request pipeline: pairs replies read from a
//! full-duplex stream with the requests written before them, in order,
//! without any per-message identifier.
//!
//! The driver is a state machine. The task that owns the transport feeds it
//! what happened (a readiness result, an accepted write, an inbound item) and
//! performs the deliveries it hands back, each to the reply slot it names.
use std::collections::VecDeque;
use vstd::prelude::*;

verus! {

/// How many submissions may wait for the driver before producers are held
/// back. A fixed, small bound: tuning it is a deployment matter.
pub const SUBMISSION_CAPACITY: usize = 50;

/// What the driver knows of one accepted request, as a mathematical value.
pub struct Pending<S, I> {
    /// Where the outcome of the request goes.
    pub slot: S,
    /// How many replies the request consumes from the stream.
    pub expected: nat,
    /// The replies gathered for it so far.
    pub received: Seq<I>,
}

/// One outcome handed back by the driver: the slot, and what goes into it.
pub type Delivery<S, I, E> = (S, Result<Seq<I>, E>);

/// A record is waiting for more replies: it has fewer than it expects.
pub open spec fn pending_wf<S, I>(p: Pending<S, I>) -> bool {
    p.received.len() < p.expected
}

/// The effect of one inbound item on the queue of accepted requests: the new
/// queue and, when a request completes, its delivery.
///
/// An item that arrives while no request is waiting is dropped. A reply is
/// added to the head request, which completes once it holds as many replies
/// as it expects. An error completes the head request at once.
pub open spec fn step<S, I, E>(q: Seq<Pending<S, I>>, item: Result<I, E>) -> (Seq<
    Pending<S, I>,
>, Option<Delivery<S, I, E>>) {
    if q.len() == 0 {
        (q, None)
    } else {
        match item {
            Ok(f) => {
                let got = q[0].received.push(f);
                if got.len() < q[0].expected {
                    (q.update(0, Pending { slot: q[0].slot, expected: q[0].expected, received: got }), None)
                } else {
                    (q.drop_first(), Some((q[0].slot, Ok(got))))
                }
            },
            Err(e) => (q.drop_first(), Some((q[0].slot, Err(e)))),
        }
    }
}

/// The queue left and the deliveries made after the replies `fs` arrive, one
/// after another, in order.
pub open spec fn feed<S, I, E>(q: Seq<Pending<S, I>>, fs: Seq<I>) -> (Seq<Pending<S, I>>, Seq<
    Delivery<S, I, E>,
>)
    decreases fs.len(),
{
    if fs.len() == 0 {
        (q, Seq::empty())
    } else {
        let (q1, d) = step::<S, I, E>(q, Ok(fs[0]));
        let (q2, ds) = feed::<S, I, E>(q1, fs.drop_first());
        match d {
            Some(x) => (q2, seq![x] + ds),
            None => (q2, ds),
        }
    }
}

/// The sum of the counts of a sequence of fresh requests.
pub open spec fn total_expected<S, I>(q: Seq<Pending<S, I>>) -> nat
    decreases q.len(),
{
    if q.len() == 0 {
        0
    } else {
        q[0].expected + total_expected(q.drop_first())
    }
}

/// Cuts `fs` into consecutive pieces, one for each request of `q`, each as
/// long as that request's count, and pairs each piece with its slot.
pub open spec fn split_replies<S, I, E>(q: Seq<Pending<S, I>>, fs: Seq<I>) -> Seq<
    Delivery<S, I, E>,
>
    decreases q.len(),
{
    if q.len() == 0 {
        Seq::empty()
    } else {
        let n = q[0].expected as int;
        seq![(q[0].slot, Ok(fs.take(n)))] + split_replies::<S, I, E>(q.drop_first(), fs.skip(n))
    }
}

/// A request that nothing has been received for yet, and that expects at
/// least one reply.
pub open spec fn fresh<S, I>(q: Seq<Pending<S, I>>) -> bool {
    forall|k: int| 0 <= k < q.len() ==> (#[trigger] q[k]).received.len() == 0 && q[k].expected >= 1
}

/// The bookkeeping for one accepted request.
pub struct InFlight<S, I> {
    /// Where the outcome of the request goes.
    pub output: S,
    /// How many replies the request consumes from the stream.
    pub response_count: usize,
    /// The replies gathered for it so far.
    pub buffer: Vec<I>,
}

impl<S, I> InFlight<S, I> {
    pub open spec fn view(&self) -> Pending<S, I> {
        Pending { slot: self.output, expected: self.response_count as nat, received: self.buffer@ }
    }
}

/// The view of a delivery that the driver hands back.
pub open spec fn delivery_view<S, I, E>(d: Option<(S, Result<Vec<I>, E>)>) -> Option<
    Delivery<S, I, E>,
> {
    match d {
        None => None,
        Some((s, Ok(v))) => Some((s, Ok(v@))),
        Some((s, Err(e))) => Some((s, Err(e))),
    }
}

/// The driver's state: the queue of accepted requests, oldest first, at
/// most one error that the sink reported when asked whether it was ready,
/// and whether the transport has failed.
///
/// Any error from the transport is fatal to it. An inbound error completes
/// only the head request, while later replies of that request may still be
/// on the wire; an error at readiness may be followed by others. So either
/// marks the driver closed: the task that runs it stops once the error has
/// been delivered, and the slots still waiting are dropped, which their
/// waiters see as a shut-down driver.
pub struct PipelineSink<S, I, E> {
    in_flight: VecDeque<InFlight<S, I>>,
    error: Option<E>,
    closed: bool,
}

impl<S, I, E> PipelineSink<S, I, E> {
    /// The accepted requests that still wait for replies, oldest first.
    pub closed spec fn pending(&self) -> Seq<Pending<S, I>> {
        self.in_flight@.map_values(|r: InFlight<S, I>| r@)
    }

    /// The error waiting to be handed to the next submitter.
    pub closed spec fn stashed(&self) -> Option<E> {
        self.error
    }

    /// Whether the transport has reported an error, after which the driver
    /// stops.
    pub closed spec fn spec_closed(&self) -> bool {
        self.closed
    }

    pub closed spec fn wf(&self) -> bool {
        forall|k: int| 0 <= k < self.in_flight@.len() ==> pending_wf(#[trigger] self.in_flight@[k]@)
    }

    /// A driver with nothing in flight and nothing stashed.
    pub fn new() -> (r: Self)
        ensures
            r.wf(),
            r.pending() == Seq::<Pending<S, I>>::empty(),
            r.stashed() == None::<E>,
            !r.spec_closed(),
    {
        let r = PipelineSink { in_flight: VecDeque::new(), error: None, closed: false };
        assert(r.pending() =~= Seq::<Pending<S, I>>::empty());
        r
    }

    /// Whether some accepted request still waits for replies; the driver
    /// drains the stream before it closes the sink while this holds.
    pub fn has_in_flight(&self) -> (r: bool)
        ensures
            r == (self.pending().len() > 0),
    {
        self.in_flight.len() > 0
    }

    /// Whether the transport has failed, so that the driver must stop.
    pub fn is_closed(&self) -> (r: bool)
        ensures
            r == self.spec_closed(),
    {
        self.closed
    }

    /// Records the sink's answer to a readiness poll. An error is stashed,
    /// replacing any earlier one, so that the next submitter learns of it;
    /// readiness itself is then still reported to the producer side. The
    /// error also closes the driver: it stops once the error is delivered.
    pub fn poll_ready(&mut self, ready: Result<(), E>)
        ensures
            final(self).pending() == old(self).pending(),
            final(self).wf() == old(self).wf(),
            final(self).stashed() == match ready {
                Ok(()) => old(self).stashed(),
                Err(e) => Some(e),
            },
            final(self).spec_closed() == (old(self).spec_closed() || ready is Err),
    {
        match ready {
            Ok(()) => {},
            Err(err) => {
                self.error = Some(err);
                self.closed = true;
            },
        }
    }

    /// The first half of accepting a submission. With a stashed error, the
    /// error is taken and returned together with the slot, which the caller
    /// fails with it; the bytes are then not written. Otherwise the slot
    /// comes back and the caller hands the bytes to the sink.
    pub fn begin_send(&mut self, output: S) -> (r: Result<S, (S, E)>)
        ensures
            final(self).pending() == old(self).pending(),
            final(self).wf() == old(self).wf(),
            final(self).stashed() == None::<E>,
            final(self).spec_closed() == old(self).spec_closed(),
            r == match old(self).stashed() {
                Some(e) => Err::<S, (S, E)>((output, e)),
                None => Ok::<S, (S, E)>(output),
            },
    {
        match self.error.take() {
            Some(err) => Err((output, err)),
            None => Ok(output),
        }
    }

    /// Accepts a submission, given what the sink said when handed the
    /// bytes. A stashed error is taken first: the slot comes back with it,
    /// for the caller to fail, and the queue is unchanged. (A caller that
    /// called `begin_send` before writing finds nothing stashed here.)
    /// Otherwise, on success the request joins the tail of the queue with
    /// nothing received; on failure the slot comes back with the sink's
    /// error and the queue is unchanged.
    pub fn start_send(&mut self, output: S, response_count: usize, sent: Result<(), E>) -> (r: Result<(), (S, E)>)
        requires
            old(self).wf(),
            response_count >= 1,
        ensures
            final(self).wf(),
            final(self).stashed() == None::<E>,
            final(self).spec_closed() == old(self).spec_closed(),
            match old(self).stashed() {
                Some(e) => r == Err::<(), (S, E)>((output, e)) && final(self).pending() == old(self).pending(),
                None => match sent {
                    Ok(()) => r == Ok::<(), (S, E)>(()) && final(self).pending() == old(self).pending().push(
                        Pending { slot: output, expected: response_count as nat, received: Seq::empty() },
                    ),
                    Err(e) => r == Err::<(), (S, E)>((output, e)) && final(self).pending() == old(self).pending(),
                },
            },
    {
        if let Some(err) = self.error.take() {
            return Err((output, err));
        }
        match sent {
            Ok(()) => {
                let ghost q = self.pending();
                let entry = InFlight { output, response_count, buffer: Vec::new() };
                self.in_flight.push_back(entry);
                assert(self.pending() =~= q.push(entry@));
                assert forall|k: int| 0 <= k < self.in_flight@.len() implies pending_wf(#[trigger] self.in_flight@[k]@) by {
                    if k < q.len() {
                        assert(self.in_flight@[k] == old(self).in_flight@[k]);
                    }
                }
                Ok(())
            },
            Err(err) => Err((output, err)),
        }
    }

    /// Takes in one inbound item and returns the delivery it completes, if
    /// any. The caller sends the outcome into the slot; a slot whose receiver
    /// is gone is simply dropped, the record having been consumed all the same.
    /// An inbound error closes the driver (see the type's description).
    pub fn send_result(&mut self, result: Result<I, E>) -> (r: Option<(S, Result<Vec<I>, E>)>)
        requires
            old(self).wf(),
        ensures
            final(self).wf(),
            final(self).stashed() == old(self).stashed(),
            final(self).spec_closed() == (old(self).spec_closed() || result is Err),
            (final(self).pending(), delivery_view(r)) == step(old(self).pending(), result),
    {
        let ghost q = self.pending();
        if result.is_err() {
            self.closed = true;
        }
        match self.in_flight.pop_front() {
            None => {
                assert(self.pending() =~= q);
                None
            },
            Some(mut entry) => {
                assert(self.pending() =~= q.drop_first());
                assert(entry@ == q[0]);
                match result {
                    Ok(item) => {
                        entry.buffer.push(item);
                        if entry.response_count > entry.buffer.len() {
                            self.in_flight.push_front(entry);
                            assert(self.pending() =~= q.update(
                                0,
                                Pending { slot: q[0].slot, expected: q[0].expected, received: q[0].received.push(item) },
                            ));
                            assert forall|k: int| 0 <= k < self.in_flight@.len() implies pending_wf(#[trigger] self.in_flight@[k]@) by {
                                if k > 0 {
                                    assert(self.in_flight@[k] == old(self).in_flight@[k]);
                                }
                            }
                            None
                        } else {
                            assert forall|k: int| 0 <= k < self.in_flight@.len() implies pending_wf(#[trigger] self.in_flight@[k]@) by {
                                assert(self.in_flight@[k] == old(self).in_flight@[k + 1]);
                            }
                            Some((entry.output, Ok(entry.buffer)))
                        }
                    },
                    Err(err) => {
                        assert forall|k: int| 0 <= k < self.in_flight@.len() implies pending_wf(#[trigger] self.in_flight@[k]@) by {
                            assert(self.in_flight@[k] == old(self).in_flight@[k + 1]);
                        }
                        Some((entry.output, Err(err)))
                    },
                }
            },
        }
    }
}

} // verus!

verus! {

/// When the head request needs `n` more replies and at least `n` arrive,
/// the head completes with what it held plus the first `n` of them, and
/// the rest of the replies go to the requests behind it.
pub proof fn lemma_head_completes<S, I, E>(q: Seq<Pending<S, I>>, fs: Seq<I>)
    requires
        q.len() > 0,
        q[0].received.len() < q[0].expected,
        q[0].expected - q[0].received.len() <= fs.len(),
    ensures
        ({
            let n = q[0].expected - q[0].received.len();
            let rest = feed::<S, I, E>(q.drop_first(), fs.skip(n));
            feed::<S, I, E>(q, fs) == (rest.0, seq![(q[0].slot, Ok::<Seq<I>, E>(q[0].received + fs.take(n)))] + rest.1)
        }),
    decreases q[0].expected - q[0].received.len(),
{
    let n = q[0].expected - q[0].received.len();
    let got = q[0].received.push(fs[0]);
    if n == 1 {
        assert(fs.drop_first() =~= fs.skip(1));
        assert(got =~= q[0].received + fs.take(1));
    } else {
        let q1 = q.update(0, Pending { slot: q[0].slot, expected: q[0].expected, received: got });
        let fs1 = fs.drop_first();
        lemma_head_completes::<S, I, E>(q1, fs1);
        assert(q1.drop_first() =~= q.drop_first());
        assert(fs1.skip(n - 1) =~= fs.skip(n));
        assert(got + fs1.take(n - 1) =~= q[0].received + fs.take(n));
    }
}

/// Replies are paired with requests in order: when requests with counts
/// `c_1 ... c_N` have been accepted, in that order, and exactly
/// `c_1 + ... + c_N` replies arrive, the k-th request receives the k-th
/// consecutive run of `c_k` replies, and no request is left waiting.
pub proof fn lemma_fifo_pairing<S, I, E>(q: Seq<Pending<S, I>>, fs: Seq<I>)
    requires
        fresh(q),
        fs.len() == total_expected(q),
    ensures
        feed::<S, I, E>(q, fs) == (Seq::<Pending<S, I>>::empty(), split_replies::<S, I, E>(q, fs)),
    decreases q.len(),
{
    if q.len() == 0 {
        assert(q =~= Seq::<Pending<S, I>>::empty());
    } else {
        assert(q[0].expected >= 1);
        let n = q[0].expected as int;
        lemma_head_completes::<S, I, E>(q, fs);
        assert(q[0].received + fs.take(n) =~= fs.take(n));
        let q1 = q.drop_first();
        assert forall|k: int| 0 <= k < q1.len() implies (#[trigger] q1[k]).received.len() == 0 && q1[k].expected >= 1 by {
            assert(q1[k] == q[k + 1]);
        }
        lemma_fifo_pairing::<S, I, E>(q1, fs.skip(n));
    }
}

/// Two queues that hold the same counts, position by position, whatever
/// their slots.
pub open spec fn same_counts<S, I>(q1: Seq<Pending<S, I>>, q2: Seq<Pending<S, I>>) -> bool {
    &&& q1.len() == q2.len()
    &&& forall|k: int| 0 <= k < q1.len() ==> #[trigger] q1[k].expected == q2[k].expected
}

/// A waiter that gave up does not shift anyone's replies: the driver never
/// looks at a slot, so requests that expect the same counts receive the
/// same replies, position by position, whichever of their receivers are
/// still there.
pub proof fn lemma_cancel_keeps_alignment<S, I, E>(q1: Seq<Pending<S, I>>, q2: Seq<Pending<S, I>>, fs: Seq<I>)
    requires
        fresh(q1),
        fresh(q2),
        same_counts(q1, q2),
        fs.len() == total_expected(q1),
    ensures
        feed::<S, I, E>(q1, fs).1.len() == feed::<S, I, E>(q2, fs).1.len() == q1.len(),
        forall|k: int| 0 <= k < q1.len() ==> (#[trigger] feed::<S, I, E>(q1, fs).1[k]).1 == feed::<S, I, E>(q2, fs).1[k].1,
    decreases q1.len(),
{
    lemma_fifo_pairing::<S, I, E>(q1, fs);
    lemma_total_same::<S, I>(q1, q2);
    lemma_fifo_pairing::<S, I, E>(q2, fs);
    lemma_split_same::<S, I, E>(q1, q2, fs);
}

proof fn lemma_total_same<S, I>(q1: Seq<Pending<S, I>>, q2: Seq<Pending<S, I>>)
    requires
        same_counts(q1, q2),
    ensures
        total_expected(q1) == total_expected(q2),
    decreases q1.len(),
{
    if q1.len() > 0 {
        let (r1, r2) = (q1.drop_first(), q2.drop_first());
        assert forall|k: int| 0 <= k < r1.len() implies #[trigger] r1[k].expected == r2[k].expected by {
            assert(r1[k] == q1[k + 1] && r2[k] == q2[k + 1]);
        }
        lemma_total_same(r1, r2);
    }
}

proof fn lemma_split_same<S, I, E>(q1: Seq<Pending<S, I>>, q2: Seq<Pending<S, I>>, fs: Seq<I>)
    requires
        same_counts(q1, q2),
    ensures
        split_replies::<S, I, E>(q1, fs).len() == split_replies::<S, I, E>(q2, fs).len() == q1.len(),
        forall|k: int| 0 <= k < q1.len() ==> (#[trigger] split_replies::<S, I, E>(q1, fs)[k]).1 == split_replies::<S, I, E>(q2, fs)[k].1,
    decreases q1.len(),
{
    if q1.len() > 0 {
        let (r1, r2) = (q1.drop_first(), q2.drop_first());
        assert forall|k: int| 0 <= k < r1.len() implies #[trigger] r1[k].expected == r2[k].expected by {
            assert(r1[k] == q1[k + 1] && r2[k] == q2[k + 1]);
        }
        let n = q1[0].expected as int;
        lemma_split_same::<S, I, E>(r1, r2, fs.skip(n));
        let (s1, s2) = (split_replies::<S, I, E>(q1, fs), split_replies::<S, I, E>(q2, fs));
        assert forall|k: int| 0 <= k < q1.len() implies (#[trigger] s1[k]).1 == s2[k].1 by {
            if k > 0 {
                assert(s1[k] == split_replies::<S, I, E>(r1, fs.skip(n))[k - 1]);
                assert(s2[k] == split_replies::<S, I, E>(r2, fs.skip(n))[k - 1]);
            }
        }
    }
}

} // verus!

verus! {

/// The queue left and the deliveries made after the inbound items `items`
/// arrive, replies and errors alike, in order.
pub open spec fn run<S, I, E>(q: Seq<Pending<S, I>>, items: Seq<Result<I, E>>) -> (Seq<Pending<S, I>>, Seq<
    Delivery<S, I, E>,
>)
    decreases items.len(),
{
    if items.len() == 0 {
        (q, Seq::empty())
    } else {
        let (q1, d) = step::<S, I, E>(q, items[0]);
        let (q2, ds) = run::<S, I, E>(q1, items.drop_first());
        match d {
            Some(x) => (q2, seq![x] + ds),
            None => (q2, ds),
        }
    }
}

/// Every slot is filled at most once: whatever arrives, the deliveries go to
/// the oldest requests, one each and in order, and exactly the others are
/// still waiting, in their order. Slots still waiting when the driver stops
/// are dropped unfilled.
pub proof fn lemma_slot_filled_once<S, I, E>(q: Seq<Pending<S, I>>, items: Seq<Result<I, E>>)
    ensures
        ({
            let (q2, ds) = run::<S, I, E>(q, items);
            &&& ds.len() <= q.len()
            &&& q2.len() == q.len() - ds.len()
            &&& forall|k: int| 0 <= k < ds.len() ==> (#[trigger] ds[k]).0 == q[k].slot
            &&& forall|k: int| 0 <= k < q2.len() ==> (#[trigger] q2[k]).slot == q[ds.len() + k].slot
        }),
    decreases items.len(),
{
    if items.len() > 0 {
        let (q1, d) = step::<S, I, E>(q, items[0]);
        lemma_slot_filled_once::<S, I, E>(q1, items.drop_first());
        let (q2, ds1) = run::<S, I, E>(q1, items.drop_first());
        let ds = run::<S, I, E>(q, items).1;
        match d {
            Some(x) => {
                assert forall|k: int| 0 <= k < ds.len() implies (#[trigger] ds[k]).0 == q[k].slot by {
                    if k > 0 {
                        assert(ds[k] == ds1[k - 1]);
                    }
                }
                assert forall|k: int| 0 <= k < q2.len() implies (#[trigger] q2[k]).slot == q[ds.len() + k].slot by {
                    assert(q2[k].slot == q1[ds1.len() + k].slot);
                }
            },
            None => {
                assert forall|k: int| 0 <= k < ds.len() implies (#[trigger] ds[k]).0 == q[k].slot by {
                    assert(ds[k].0 == q1[k].slot);
                }
                assert forall|k: int| 0 <= k < q2.len() implies (#[trigger] q2[k]).slot == q[ds.len() + k].slot by {
                    assert(q2[k].slot == q1[ds1.len() + k].slot);
                }
            },
        }
    }
}

} // verus!

verus! {

/// Two queues that agree on everything but their slots.
pub open spec fn same_shape<S, I>(q1: Seq<Pending<S, I>>, q2: Seq<Pending<S, I>>) -> bool {
    &&& q1.len() == q2.len()
    &&& forall|k: int|
        0 <= k < q1.len() ==> (#[trigger] q1[k]).expected == q2[k].expected && q1[k].received == q2[k].received
}

/// A cancelled waiter changes nothing for the driver, one item at a time:
/// whether or not the receiver behind a slot is still there, the same item
/// completes the same request with the same outcome and leaves a queue of
/// the same shape, so later replies still go to the requests behind it.
pub proof fn lemma_step_ignores_slot<S, I, E>(q1: Seq<Pending<S, I>>, q2: Seq<Pending<S, I>>, item: Result<I, E>)
    requires
        same_shape(q1, q2),
    ensures
        ({
            let (r1, d1) = step(q1, item);
            let (r2, d2) = step(q2, item);
            &&& same_shape(r1, r2)
            &&& match (d1, d2) {
                (Some((s1, out1)), Some((s2, out2))) => out1 == out2 && s1 == q1[0].slot && s2 == q2[0].slot,
                (None, None) => true,
                _ => false,
            }
        }),
{
    let (r1, d1) = step(q1, item);
    let (r2, d2) = step(q2, item);
    if q1.len() > 0 {
        assert forall|k: int| 0 <= k < r1.len() implies (#[trigger] r1[k]).expected == r2[k].expected && r1[k].received == r2[k].received by {
            if r1.len() == q1.len() {
                if k > 0 {
                    assert(r1[k] == q1[k] && r2[k] == q2[k]);
                }
            } else {
                assert(r1[k] == q1[k + 1] && r2[k] == q2[k + 1]);
            }
        }
    }
}

} // verus!

verus! {

/// What FIFO pairing asks of fresh requests `q` after the replies `fs`
/// (no more than they expect in all) have arrived: request by request, each
/// one whose count is covered receives the next run of that many replies;
/// the first one not covered holds what is left, and it and those behind it
/// still wait, in order.
pub open spec fn fifo_outcome<S, I, E>(q: Seq<Pending<S, I>>, fs: Seq<I>) -> (Seq<Pending<S, I>>, Seq<
    Delivery<S, I, E>,
>)
    decreases q.len(),
{
    if q.len() == 0 || fs.len() == 0 {
        (q, Seq::empty())
    } else if fs.len() >= q[0].expected {
        let n = q[0].expected as int;
        let (rest, ds) = fifo_outcome::<S, I, E>(q.drop_first(), fs.skip(n));
        (rest, seq![(q[0].slot, Ok::<Seq<I>, E>(fs.take(n)))] + ds)
    } else {
        (q.update(0, Pending { slot: q[0].slot, expected: q[0].expected, received: fs }), Seq::empty())
    }
}

/// Replies that do not complete the head request are added to it.
proof fn lemma_head_partial<S, I, E>(q: Seq<Pending<S, I>>, fs: Seq<I>)
    requires
        q.len() > 0,
        q[0].received.len() + fs.len() < q[0].expected,
    ensures
        feed::<S, I, E>(q, fs) == (q.update(
            0,
            Pending { slot: q[0].slot, expected: q[0].expected, received: q[0].received + fs },
        ), Seq::<Delivery<S, I, E>>::empty()),
    decreases fs.len(),
{
    if fs.len() == 0 {
        assert(q[0].received + fs =~= q[0].received);
        assert(q.update(0, Pending { slot: q[0].slot, expected: q[0].expected, received: q[0].received }) =~= q);
    } else {
        let got = q[0].received.push(fs[0]);
        let q1 = q.update(0, Pending { slot: q[0].slot, expected: q[0].expected, received: got });
        lemma_head_partial::<S, I, E>(q1, fs.drop_first());
        assert(got + fs.drop_first() =~= q[0].received + fs);
        assert(q1.update(0, Pending { slot: q[0].slot, expected: q[0].expected, received: got + fs.drop_first() })
            =~= q.update(0, Pending { slot: q[0].slot, expected: q[0].expected, received: q[0].received + fs }));
    }
}

/// Replies are paired with requests in order, whether or not all of them
/// have arrived: for fresh requests with counts `c_1 ... c_N` and replies
/// `f_1 ... f_M`, no more than they expect in all, the k-th request receives
/// exactly the replies after the first `c_1 + ... + c_(k-1)`, once all
/// `c_k` of them are there; the others still wait, in order, the first of
/// them holding the replies that have come for it so far.
pub proof fn lemma_fifo_pairing_partial<S, I, E>(q: Seq<Pending<S, I>>, fs: Seq<I>)
    requires
        fresh(q),
        fs.len() <= total_expected(q),
    ensures
        feed::<S, I, E>(q, fs) == fifo_outcome::<S, I, E>(q, fs),
    decreases q.len(),
{
    if q.len() == 0 || fs.len() == 0 {
    } else if fs.len() >= q[0].expected {
        let n = q[0].expected as int;
        assert(q[0].expected >= 1);
        lemma_head_completes::<S, I, E>(q, fs);
        assert(q[0].received + fs.take(n) =~= fs.take(n));
        let q1 = q.drop_first();
        assert forall|k: int| 0 <= k < q1.len() implies (#[trigger] q1[k]).received.len() == 0 && q1[k].expected >= 1 by {
            assert(q1[k] == q[k + 1]);
        }
        lemma_fifo_pairing_partial::<S, I, E>(q1, fs.skip(n));
    } else {
        lemma_head_partial::<S, I, E>(q, fs);
        assert(q[0].received + fs =~= fs);
    }
}

} // verus!
