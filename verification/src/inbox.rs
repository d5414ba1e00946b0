//! The server's inbox for client events: one queue for each kind of event, drained
//! when read, and the lane that puts the events of an ordered channel back into the
//! order in which they were sent.

use std::collections::HashMap;
use vstd::prelude::*;
use crate::events::FromClient;

verus! {

broadcast use vstd::std_specs::hash::group_hash_axioms;

/// The events of one kind that have arrived and were not read yet, each with its
/// sender, in the order of arrival.
pub struct EventQueue<T> {
    pending: Vec<FromClient<T>>,
}

impl<T> View for EventQueue<T> {
    type V = Seq<FromClient<T>>;

    closed spec fn view(&self) -> Seq<FromClient<T>> {
        self.pending@
    }
}

impl<T> EventQueue<T> {
    /// A queue without events.
    pub fn new() -> (q: EventQueue<T>)
        ensures
            q@ == Seq::<FromClient<T>>::empty(),
    {
        EventQueue { pending: Vec::new() }
    }

    /// How many events wait to be read.
    pub fn len(&self) -> (n: usize)
        ensures
            n == self@.len(),
    {
        self.pending.len()
    }

    /// Puts an event at the end of the queue, tagged with its sender.
    pub fn push(&mut self, client_id: u64, event: T)
        ensures
            final(self)@ == old(self)@.push(FromClient { client_id, event }),
    {
        self.pending.push(FromClient { client_id, event });
    }

    /// Hands out the events that have arrived since the last call, in the order of
    /// arrival, and leaves the queue empty: every event is read once.
    pub fn recv(&mut self) -> (events: Vec<FromClient<T>>)
        ensures
            events@ == old(self)@,
            final(self)@ == Seq::<FromClient<T>>::empty(),
    {
        let mut events: Vec<FromClient<T>> = Vec::new();
        core::mem::swap(&mut self.pending, &mut events);
        events
    }
}

/// An event with its place in the order in which its sender sent it.
#[derive(Debug)]
pub struct Sequenced<T> {
    pub seq: u64,
    pub event: T,
}

/// The mathematical value of an [`OrderedLane`].
pub struct LaneView<T> {
    /// The place of the event that is to be released next.
    pub next: u64,
    /// The events that have arrived ahead of their turn, by place.
    pub held: Map<u64, T>,
}

/// How many events in a row are held from place `from` on.
pub open spec fn run_length<T>(held: Map<u64, T>, from: int) -> nat
    decreases u64::MAX - from,
{
    if 0 <= from < u64::MAX && held.contains_key(from as u64) {
        1 + run_length(held, from + 1)
    } else {
        0
    }
}

impl<T> LaneView<T> {
    /// The lane of a sender of which nothing has arrived.
    pub open spec fn fresh() -> LaneView<T> {
        LaneView { next: 0, held: Map::empty() }
    }

    /// Every held event is ahead of its turn.
    pub open spec fn wf(self) -> bool {
        forall|s: u64| self.held.contains_key(s) ==> self.next < s < u64::MAX
    }

    /// Whether the lane takes a packet in. A packet whose turn has passed, or whose
    /// place is held already, is a second copy and is dropped; the last place of
    /// all is never used.
    pub open spec fn takes(self, p: Sequenced<T>) -> bool {
        self.next <= p.seq < u64::MAX && !self.held.contains_key(p.seq)
    }

    /// The lane with a packet taken in, before anything is released.
    pub open spec fn hold(self, p: Sequenced<T>) -> LaneView<T> {
        if self.takes(p) {
            LaneView { next: self.next, held: self.held.insert(p.seq, p.event) }
        } else {
            self
        }
    }

    /// Whether the event whose turn it is is held.
    pub open spec fn ready(self) -> bool {
        self.held.contains_key(self.next)
    }

    /// The lane after the event whose turn it is has been released.
    pub open spec fn step(self) -> LaneView<T>
        recommends
            self.ready(),
    {
        LaneView { next: (self.next + 1) as u64, held: self.held.remove(self.next) }
    }

    /// No held event is behind its turn. This is what holds of a lane while it
    /// releases events; between packets [`LaneView::wf`] holds.
    pub open spec fn releasing(self) -> bool {
        forall|s: u64| self.held.contains_key(s) ==> self.next <= s < u64::MAX
    }

    /// The events that the lane releases when a packet arrives: the run of events
    /// that are held from the next place on, once the packet is in.
    pub open spec fn released(self, p: Sequenced<T>) -> Seq<T> {
        if self.takes(p) {
            let held = self.held.insert(p.seq, p.event);
            Seq::new(run_length(held, self.next as int), |i: int| held[(self.next + i) as u64])
        } else {
            Seq::empty()
        }
    }

    /// The lane after a packet has arrived.
    pub open spec fn accept(self, p: Sequenced<T>) -> LaneView<T> {
        if self.takes(p) {
            let held = self.held.insert(p.seq, p.event);
            let n = run_length(held, self.next as int);
            LaneView {
                next: (self.next + n) as u64,
                held: held.remove_keys(Set::new(|s: u64| self.next <= s < self.next + n)),
            }
        } else {
            self
        }
    }
}

/// A run of held events ends before the last place, and at a place that is not
/// held; every place before its end is held.
pub proof fn lemma_run_length<T>(held: Map<u64, T>, from: int)
    requires
        0 <= from <= u64::MAX,
    ensures
        from + run_length(held, from) <= u64::MAX,
        from + run_length(held, from) < u64::MAX ==> !held.contains_key(
            (from + run_length(held, from)) as u64,
        ),
        forall|i: int|
            0 <= i < run_length(held, from) ==> held.contains_key(#[trigger] ((from + i) as u64)),
    decreases u64::MAX - from,
{
    if from < u64::MAX && held.contains_key(from as u64) {
        lemma_run_length(held, from + 1);
        assert forall|i: int| 0 <= i < run_length(held, from) implies held.contains_key(
            #[trigger] ((from + i) as u64),
        ) by {
            if i > 0 {
                assert(held.contains_key(((from + 1) + (i - 1)) as u64));
            }
        }
    }
}

/// A run of held events that is known to hold `k` places and to end there has
/// length `k`.
pub proof fn lemma_run_length_is<T>(held: Map<u64, T>, from: int, k: nat)
    requires
        0 <= from,
        from + k <= u64::MAX,
        forall|i: int| 0 <= i < k ==> held.contains_key(#[trigger] ((from + i) as u64)),
        from + k < u64::MAX ==> !held.contains_key((from + k) as u64),
    ensures
        run_length(held, from) == k,
    decreases k,
{
    if k > 0 {
        assert(held.contains_key((from + 0) as u64));
        assert forall|i: int| 0 <= i < k - 1 implies held.contains_key(
            #[trigger] ((from + 1 + i) as u64),
        ) by {
            assert(held.contains_key((from + (i + 1)) as u64));
        }
        lemma_run_length_is(held, from + 1, (k - 1) as nat);
    }
}

/// The receiving end of an ordered channel for one sender. Packets may arrive in any
/// order and more than once; events leave in the order in which they were sent.
pub struct OrderedLane<T> {
    next: u64,
    held: HashMap<u64, T>,
}

impl<T> View for OrderedLane<T> {
    type V = LaneView<T>;

    closed spec fn view(&self) -> LaneView<T> {
        LaneView { next: self.next, held: self.held@ }
    }
}

impl<T> OrderedLane<T> {
    /// The invariant of the lane.
    pub open spec fn wf(&self) -> bool {
        self@.wf()
    }

    /// The lane of a sender of which nothing has arrived.
    pub fn new() -> (lane: OrderedLane<T>)
        ensures
            lane@ == LaneView::<T>::fresh(),
            lane.wf(),
    {
        OrderedLane { next: 0, held: HashMap::new() }
    }

    /// The place of the event that is to be released next: so many events were
    /// released so far.
    pub fn next(&self) -> (n: u64)
        ensures
            n == self@.next,
    {
        self.next
    }

    /// Takes a packet in, without releasing anything, and says whether the packet was
    /// taken.
    fn hold(&mut self, packet: Sequenced<T>) -> (taken: bool)
        requires
            old(self).wf(),
        ensures
            taken == old(self)@.takes(packet),
            final(self)@ == old(self)@.hold(packet),
            final(self)@.releasing(),
    {
        if packet.seq < self.next || packet.seq == u64::MAX || self.held.contains_key(
            &packet.seq,
        ) {
            return false;
        }
        let ghost p = packet;
        self.held.insert(packet.seq, packet.event);
        proof {
            assert(self.held@ == old(self)@.held.insert(p.seq, p.event));
            assert forall|s: u64| self.held@.contains_key(s) implies self.next <= s < u64::MAX by {
                if s != p.seq {
                    assert(old(self)@.held.contains_key(s));
                }
            }
        }
        true
    }

    /// Releases the event whose turn it is, if it is held.
    fn poll(&mut self) -> (event: Option<T>)
        requires
            old(self)@.releasing(),
        ensures
            final(self)@.releasing(),
            event is Some <==> old(self)@.ready(),
            event matches Some(e) ==> e == old(self)@.held[old(self)@.next] && final(self)@ == old(
                self,
            )@.step(),
            event is None ==> final(self)@ == old(self)@,
    {
        let ghost before = self.held@;
        match self.held.remove(&self.next) {
            Some(event) => {
                proof {
                    let was = old(self)@;
                    assert(was.held == before && was.next == self.next);
                    assert(was.held.contains_key(was.next));
                    assert(self.next < u64::MAX);
                    assert(self.held@ =~= before.remove(self.next));
                    assert forall|s: u64| self.held@.contains_key(s) implies self.next + 1 <= s
                        < u64::MAX by {
                        assert(was.held.contains_key(s));
                    }
                }
                self.next = self.next + 1;
                Some(event)
            },
            None => {
                proof {
                    assert(!before.contains_key(self.next));
                    assert(self.held@ =~= before);
                }
                None
            },
        }
    }

    /// Takes a packet in and releases the events whose turn has come, in order.
    pub fn accept(&mut self, packet: Sequenced<T>) -> (released: Vec<T>)
        requires
            old(self).wf(),
        ensures
            final(self).wf(),
            final(self)@ == old(self)@.accept(packet),
            released@ == old(self)@.released(packet),
    {
        let mut out: Vec<T> = Vec::new();
        if !self.hold(packet) {
            return out;
        }
        let ghost first = self.next;
        let ghost held = self.held@;
        let mut running = true;
        proof {
            assert(self.held@ =~= held.remove_keys(Set::new(|s: u64| first <= s < self.next)));
            assert(out@ =~= Seq::new(0nat, |i: int| held[(first + i) as u64]));
        }
        while running
            invariant
                first <= self.next <= u64::MAX,
                self@.releasing(),
                forall|s: u64| held.contains_key(s) ==> first <= s < u64::MAX,
                released_so_far(held, first, self@, out@),
                !running ==> !held.contains_key(self.next),
            decreases u64::MAX - self.next + (if running { 1int } else { 0int }),
        {
            let ghost before = self@;
            let ghost out_before = out@;
            match self.poll() {
                Some(event) => {
                    out.push(event);
                    proof {
                        lemma_release_one(held, first, before, out_before);
                    }
                },
                None => {
                    running = false;
                },
            }
        }
        proof {
            lemma_run_length_is(held, first as int, (self.next - first) as nat);
            lemma_run_length(held, first as int);
        }
        out
    }
}

/// Whether a lane that took a packet in at place `first`, and then held `held`, has
/// since come to the state `now` by releasing the events `out`, in order.
pub open spec fn released_so_far<T>(held: Map<u64, T>, first: u64, now: LaneView<T>, out: Seq<T>) -> bool {
    &&& first <= now.next
    &&& forall|i: int| 0 <= i < now.next - first ==> held.contains_key(#[trigger] ((first + i) as u64))
    &&& out == Seq::new((now.next - first) as nat, |i: int| held[(first + i) as u64])
    &&& now.held == held.remove_keys(Set::new(|s: u64| first <= s < now.next))
}

/// Releasing one more event keeps the account of what was released.
pub proof fn lemma_release_one<T>(held: Map<u64, T>, first: u64, before: LaneView<T>, out: Seq<T>)
    requires
        released_so_far(held, first, before, out),
        before.ready(),
        before.next < u64::MAX,
    ensures
        released_so_far(held, first, before.step(), out.push(before.held[before.next])),
{
    let after = before.step();
    assert(held.contains_key(before.next));
    assert(before.held[before.next] == held[before.next]);
    assert forall|i: int| 0 <= i < after.next - first implies held.contains_key(
        #[trigger] ((first + i) as u64),
    ) by {
        if i == after.next - first - 1 {
            assert((first + i) as u64 == before.next);
        }
    }
    assert(out.push(before.held[before.next]) =~= Seq::new(
        (after.next - first) as nat,
        |i: int| held[(first + i) as u64],
    ));
    assert(after.held =~= held.remove_keys(Set::new(|s: u64| first <= s < after.next)));
}

/// The lane after a run of packets has arrived, in this order.
pub open spec fn lane_after<T>(lane: LaneView<T>, arrivals: Seq<Sequenced<T>>) -> LaneView<T>
    decreases arrivals.len(),
{
    if arrivals.len() == 0 {
        lane
    } else {
        lane_after(lane, arrivals.drop_last()).accept(arrivals.last())
    }
}

/// All events that the lane releases while a run of packets arrives, in the order of
/// release.
pub open spec fn delivered<T>(lane: LaneView<T>, arrivals: Seq<Sequenced<T>>) -> Seq<T>
    decreases arrivals.len(),
{
    if arrivals.len() == 0 {
        Seq::empty()
    } else {
        delivered(lane, arrivals.drop_last()) + lane_after(lane, arrivals.drop_last()).released(
            arrivals.last(),
        )
    }
}

/// Whether a packet is one that the sender of the events `sent` made: it carries the
/// event of its place.
pub open spec fn from_sender<T>(sent: Seq<T>, p: Sequenced<T>) -> bool {
    p.seq < sent.len() && sent[p.seq as int] == p.event
}

/// Whether a lane holds only what the sender of the events `sent` has sent, and has
/// released no more than that.
pub open spec fn in_step<T>(lane: LaneView<T>, sent: Seq<T>) -> bool {
    &&& lane.wf()
    &&& lane.next <= sent.len()
    &&& forall|s: u64| #[trigger]
        lane.held.contains_key(s) ==> s < sent.len() && lane.held[s] == sent[s as int]
}

/// Whatever packet of the sender arrives, the lane releases the events that follow
/// those released before, in the sender's order, and leaves none out.
pub proof fn lemma_accept_in_order<T>(lane: LaneView<T>, sent: Seq<T>, p: Sequenced<T>)
    requires
        sent.len() <= u64::MAX,
        in_step(lane, sent),
        from_sender(sent, p),
    ensures
        in_step(lane.accept(p), sent),
        lane.next <= lane.accept(p).next,
        lane.released(p) == sent.subrange(lane.next as int, lane.accept(p).next as int),
        !lane.accept(p).held.contains_key(lane.accept(p).next),
        p.seq < lane.accept(p).next || lane.accept(p).held.contains_key(p.seq),
        forall|s: u64|
            s < lane.next || lane.held.contains_key(s) ==> s < lane.accept(p).next
                || #[trigger] lane.accept(p).held.contains_key(s),
{
    if lane.takes(p) {
        let held = lane.held.insert(p.seq, p.event);
        let n = run_length(held, lane.next as int);
        lemma_run_length(held, lane.next as int);
        assert forall|i: int| 0 <= i < n implies lane.next + i < sent.len() && held[#[trigger] ((
            lane.next + i) as u64)] == sent[lane.next + i] by {
            assert(held.contains_key((lane.next + i) as u64));
        }
        assert(lane.next + n <= sent.len()) by {
            if n > 0 {
                assert(held.contains_key((lane.next + (n - 1)) as u64));
            }
        }
        assert(lane.released(p) =~= sent.subrange(lane.next as int, lane.next + n));
    } else {
        assert(lane.released(p) =~= sent.subrange(lane.next as int, lane.next as int));
    }
}

/// From wherever a lane stands, the events that it releases while packets of the
/// sender arrive are the events that follow those released before, in the sender's
/// order, with none left out.
pub proof fn lemma_delivery_in_order<T>(
    lane: LaneView<T>,
    sent: Seq<T>,
    arrivals: Seq<Sequenced<T>>,
)
    requires
        sent.len() <= u64::MAX,
        in_step(lane, sent),
        forall|i: int| 0 <= i < arrivals.len() ==> from_sender(sent, #[trigger] arrivals[i]),
    ensures
        in_step(lane_after(lane, arrivals), sent),
        lane.next <= lane_after(lane, arrivals).next,
        delivered(lane, arrivals) == sent.subrange(
            lane.next as int,
            lane_after(lane, arrivals).next as int,
        ),
    decreases arrivals.len(),
{
    if arrivals.len() == 0 {
        assert(delivered(lane, arrivals) =~= sent.subrange(lane.next as int, lane.next as int));
    } else {
        let earlier = arrivals.drop_last();
        assert forall|i: int| 0 <= i < earlier.len() implies from_sender(
            sent,
            #[trigger] earlier[i],
        ) by {
            assert(earlier[i] == arrivals[i]);
        }
        lemma_delivery_in_order(lane, sent, earlier);
        let before = lane_after(lane, earlier);
        lemma_accept_in_order(before, sent, arrivals.last());
        assert(sent.subrange(lane.next as int, before.next as int) + sent.subrange(
            before.next as int,
            before.accept(arrivals.last()).next as int,
        ) =~= sent.subrange(lane.next as int, before.accept(arrivals.last()).next as int));
    }
}

/// Events of one sender on an ordered channel leave the lane in the order in which
/// they were sent, with none left out, in whatever order and however often the
/// packets arrive: what was released is always the beginning of what was sent.
pub proof fn lemma_ordered_delivery<T>(sent: Seq<T>, arrivals: Seq<Sequenced<T>>)
    requires
        sent.len() <= u64::MAX,
        forall|i: int| 0 <= i < arrivals.len() ==> from_sender(sent, #[trigger] arrivals[i]),
    ensures
        in_step(lane_after(LaneView::fresh(), arrivals), sent),
        delivered(LaneView::fresh(), arrivals) == sent.take(
            lane_after(LaneView::fresh(), arrivals).next as int,
        ),
    decreases arrivals.len(),
{
    if arrivals.len() == 0 {
        assert(delivered(LaneView::<T>::fresh(), arrivals) =~= sent.take(0));
    } else {
        let earlier = arrivals.drop_last();
        assert forall|i: int| 0 <= i < earlier.len() implies from_sender(
            sent,
            #[trigger] earlier[i],
        ) by {
            assert(earlier[i] == arrivals[i]);
        }
        lemma_ordered_delivery(sent, earlier);
        let lane = lane_after(LaneView::fresh(), earlier);
        lemma_accept_in_order(lane, sent, arrivals.last());
        assert(sent.take(lane.next as int) + sent.subrange(
            lane.next as int,
            lane.accept(arrivals.last()).next as int,
        ) =~= sent.take(lane.accept(arrivals.last()).next as int));
    }
}

/// No packet of the sender is lost in the lane: after it arrived, its event has been
/// released or is held.
pub proof fn lemma_nothing_lost<T>(sent: Seq<T>, arrivals: Seq<Sequenced<T>>, i: int)
    requires
        sent.len() <= u64::MAX,
        forall|j: int| 0 <= j < arrivals.len() ==> from_sender(sent, #[trigger] arrivals[j]),
        0 <= i < arrivals.len(),
    ensures
        arrivals[i].seq < lane_after(LaneView::fresh(), arrivals).next || lane_after(
            LaneView::fresh(),
            arrivals,
        ).held.contains_key(arrivals[i].seq),
    decreases arrivals.len(),
{
    let earlier = arrivals.drop_last();
    assert forall|j: int| 0 <= j < earlier.len() implies from_sender(sent, #[trigger] earlier[j]) by {
        assert(earlier[j] == arrivals[j]);
    }
    lemma_ordered_delivery(sent, earlier);
    let lane = lane_after(LaneView::fresh(), earlier);
    lemma_accept_in_order(lane, sent, arrivals.last());
    if i < arrivals.len() - 1 {
        lemma_nothing_lost(sent, earlier, i);
        assert(earlier[i] == arrivals[i]);
    }
}

/// Whether a packet for the place `seq` is among the arrivals.
pub open spec fn has_arrived<T>(arrivals: Seq<Sequenced<T>>, seq: int) -> bool {
    exists|j: int| 0 <= j < arrivals.len() && (#[trigger] arrivals[j]).seq == seq
}

/// Delivery on an ordered channel is eventual: once the packets of the first `n`
/// events have all arrived, in any order, those `n` events have been released.
pub proof fn lemma_eventual_delivery<T>(sent: Seq<T>, arrivals: Seq<Sequenced<T>>, n: int)
    requires
        sent.len() <= u64::MAX,
        forall|j: int| 0 <= j < arrivals.len() ==> from_sender(sent, #[trigger] arrivals[j]),
        0 <= n <= sent.len(),
        forall|s: int| 0 <= s < n ==> #[trigger] has_arrived(arrivals, s),
    ensures
        lane_after(LaneView::fresh(), arrivals).next >= n,
        delivered(LaneView::fresh(), arrivals).take(n) == sent.take(n),
{
    lemma_ordered_delivery(sent, arrivals);
    let lane = lane_after(LaneView::fresh(), arrivals);
    if lane.next < n {
        assert(has_arrived(arrivals, lane.next as int));
        let j = choose|j: int| 0 <= j < arrivals.len() && (#[trigger] arrivals[j]).seq == lane.next;
        lemma_nothing_lost(sent, arrivals, j);
        assert(lane.held.contains_key(lane.next));
    }
    assert(delivered(LaneView::fresh(), arrivals).take(n) =~= sent.take(n));
}

/// An event list with each event tagged with its sender.
pub open spec fn tagged<T>(client_id: u64, events: Seq<T>) -> Seq<FromClient<T>> {
    Seq::new(events.len(), |i: int| FromClient { client_id, event: events[i] })
}

/// The mathematical value of an [`OrderedChannel`].
pub struct ChannelView<T> {
    /// The lane of every sender of which a packet has arrived.
    pub lanes: Map<u64, LaneView<T>>,
    /// The events that were released and not read yet, each with its sender.
    pub pending: Seq<FromClient<T>>,
}

impl<T> ChannelView<T> {
    /// The channel on which nothing has arrived.
    pub open spec fn fresh() -> ChannelView<T> {
        ChannelView { lanes: Map::empty(), pending: Seq::empty() }
    }

    /// The lane of a sender; a fresh one if nothing of the sender has arrived.
    pub open spec fn lane_of(self, client_id: u64) -> LaneView<T> {
        if self.lanes.contains_key(client_id) {
            self.lanes[client_id]
        } else {
            LaneView::fresh()
        }
    }

    /// Every lane is in order.
    pub open spec fn wf(self) -> bool {
        forall|id: u64| #[trigger] self.lanes.contains_key(id) ==> self.lanes[id].wf()
    }

    /// The channel after a packet of a sender has arrived: the sender's lane takes
    /// it, and what the lane releases waits to be read, tagged with the sender.
    pub open spec fn deliver(self, client_id: u64, p: Sequenced<T>) -> ChannelView<T> {
        ChannelView {
            lanes: self.lanes.insert(client_id, self.lane_of(client_id).accept(p)),
            pending: self.pending + tagged(client_id, self.lane_of(client_id).released(p)),
        }
    }

    /// The channel after a sender has left: its lane is gone, and with it what was
    /// held there. What was released before stays to be read.
    pub open spec fn forget(self, client_id: u64) -> ChannelView<T> {
        ChannelView { lanes: self.lanes.remove(client_id), pending: self.pending }
    }
}

/// The server's end of an ordered channel: one lane for each sender, and one queue
/// into which the lanes release. The events of one sender come out of the queue in
/// the order in which the sender sent them; nothing is said about the order between
/// senders.
pub struct OrderedChannel<T> {
    lanes: HashMap<u64, OrderedLane<T>>,
    queue: EventQueue<T>,
}

impl<T> View for OrderedChannel<T> {
    type V = ChannelView<T>;

    closed spec fn view(&self) -> ChannelView<T> {
        ChannelView {
            lanes: Map::new(
                |id: u64| self.lanes@.contains_key(id),
                |id: u64| self.lanes@[id]@,
            ),
            pending: self.queue@,
        }
    }
}

impl<T> OrderedChannel<T> {
    /// The invariant of the channel.
    pub open spec fn wf(&self) -> bool {
        self@.wf()
    }

    /// The channel on which nothing has arrived.
    pub fn new() -> (channel: OrderedChannel<T>)
        ensures
            channel@ == ChannelView::<T>::fresh(),
            channel.wf(),
    {
        let channel = OrderedChannel { lanes: HashMap::new(), queue: EventQueue::new() };
        assert(channel@.lanes =~= Map::<u64, LaneView<T>>::empty());
        channel
    }

    /// Takes in a packet of a sender.
    pub fn deliver(&mut self, client_id: u64, packet: Sequenced<T>)
        requires
            old(self).wf(),
        ensures
            final(self).wf(),
            final(self)@ == old(self)@.deliver(client_id, packet),
    {
        let ghost start = self@;
        let mut lane = match self.lanes.remove(&client_id) {
            Some(lane) => lane,
            None => OrderedLane::new(),
        };
        let ghost before = lane@;
        let ghost others = self.lanes@;
        proof {
            assert(others =~= old(self).lanes@.remove(client_id));
            assert(before == start.lane_of(client_id));
            assert(start.lanes.contains_key(client_id) ==> before.wf());
        }
        if lane.hold(packet) {
            let ghost first = lane.next;
            let ghost held = lane.held@;
            let ghost mut out: Seq<T> = Seq::empty();
            let mut running = true;
            proof {
                assert(lane.held@ =~= held.remove_keys(Set::new(|s: u64| first <= s < lane.next)));
                assert(out =~= Seq::new(0nat, |i: int| held[(first + i) as u64]));
                assert(self.queue@ =~= start.pending + tagged(client_id, out));
            }
            while running
                invariant
                    first <= lane.next <= u64::MAX,
                    lane@.releasing(),
                    forall|s: u64| held.contains_key(s) ==> first <= s < u64::MAX,
                    released_so_far(held, first, lane@, out),
                    self.lanes@ == others,
                    self.queue@ == start.pending + tagged(client_id, out),
                    !running ==> !held.contains_key(lane.next),
                decreases u64::MAX - lane.next + (if running { 1int } else { 0int }),
            {
                let ghost lane_before = lane@;
                match lane.poll() {
                    Some(event) => {
                        proof {
                            lemma_release_one(held, first, lane_before, out);
                            assert(tagged(client_id, out.push(event)) =~= tagged(
                                client_id,
                                out,
                            ).push(FromClient { client_id, event }));
                            out = out.push(event);
                        }
                        self.queue.push(client_id, event);
                        proof {
                            assert(self.queue@ =~= start.pending + tagged(client_id, out));
                        }
                    },
                    None => {
                        running = false;
                    },
                }
            }
            proof {
                lemma_run_length_is(held, first as int, (lane.next - first) as nat);
                lemma_run_length(held, first as int);
                assert(lane@ == before.accept(packet));
                assert(out == before.released(packet));
                assert(lane@.wf());
            }
        } else {
            proof {
                assert(lane@ == before.accept(packet));
                assert(lane@.wf());
                assert(tagged(client_id, before.released(packet)) =~= Seq::<
                    FromClient<T>,
                >::empty());
                assert(self.queue@ =~= start.pending + tagged(client_id, before.released(packet)));
            }
        }
        self.lanes.insert(client_id, lane);
        proof {
            assert forall|id: u64| #[trigger]
                self@.lanes.contains_key(id) == start.deliver(
                    client_id,
                    packet,
                ).lanes.contains_key(id) by {}
            assert forall|id: u64| #[trigger]
                self@.lanes.contains_key(id) implies self@.lanes[id] == start.deliver(
                client_id,
                packet,
            ).lanes[id] by {
                if id != client_id {
                    assert(self.lanes@[id] == old(self).lanes@[id]);
                }
            }
            assert(self@.lanes =~= start.deliver(client_id, packet).lanes);
        }
    }

    /// The place up to which the events of a sender were released: what the
    /// receiver acknowledges to that sender.
    pub fn released_of(&self, client_id: u64) -> (upto: u64)
        ensures
            upto == self@.lane_of(client_id).next,
    {
        match self.lanes.get(&client_id) {
            Some(lane) => lane.next(),
            None => 0,
        }
    }

    /// Hands out the events that were released since the last call, each with its
    /// sender, and leaves none behind.
    pub fn recv(&mut self) -> (events: Vec<FromClient<T>>)
        ensures
            events@ == old(self)@.pending,
            final(self)@ == (ChannelView { lanes: old(self)@.lanes, pending: Seq::empty() }),
    {
        let events = self.queue.recv();
        assert(self@.lanes =~= old(self)@.lanes);
        events
    }

    /// Drops the lane of a sender that has left.
    pub fn forget(&mut self, client_id: u64)
        ensures
            final(self)@ == old(self)@.forget(client_id),
            old(self).wf() ==> final(self).wf(),
    {
        self.lanes.remove(&client_id);
        assert(self@.lanes =~= old(self)@.forget(client_id).lanes);
    }
}

/// The mathematical value of an [`OrderedOutbox`].
pub struct OutboxView<T> {
    /// The place that the next event gets.
    pub next: u64,
    /// The packets that were sent and not acknowledged, in the order of their places.
    pub unacked: Seq<Sequenced<T>>,
}

impl<T> OutboxView<T> {
    /// The outbox of a sender that has sent nothing.
    pub open spec fn fresh() -> OutboxView<T> {
        OutboxView { next: 0, unacked: Seq::empty() }
    }

    /// The place of the oldest packet that is not acknowledged.
    pub open spec fn first(self) -> int {
        self.next - self.unacked.len()
    }

    /// The packets that are not acknowledged are the last that were sent, one for
    /// each place up to the next.
    pub open spec fn wf(self) -> bool {
        &&& self.unacked.len() <= self.next
        &&& forall|i: int|
            0 <= i < self.unacked.len() ==> (#[trigger] self.unacked[i]).seq == self.first() + i
    }

    /// The outbox after an event was sent.
    pub open spec fn send(self, event: T) -> OutboxView<T>
        recommends
            self.next < u64::MAX,
    {
        OutboxView {
            next: (self.next + 1) as u64,
            unacked: self.unacked.push(Sequenced { seq: self.next, event }),
        }
    }

    /// How many of the packets that are not acknowledged an acknowledgement of every
    /// place before `upto` covers.
    pub open spec fn covered(self, upto: u64) -> int {
        if upto <= self.first() {
            0
        } else if upto >= self.next {
            self.unacked.len() as int
        } else {
            upto - self.first()
        }
    }

    /// The outbox after the receiver has acknowledged every place before `upto`.
    pub open spec fn ack(self, upto: u64) -> OutboxView<T> {
        OutboxView { next: self.next, unacked: self.unacked.skip(self.covered(upto)) }
    }

    /// Whether the outbox is that of the sender of the events `sent`: it has given
    /// out a place for each, and what it keeps are their packets.
    pub open spec fn tracks(self, sent: Seq<T>) -> bool {
        &&& self.wf()
        &&& self.next == sent.len()
        &&& forall|i: int|
            0 <= i < self.unacked.len() ==> (#[trigger] self.unacked[i]).event == sent[self.first()
                + i]
    }
}

/// The sending end of an ordered channel. It numbers the events and keeps every
/// packet until the receiver has acknowledged it, so that a packet that was lost can
/// be sent again.
pub struct OrderedOutbox<T> {
    next: u64,
    unacked: Vec<Sequenced<T>>,
}

impl<T> View for OrderedOutbox<T> {
    type V = OutboxView<T>;

    closed spec fn view(&self) -> OutboxView<T> {
        OutboxView { next: self.next, unacked: self.unacked@ }
    }
}

impl<T> OrderedOutbox<T> {
    /// The invariant of the outbox.
    pub open spec fn wf(&self) -> bool {
        self@.wf()
    }

    /// The outbox of a sender that has sent nothing.
    pub fn new() -> (outbox: OrderedOutbox<T>)
        ensures
            outbox@ == OutboxView::<T>::fresh(),
            outbox.wf(),
    {
        OrderedOutbox { next: 0, unacked: Vec::new() }
    }

    /// The outbox of a sender that takes up an earlier run of events: the next event
    /// gets the place `next`, and nothing waits to be acknowledged.
    pub fn starting_at(next: u64) -> (outbox: OrderedOutbox<T>)
        ensures
            outbox@ == (OutboxView { next, unacked: Seq::<Sequenced<T>>::empty() }),
            outbox.wf(),
    {
        OrderedOutbox { next, unacked: Vec::new() }
    }

    /// Gives an event the next place and keeps its packet, which is then in
    /// [`OrderedOutbox::pending`]. Returns the place. When the places have run out,
    /// the event is handed back and nothing changes.
    pub fn send(&mut self, event: T) -> (r: Result<u64, T>)
        requires
            old(self).wf(),
        ensures
            final(self).wf(),
            r is Ok <==> old(self)@.next < u64::MAX,
            r matches Ok(seq) ==> seq == old(self)@.next && final(self)@ == old(self)@.send(event),
            r matches Err(back) ==> back == event && final(self)@ == old(self)@,
    {
        if self.next == u64::MAX {
            return Err(event);
        }
        let seq = self.next;
        self.unacked.push(Sequenced { seq, event });
        self.next = seq + 1;
        Ok(seq)
    }

    /// Drops the packets that the receiver has acknowledged: those of every place
    /// before `upto`.
    pub fn ack(&mut self, upto: u64)
        requires
            old(self).wf(),
        ensures
            final(self).wf(),
            final(self)@ == old(self)@.ack(upto),
    {
        let len = self.unacked.len();
        let first: u64 = self.next - len as u64;
        let covered: usize = if upto <= first {
            0
        } else if upto >= self.next {
            len
        } else {
            (upto - first) as usize
        };
        let rest = self.unacked.split_off(covered);
        self.unacked = rest;
        proof {
            assert(self.unacked@ =~= old(self)@.unacked.skip(covered as int));
        }
    }

    /// The packets that are not acknowledged, in the order of their places: what is
    /// to be sent again.
    pub fn pending(&self) -> (packets: &Vec<Sequenced<T>>)
        ensures
            packets@ == self@.unacked,
    {
        &self.unacked
    }

    /// The place that the next event gets: so many events were sent so far.
    pub fn next(&self) -> (n: u64)
        ensures
            n == self@.next,
    {
        self.next
    }
}

/// An outbox keeps track of its sender through sending.
pub proof fn lemma_send_tracks<T>(outbox: OutboxView<T>, sent: Seq<T>, event: T)
    requires
        outbox.tracks(sent),
        outbox.next < u64::MAX,
    ensures
        outbox.send(event).tracks(sent.push(event)),
{
    let after = outbox.send(event);
    assert forall|i: int| 0 <= i < after.unacked.len() implies (#[trigger] after.unacked[i]).seq
        == after.first() + i && after.unacked[i].event == sent.push(event)[after.first() + i] by {
        if i < outbox.unacked.len() {
            assert(after.unacked[i] == outbox.unacked[i]);
        }
    }
}

/// An outbox keeps track of its sender through acknowledgements.
pub proof fn lemma_ack_tracks<T>(outbox: OutboxView<T>, sent: Seq<T>, upto: u64)
    requires
        outbox.tracks(sent),
    ensures
        outbox.ack(upto).tracks(sent),
        outbox.ack(upto).first() == (if upto <= outbox.first() {
            outbox.first()
        } else if upto >= outbox.next {
            outbox.next as int
        } else {
            upto as int
        }),
{
    let after = outbox.ack(upto);
    let k = outbox.covered(upto);
    assert forall|i: int| 0 <= i < after.unacked.len() implies (#[trigger] after.unacked[i]).seq
        == after.first() + i && after.unacked[i].event == sent[after.first() + i] by {
        assert(after.unacked[i] == outbox.unacked[i + k]);
    }
}

/// Sending again what is not acknowledged catches the receiver up: as long as no
/// place was acknowledged that the receiver has not released, the receiver, once the
/// pending packets have arrived, has released every event that was sent.
pub proof fn lemma_resend_catches_up<T>(outbox: OutboxView<T>, lane: LaneView<T>, sent: Seq<T>)
    requires
        outbox.tracks(sent),
        in_step(lane, sent),
        outbox.first() <= lane.next,
    ensures
        lane_after(lane, outbox.unacked).next == outbox.next,
        delivered(lane, outbox.unacked) == sent.subrange(lane.next as int, sent.len() as int),
{
    lemma_resend_reaches(outbox, lane, sent, outbox.unacked.len() as int);
    assert(outbox.unacked.take(outbox.unacked.len() as int) =~= outbox.unacked);
    assert forall|i: int| 0 <= i < outbox.unacked.len() implies from_sender(
        sent,
        #[trigger] outbox.unacked[i],
    ) by {}
    lemma_delivery_in_order(lane, sent, outbox.unacked);
}

/// After the first `k` of the pending packets have arrived, the receiver has released
/// every event before the place of the next pending packet.
pub proof fn lemma_resend_reaches<T>(
    outbox: OutboxView<T>,
    lane: LaneView<T>,
    sent: Seq<T>,
    k: int,
)
    requires
        outbox.tracks(sent),
        in_step(lane, sent),
        outbox.first() <= lane.next,
        0 <= k <= outbox.unacked.len(),
    ensures
        in_step(lane_after(lane, outbox.unacked.take(k)), sent),
        lane_after(lane, outbox.unacked.take(k)).next >= outbox.first() + k,
    decreases k,
{
    if k > 0 {
        let arrived = outbox.unacked.take(k);
        assert(arrived.drop_last() =~= outbox.unacked.take(k - 1));
        assert(arrived.last() == outbox.unacked[k - 1]);
        lemma_resend_reaches(outbox, lane, sent, k - 1);
        let before = lane_after(lane, outbox.unacked.take(k - 1));
        let p = outbox.unacked[k - 1];
        lemma_accept_in_order(before, sent, p);
        if before.takes(p) {
            let held = before.held.insert(p.seq, p.event);
            assert(held.contains_key(before.next));
            assert(run_length(held, before.next as int) >= 1);
        }
    }
}

} // verus!
