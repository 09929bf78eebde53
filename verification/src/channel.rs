//! The mathematical model of a broadcast channel, and what holds of it.
//!
//! A channel is the log of everything its producer has published, together
//! with one cursor into that log for every reader that was ever attached. The
//! executable channel refines this model operation by operation, so whatever
//! is proved here holds of every run of it.

use vstd::prelude::*;

verus! {

/// What one read hands to a reader.
#[derive(Debug, PartialEq, Eq)]
pub enum Delivery<T> {
    /// The next item of the log.
    Item(T),
    /// Nothing to read yet; the producer may still publish.
    Pending,
    /// Nothing to read, now or later.
    End,
}

/// One reader's place in the log.
pub struct Reader<T> {
    /// Whether the reader is still attached.
    pub attached: bool,
    /// How long the log was when the reader attached.
    pub origin: nat,
    /// The index in the log of the next item that the reader is handed.
    pub position: nat,
    /// Every item that the reader was handed so far, in the order of the reads.
    pub seen: Seq<T>,
}

/// The state of a channel.
pub struct Channel<T> {
    /// How many unread items a reader may have at most.
    pub capacity: nat,
    /// Every item published so far, oldest first.
    pub log: Seq<T>,
    /// Whether the producer was closed.
    pub sealed: bool,
    /// The readers by handle, in the order in which they attached.
    pub readers: Seq<Reader<T>>,
}

/// One operation on a channel.
pub enum Op<T> {
    Publish(T),
    Subscribe,
    Read(int),
    Detach(int),
    Seal,
}

impl<T> Channel<T> {
    /// A channel on which nothing has happened yet.
    pub open spec fn opened(capacity: nat) -> Channel<T> {
        Channel { capacity, log: Seq::empty(), sealed: false, readers: Seq::empty() }
    }

    /// Whether `id` is the handle of a reader that is still attached.
    pub open spec fn attached(self, id: int) -> bool {
        0 <= id < self.readers.len() && self.readers[id].attached
    }

    /// How many published items reader `id` has not been handed yet.
    pub open spec fn unread(self, id: int) -> nat {
        (self.log.len() - self.readers[id].position) as nat
    }

    /// Whether some attached reader has a full backlog.
    pub open spec fn congested(self) -> bool {
        exists|id: int| #[trigger] self.attached(id) && self.unread(id) >= self.capacity
    }

    /// Whether the channel takes an item now.
    pub open spec fn accepts(self) -> bool {
        !self.sealed && !self.congested()
    }

    /// The channel with `item` appended to its log.
    pub open spec fn publish(self, item: T) -> Channel<T> {
        Channel { log: self.log.push(item), ..self }
    }

    /// The channel with one more reader, which starts at the end of the log.
    pub open spec fn subscribe(self) -> Channel<T> {
        Channel {
            readers: self.readers.push(
                Reader {
                    attached: true,
                    origin: self.log.len(),
                    position: self.log.len(),
                    seen: Seq::empty(),
                },
            ),
            ..self
        }
    }

    /// What reader `id` is handed by its next read.
    pub open spec fn outcome(self, id: int) -> Delivery<T> {
        if !self.attached(id) {
            Delivery::End
        } else if self.readers[id].position < self.log.len() {
            Delivery::Item(self.log[self.readers[id].position as int])
        } else if self.sealed {
            Delivery::End
        } else {
            Delivery::Pending
        }
    }

    /// The channel after reader `id` was handed the items up to, not
    /// including, the one at index `upto` of the log.
    pub open spec fn advance_to(self, id: int, upto: nat) -> Channel<T> {
        let r = self.readers[id];
        if self.attached(id) && r.position <= upto <= self.log.len() {
            Channel {
                readers: self.readers.update(
                    id,
                    Reader {
                        position: upto,
                        seen: r.seen + self.log.subrange(r.position as int, upto as int),
                        ..r
                    },
                ),
                ..self
            }
        } else {
            self
        }
    }

    /// The channel after one read by reader `id`.
    pub open spec fn advance(self, id: int) -> Channel<T> {
        if self.outcome(id) is Item {
            self.advance_to(id, self.readers[id].position + 1)
        } else {
            self
        }
    }

    /// The channel after reader `id` was detached.
    pub open spec fn detach(self, id: int) -> Channel<T> {
        if 0 <= id < self.readers.len() {
            Channel {
                readers: self.readers.update(id, Reader { attached: false, ..self.readers[id] }),
                ..self
            }
        } else {
            self
        }
    }

    /// The channel after its producer was closed.
    pub open spec fn seal(self) -> Channel<T> {
        Channel { sealed: true, ..self }
    }

    /// The channel after one operation. An item that the channel does not
    /// accept stays with the producer, and the channel stays as it is.
    pub open spec fn apply(self, op: Op<T>) -> Channel<T> {
        match op {
            Op::Publish(item) => if self.accepts() {
                self.publish(item)
            } else {
                self
            },
            Op::Subscribe => self.subscribe(),
            Op::Read(id) => self.advance(id),
            Op::Detach(id) => self.detach(id),
            Op::Seal => self.seal(),
        }
    }

    /// The channel after a run of operations.
    pub open spec fn after(self, ops: Seq<Op<T>>) -> Channel<T>
        decreases ops.len(),
    {
        if ops.len() == 0 {
            self
        } else {
            self.after(ops.drop_last()).apply(ops.last())
        }
    }

    /// What holds of a channel at all times: every reader's cursor lies
    /// between the point where it attached and the end of the log, what it
    /// was handed is exactly the stretch of the log between the two, and no
    /// attached reader is more than `capacity` items behind.
    pub open spec fn inv(self) -> bool {
        &&& self.capacity > 0
        &&& forall|id: int|
            0 <= id < self.readers.len() ==> {
                let r = #[trigger] self.readers[id];
                &&& r.origin <= r.position <= self.log.len()
                &&& r.seen == self.log.subrange(r.origin as int, r.position as int)
                &&& (r.attached ==> self.log.len() - r.position <= self.capacity)
            }
    }

    /// Whether reader `id` has a full backlog.
    pub open spec fn lagging(self, id: int) -> bool {
        self.attached(id) && self.unread(id) >= self.capacity
    }
}

/// Whether `op` is a read by, or the detaching of, reader `id`.
pub open spec fn moves_reader<T>(op: Op<T>, id: int) -> bool {
    op == Op::<T>::Read(id) || op == Op::<T>::Detach(id)
}

/// No operation brings a channel out of order, and none rewrites history: the
/// log only grows at its end, readers keep their handles and the point where
/// they attached, a closed producer stays closed, and a detached reader stays
/// detached.
pub proof fn lemma_apply<T>(s: Channel<T>, op: Op<T>)
    requires
        s.inv(),
    ensures
        s.apply(op).inv(),
        s.apply(op).capacity == s.capacity,
        s.log.len() <= s.apply(op).log.len(),
        s.apply(op).log.subrange(0, s.log.len() as int) == s.log,
        s.sealed ==> s.apply(op).sealed && s.apply(op).log == s.log,
        s.readers.len() <= s.apply(op).readers.len(),
        forall|id: int|
            0 <= id < s.readers.len() ==> {
                let before = #[trigger] s.readers[id];
                let now = s.apply(op).readers[id];
                &&& now.origin == before.origin
                &&& before.position <= now.position
                &&& (now.attached ==> before.attached)
                &&& now.seen.subrange(0, before.seen.len() as int) == before.seen
            },
{
    let t = s.apply(op);
    assert(t.log.subrange(0, s.log.len() as int) =~= s.log);
    assert forall|id: int| 0 <= id < t.readers.len() implies {
        let r = #[trigger] t.readers[id];
        &&& r.origin <= r.position <= t.log.len()
        &&& r.seen == t.log.subrange(r.origin as int, r.position as int)
        &&& (r.attached ==> t.log.len() - r.position <= t.capacity)
    } by {
        let r = t.readers[id];
        if id < s.readers.len() {
            let q = s.readers[id];
            assert(q.seen == s.log.subrange(q.origin as int, q.position as int));
            match op {
                Op::Publish(item) => {
                    if s.accepts() {
                        assert(r == q);
                        assert(t.log.subrange(q.origin as int, q.position as int) =~= s.log.subrange(
                            q.origin as int,
                            q.position as int,
                        ));
                        if q.attached {
                            assert(s.attached(id));
                            assert(s.unread(id) < s.capacity);
                        }
                    }
                },
                Op::Read(i) => {
                    assert(r.seen =~= t.log.subrange(r.origin as int, r.position as int));
                },
                _ => {},
            }
        } else {
            assert(r.seen =~= t.log.subrange(r.origin as int, r.position as int));
        }
    }
    assert forall|id: int| 0 <= id < s.readers.len() implies {
        let before = #[trigger] s.readers[id];
        let now = t.readers[id];
        &&& now.origin == before.origin
        &&& before.position <= now.position
        &&& (now.attached ==> before.attached)
        &&& now.seen.subrange(0, before.seen.len() as int) == before.seen
    } by {
        let before = s.readers[id];
        let now = t.readers[id];
        assert(now.seen.subrange(0, before.seen.len() as int) =~= before.seen);
    }
}

/// What `lemma_apply` says of one operation holds of every run of them.
pub proof fn lemma_after<T>(s: Channel<T>, ops: Seq<Op<T>>)
    requires
        s.inv(),
    ensures
        s.after(ops).inv(),
        s.after(ops).capacity == s.capacity,
        s.log.len() <= s.after(ops).log.len(),
        s.after(ops).log.subrange(0, s.log.len() as int) == s.log,
        s.sealed ==> s.after(ops).sealed && s.after(ops).log == s.log,
        s.readers.len() <= s.after(ops).readers.len(),
        forall|id: int|
            0 <= id < s.readers.len() ==> {
                let before = #[trigger] s.readers[id];
                let now = s.after(ops).readers[id];
                &&& now.origin == before.origin
                &&& before.position <= now.position
                &&& (now.attached ==> before.attached)
                &&& now.seen.subrange(0, before.seen.len() as int) == before.seen
            },
    decreases ops.len(),
{
    if ops.len() == 0 {
        assert(s.log.subrange(0, s.log.len() as int) =~= s.log);
        assert forall|id: int| 0 <= id < s.readers.len() implies {
            let before = #[trigger] s.readers[id];
            before.seen.subrange(0, before.seen.len() as int) == before.seen
        } by {
            let before = s.readers[id];
            assert(before.seen.subrange(0, before.seen.len() as int) =~= before.seen);
        }
    } else {
        let mid = s.after(ops.drop_last());
        let end = s.after(ops);
        lemma_after(s, ops.drop_last());
        lemma_apply(mid, ops.last());
        assert(end.log.subrange(0, s.log.len() as int) =~= mid.log.subrange(
            0,
            s.log.len() as int,
        ));
        assert forall|id: int| 0 <= id < s.readers.len() implies {
            let before = #[trigger] s.readers[id];
            let now = end.readers[id];
            &&& now.origin == before.origin
            &&& before.position <= now.position
            &&& (now.attached ==> before.attached)
            &&& now.seen.subrange(0, before.seen.len() as int) == before.seen
        } by {
            let before = s.readers[id];
            let between = mid.readers[id];
            let now = end.readers[id];
            assert(now.seen.subrange(0, before.seen.len() as int) =~= between.seen.subrange(
                0,
                before.seen.len() as int,
            ));
        }
    }
}

/// Whatever is done to a new channel, it stays in order.
pub proof fn lemma_always_in_order<T>(capacity: nat, ops: Seq<Op<T>>)
    requires
        capacity > 0,
    ensures
        Channel::<T>::opened(capacity).after(ops).inv(),
{
    lemma_after(Channel::<T>::opened(capacity), ops);
}

/// Fan-out fidelity: every reader was handed exactly the items published
/// between the point where it attached and its cursor, each once and in the
/// order of publication. So of two readers that attached at the same point,
/// the one further behind has been handed a prefix of what the other has,
/// and two that are equally far have been handed the same.
pub proof fn lemma_fanout_fidelity<T>(s: Channel<T>, a: int, b: int)
    requires
        s.inv(),
        0 <= a < s.readers.len(),
        0 <= b < s.readers.len(),
        s.readers[a].origin == s.readers[b].origin,
        s.readers[a].position <= s.readers[b].position,
    ensures
        s.readers[a].seen == s.log.subrange(
            s.readers[a].origin as int,
            s.readers[a].position as int,
        ),
        s.readers[a].seen == s.readers[b].seen.subrange(0, s.readers[a].seen.len() as int),
        s.readers[a].position == s.readers[b].position ==> s.readers[a].seen == s.readers[b].seen,
{
    let ra = s.readers[a];
    let rb = s.readers[b];
    assert(ra.seen =~= rb.seen.subrange(0, ra.seen.len() as int));
    if ra.position == rb.position {
        assert(ra.seen =~= rb.seen);
    }
}

/// No retroactive delivery: a reader that attaches when the log holds `n`
/// items is, whatever happens afterwards, handed only items published after
/// those `n`, which themselves stay in the log as they were.
pub proof fn lemma_no_retroactive_delivery<T>(s: Channel<T>, ops: Seq<Op<T>>)
    requires
        s.inv(),
    ensures
        ({
            let id = s.readers.len() as int;
            let n = s.log.len() as int;
            let t = s.subscribe().after(ops);
            &&& id < t.readers.len()
            &&& t.log.subrange(0, n) == s.log
            &&& n <= t.readers[id].position <= t.log.len()
            &&& t.readers[id].seen == t.log.subrange(n, t.readers[id].position as int)
        }),
{
    let id = s.readers.len() as int;
    let u = s.subscribe();
    lemma_apply(s, Op::Subscribe);
    assert(u == s.apply(Op::Subscribe));
    lemma_after(u, ops);
    let t = u.after(ops);
    assert(u.readers[id].origin == s.log.len());
    assert(t.readers[id].origin == u.readers[id].origin);
}

/// Backpressure: while a reader with a full backlog neither reads nor is
/// detached, nothing is published, whatever else is attempted.
pub proof fn lemma_publish_waits<T>(s: Channel<T>, id: int, ops: Seq<Op<T>>)
    requires
        s.inv(),
        s.lagging(id),
        forall|k: int| 0 <= k < ops.len() ==> !moves_reader(#[trigger] ops[k], id),
    ensures
        s.after(ops).lagging(id),
        !s.after(ops).accepts(),
        s.after(ops).log == s.log,
    decreases ops.len(),
{
    if ops.len() > 0 {
        let mid = s.after(ops.drop_last());
        lemma_after(s, ops.drop_last());
        assert forall|k: int| 0 <= k < ops.drop_last().len() implies !moves_reader(
            #[trigger] ops.drop_last()[k],
            id,
        ) by {
            assert(ops.drop_last()[k] == ops[k]);
        }
        lemma_publish_waits(s, id, ops.drop_last());
        assert(!moves_reader(ops[ops.len() - 1], id));
        assert(mid.attached(id));
    }
    assert(s.after(ops).attached(id));
}

/// Once the only readers with a full backlog have read one item each or
/// have left, an open channel takes the next item.
pub proof fn lemma_room_after_move<T>(s: Channel<T>, id: int)
    requires
        s.inv(),
        !s.sealed,
        forall|other: int| #[trigger] s.lagging(other) ==> other == id,
    ensures
        s.advance(id).accepts(),
        s.detach(id).accepts(),
{
    let t = s.advance(id);
    assert forall|other: int| #[trigger] t.attached(other) implies t.unread(other) < t.capacity by {
        assert(s.attached(other));
        if other != id {
            assert(!s.lagging(other));
        } else {
            assert(s.readers[id].attached ==> s.log.len() - s.readers[id].position <= s.capacity);
        }
    }
    let d = s.detach(id);
    assert forall|other: int| #[trigger] d.attached(other) implies d.unread(other) < d.capacity by {
        assert(s.attached(other));
        assert(other != id);
        assert(!s.lagging(other));
    }
}

/// A reader's pace is its own: what one reader reads, and whether it stays,
/// changes neither what another reader is handed next nor what it has been
/// handed.
pub proof fn lemma_pace_is_private<T>(s: Channel<T>, a: int, b: int)
    requires
        0 <= b < s.readers.len(),
        a != b,
    ensures
        s.advance(a).readers[b] == s.readers[b],
        s.advance(a).outcome(b) == s.outcome(b),
        s.detach(a).readers[b] == s.readers[b],
        s.detach(a).outcome(b) == s.outcome(b),
{
}

/// Reading up to a point and then once more is reading up to the next point.
pub proof fn lemma_advance_to_step<T>(s: Channel<T>, id: int, upto: nat)
    requires
        s.attached(id),
        s.readers[id].position <= upto < s.log.len(),
    ensures
        s.advance_to(id, upto).advance(id) == s.advance_to(id, upto + 1),
        s.advance_to(id, upto).outcome(id) == Delivery::Item(s.log[upto as int]),
{
    let r = s.readers[id];
    let mid = s.advance_to(id, upto);
    let end = mid.advance(id);
    let direct = s.advance_to(id, upto + 1);
    assert(end.readers[id].seen =~= direct.readers[id].seen);
    assert(end.readers =~= direct.readers);
}

/// Reading up to where the reader stands changes nothing.
pub proof fn lemma_advance_to_here<T>(s: Channel<T>, id: int)
    requires
        s.inv(),
        s.attached(id),
    ensures
        s.advance_to(id, s.readers[id].position) == s,
{
    let r = s.readers[id];
    assert(r.seen + s.log.subrange(r.position as int, r.position as int) =~= r.seen);
    assert(s.advance_to(id, r.position).readers =~= s.readers);
}

/// Closing the producer a second time changes nothing.
pub proof fn lemma_seal_once<T>(s: Channel<T>)
    ensures
        s.seal().seal() == s.seal(),
        s.sealed ==> s.seal() == s,
{
}

/// End of stream is final: a handle that reads `End` once reads `End` for
/// ever, whatever happens to the channel in between.
pub proof fn lemma_end_is_final<T>(s: Channel<T>, id: int, ops: Seq<Op<T>>)
    requires
        s.inv(),
        0 <= id < s.readers.len(),
        s.outcome(id) is End,
    ensures
        s.after(ops).outcome(id) is End,
        s.after(ops).readers[id].seen == s.readers[id].seen,
    decreases ops.len(),
{
    if ops.len() > 0 {
        let mid = s.after(ops.drop_last());
        lemma_end_is_final(s, id, ops.drop_last());
        lemma_after(s, ops.drop_last());
        lemma_apply(mid, ops.last());
        let end = mid.apply(ops.last());
        if mid.attached(id) {
            assert(mid.sealed);
            assert(mid.readers[id].position == mid.log.len());
            assert(end.log == mid.log);
            assert(end.readers[id].position == mid.readers[id].position);
            assert(end.readers[id].seen == mid.readers[id].seen);
        } else {
            assert(!end.readers[id].attached);
            assert(end.readers[id].seen == mid.readers[id].seen);
        }
    }
}

/// After the producer was closed, a reader that stays attached drains what
/// is left for it and then reaches the end: reading as often as it has
/// unread items hands it exactly those items, in order, and from then on its
/// reads give `End`.
pub proof fn lemma_drains_to_end<T>(s: Channel<T>, id: int)
    requires
        s.inv(),
        s.sealed,
        s.attached(id),
    ensures
        ({
            let reads = Seq::new(s.unread(id), |k: int| Op::<T>::Read(id));
            let t = s.after(reads);
            &&& t.log == s.log
            &&& t.readers[id].seen == s.readers[id].seen + s.log.subrange(
                s.readers[id].position as int,
                s.log.len() as int,
            )
            &&& t.outcome(id) is End
        }),
{
    lemma_reads_in_order(s, id, s.unread(id));
}

/// Reading `n` times, with at least `n` items unread, hands the reader the
/// next `n` items of the log in order.
pub proof fn lemma_reads_in_order<T>(s: Channel<T>, id: int, n: nat)
    requires
        s.inv(),
        s.attached(id),
        n <= s.unread(id),
    ensures
        ({
            let t = s.after(Seq::new(n, |k: int| Op::<T>::Read(id)));
            let r = s.readers[id];
            &&& t == s.advance_to(id, r.position + n)
            &&& t.readers[id].seen == r.seen + s.log.subrange(
                r.position as int,
                (r.position + n) as int,
            )
        }),
    decreases n,
{
    let reads = Seq::new(n, |k: int| Op::<T>::Read(id));
    let r = s.readers[id];
    if n == 0 {
        assert(r.seen + s.log.subrange(r.position as int, r.position as int) =~= r.seen);
        assert(s.advance_to(id, r.position).readers =~= s.readers);
    } else {
        let fewer = Seq::new((n - 1) as nat, |k: int| Op::<T>::Read(id));
        assert(reads.drop_last() =~= fewer);
        lemma_reads_in_order(s, id, (n - 1) as nat);
        let mid = s.after(fewer);
        let end = mid.apply(Op::Read(id));
        assert(s.after(reads) == end);
        assert(mid.readers[id].position == r.position + n - 1);
        assert(end.readers[id].seen =~= r.seen + s.log.subrange(
            r.position as int,
            (r.position + n) as int,
        ));
        assert(end.readers =~= s.advance_to(id, r.position + n).readers);
    }
}

} // verus!
