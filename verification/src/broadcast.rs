//! The broadcast channel: one producer, any number of readers that each see
//! every item published after they attached, at their own pace.
//!
//! Nothing here waits. Where a blocking channel would suspend its caller,
//! these operations say so in their result and leave the channel as it was;
//! the caller comes back when a reader has moved.

use std::collections::VecDeque;
use std::sync::Arc;
use vstd::prelude::*;
use crate::channel::{Channel, Delivery};

verus! {

/// What became of an item that was offered to the channel.
#[derive(Debug, PartialEq, Eq)]
pub enum Offer<T> {
    /// The item is in the log.
    Accepted,
    /// Some attached reader has a full backlog. The item comes back, to be
    /// offered again once that reader has read or left.
    Full(T),
    /// The producer was closed. The item comes back.
    Closed(T),
}

/// A bounded, ordered, multi-reader channel.
///
/// Items are kept behind reference-counted pointers, so a read hands out a
/// pointer and copies nothing. Only the items that some attached reader has
/// yet to read are kept.
pub struct BroadcastCore<T> {
    capacity: usize,
    closed: bool,
    /// The newest items of the log, as many as the furthest-behind attached
    /// reader has yet to read.
    window: VecDeque<Arc<T>>,
    /// By handle: how many items the reader has yet to read, or `None` once
    /// it is detached.
    backlog: Vec<Option<usize>>,
    state: Ghost<Channel<T>>,
}

/// `Arc::clone`: one more pointer to the value that `item` points to. The
/// value itself is neither copied nor changed, so the new pointer holds it.
#[verifier::external_body]
fn share<T>(item: &Arc<T>) -> (out: Arc<T>)
    ensures
        out == *item,
{
    Arc::clone(item)
}

/// The value behind a shared pointer.
pub open spec fn pointee<T>(item: &Arc<T>) -> T {
    **item
}

impl<T> View for BroadcastCore<T> {
    type V = Channel<T>;

    closed spec fn view(&self) -> Channel<T> {
        self.state@
    }
}

impl<T> BroadcastCore<T> {
    /// The bookkeeping agrees with the model: the counters are the readers'
    /// unread counts, and the window is the end of the log.
    pub closed spec fn loose(&self) -> bool {
        let s = self.state@;
        &&& s.capacity == self.capacity
        &&& s.sealed == self.closed
        &&& self.backlog@.len() == s.readers.len()
        &&& forall|id: int|
            0 <= id < self.backlog@.len() ==> (#[trigger] self.backlog@[id]) == (if s.readers[id].attached {
                Some(s.unread(id) as usize)
            } else {
                None::<usize>
            })
        &&& self.window@.len() <= s.log.len()
        &&& forall|k: int|
            0 <= k < self.window@.len() ==> *(#[trigger] self.window@[k]) == s.log[s.log.len()
                - self.window@.len() + k]
        &&& forall|id: int| #[trigger] s.attached(id) ==> s.unread(id) <= self.window@.len()
    }

    /// Whether `n` is the largest unread count among the attached readers,
    /// or zero where none is attached.
    pub open spec fn deepest(s: Channel<T>, n: nat) -> bool {
        &&& forall|id: int| #[trigger] s.attached(id) ==> s.unread(id) <= n
        &&& n > 0 ==> exists|id: int| #[trigger] s.attached(id) && s.unread(id) == n
    }

    /// Nothing is kept that every attached reader has already read.
    pub closed spec fn consistent(&self) -> bool {
        &&& self.loose()
        &&& Self::deepest(self.state@, self.window@.len())
    }

    /// The channel is in order, and what is stored agrees with it.
    pub open spec fn wf(&self) -> bool {
        &&& self@.inv()
        &&& self.consistent()
    }

    /// Opens a channel whose readers may each fall `capacity` items behind.
    pub fn open(capacity: usize) -> (core: Self)
        requires
            capacity > 0,
        ensures
            core.wf(),
            core@ == Channel::<T>::opened(capacity as nat),
    {
        BroadcastCore {
            capacity,
            closed: false,
            window: VecDeque::new(),
            backlog: Vec::new(),
            state: Ghost(Channel::opened(capacity as nat)),
        }
    }

    /// The largest unread count among the attached readers.
    fn deepest_backlog(&self) -> (n: usize)
        requires
            self@.inv(),
            self.loose(),
        ensures
            Self::deepest(self@, n as nat),
            n <= self.window@.len(),
    {
        let ghost s = self.state@;
        let mut n: usize = 0;
        let mut i: usize = 0;
        while i < self.backlog.len()
            invariant
                s == self.state@,
                self@.inv(),
                self.loose(),
                i <= self.backlog@.len(),
                n <= self.window@.len(),
                forall|id: int| 0 <= id < i && #[trigger] s.attached(id) ==> s.unread(id) <= n,
                n > 0 ==> exists|id: int| #[trigger] s.attached(id) && s.unread(id) == n,
            decreases self.backlog.len() - i,
        {
            match self.backlog[i] {
                Some(unread) => {
                    assert(s.attached(i as int));
                    if unread > n {
                        n = unread;
                    }
                },
                None => {},
            }
            i += 1;
        }
        n
    }

    /// Lets go of the items that every attached reader has read.
    fn trim(&mut self)
        requires
            old(self)@.inv(),
            old(self).loose(),
        ensures
            final(self).wf(),
            final(self)@ == old(self)@,
    {
        let keep = self.deepest_backlog();
        while self.window.len() > keep
            invariant
                self.state@ == old(self).state@,
                self@.inv(),
                self.loose(),
                keep <= self.window@.len(),
                Self::deepest(self@, keep as nat),
            decreases self.window@.len(),
        {
            let ghost before = self.window@;
            let _ = self.window.pop_front();
            assert forall|k: int| 0 <= k < self.window@.len() implies *(#[trigger] self.window@[k])
                == self.state@.log[self.state@.log.len() - self.window@.len() + k] by {
                assert(self.window@[k] == before[k + 1]);
            }
        }
    }

    /// How many unread items a reader may have at most.
    pub fn capacity(&self) -> (n: usize)
        requires
            self.wf(),
        ensures
            n == self@.capacity,
    {
        self.capacity
    }

    /// How many items reader `id` has yet to read, if it is attached.
    pub fn unread(&self, id: usize) -> (n: Option<usize>)
        requires
            self.wf(),
        ensures
            match n {
                Some(n) => self@.attached(id as int) && n == self@.unread(id as int),
                None => !self@.attached(id as int),
            },
    {
        if id < self.backlog.len() {
            self.backlog[id]
        } else {
            None
        }
    }

    /// How many items are kept in memory: as many as the furthest-behind
    /// attached reader has yet to read, and so never more than `capacity`.
    pub fn retained(&self) -> (n: usize)
        requires
            self.wf(),
        ensures
            Self::deepest(self@, n as nat),
            n <= self@.capacity,
    {
        proof {
            if self.window@.len() > 0 {
                let deep = choose|id: int| #[trigger]
                    self@.attached(id) && self@.unread(id) == self.window@.len();
                assert(self@.readers[deep].attached);
            }
        }
        self.window.len()
    }

    /// Whether the producer was closed.
    pub fn is_closed(&self) -> (yes: bool)
        requires
            self.wf(),
        ensures
            yes == self@.sealed,
    {
        self.closed
    }

    /// Whether an item offered now would be accepted.
    pub fn accepts(&self) -> (yes: bool)
        requires
            self.wf(),
        ensures
            yes == self@.accepts(),
    {
        !self.closed && !self.congested()
    }

    /// Whether some attached reader has a full backlog.
    pub fn congested(&self) -> (yes: bool)
        requires
            self.wf(),
        ensures
            yes == self@.congested(),
    {
        let ghost s = self.state@;
        let mut i: usize = 0;
        while i < self.backlog.len()
            invariant
                s == self.state@,
                self.wf(),
                i <= self.backlog@.len(),
                forall|id: int| 0 <= id < i && #[trigger] s.attached(id) ==> s.unread(id) < s.capacity,
            decreases self.backlog.len() - i,
        {
            match self.backlog[i] {
                Some(unread) => {
                    if unread >= self.capacity {
                        assert(s.attached(i as int));
                        return true;
                    }
                },
                None => {},
            }
            i += 1;
        }
        false
    }

    /// Appends an item that the channel accepts.
    fn append(&mut self, item: Arc<T>)
        requires
            old(self).wf(),
            old(self)@.accepts(),
        ensures
            final(self).wf(),
            final(self)@ == old(self)@.publish(*item),
    {
        let ghost s = self.state@;
        let ghost t = s.publish(pointee(&item));
        let mut wanted = false;
        let mut i: usize = 0;
        while i < self.backlog.len()
            invariant
                s == old(self).state@,
                self.state@ == s,
                old(self).wf(),
                s.accepts(),
                self.capacity == old(self).capacity,
                self.closed == old(self).closed,
                self.window@ == old(self).window@,
                self.backlog@.len() == old(self).backlog@.len(),
                i <= self.backlog@.len(),
                forall|id: int|
                    0 <= id < i ==> (#[trigger] self.backlog@[id]) == (if s.readers[id].attached {
                        Some((s.unread(id) + 1) as usize)
                    } else {
                        None::<usize>
                    }),
                forall|id: int|
                    i <= id < self.backlog@.len() ==> (#[trigger] self.backlog@[id])
                        == old(self).backlog@[id],
                wanted <==> exists|id: int| 0 <= id < i && #[trigger] s.attached(id),
            decreases self.backlog.len() - i,
        {
            match self.backlog[i] {
                Some(unread) => {
                    assert(s.attached(i as int));
                    assert(unread < self.capacity);
                    self.backlog.set(i, Some(unread + 1));
                    wanted = true;
                },
                None => {
                    assert forall|id: int| 0 <= id < i + 1 && #[trigger] s.attached(id) implies 0 <= id
                        < i by {}
                },
            }
            i += 1;
        }
        proof {
            self.state@ = t;
            crate::channel::lemma_apply(s, crate::channel::Op::Publish(pointee(&item)));
            assert(t == s.apply(crate::channel::Op::Publish(pointee(&item))));
            assert forall|id: int| #[trigger] t.attached(id) implies t.unread(id) == s.unread(id)
                + 1 by {
                assert(s.attached(id));
            }
        }
        if wanted {
            let ghost before = self.window@;
            self.window.push_back(item);
            proof {
                assert forall|k: int| 0 <= k < self.window@.len() implies *(#[trigger] self.window@[k])
                    == t.log[t.log.len() - self.window@.len() + k] by {
                    if k < before.len() {
                        assert(self.window@[k] == before[k]);
                    }
                }
                assert forall|id: int| #[trigger] t.attached(id) implies t.unread(id)
                    <= self.window@.len() by {
                    assert(s.attached(id));
                }
                if before.len() > 0 {
                    let deep = choose|id: int| #[trigger] s.attached(id) && s.unread(id) == before.len();
                    assert(t.attached(deep) && t.unread(deep) == self.window@.len());
                } else {
                    let any = choose|id: int| 0 <= id < i && #[trigger] s.attached(id);
                    assert(t.attached(any) && t.unread(any) == self.window@.len());
                }
            }
        } else {
            proof {
                assert forall|id: int| !(#[trigger] s.attached(id)) by {
                    if s.attached(id) {
                        assert(0 <= id < i);
                    }
                }
                assert forall|id: int| !(#[trigger] t.attached(id)) by {
                    assert(!s.attached(id));
                }
                assert(self.window@.len() == 0);
            }
        }
    }

    /// Offers an item to the channel. It is appended to the log unless the
    /// producer was closed or some attached reader has `capacity` items
    /// unread; in either case it comes back and nothing changes.
    pub fn publish(&mut self, item: T) -> (out: Offer<T>)
        requires
            old(self).wf(),
        ensures
            final(self).wf(),
            match out {
                Offer::Accepted => old(self)@.accepts() && final(self)@ == old(self)@.publish(item),
                Offer::Full(back) => back == item && !old(self)@.sealed && old(self)@.congested()
                    && final(self)@ == old(self)@,
                Offer::Closed(back) => back == item && old(self)@.sealed && final(self)@ == old(
                    self,
                )@,
            },
    {
        if self.closed {
            Offer::Closed(item)
        } else if self.congested() {
            Offer::Full(item)
        } else {
            self.append(Arc::new(item));
            Offer::Accepted
        }
    }

    /// Offers an item that is already behind a shared pointer, as `publish`
    /// does an owned one.
    pub fn publish_shared(&mut self, item: Arc<T>) -> (out: Offer<Arc<T>>)
        requires
            old(self).wf(),
        ensures
            final(self).wf(),
            match out {
                Offer::Accepted => old(self)@.accepts() && final(self)@ == old(self)@.publish(*item),
                Offer::Full(back) => back == item && !old(self)@.sealed && old(self)@.congested()
                    && final(self)@ == old(self)@,
                Offer::Closed(back) => back == item && old(self)@.sealed && final(self)@ == old(
                    self,
                )@,
            },
    {
        if self.closed {
            Offer::Closed(item)
        } else if self.congested() {
            Offer::Full(item)
        } else {
            self.append(item);
            Offer::Accepted
        }
    }

    /// Attaches a reader and returns its handle. The first item that it
    /// reads is the next one published.
    pub fn subscribe(&mut self) -> (id: usize)
        requires
            old(self).wf(),
        ensures
            final(self).wf(),
            id == old(self)@.readers.len(),
            final(self)@ == old(self)@.subscribe(),
    {
        let ghost s = self.state@;
        let id = self.backlog.len();
        self.backlog.push(Some(0));
        proof {
            self.state@ = s.subscribe();
            crate::channel::lemma_apply(s, crate::channel::Op::Subscribe);
            let t = self.state@;
            assert forall|other: int| #[trigger] t.attached(other) implies t.unread(other)
                <= self.window@.len() by {
                if other < s.readers.len() {
                    assert(s.attached(other));
                }
            }
            if self.window@.len() > 0 {
                let deep = choose|other: int| #[trigger]
                    s.attached(other) && s.unread(other) == self.window@.len();
                assert(t.attached(deep) && t.unread(deep) == self.window@.len());
            }
        }
        id
    }

    /// Reads the next item for reader `id`: the oldest one published since it
    /// attached that it has not read yet. Where there is none, the result
    /// is `End` once the producer was closed and `Pending` before that. A
    /// handle that is detached, or was never given out, reads `End`.
    pub fn next(&mut self, id: usize) -> (out: Delivery<Arc<T>>)
        requires
            old(self).wf(),
        ensures
            final(self).wf(),
            final(self)@ == old(self)@.advance(id as int),
            match out {
                Delivery::Item(item) => old(self)@.outcome(id as int) == Delivery::Item(*item),
                Delivery::Pending => old(self)@.outcome(id as int) == Delivery::<T>::Pending,
                Delivery::End => old(self)@.outcome(id as int) == Delivery::<T>::End,
            },
    {
        if id >= self.backlog.len() {
            return Delivery::End;
        }
        match self.backlog[id] {
            None => Delivery::End,
            Some(unread) => {
                let ghost s = self.state@;
                assert(s.attached(id as int));
                if unread == 0 {
                    if self.closed {
                        Delivery::End
                    } else {
                        Delivery::Pending
                    }
                } else {
                    let item = share(&self.window[self.window.len() - unread]);
                    self.backlog.set(id, Some(unread - 1));
                    proof {
                        self.state@ = s.advance(id as int);
                        crate::channel::lemma_apply(s, crate::channel::Op::Read(id as int));
                        let t = self.state@;
                        assert forall|other: int| #[trigger] t.attached(other) implies t.unread(other)
                            <= self.window@.len() by {
                            assert(s.attached(other));
                        }
                    }
                    self.trim();
                    Delivery::Item(item)
                }
            },
        }
    }

    /// Detaches reader `id`. What it had yet to read is no longer kept for
    /// it, and it can no longer hold the producer back. Its later reads give
    /// `End`.
    pub fn close(&mut self, id: usize)
        requires
            old(self).wf(),
        ensures
            final(self).wf(),
            final(self)@ == old(self)@.detach(id as int),
    {
        if id < self.backlog.len() {
            let ghost s = self.state@;
            self.backlog.set(id, None);
            proof {
                self.state@ = s.detach(id as int);
                crate::channel::lemma_apply(s, crate::channel::Op::Detach(id as int));
                let t = self.state@;
                assert forall|other: int| #[trigger] t.attached(other) implies t.unread(other)
                    <= self.window@.len() by {
                    assert(s.attached(other));
                }
            }
            self.trim();
        }
    }

    /// Closes the producer: nothing is published from now on, and readers
    /// reach `End` once they have read what is in the log.
    pub fn close_producer(&mut self)
        requires
            old(self).wf(),
        ensures
            final(self).wf(),
            final(self)@ == old(self)@.seal(),
    {
        let ghost s = self.state@;
        self.closed = true;
        proof {
            self.state@ = s.seal();
            crate::channel::lemma_apply(s, crate::channel::Op::Seal);
            let t = self.state@;
            assert forall|other: int| #[trigger] t.attached(other) implies t.unread(other)
                <= self.window@.len() by {
                assert(s.attached(other));
            }
            if self.window@.len() > 0 {
                let deep = choose|other: int| #[trigger]
                    s.attached(other) && s.unread(other) == self.window@.len();
                assert(t.attached(deep) && t.unread(deep) == self.window@.len());
            }
        }
    }
}

} // verus!
