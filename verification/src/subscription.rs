//! A reader of a channel of envelopes that surfaces one topic only.

use std::sync::Arc;
use vstd::prelude::*;
use crate::broadcast::BroadcastCore;
use crate::channel::{lemma_advance_to_here, lemma_advance_to_step, Channel, Delivery};
use crate::envelope::Envelope;
use crate::topic::Topic;

verus! {

/// The envelopes of `items` that carry `topic`, in their order.
pub open spec fn wanted(items: Seq<Envelope>, topic: Topic) -> Seq<Envelope> {
    items.filter(|e: Envelope| e.topic == topic)
}

/// The index of the first envelope with `topic` at or after `from`, or the
/// length of the log where there is none.
pub open spec fn first_wanted(log: Seq<Envelope>, topic: Topic, from: nat) -> nat
    decreases log.len() - from,
{
    if from >= log.len() {
        log.len()
    } else if log[from as int].topic == topic {
        from
    } else {
        first_wanted(log, topic, from + 1)
    }
}

/// What a reader that looks for `topic` is handed next: the first unread
/// envelope with that topic.
pub open spec fn surfaced(s: Channel<Envelope>, id: int, topic: Topic) -> Delivery<Envelope> {
    if !s.attached(id) {
        Delivery::End
    } else {
        let at = first_wanted(s.log, topic, s.readers[id].position);
        if at < s.log.len() {
            Delivery::Item(s.log[at as int])
        } else if s.sealed {
            Delivery::End
        } else {
            Delivery::Pending
        }
    }
}

/// Where a reader that looks for `topic` stands after its next read: behind
/// the envelope that it was handed, or at the end of the log.
pub open spec fn resting_place(s: Channel<Envelope>, id: int, topic: Topic) -> nat {
    let at = first_wanted(s.log, topic, s.readers[id].position);
    if at < s.log.len() {
        at + 1
    } else {
        s.log.len()
    }
}

/// A reader's handle paired with the topic that it looks for.
///
/// Envelopes of other topics are read and passed over, so they count
/// against the channel's capacity until then, like any unread item.
#[derive(Debug, Clone, Copy, PartialEq, Eq)]
pub struct TopicSubscription {
    pub handle: usize,
    pub topic: Topic,
}

impl TopicSubscription {
    /// Attaches a new reader to `core` that looks for `topic`.
    pub fn attach(core: &mut BroadcastCore<Envelope>, topic: Topic) -> (sub: TopicSubscription)
        requires
            old(core).wf(),
        ensures
            final(core).wf(),
            final(core)@ == old(core)@.subscribe(),
            sub.handle == old(core)@.readers.len(),
            sub.topic == topic,
    {
        let handle = core.subscribe();
        TopicSubscription { handle, topic }
    }

    /// Reads on until an envelope of the wanted topic turns up, and hands
    /// that one out. The envelopes before it count as read. Where none is
    /// left the reader stands at the end of the log, and the result is `End`
    /// once the producer was closed and `Pending` before that.
    pub fn next(&self, core: &mut BroadcastCore<Envelope>) -> (out: Delivery<Arc<Envelope>>)
        requires
            old(core).wf(),
        ensures
            final(core).wf(),
            final(core)@ == old(core)@.advance_to(
                self.handle as int,
                resting_place(old(core)@, self.handle as int, self.topic),
            ),
            match out {
                Delivery::Item(item) => surfaced(old(core)@, self.handle as int, self.topic)
                    == Delivery::Item(*item),
                Delivery::Pending => surfaced(old(core)@, self.handle as int, self.topic)
                    == Delivery::<Envelope>::Pending,
                Delivery::End => surfaced(old(core)@, self.handle as int, self.topic)
                    == Delivery::<Envelope>::End,
            },
    {
        let ghost s = core@;
        let ghost id = self.handle as int;
        proof {
            if s.attached(id) {
                lemma_advance_to_here(s, id);
            }
        }
        loop
            invariant
                core.wf(),
                s == old(core)@,
                id == self.handle as int,
                s.inv(),
                !s.attached(id) ==> core@ == s,
                s.attached(id) ==> {
                    let here = core@.readers[id].position;
                    &&& s.readers[id].position <= here <= s.log.len()
                    &&& core@ == s.advance_to(id, here)
                    &&& first_wanted(s.log, self.topic, here) == first_wanted(
                        s.log,
                        self.topic,
                        s.readers[id].position,
                    )
                },
            decreases core@.log.len() - core@.readers[id].position,
        {
            let ghost here = core@.readers[id].position;
            proof {
                if s.attached(id) && here < s.log.len() {
                    lemma_advance_to_step(s, id, here);
                }
            }
            match core.next(self.handle) {
                Delivery::Item(item) => {
                    if item.topic == self.topic {
                        return Delivery::Item(item);
                    }
                },
                Delivery::Pending => {
                    return Delivery::Pending;
                },
                Delivery::End => {
                    return Delivery::End;
                },
            }
        }
    }

    /// Detaches the reader from `core`.
    pub fn close(self, core: &mut BroadcastCore<Envelope>)
        requires
            old(core).wf(),
        ensures
            final(core).wf(),
            final(core)@ == old(core)@.detach(self.handle as int),
    {
        core.close(self.handle);
    }

    /// Reads as `next` does and hands the payload of the envelope found to
    /// `decode`. Whatever `decode` makes of it, value or error, is the item
    /// read; an error of `decode` ends nothing.
    pub fn next_with<B, E, F: Fn(&Vec<u8>) -> Result<B, E>>(
        &self,
        core: &mut BroadcastCore<Envelope>,
        decode: &F,
    ) -> (out: Delivery<Result<B, E>>)
        requires
            old(core).wf(),
            forall|payload: &Vec<u8>| #[trigger] decode.requires((payload,)),
        ensures
            final(core).wf(),
            final(core)@ == old(core)@.advance_to(
                self.handle as int,
                resting_place(old(core)@, self.handle as int, self.topic),
            ),
            match out {
                Delivery::Item(decoded) => surfaced(old(core)@, self.handle as int, self.topic)
                    matches Delivery::Item(found) && decode.ensures((&found.payload,), decoded),
                Delivery::Pending => surfaced(old(core)@, self.handle as int, self.topic)
                    == Delivery::<Envelope>::Pending,
                Delivery::End => surfaced(old(core)@, self.handle as int, self.topic)
                    == Delivery::<Envelope>::End,
            },
    {
        match self.next(core) {
            Delivery::Item(item) => Delivery::Item(decode(&item.payload)),
            Delivery::Pending => Delivery::Pending,
            Delivery::End => Delivery::End,
        }
    }
}

/// Between `from` and the first envelope with `topic` there is none with it.
pub proof fn lemma_first_wanted(log: Seq<Envelope>, topic: Topic, from: nat)
    requires
        from <= log.len(),
    ensures
        from <= first_wanted(log, topic, from) <= log.len(),
        forall|k: int| from <= k < first_wanted(log, topic, from) ==> (#[trigger] log[k]).topic != topic,
        first_wanted(log, topic, from) < log.len() ==> log[first_wanted(
            log,
            topic,
            from,
        ) as int].topic == topic,
    decreases log.len() - from,
{
    if from < log.len() && log[from as int].topic != topic {
        lemma_first_wanted(log, topic, from + 1);
    }
}

/// Where no envelope carries the topic, none is wanted.
pub proof fn lemma_none_wanted(items: Seq<Envelope>, topic: Topic)
    requires
        forall|k: int| 0 <= k < items.len() ==> (#[trigger] items[k]).topic != topic,
    ensures
        wanted(items, topic) == Seq::<Envelope>::empty(),
    decreases items.len(),
{
    reveal(Seq::filter);
    if items.len() > 0 {
        lemma_none_wanted(items.drop_last(), topic);
    }
}

/// A topic subscription surfaces the envelopes of its topic and no others:
/// across one read, the wanted envelopes among those that the reader has
/// been handed grow by exactly the envelope that the read gave, or by
/// nothing where it gave none.
pub proof fn lemma_surfaced_is_filtered(s: Channel<Envelope>, id: int, topic: Topic)
    requires
        s.inv(),
        s.attached(id),
    ensures
        ({
            let t = s.advance_to(id, resting_place(s, id, topic));
            wanted(t.readers[id].seen, topic) == wanted(s.readers[id].seen, topic) + (match surfaced(
                s,
                id,
                topic,
            ) {
                Delivery::Item(e) => seq![e],
                _ => Seq::<Envelope>::empty(),
            })
        }),
{
    let r = s.readers[id];
    let at = first_wanted(s.log, topic, r.position);
    let rest = resting_place(s, id, topic);
    let t = s.advance_to(id, rest);
    let keep = |e: Envelope| e.topic == topic;
    lemma_first_wanted(s.log, topic, r.position);
    let passed = s.log.subrange(r.position as int, at as int);
    lemma_none_wanted(passed, topic);
    assert(t.readers[id].seen == r.seen + s.log.subrange(r.position as int, rest as int));
    Seq::filter_distributes_over_add(r.seen, s.log.subrange(r.position as int, rest as int), keep);
    if at < s.log.len() {
        assert(s.log.subrange(r.position as int, rest as int) =~= passed.push(s.log[at as int]));
        passed.lemma_filter_push(s.log[at as int], keep);
        assert(wanted(passed, topic).push(s.log[at as int]) =~= seq![s.log[at as int]]);
    } else {
        assert(s.log.subrange(r.position as int, rest as int) =~= passed);
    }
}

/// Fan-out fidelity by topic: of two readers that attached at the same point
/// and look for the same topic, the one further behind has been handed a
/// prefix of the wanted envelopes that the other has, and two that are
/// equally far have been handed the same.
pub proof fn lemma_filtered_fidelity(s: Channel<Envelope>, a: int, b: int, topic: Topic)
    requires
        s.inv(),
        0 <= a < s.readers.len(),
        0 <= b < s.readers.len(),
        s.readers[a].origin == s.readers[b].origin,
        s.readers[a].position <= s.readers[b].position,
    ensures
        wanted(s.readers[a].seen, topic) == wanted(
            s.log.subrange(s.readers[a].origin as int, s.readers[a].position as int),
            topic,
        ),
        wanted(s.readers[a].seen, topic).len() <= wanted(s.readers[b].seen, topic).len(),
        wanted(s.readers[a].seen, topic) == wanted(s.readers[b].seen, topic).subrange(
            0,
            wanted(s.readers[a].seen, topic).len() as int,
        ),
        s.readers[a].position == s.readers[b].position ==> wanted(s.readers[a].seen, topic)
            == wanted(s.readers[b].seen, topic),
{
    let ra = s.readers[a];
    let rb = s.readers[b];
    let more = s.log.subrange(ra.position as int, rb.position as int);
    let keep = |e: Envelope| e.topic == topic;
    assert(rb.seen =~= ra.seen + more);
    Seq::filter_distributes_over_add(ra.seen, more, keep);
    assert(wanted(rb.seen, topic).subrange(0, wanted(ra.seen, topic).len() as int) =~= wanted(
        ra.seen,
        topic,
    ));
    if ra.position == rb.position {
        assert(ra.seen =~= rb.seen);
    }
}

} // verus!
