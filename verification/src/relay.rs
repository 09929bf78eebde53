//! Feeding a second channel from one topic of a first, so that the filtering
//! and decoding is done once for all readers of the second.

use vstd::prelude::*;
use crate::broadcast::{BroadcastCore, Offer};
use crate::channel::{Channel, Delivery};
use crate::envelope::Envelope;
use crate::subscription::{
    lemma_surfaced_is_filtered,
    resting_place,
    surfaced,
    wanted,
    TopicSubscription,
};

verus! {

/// What the relay did, and so what it waits for next.
#[derive(Debug, Clone, Copy, PartialEq, Eq)]
pub enum RelayStep {
    /// One item went from the source to the sink.
    Forwarded,
    /// The source has nothing for the relay yet.
    Idle,
    /// Some reader of the sink has a full backlog. Nothing was read.
    Blocked,
    /// The source has ended and the sink's producer is closed, or the sink's
    /// producer was closed before.
    Finished,
}

/// How both channels and the relay's step follow from the state of the two
/// channels. The source is read only where the sink has room, so nothing
/// that was read is ever dropped.
pub open spec fn relayed(
    source: Channel<Envelope>,
    sub: TopicSubscription,
    sink: Channel<Envelope>,
    source_after: Channel<Envelope>,
    sink_after: Channel<Envelope>,
    step: RelayStep,
) -> bool {
    let id = sub.handle as int;
    if sink.sealed {
        step == RelayStep::Finished && source_after == source && sink_after == sink
    } else if sink.congested() {
        step == RelayStep::Blocked && source_after == source && sink_after == sink
    } else {
        &&& source_after == source.advance_to(id, resting_place(source, id, sub.topic))
        &&& match surfaced(source, id, sub.topic) {
            Delivery::Item(e) => step == RelayStep::Forwarded && sink_after == sink.publish(e),
            Delivery::Pending => step == RelayStep::Idle && sink_after == sink,
            Delivery::End => step == RelayStep::Finished && sink_after == sink.seal(),
        }
    }
}

/// Whether the sink's log is what the relay's reader has been handed of its
/// topic, item for item.
pub open spec fn mirrors(
    source: Channel<Envelope>,
    sub: TopicSubscription,
    sink: Channel<Envelope>,
) -> bool {
    sink.log == wanted(source.readers[sub.handle as int].seen, sub.topic)
}

/// Moves at most one envelope of the subscription's topic from `source` to
/// `sink`. When the source has ended for the subscription, the sink's
/// producer is closed.
pub fn relay(
    source: &mut BroadcastCore<Envelope>,
    sub: &TopicSubscription,
    sink: &mut BroadcastCore<Envelope>,
) -> (step: RelayStep)
    requires
        old(source).wf(),
        old(sink).wf(),
    ensures
        final(source).wf(),
        final(sink).wf(),
        relayed(old(source)@, *sub, old(sink)@, final(source)@, final(sink)@, step),
        old(source)@.attached(sub.handle as int) && mirrors(old(source)@, *sub, old(sink)@)
            ==> mirrors(final(source)@, *sub, final(sink)@),
{
    if sink.is_closed() {
        return RelayStep::Finished;
    }
    if sink.congested() {
        return RelayStep::Blocked;
    }
    proof {
        if source@.attached(sub.handle as int) {
            lemma_surfaced_is_filtered(source@, sub.handle as int, sub.topic);
        }
    }
    let ghost found = wanted(source@.readers[sub.handle as int].seen, sub.topic);
    match sub.next(source) {
        Delivery::Item(item) => {
            assert(found.push(*item) =~= found + seq![*item]);
            let _ = sink.publish_shared(item);
            RelayStep::Forwarded
        },
        Delivery::Pending => RelayStep::Idle,
        Delivery::End => {
            sink.close_producer();
            RelayStep::Finished
        },
    }
}

/// How both channels and the relay's step follow where each envelope is
/// decoded on its way: the sink's new item is what `decode` made of the
/// payload.
pub open spec fn relayed_with<B, E, F: Fn(&Vec<u8>) -> Result<B, E>>(
    source: Channel<Envelope>,
    sub: TopicSubscription,
    decode: F,
    sink: Channel<Result<B, E>>,
    source_after: Channel<Envelope>,
    sink_after: Channel<Result<B, E>>,
    step: RelayStep,
) -> bool {
    let id = sub.handle as int;
    if sink.sealed {
        step == RelayStep::Finished && source_after == source && sink_after == sink
    } else if sink.congested() {
        step == RelayStep::Blocked && source_after == source && sink_after == sink
    } else {
        &&& source_after == source.advance_to(id, resting_place(source, id, sub.topic))
        &&& match surfaced(source, id, sub.topic) {
            Delivery::Item(e) => {
                &&& step == RelayStep::Forwarded
                &&& sink_after.log.len() == sink.log.len() + 1
                &&& sink_after == sink.publish(sink_after.log.last())
                &&& decode.ensures((&e.payload,), sink_after.log.last())
            },
            Delivery::Pending => step == RelayStep::Idle && sink_after == sink,
            Delivery::End => step == RelayStep::Finished && sink_after == sink.seal(),
        }
    }
}

/// Whether the sink's log is, item for item, what `decode` made of the
/// payloads that the relay's reader has been handed of its topic.
pub open spec fn mirrors_decoded<B, E, F: Fn(&Vec<u8>) -> Result<B, E>>(
    source: Channel<Envelope>,
    sub: TopicSubscription,
    decode: F,
    sink: Channel<Result<B, E>>,
) -> bool {
    let found = wanted(source.readers[sub.handle as int].seen, sub.topic);
    &&& sink.log.len() == found.len()
    &&& forall|k: int|
        0 <= k < found.len() ==> decode.ensures((&found[k].payload,), #[trigger] sink.log[k])
}

/// Moves at most one envelope of the subscription's topic from `source` to
/// `sink`, decoded by `decode` on the way. An error of `decode` is an item
/// like any other; it ends nothing.
pub fn relay_with<B, E, F: Fn(&Vec<u8>) -> Result<B, E>>(
    source: &mut BroadcastCore<Envelope>,
    sub: &TopicSubscription,
    decode: &F,
    sink: &mut BroadcastCore<Result<B, E>>,
) -> (step: RelayStep)
    requires
        old(source).wf(),
        old(sink).wf(),
        forall|payload: &Vec<u8>| #[trigger] decode.requires((payload,)),
    ensures
        final(source).wf(),
        final(sink).wf(),
        relayed_with(old(source)@, *sub, *decode, old(sink)@, final(source)@, final(sink)@, step),
        old(source)@.attached(sub.handle as int) && mirrors_decoded(
            old(source)@,
            *sub,
            *decode,
            old(sink)@,
        ) ==> mirrors_decoded(final(source)@, *sub, *decode, final(sink)@),
{
    if sink.is_closed() {
        return RelayStep::Finished;
    }
    if sink.congested() {
        return RelayStep::Blocked;
    }
    proof {
        if source@.attached(sub.handle as int) {
            lemma_surfaced_is_filtered(source@, sub.handle as int, sub.topic);
        }
    }
    match sub.next_with(source, decode) {
        Delivery::Item(decoded) => {
            let _ = sink.publish(decoded);
            RelayStep::Forwarded
        },
        Delivery::Pending => RelayStep::Idle,
        Delivery::End => {
            sink.close_producer();
            RelayStep::Finished
        },
    }
}

/// Fidelity through a relay: two readers of the sink that attached at the
/// same point and are equally far have been handed the same items in the
/// same order, and these are the envelopes that the relay found of its topic
/// in the source, from the one at which the readers attached on.
pub proof fn lemma_relay_fidelity(
    source: Channel<Envelope>,
    sub: TopicSubscription,
    sink: Channel<Envelope>,
    a: int,
    b: int,
)
    requires
        sink.inv(),
        mirrors(source, sub, sink),
        0 <= a < sink.readers.len(),
        0 <= b < sink.readers.len(),
        sink.readers[a].origin == sink.readers[b].origin,
        sink.readers[a].position == sink.readers[b].position,
    ensures
        sink.readers[a].seen == sink.readers[b].seen,
        sink.readers[a].seen == wanted(source.readers[sub.handle as int].seen, sub.topic).subrange(
            sink.readers[a].origin as int,
            sink.readers[a].position as int,
        ),
{
}

} // verus!
