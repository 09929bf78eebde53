//! The decisions of the task that feeds a channel from one connection.
//!
//! The task itself waits for the transport and for room in the channel; what
//! it does with each thing that the transport yields is decided here.

use vstd::prelude::*;
use crate::broadcast::{BroadcastCore, Offer};
use crate::channel::Channel;
use crate::envelope::{classified, classify, frame_bytes, Envelope};
use crate::errors::SubscriptionError;

verus! {

/// What a transport yields: one multipart message, a failure of its own
/// kind, or the end of the connection.
#[derive(Debug)]
pub enum TransportEvent<E> {
    Message(Vec<Vec<u8>>),
    Failed(E),
    Ended,
}

/// What the broker does next.
#[derive(Debug)]
pub enum BrokerStep<E> {
    /// The notification is in the channel. Pull the next event.
    Continue,
    /// Some reader has a full backlog. Offer this envelope again once a
    /// reader has read or left; until then pull nothing.
    Blocked(Envelope),
    /// The run is over, with this result, and the producer is closed.
    Finished(Result<(), SubscriptionError<E>>),
}

/// How the channel and the broker's next step follow from offering
/// `envelope` to the channel `before`.
pub open spec fn offered<E>(
    before: Channel<Envelope>,
    envelope: Envelope,
    after: Channel<Envelope>,
    step: BrokerStep<E>,
) -> bool {
    if before.sealed {
        step == BrokerStep::<E>::Finished(Ok(())) && after == before
    } else if before.congested() {
        step == BrokerStep::<E>::Blocked(envelope) && after == before
    } else {
        step == BrokerStep::<E>::Continue && after == before.publish(envelope)
    }
}

/// Offers a classified notification to the channel. Where the producer is
/// already closed there is nothing left to feed, and the run ends in peace.
pub fn offer<E>(core: &mut BroadcastCore<Envelope>, envelope: Envelope) -> (step: BrokerStep<E>)
    requires
        old(core).wf(),
    ensures
        final(core).wf(),
        offered(old(core)@, envelope, final(core)@, step),
        step is Finished ==> final(core)@.sealed,
{
    match core.publish(envelope) {
        Offer::Accepted => BrokerStep::Continue,
        Offer::Full(back) => BrokerStep::Blocked(back),
        Offer::Closed(_) => BrokerStep::Finished(Ok(())),
    }
}

/// Takes one event of the transport. A message is classified and offered to
/// the channel. A message that does not classify, a failure of the
/// transport and the end of the connection each close the producer and end
/// the run; the first two are its error.
pub fn on_event<E>(core: &mut BroadcastCore<Envelope>, event: TransportEvent<E>) -> (step:
    BrokerStep<E>)
    requires
        old(core).wf(),
    ensures
        final(core).wf(),
        match event {
            TransportEvent::Message(frames) => match classified(frame_bytes(frames@)) {
                Ok(content) => exists|envelope: Envelope|
                    envelope@ == content && #[trigger] offered(
                        old(core)@,
                        envelope,
                        final(core)@,
                        step,
                    ),
                Err(e) => step == BrokerStep::<E>::Finished(Err(SubscriptionError::Bitcoin(e)))
                    && final(core)@ == old(core)@.seal(),
            },
            TransportEvent::Failed(e) => step == BrokerStep::<E>::Finished(
                Err(SubscriptionError::Connection(e)),
            ) && final(core)@ == old(core)@.seal(),
            TransportEvent::Ended => step == BrokerStep::<E>::Finished(Ok(())) && final(core)@
                == old(core)@.seal(),
        },
        step is Finished ==> final(core)@.sealed,
{
    match event {
        TransportEvent::Message(frames) => match classify(frames) {
            Ok(envelope) => {
                let step = offer(core, envelope);
                assert(offered(old(core)@, envelope, core@, step));
                step
            },
            Err(e) => {
                core.close_producer();
                BrokerStep::Finished(Err(SubscriptionError::Bitcoin(e)))
            },
        },
        TransportEvent::Failed(e) => {
            core.close_producer();
            BrokerStep::Finished(Err(SubscriptionError::Connection(e)))
        },
        TransportEvent::Ended => {
            core.close_producer();
            BrokerStep::Finished(Ok(()))
        },
    }
}

} // verus!
