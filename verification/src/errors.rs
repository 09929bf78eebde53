//! Error types of the notification pipeline.

use vstd::prelude::*;

verus! {

/// A notification that does not have the shape bitcoind promises.
#[derive(Debug, Clone, Copy, PartialEq, Eq, Structural)]
pub enum BitcoinError {
    /// The multipart message holds no frame at all, so not even a topic tag.
    MissingTopic,
    /// The multipart message ends after its topic tag.
    MissingPayload,
    /// The topic tag is none of the known ones.
    UnexpectedTopic,
}

impl BitcoinError {
    /// The text that describes the error.
    pub open spec fn text(self) -> Seq<char> {
        match self {
            BitcoinError::MissingTopic => "missing topic"@,
            BitcoinError::MissingPayload => "missing payload"@,
            BitcoinError::UnexpectedTopic => "unexpected topic"@,
        }
    }

    /// A printable description of the error.
    pub fn message(&self) -> (s: String)
        ensures
            s@ == self.text(),
    {
        match self {
            BitcoinError::MissingTopic => "missing topic".to_owned(),
            BitcoinError::MissingPayload => "missing payload".to_owned(),
            BitcoinError::UnexpectedTopic => "unexpected topic".to_owned(),
        }
    }
}

/// Why a pipeline stopped: either a notification was malformed, or the
/// transport that feeds the pipeline failed with an error of its own type `E`.
#[derive(Debug)]
pub enum SubscriptionError<E> {
    /// Malformed multipart supplied by bitcoind.
    Bitcoin(BitcoinError),
    /// Error in the connection to bitcoind.
    Connection(E),
}

impl<E> From<BitcoinError> for SubscriptionError<E> {
    fn from(err: BitcoinError) -> (out: SubscriptionError<E>) {
        SubscriptionError::Bitcoin(err)
    }
}

impl<E> vstd::std_specs::convert::FromSpecImpl<BitcoinError> for SubscriptionError<E> {
    open spec fn obeys_from_spec() -> bool {
        true
    }

    open spec fn from_spec(err: BitcoinError) -> SubscriptionError<E> {
        SubscriptionError::Bitcoin(err)
    }
}

impl<E> SubscriptionError<E> {
    /// Wraps a failure reported by the transport.
    pub fn connection(err: E) -> (out: SubscriptionError<E>)
        ensures
            out == SubscriptionError::<E>::Connection(err),
    {
        SubscriptionError::Connection(err)
    }

    /// The malformed-notification cause, if that is what stopped the pipeline.
    pub fn bitcoin(&self) -> (cause: Option<BitcoinError>)
        ensures
            cause == match *self {
                SubscriptionError::Bitcoin(e) => Some(e),
                SubscriptionError::Connection(_) => None,
            },
    {
        match self {
            SubscriptionError::Bitcoin(e) => Some(*e),
            SubscriptionError::Connection(_) => None,
        }
    }
}

} // verus!
