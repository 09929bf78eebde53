//! Fan-out of bitcoind's ZMQ notifications: classification of multipart
//! messages and a bounded broadcast channel with independently paced readers.

pub mod broadcast;
pub mod broker;
pub mod channel;
pub mod envelope;
pub mod errors;
pub mod relay;
pub mod subscription;
pub mod topic;

pub use broadcast::{BroadcastCore, Offer};
pub use broker::{offer, on_event, BrokerStep, TransportEvent};
pub use channel::Delivery;
pub use envelope::{classify, extract_payload, Envelope};
pub use errors::{BitcoinError, SubscriptionError};
pub use relay::{relay, relay_with, RelayStep};
pub use subscription::TopicSubscription;
pub use topic::Topic;
