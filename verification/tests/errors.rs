use bitcoin_zmq::{BitcoinError, SubscriptionError};

#[test]
fn bitcoin_error_converts_into_subscription_error() {
    let e: SubscriptionError<String> = BitcoinError::MissingPayload.into();
    assert_eq!(e.bitcoin(), Some(BitcoinError::MissingPayload));
    let e: SubscriptionError<String> = SubscriptionError::from(BitcoinError::UnexpectedTopic);
    assert!(matches!(e, SubscriptionError::Bitcoin(BitcoinError::UnexpectedTopic)));
}

#[test]
fn connection_error_keeps_the_transport_error() {
    let e = SubscriptionError::connection(42u32);
    assert_eq!(e.bitcoin(), None);
    assert!(matches!(e, SubscriptionError::Connection(42)));
}
