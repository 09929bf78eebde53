use bitcoin_zmq::{
    relay, relay_with, BroadcastCore, Delivery, Envelope, Offer, RelayStep, Topic,
    TopicSubscription,
};

fn envelope(topic: Topic, payload: &[u8]) -> Envelope {
    Envelope { topic, payload: payload.to_vec() }
}

fn decode(payload: &Vec<u8>) -> Result<u8, String> {
    match payload.as_slice() {
        [b] => Ok(*b),
        _ => Err("not one byte".to_string()),
    }
}

#[test]
fn relay_feeds_two_readers_the_same_at_their_own_pace() {
    let mut source: BroadcastCore<Envelope> = BroadcastCore::open(16);
    let mut sink: BroadcastCore<Result<u8, String>> = BroadcastCore::open(3);
    let sub = TopicSubscription::attach(&mut source, Topic::HashTx);
    let quick = sink.subscribe();
    let slow = sink.subscribe();
    for e in [
        envelope(Topic::HashTx, &[1]),
        envelope(Topic::RawTx, &[2]),
        envelope(Topic::HashTx, &[3, 3]),
        envelope(Topic::HashTx, &[4]),
        envelope(Topic::RawBlock, &[5]),
        envelope(Topic::HashTx, &[6]),
    ] {
        assert_eq!(source.publish(e), Offer::Accepted);
    }
    source.close_producer();

    let mut quick_got = Vec::new();
    let mut slow_got = Vec::new();
    let mut steps = Vec::new();
    loop {
        let step = relay_with(&mut source, &sub, &decode, &mut sink);
        steps.push(step);
        match step {
            RelayStep::Finished => break,
            RelayStep::Blocked => match sink.next(slow) {
                Delivery::Item(item) => slow_got.push((*item).clone()),
                other => panic!("{:?}", other),
            },
            _ => {},
        }
        while let Delivery::Item(item) = sink.next(quick) {
            quick_got.push((*item).clone());
        }
    }
    assert!(steps.contains(&RelayStep::Blocked));
    let expected = vec![Ok(1), Err("not one byte".to_string()), Ok(4), Ok(6)];
    assert_eq!(quick_got, expected);
    assert_eq!(sink.next(quick), Delivery::End);

    assert!(slow_got.len() < expected.len());
    assert_eq!(sink.unread(slow), Some(expected.len() - slow_got.len()));
    while let Delivery::Item(item) = sink.next(slow) {
        slow_got.push((*item).clone());
    }
    assert_eq!(slow_got, expected);
    assert_eq!(sink.next(slow), Delivery::End);
}

#[test]
fn relay_forwards_envelopes_of_its_topic_only() {
    let mut source: BroadcastCore<Envelope> = BroadcastCore::open(8);
    let mut sink: BroadcastCore<Envelope> = BroadcastCore::open(8);
    let sub = TopicSubscription::attach(&mut source, Topic::RawBlock);
    let a = sink.subscribe();
    let b = sink.subscribe();
    assert_eq!(relay(&mut source, &sub, &mut sink), RelayStep::Idle);
    for e in [
        envelope(Topic::RawBlock, &[1]),
        envelope(Topic::HashBlock, &[2]),
        envelope(Topic::RawBlock, &[3]),
    ] {
        assert_eq!(source.publish(e), Offer::Accepted);
    }
    assert_eq!(relay(&mut source, &sub, &mut sink), RelayStep::Forwarded);
    assert_eq!(relay(&mut source, &sub, &mut sink), RelayStep::Forwarded);
    assert_eq!(relay(&mut source, &sub, &mut sink), RelayStep::Idle);
    for id in [a, b] {
        let mut got = Vec::new();
        while let Delivery::Item(item) = sink.next(id) {
            got.push(item.payload.clone());
        }
        assert_eq!(got, vec![vec![1], vec![3]]);
    }
    assert!(!sink.is_closed());
}

#[test]
fn relay_does_not_read_while_the_sink_is_full() {
    let mut source: BroadcastCore<Envelope> = BroadcastCore::open(8);
    let mut sink: BroadcastCore<Envelope> = BroadcastCore::open(1);
    let sub = TopicSubscription::attach(&mut source, Topic::RawTx);
    let reader = sink.subscribe();
    assert_eq!(source.publish(envelope(Topic::RawTx, &[1])), Offer::Accepted);
    assert_eq!(source.publish(envelope(Topic::RawTx, &[2])), Offer::Accepted);
    assert_eq!(relay(&mut source, &sub, &mut sink), RelayStep::Forwarded);
    assert_eq!(relay(&mut source, &sub, &mut sink), RelayStep::Blocked);
    assert_eq!(source.unread(sub.handle), Some(1));
    assert!(matches!(sink.next(reader), Delivery::Item(_)));
    assert_eq!(relay(&mut source, &sub, &mut sink), RelayStep::Forwarded);
    match sink.next(reader) {
        Delivery::Item(item) => assert_eq!(item.payload, vec![2]),
        other => panic!("{:?}", other),
    }
}

#[test]
fn end_of_the_source_closes_the_sink() {
    let mut source: BroadcastCore<Envelope> = BroadcastCore::open(8);
    let mut sink: BroadcastCore<Envelope> = BroadcastCore::open(8);
    let sub = TopicSubscription::attach(&mut source, Topic::RawTx);
    let reader = sink.subscribe();
    assert_eq!(source.publish(envelope(Topic::RawTx, &[1])), Offer::Accepted);
    source.close_producer();
    assert_eq!(relay(&mut source, &sub, &mut sink), RelayStep::Forwarded);
    assert!(!sink.is_closed());
    assert_eq!(relay(&mut source, &sub, &mut sink), RelayStep::Finished);
    assert!(sink.is_closed());
    assert!(matches!(sink.next(reader), Delivery::Item(_)));
    assert_eq!(sink.next(reader), Delivery::End);
    assert_eq!(relay(&mut source, &sub, &mut sink), RelayStep::Finished);
}

#[test]
fn detached_relay_reader_closes_the_sink() {
    let mut source: BroadcastCore<Envelope> = BroadcastCore::open(8);
    let mut sink: BroadcastCore<Result<u8, String>> = BroadcastCore::open(8);
    let sub = TopicSubscription::attach(&mut source, Topic::RawTx);
    assert_eq!(source.publish(envelope(Topic::RawTx, &[1])), Offer::Accepted);
    source.close(sub.handle);
    assert_eq!(relay_with(&mut source, &sub, &decode, &mut sink), RelayStep::Finished);
    assert!(sink.is_closed());
}
