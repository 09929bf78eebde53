use bitcoin_zmq::{classify, extract_payload, BitcoinError, Envelope, Topic};

fn message(frames: &[&[u8]]) -> Vec<Vec<u8>> {
    frames.iter().map(|f| f.to_vec()).collect()
}

#[test]
fn rawtx_with_two_frames_is_classified() {
    let out = classify(message(&[b"rawtx", &[0x01, 0x02]]));
    assert_eq!(out, Ok(Envelope { topic: Topic::RawTx, payload: vec![0x01, 0x02] }));
}

#[test]
fn single_frame_lacks_its_payload() {
    assert_eq!(classify(message(&[b"rawtx"])), Err(BitcoinError::MissingPayload));
}

#[test]
fn unknown_tag_is_rejected() {
    let out = classify(message(&[b"unknown", &[0x01, 0x02]]));
    assert_eq!(out, Err(BitcoinError::UnexpectedTopic));
}

#[test]
fn empty_message_lacks_its_topic() {
    assert_eq!(classify(Vec::new()), Err(BitcoinError::MissingTopic));
    assert_eq!(extract_payload(Vec::new()), Err(BitcoinError::MissingTopic));
}

#[test]
fn lone_unknown_frame_lacks_its_payload() {
    assert_eq!(classify(message(&[b"unknown"])), Err(BitcoinError::MissingPayload));
}

#[test]
fn every_known_tag_maps_to_its_topic() {
    let table: [(&[u8], Topic); 4] = [
        (b"rawtx", Topic::RawTx),
        (b"hashtx", Topic::HashTx),
        (b"rawblock", Topic::RawBlock),
        (b"hashblock", Topic::HashBlock),
    ];
    for (tag, topic) in table {
        assert_eq!(Topic::from_tag(tag), Some(topic));
        assert_eq!(topic.name().as_bytes(), tag);
        assert!(topic.announced_by(tag));
        let out = classify(message(&[tag, &[0xaa]]));
        assert_eq!(out, Ok(Envelope { topic, payload: vec![0xaa] }));
    }
}

#[test]
fn tags_are_matched_whole_and_case_sensitive() {
    assert_eq!(Topic::from_tag(b"rawt"), None);
    assert_eq!(Topic::from_tag(b"rawtxx"), None);
    assert_eq!(Topic::from_tag(b"RAWTX"), None);
    assert_eq!(Topic::from_tag(b""), None);
    assert!(!Topic::HashTx.announced_by(b"hashblock"));
}

#[test]
fn sequence_counter_frame_is_ignored() {
    let out = classify(message(&[b"hashblock", &[0x10, 0x20, 0x30], &[7, 0, 0, 0]]));
    assert_eq!(out, Ok(Envelope { topic: Topic::HashBlock, payload: vec![0x10, 0x20, 0x30] }));
    let raw = extract_payload(message(&[b"hashblock", &[0x10, 0x20, 0x30], &[7, 0, 0, 0]]));
    assert_eq!(raw, Ok(vec![0x10, 0x20, 0x30]));
}

#[test]
fn extract_payload_does_not_read_the_tag() {
    assert_eq!(extract_payload(message(&[b"unknown", &[9, 9]])), Ok(vec![9, 9]));
    assert_eq!(extract_payload(message(&[b"rawtx"])), Err(BitcoinError::MissingPayload));
}

#[test]
fn empty_payload_is_a_payload() {
    let out = classify(message(&[b"hashtx", b""]));
    assert_eq!(out, Ok(Envelope { topic: Topic::HashTx, payload: Vec::new() }));
}

#[test]
fn error_messages() {
    assert_eq!(BitcoinError::MissingTopic.message(), "missing topic");
    assert_eq!(BitcoinError::MissingPayload.message(), "missing payload");
    assert_eq!(BitcoinError::UnexpectedTopic.message(), "unexpected topic");
}
