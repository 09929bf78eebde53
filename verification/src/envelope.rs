//! Classification of one multipart notification into a typed envelope.

use vstd::prelude::*;
use crate::errors::BitcoinError;
use crate::topic::Topic;

verus! {

/// A classified notification: what kind it is, and its bytes as bitcoind sent them.
#[derive(Debug, Clone, PartialEq, Eq)]
pub struct Envelope {
    pub topic: Topic,
    pub payload: Vec<u8>,
}

impl View for Envelope {
    type V = (Topic, Seq<u8>);

    open spec fn view(&self) -> (Topic, Seq<u8>) {
        (self.topic, self.payload@)
    }
}

/// The frames of a multipart message as plain byte sequences.
pub open spec fn frame_bytes(frames: Seq<Vec<u8>>) -> Seq<Seq<u8>> {
    Seq::new(frames.len(), |i: int| frames[i]@)
}

/// The payload of a notification: its second frame. A message without frames
/// lacks its topic, one with a single frame lacks its payload; frames after
/// the second are not looked at.
pub open spec fn payload_frame(frames: Seq<Seq<u8>>) -> Result<Seq<u8>, BitcoinError> {
    if frames.len() == 0 {
        Err(BitcoinError::MissingTopic)
    } else if frames.len() == 1 {
        Err(BitcoinError::MissingPayload)
    } else {
        Ok(frames[1])
    }
}

/// What a notification classifies to: the topic that its first frame
/// announces, paired with its payload. The frames are counted before the tag
/// is looked up, so a lone frame lacks its payload whatever it holds.
pub open spec fn classified(frames: Seq<Seq<u8>>) -> Result<(Topic, Seq<u8>), BitcoinError> {
    match payload_frame(frames) {
        Err(e) => Err(e),
        Ok(payload) => match Topic::of_tag(frames[0]) {
            Some(topic) => Ok((topic, payload)),
            None => Err(BitcoinError::UnexpectedTopic),
        },
    }
}

/// Takes the payload out of a notification without looking at its topic tag.
pub fn extract_payload(frames: Vec<Vec<u8>>) -> (out: Result<Vec<u8>, BitcoinError>)
    ensures
        match out {
            Ok(payload) => payload_frame(frame_bytes(frames@)) == Ok::<Seq<u8>, BitcoinError>(payload@),
            Err(e) => payload_frame(frame_bytes(frames@)) == Err::<Seq<u8>, BitcoinError>(e),
        },
{
    let mut frames = frames;
    if frames.len() == 0 {
        return Err(BitcoinError::MissingTopic);
    }
    if frames.len() == 1 {
        return Err(BitcoinError::MissingPayload);
    }
    Ok(frames.swap_remove(1))
}

/// Classifies one notification: the first frame is the topic tag, the second
/// the payload.
pub fn classify(frames: Vec<Vec<u8>>) -> (out: Result<Envelope, BitcoinError>)
    ensures
        match out {
            Ok(envelope) => classified(frame_bytes(frames@)) == Ok::<(Topic, Seq<u8>), BitcoinError>(
                envelope@,
            ),
            Err(e) => classified(frame_bytes(frames@)) == Err::<(Topic, Seq<u8>), BitcoinError>(e),
        },
{
    let mut frames = frames;
    if frames.len() == 0 {
        return Err(BitcoinError::MissingTopic);
    }
    if frames.len() == 1 {
        return Err(BitcoinError::MissingPayload);
    }
    match Topic::from_tag(frames[0].as_slice()) {
        None => Err(BitcoinError::UnexpectedTopic),
        Some(topic) => {
            let payload = frames.swap_remove(1);
            Ok(Envelope { topic, payload })
        },
    }
}

} // verus!
