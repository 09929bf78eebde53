//! The closed set of notification kinds and their wire tags.

use vstd::prelude::*;

verus! {

/// Topics provided by the bitcoind ZMQ interface.
#[derive(Debug, Clone, Copy, PartialEq, Eq, Structural)]
pub enum Topic {
    /// Raw transaction topic.
    RawTx,
    /// Transaction hash topic.
    HashTx,
    /// Raw block topic.
    RawBlock,
    /// Block hash topic.
    HashBlock,
}

/// The bytes of a text made of ASCII characters only.
pub open spec fn ascii(text: Seq<char>) -> Seq<u8> {
    Seq::new(text.len(), |i: int| text[i] as u8)
}

impl Topic {
    /// The tag as text.
    pub open spec fn label(self) -> Seq<char> {
        match self {
            Topic::RawTx => "rawtx"@,
            Topic::HashTx => "hashtx"@,
            Topic::RawBlock => "rawblock"@,
            Topic::HashBlock => "hashblock"@,
        }
    }

    /// The tag as it stands in the first frame of a notification.
    pub open spec fn tag(self) -> Seq<u8> {
        ascii(self.label())
    }

    /// The topic that a first frame announces, if it is a known tag.
    pub open spec fn of_tag(tag: Seq<u8>) -> Option<Topic> {
        if tag == Topic::RawTx.tag() {
            Some(Topic::RawTx)
        } else if tag == Topic::HashTx.tag() {
            Some(Topic::HashTx)
        } else if tag == Topic::RawBlock.tag() {
            Some(Topic::RawBlock)
        } else if tag == Topic::HashBlock.tag() {
            Some(Topic::HashBlock)
        } else {
            None
        }
    }

    /// The tag of this topic as text.
    pub fn name(&self) -> (name: &'static str)
        ensures
            name@ == self.label(),
    {
        match self {
            Topic::RawTx => "rawtx",
            Topic::HashTx => "hashtx",
            Topic::RawBlock => "rawblock",
            Topic::HashBlock => "hashblock",
        }
    }

    /// Whether `frame` holds exactly the tag of this topic.
    pub fn announced_by(&self, frame: &[u8]) -> (yes: bool)
        ensures
            yes == (frame@ == self.tag()),
    {
        let name = self.name();
        let tag = name.as_bytes();
        proof {
            lemma_labels();
            vstd::string::is_ascii_spec_bytes(name);
            assert(tag@ =~= self.tag());
        }
        if frame.len() != tag.len() {
            return false;
        }
        let mut i: usize = 0;
        while i < frame.len()
            invariant
                tag@ == self.tag(),
                frame.len() == tag.len(),
                i <= frame.len(),
                forall|k: int| 0 <= k < i ==> frame@[k] == tag@[k],
            decreases frame.len() - i,
        {
            if frame[i] != tag[i] {
                return false;
            }
            i += 1;
        }
        assert(frame@ =~= tag@);
        true
    }

    /// Looks a topic tag up in the table of known tags.
    pub fn from_tag(frame: &[u8]) -> (topic: Option<Topic>)
        ensures
            topic == Topic::of_tag(frame@),
    {
        if Topic::RawTx.announced_by(frame) {
            Some(Topic::RawTx)
        } else if Topic::HashTx.announced_by(frame) {
            Some(Topic::HashTx)
        } else if Topic::RawBlock.announced_by(frame) {
            Some(Topic::RawBlock)
        } else if Topic::HashBlock.announced_by(frame) {
            Some(Topic::HashBlock)
        } else {
            None
        }
    }
}

/// What the four labels hold, character by character.
proof fn lemma_labels()
    ensures
        "rawtx"@ == seq!['r', 'a', 'w', 't', 'x'],
        "hashtx"@ == seq!['h', 'a', 's', 'h', 't', 'x'],
        "rawblock"@ == seq!['r', 'a', 'w', 'b', 'l', 'o', 'c', 'k'],
        "hashblock"@ == seq!['h', 'a', 's', 'h', 'b', 'l', 'o', 'c', 'k'],
        forall|t: Topic| vstd::utf8::is_ascii_chars(#[trigger] t.label()),
{
    reveal_strlit("rawtx");
    reveal_strlit("hashtx");
    reveal_strlit("rawblock");
    reveal_strlit("hashblock");
    assert("rawtx"@ =~= seq!['r', 'a', 'w', 't', 'x']);
    assert("hashtx"@ =~= seq!['h', 'a', 's', 'h', 't', 'x']);
    assert("rawblock"@ =~= seq!['r', 'a', 'w', 'b', 'l', 'o', 'c', 'k']);
    assert("hashblock"@ =~= seq!['h', 'a', 's', 'h', 'b', 'l', 'o', 'c', 'k']);
}

/// The tag table is one to one: a frame announces at most one topic, and each
/// topic is found again from its own tag.
pub proof fn lemma_tags_distinct(a: Topic, b: Topic)
    ensures
        a.tag() == b.tag() <==> a == b,
        Topic::of_tag(a.tag()) == Some(a),
{
    lemma_labels();
    assert(Topic::RawTx.tag().len() == 5);
    assert(Topic::HashTx.tag().len() == 6);
    assert(Topic::RawBlock.tag().len() == 8);
    assert(Topic::HashBlock.tag().len() == 9);
}

} // verus!
