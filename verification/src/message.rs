//! Messages and the per-subscriber framing policy.

use vstd::prelude::*;
use std::sync::Arc;
use crate::descriptor::Descriptor;

verus! {

/// How forwarded messages are framed for one subscriber.
///
/// The policy is fixed when a subscriber identity first registers and later
/// registrations for the same identity do not change it.
#[derive(Clone, Copy, PartialEq, Eq, Structural, Debug)]
pub enum Protocol {
    /// The forwarded message carries no topic tag. Meant for a subscriber
    /// that is tuned to a single descriptor and needs no disambiguation.
    Naked,
    /// Every forwarded message carries the descriptor it was sent to, so a
    /// subscriber listening on many descriptors can tell them apart.
    Multiplexed,
}

/// One payload chunk: an immutable byte buffer behind a reference count, so
/// fanning a body out to many subscribers never copies the bytes themselves.
pub type Chunk = Arc<Vec<u8>>;

/// The mathematical value of a [`Message`]: its header bytes, its optional
/// topic tag, and its body as a sequence of chunk byte sequences.
#[verifier::ext_equal]
pub ghost struct MessageView {
    pub header: Seq<u8>,
    pub topic: Option<Seq<char>>,
    pub body: Seq<Seq<u8>>,
}

/// A message: a header, an optional topic tag, and a chunked payload.
pub struct Message {
    header: Vec<u8>,
    topic: Option<Descriptor>,
    body: Vec<Chunk>,
}

/// The view of an optional topic tag.
pub open spec fn topic_view(topic: Option<Descriptor>) -> Option<Seq<char>> {
    match topic {
        Some(d) => Some(d@),
        None => None,
    }
}

impl View for Message {
    type V = MessageView;

    closed spec fn view(&self) -> MessageView {
        MessageView {
            header: self.header@,
            topic: topic_view(self.topic),
            body: self.body.deep_view(),
        }
    }
}

impl DeepView for Message {
    type V = MessageView;

    open spec fn deep_view(&self) -> MessageView {
        self.view()
    }
}

/// Relies on alloc::sync::Arc::clone: the returned handle refers to the same
/// immutable buffer, so its value equals the original's.
#[verifier::external_body]
fn share_chunk(chunk: &Chunk) -> (r: Chunk)
    ensures
        r == *chunk,
{
    chunk.clone()
}

/// Replicates a body chunk by chunk; only the reference-counted handles are
/// copied, never the bytes.
pub fn share_body(body: &Vec<Chunk>) -> (r: Vec<Chunk>)
    ensures
        r@ == body@,
{
    let mut r: Vec<Chunk> = Vec::new();
    let mut i: usize = 0;
    while i < body.len()
        invariant
            i <= body.len(),
            r@ =~= body@.subrange(0, i as int),
        decreases body.len() - i,
    {
        r.push(share_chunk(&body[i]));
        i += 1;
    }
    proof {
        assert(r@ =~= body@);
    }
    r
}

impl Message {
    /// Builds a message from its three parts.
    pub fn from_parts(header: Vec<u8>, topic: Option<Descriptor>, body: Vec<Chunk>) -> (m: Message)
        ensures
            m@.header == header@,
            m@.topic == topic_view(topic),
            m@.body == body.deep_view(),
    {
        Message { header, topic, body }
    }

    /// Takes the message apart into header, topic tag and body.
    pub fn into_parts(self) -> (r: (Vec<u8>, Option<Descriptor>, Vec<Chunk>))
        ensures
            r.0@ == self@.header,
            topic_view(r.1) == self@.topic,
            r.2.deep_view() == self@.body,
    {
        (self.header, self.topic, self.body)
    }

    /// The header bytes.
    pub fn header(&self) -> (r: &Vec<u8>)
        ensures
            r@ == self@.header,
    {
        &self.header
    }

    /// The topic tag, if the message carries one.
    pub fn topic(&self) -> (r: &Option<Descriptor>)
        ensures
            topic_view(*r) == self@.topic,
    {
        &self.topic
    }

    /// The body chunks.
    pub fn body(&self) -> (r: &Vec<Chunk>)
        ensures
            r.deep_view() == self@.body,
    {
        &self.body
    }
}

/// The view a subscriber copy of a forwarded message must have: the source
/// header and body, and the originating descriptor as topic tag exactly when
/// the subscriber's protocol is [`Protocol::Multiplexed`].
pub open spec fn delivery_view(
    header: Seq<u8>,
    body: Seq<Seq<u8>>,
    sent_to: Seq<char>,
    protocol: Protocol,
) -> MessageView {
    MessageView {
        header,
        topic: if protocol is Multiplexed {
            Some(sent_to)
        } else {
            None
        },
        body,
    }
}

/// Builds the copy of a forwarded message that one subscriber receives:
/// the header is copied, the body is replicated chunk handle by chunk handle,
/// and the descriptor the message was sent to is attached as topic tag only
/// under [`Protocol::Multiplexed`].
pub fn replicate(
    header: &Vec<u8>,
    body: &Vec<Chunk>,
    sent_to: &Descriptor,
    protocol: Protocol,
) -> (m: Message)
    ensures
        m@ == delivery_view(header@, body.deep_view(), sent_to@, protocol),
{
    let tag: Option<Descriptor> = match protocol {
        Protocol::Multiplexed => Some(sent_to.duplicate()),
        Protocol::Naked => None,
    };
    let h = header.clone();
    proof {
        assert(h@ =~= header@);
    }
    Message { header: h, topic: tag, body: share_body(body) }
}

} // verus!
