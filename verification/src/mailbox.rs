//! Subscriber mailboxes.
//!
//! A subscriber hands the broker the send side of a bounded tokio channel.
//! The broker never closes a mailbox; it only detects, lazily, that the
//! receive side has been dropped.

use vstd::prelude::*;
use crate::message::Message;

verus! {

#[verifier::external_type_specification]
#[verifier::external_body]
#[verifier::reject_recursive_types(T)]
pub struct ExSender<T>(tokio::sync::mpsc::Sender<T>);

/// Relies on tokio::sync::mpsc::Sender::clone: the clone is a handle to the
/// same channel.
pub assume_specification<T>[ <tokio::sync::mpsc::Sender<T> as Clone>::clone ](
    s: &tokio::sync::mpsc::Sender<T>,
) -> tokio::sync::mpsc::Sender<T>;

/// The send side of one subscriber's bounded mailbox, paired with a stable
/// identity.
///
/// Two handles that carry the same identity stand for the same mailbox; the
/// connection layer that creates mailboxes is responsible for assigning each
/// mailbox a fresh identity. The view of a mailbox is that identity.
pub struct Mailbox {
    id: u64,
    tx: tokio::sync::mpsc::Sender<Message>,
}

impl View for Mailbox {
    type V = u64;

    closed spec fn view(&self) -> u64 {
        self.id
    }
}

impl Mailbox {
    /// Wraps a channel send side under the identity `id`.
    pub fn new(id: u64, tx: tokio::sync::mpsc::Sender<Message>) -> (m: Mailbox)
        ensures
            m@ == id,
    {
        Mailbox { id, tx }
    }

    /// The mailbox identity.
    pub fn id(&self) -> (r: u64)
        ensures
            r == self@,
    {
        self.id
    }

    /// True when the two handles stand for the same mailbox.
    pub fn same_channel(&self, other: &Mailbox) -> (r: bool)
        ensures
            r == (self@ == other@),
    {
        self.id == other.id
    }

    /// A second handle to the same mailbox.
    pub fn duplicate(&self) -> (m: Mailbox)
        ensures
            m@ == self@,
    {
        Mailbox { id: self.id, tx: self.tx.clone() }
    }

    /// Relies on tokio::sync::mpsc::Sender::is_closed: whether the receive
    /// side of this mailbox has been dropped or closed. The answer depends on
    /// what the subscriber has done meanwhile, so nothing is promised of it.
    #[verifier::external_body]
    pub fn is_closed(&self) -> bool {
        self.tx.is_closed()
    }

    /// Relies on tokio::sync::mpsc::Sender::try_send: a non-blocking delivery
    /// attempt that fails when the mailbox is full or its receive side is
    /// gone. Whether it succeeds depends on the subscriber, so nothing is
    /// promised of the result.
    #[verifier::external_body]
    pub fn try_send(&self, message: Message) -> bool {
        self.tx.try_send(message).is_ok()
    }
}

} // verus!
