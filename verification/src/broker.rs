//! The broker: a cloneable producer handle, the command queue, and the actor
//! that owns the subscription table.
//!
//! Every mutation of the table travels as a [`Command`] through one unbounded
//! queue and is applied by a single owner, so commands are totally ordered by
//! arrival and the table needs no lock. The queue receive loop itself must
//! await, so it lives with the caller: the broker side contributes
//! [`Actor::handle`], the verified step from one command to the next table
//! state and the deliveries it causes.

use vstd::prelude::*;
use crate::descriptor::Descriptor;
use crate::fanout::{fanout_view, ids_of, masked};
use crate::mailbox::Mailbox;
use crate::message::{Message, Protocol};
use crate::table::{deregistered, deregistered_all, distinct_ids, registered, ChannelMap, EntryView};

verus! {

/// One queued mutation of the subscription table. Commands are the only way
/// to change the table; the actor applies them in arrival order.
pub enum Command {
    /// Subscribe a mailbox to a descriptor under a policy. Only the policy of
    /// the identity's first registration counts.
    Register(Descriptor, Protocol, Mailbox),
    /// Remove every occurrence of the descriptor from the mailbox's entry.
    Unregister(Descriptor, Mailbox),
    /// Drop the mailbox's entry altogether.
    UnregisterAll(Mailbox),
    /// Fan a message out to every subscriber of the descriptor.
    Forward(Descriptor, Message),
}

/// The table after one command: `Register`, `Unregister` and `UnregisterAll`
/// edit it; `Forward` leaves it alone.
pub open spec fn applied(m: Seq<EntryView>, cmd: Command) -> Seq<EntryView> {
    match cmd {
        Command::Register(d, p, mb) => registered(m, mb@, p, d@),
        Command::Unregister(d, mb) => deregistered(m, mb@, d@),
        Command::UnregisterAll(mb) => deregistered_all(m, mb@),
        Command::Forward(_, _) => m,
    }
}

/// Applies one command to the table and returns the identities of the
/// mailboxes that accepted a delivery — possible only for `Forward`, where
/// the result is some mask of the planned fan-out, each matched subscriber
/// attempted at most once.
pub fn apply(table: &mut ChannelMap, cmd: Command) -> (delivered: Vec<u64>)
    requires
        old(table).wf(),
    ensures
        final(table).wf(),
        final(table)@ == applied(old(table)@, cmd),
        match cmd {
            Command::Forward(d, msg) => exists|keep: Seq<bool>|
                keep.len() == fanout_view(old(table)@, d@, msg@.header, msg@.body).len()
                    && delivered@ == masked(
                    ids_of(fanout_view(old(table)@, d@, msg@.header, msg@.body)),
                    keep,
                ),
            _ => delivered@ == Seq::<u64>::empty(),
        },
{
    match cmd {
        Command::Register(d, p, mb) => {
            table.insert(mb, p, d);
            Vec::new()
        },
        Command::Unregister(d, mb) => {
            table.remove_value(mb, d);
            Vec::new()
        },
        Command::UnregisterAll(mb) => {
            table.remove_key(mb);
            Vec::new()
        },
        Command::Forward(d, msg) => table.send(&d, msg),
    }
}

/// The single owner of the subscription table.
///
/// The actor drains the command queue; [`Actor::handle`] is its whole step
/// for one command. Dropping closed subscribers is not done eagerly but in a
/// cleanup pass every `cadence` commands, a cadence chosen at construction so
/// that heavy traffic need not pay for a scan per command.
pub struct Actor {
    table: ChannelMap,
    cadence: u64,
    since_cleanup: u64,
}

impl Actor {
    /// The entries of the owned table.
    pub closed spec fn table_view(&self) -> Seq<EntryView> {
        self.table@
    }

    /// How many commands may pass between cleanup passes.
    pub closed spec fn cadence(&self) -> u64 {
        self.cadence
    }

    /// Commands handled since the last cleanup pass.
    pub closed spec fn since_cleanup(&self) -> u64 {
        self.since_cleanup
    }

    /// A sound actor: well-formed table, a positive cadence, and a counter
    /// that never reaches it.
    pub open spec fn wf(&self) -> bool {
        &&& distinct_ids(self.table_view())
        &&& self.cadence() >= 1
        &&& self.since_cleanup() < self.cadence()
    }

    /// A fresh actor with an empty table that runs a cleanup pass once every
    /// `cadence` commands.
    pub fn new(capacity: usize, cadence: u64) -> (actor: Actor)
        requires
            cadence >= 1,
        ensures
            actor.wf(),
            actor.table_view() == Seq::<EntryView>::empty(),
            actor.cadence() == cadence,
            actor.since_cleanup() == 0,
    {
        Actor { table: ChannelMap::new(capacity), cadence, since_cleanup: 0 }
    }

    /// Handles one command: applies it to the table, then — every `cadence`th
    /// command — drops the entries whose mailboxes report closed, leaving
    /// some mask of the applied table. Returns the identities that accepted a
    /// delivery, exactly as [`apply`] does.
    pub fn handle(&mut self, cmd: Command) -> (delivered: Vec<u64>)
        requires
            old(self).wf(),
        ensures
            final(self).wf(),
            final(self).cadence() == old(self).cadence(),
            ({
                let edited = applied(old(self).table_view(), cmd);
                if old(self).since_cleanup() + 1 == old(self).cadence() {
                    final(self).since_cleanup() == 0 && exists|keep: Seq<bool>|
                        keep.len() == edited.len() && final(self).table_view() == masked(
                            edited,
                            keep,
                        )
                } else {
                    final(self).since_cleanup() == old(self).since_cleanup() + 1
                        && final(self).table_view() == edited
                }
            }),
            match cmd {
                Command::Forward(d, msg) => exists|keep: Seq<bool>|
                    keep.len() == fanout_view(
                        old(self).table_view(),
                        d@,
                        msg@.header,
                        msg@.body,
                    ).len() && delivered@ == masked(
                        ids_of(fanout_view(old(self).table_view(), d@, msg@.header, msg@.body)),
                        keep,
                    ),
                _ => delivered@ == Seq::<u64>::empty(),
            },
    {
        let delivered = apply(&mut self.table, cmd);
        self.since_cleanup = self.since_cleanup + 1;
        if self.since_cleanup == self.cadence {
            self.table.cleanup();
            self.since_cleanup = 0;
        }
        delivered
    }
}

#[verifier::external_type_specification]
#[verifier::external_body]
#[verifier::reject_recursive_types(T)]
pub struct ExUnboundedSender<T>(tokio::sync::mpsc::UnboundedSender<T>);

#[verifier::external_type_specification]
#[verifier::external_body]
#[verifier::reject_recursive_types(T)]
pub struct ExUnboundedReceiver<T>(tokio::sync::mpsc::UnboundedReceiver<T>);

/// Relies on tokio::sync::mpsc::unbounded_channel: a fresh queue whose send
/// side feeds its receive side.
#[verifier::external_body]
fn new_command_queue() -> (
    tokio::sync::mpsc::UnboundedSender<Command>,
    tokio::sync::mpsc::UnboundedReceiver<Command>,
) {
    tokio::sync::mpsc::unbounded_channel()
}

/// Relies on tokio::sync::mpsc::UnboundedSender::send: enqueues the command
/// unless the receive side is gone, in which case the command is dropped
/// silently — the handle never promises delivery.
#[verifier::external_body]
fn enqueue(queue: &tokio::sync::mpsc::UnboundedSender<Command>, cmd: Command) {
    let _ = queue.send(cmd);
}

/// Relies on tokio::sync::mpsc::UnboundedSender::clone: the clone feeds the
/// same queue.
pub assume_specification<T>[ <tokio::sync::mpsc::UnboundedSender<T> as Clone>::clone ](
    s: &tokio::sync::mpsc::UnboundedSender<T>,
) -> tokio::sync::mpsc::UnboundedSender<T>;

/// A cheap, shareable producer handle. Every operation merely enqueues a
/// command for the actor and returns: its effect is asynchronous, ordered
/// only by arrival on the command queue, and nothing is reported back — not
/// even whether the actor is still alive.
pub struct Broker {
    queue: tokio::sync::mpsc::UnboundedSender<Command>,
}

impl Broker {
    /// A new handle and the command source its actor drains. The caller gives
    /// the receive side to the task that owns the table; once every handle
    /// clone is dropped, that source reports closed and the actor stops.
    pub fn new() -> (tokio::sync::mpsc::UnboundedSender<Command>, tokio::sync::mpsc::UnboundedReceiver<Command>) {
        new_command_queue()
    }

    /// Wraps the send side of a command queue as a handle.
    pub fn from_queue(queue: tokio::sync::mpsc::UnboundedSender<Command>) -> Broker {
        Broker { queue }
    }

    /// Another handle to the same actor.
    pub fn duplicate(&self) -> Broker {
        Broker { queue: self.queue.clone() }
    }

    /// Asks the actor to subscribe `mailbox` to `id` under `protocol`. Never
    /// fails observably; if the actor is gone the request is dropped.
    pub fn subscribe(&self, id: &Descriptor, protocol: Protocol, mailbox: &Mailbox) {
        enqueue(&self.queue, Command::Register(id.duplicate(), protocol, mailbox.duplicate()));
    }

    /// Asks the actor to remove every subscription of `mailbox` that equals
    /// `id`.
    pub fn unsubscribe(&self, id: &Descriptor, mailbox: &Mailbox) {
        enqueue(&self.queue, Command::Unregister(id.duplicate(), mailbox.duplicate()));
    }

    /// Asks the actor to drop `mailbox` from every descriptor it was
    /// subscribed to.
    pub fn unsubscribe_all(&self, mailbox: &Mailbox) {
        enqueue(&self.queue, Command::UnregisterAll(mailbox.duplicate()));
    }

    /// Asks the actor to fan `message` out to every subscriber of `id`.
    pub fn send(&self, id: &Descriptor, message: Message) {
        enqueue(&self.queue, Command::Forward(id.duplicate(), message));
    }

    /// Broadcast a message to a specific topic; the same request as
    /// [`Broker::send`].
    pub fn send_to(&self, to: &Descriptor, message: Message) {
        enqueue(&self.queue, Command::Forward(to.duplicate(), message));
    }
}

} // verus!
