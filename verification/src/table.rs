//! The subscription table.
//!
//! [`ChannelMap`] is the authoritative record of who listens to what. It is
//! meant to be owned by a single actor task, so it needs no lock: every
//! mutation arrives as a command and is applied here, one at a time.

use vstd::prelude::*;
use crate::descriptor::Descriptor;
use crate::fanout::{dispatch, fanout_view, ids_of, lemma_fanout_push, masked, Delivery, DeliveryView};
use crate::mailbox::Mailbox;
use crate::message::{delivery_view, replicate, Chunk, Message, Protocol};

verus! {

/// One subscriber: a mailbox handle, the framing policy fixed when the
/// identity first registered, and the descriptors it is tuned to.
pub(crate) struct Entry {
    pub mailbox: Mailbox,
    pub protocol: Protocol,
    pub descriptors: Vec<Descriptor>,
}

/// The mathematical value of a subscriber entry: the mailbox identity, the
/// framing policy, and the topic keys in registration order.
#[verifier::ext_equal]
pub ghost struct EntryView {
    pub id: u64,
    pub protocol: Protocol,
    pub topics: Seq<Seq<char>>,
}

impl DeepView for Entry {
    type V = EntryView;

    closed spec fn deep_view(&self) -> EntryView {
        EntryView { id: self.mailbox@, protocol: self.protocol, topics: self.descriptors.deep_view() }
    }
}

/// True when no two entries carry the same mailbox identity. Every table
/// operation preserves this; it is what makes an identity name one entry.
pub open spec fn distinct_ids(m: Seq<EntryView>) -> bool {
    forall|i: int, j: int| #![trigger m[i].id, m[j].id] 0 <= i < j < m.len() ==> m[i].id != m[j].id
}

/// True when some entry carries the identity `id`.
pub open spec fn has_id(m: Seq<EntryView>, id: u64) -> bool {
    exists|j: int| 0 <= j < m.len() && (#[trigger] m[j]).id == id
}

/// The index of the entry carrying `id`; meaningful under [`has_id`] and,
/// given [`distinct_ids`], unique.
pub open spec fn id_index(m: Seq<EntryView>, id: u64) -> int {
    choose|j: int| 0 <= j < m.len() && (#[trigger] m[j]).id == id
}

/// True when the subscriber `id` has an entry subscribed to `topic`, so a
/// message forwarded to `topic` is addressed to it.
pub open spec fn entry_matches(m: Seq<EntryView>, topic: Seq<char>, id: u64) -> bool {
    exists|j: int| 0 <= j < m.len() && (#[trigger] m[j]).id == id && m[j].topics.contains(topic)
}

/// The table after registering `id` for `topic`: an existing entry keeps its
/// policy — first writer wins — and gains `topic`; a fresh identity gets a
/// new entry at the end.
pub open spec fn registered(m: Seq<EntryView>, id: u64, protocol: Protocol, topic: Seq<char>) -> Seq<
    EntryView,
> {
    if has_id(m, id) {
        let j = id_index(m, id);
        m.update(j, EntryView { id: m[j].id, protocol: m[j].protocol, topics: m[j].topics.push(topic) })
    } else {
        m.push(EntryView { id, protocol, topics: seq![topic] })
    }
}

/// The table after dropping every subscription of `id`.
pub open spec fn deregistered_all(m: Seq<EntryView>, id: u64) -> Seq<EntryView> {
    if has_id(m, id) {
        m.remove(id_index(m, id))
    } else {
        m
    }
}

/// The topic list with every occurrence of `topic` removed.
pub open spec fn drop_topic(ts: Seq<Seq<char>>, topic: Seq<char>) -> Seq<Seq<char>> {
    ts.filter(|t: Seq<char>| t != topic)
}

/// The table after removing every occurrence of `topic` — duplicates
/// included — from the entry of `id`; unchanged when `id` has no entry.
pub open spec fn deregistered(m: Seq<EntryView>, id: u64, topic: Seq<char>) -> Seq<EntryView> {
    if has_id(m, id) {
        let j = id_index(m, id);
        m.update(
            j,
            EntryView {
                id: m[j].id,
                protocol: m[j].protocol,
                topics: drop_topic(m[j].topics, topic),
            },
        )
    } else {
        m
    }
}

/// Under [`distinct_ids`], the entry found at `i` is the one [`id_index`]
/// names.
pub proof fn lemma_id_index_is(m: Seq<EntryView>, id: u64, i: int)
    requires
        distinct_ids(m),
        0 <= i < m.len(),
        m[i].id == id,
    ensures
        has_id(m, id),
        id_index(m, id) == i,
{
    assert(has_id(m, id));
    let j = id_index(m, id);
    if j != i {
        assert(m[i].id != m[j].id || m[j].id != m[i].id);
    }
}

/// The subscription table: the entries of all live subscribers, in order of
/// first registration. Its view is the sequence of entry views.
pub struct ChannelMap {
    entries: Vec<Entry>,
}

impl View for ChannelMap {
    type V = Seq<EntryView>;

    closed spec fn view(&self) -> Seq<EntryView> {
        self.entries.deep_view()
    }
}

impl ChannelMap {
    /// At most one entry per mailbox identity.
    pub open spec fn wf(&self) -> bool {
        distinct_ids(self@)
    }

    /// An empty table with room for `capacity` subscribers.
    pub fn new(capacity: usize) -> (map: ChannelMap)
        ensures
            map@ == Seq::<EntryView>::empty(),
            map.wf(),
    {
        let map = ChannelMap { entries: Vec::with_capacity(capacity) };
        proof {
            assert(map@ =~= Seq::<EntryView>::empty());
        }
        map
    }

    /// How many subscribers have an entry.
    pub fn len(&self) -> (n: usize)
        ensures
            n == self@.len(),
    {
        self.entries.len()
    }

    /// Adds `descriptor` to the subscriptions of `tx`. The first registration
    /// of an identity fixes its framing policy; later ones only extend its
    /// descriptor list.
    pub fn insert(&mut self, tx: Mailbox, protocol: Protocol, descriptor: Descriptor)
        requires
            old(self).wf(),
        ensures
            final(self).wf(),
            final(self)@ == registered(old(self)@, tx@, protocol, descriptor@),
    {
        let ghost m = self@;
        let mut i: usize = 0;
        while i < self.entries.len()
            invariant
                self@ == m,
                m == old(self)@,
                distinct_ids(m),
                i <= m.len(),
                self.entries.len() == m.len(),
                forall|k: int| 0 <= k < i ==> (#[trigger] m[k]).id != tx@,
            decreases m.len() - i,
        {
            if self.entries[i].mailbox.same_channel(&tx) {
                proof {
                    assert(m[i as int].id == tx@);
                    lemma_id_index_is(m, tx@, i as int);
                }
                let mut e = self.entries.remove(i);
                e.descriptors.push(descriptor);
                self.entries.insert(i, e);
                proof {
                    let expected = registered(m, tx@, protocol, descriptor@);
                    assert(self@ =~~= expected);
                    assert forall|a: int, b: int|
                        #![trigger expected[a].id, expected[b].id]
                        0 <= a < b < expected.len() implies expected[a].id != expected[b].id by {
                        assert(expected[a].id == m[a].id && expected[b].id == m[b].id);
                    }
                }
                return ;
            }
            i += 1;
        }
        let mut ds: Vec<Descriptor> = Vec::new();
        ds.push(descriptor);
        self.entries.push(Entry { mailbox: tx, protocol, descriptors: ds });
        proof {
            assert(!has_id(m, tx@));
            let expected = registered(m, tx@, protocol, descriptor@);
            assert(ds.deep_view() =~= seq![descriptor@]);
            assert(self@ =~~= expected);
        }
    }

    /// Drops the whole entry of `tx`, removing it from matching for every
    /// descriptor it was subscribed to. Doing so for an unknown identity is a
    /// no-op.
    pub fn remove_key(&mut self, tx: Mailbox)
        requires
            old(self).wf(),
        ensures
            final(self).wf(),
            final(self)@ == deregistered_all(old(self)@, tx@),
    {
        let ghost m = self@;
        let mut i: usize = 0;
        while i < self.entries.len()
            invariant
                self@ == m,
                m == old(self)@,
                distinct_ids(m),
                i <= m.len(),
                self.entries.len() == m.len(),
                forall|k: int| 0 <= k < i ==> (#[trigger] m[k]).id != tx@,
            decreases m.len() - i,
        {
            if self.entries[i].mailbox.same_channel(&tx) {
                proof {
                    lemma_id_index_is(m, tx@, i as int);
                }
                self.entries.remove(i);
                proof {
                    let expected = deregistered_all(m, tx@);
                    assert(self@ =~~= expected);
                    assert forall|a: int, b: int|
                        #![trigger expected[a].id, expected[b].id]
                        0 <= a < b < expected.len() implies expected[a].id != expected[b].id by {
                        let a0 = if a < i { a } else { a + 1 };
                        let b0 = if b < i { b } else { b + 1 };
                        assert(expected[a].id == m[a0].id && expected[b].id == m[b0].id);
                    }
                }
                return ;
            }
            i += 1;
        }
        proof {
            assert(!has_id(m, tx@));
        }
    }

    /// Removes every occurrence of `descriptor` from the subscriptions of
    /// `tx` — duplicate registrations included. Removing a descriptor the
    /// identity never subscribed to, or naming an unknown identity, is a
    /// no-op.
    pub fn remove_value(&mut self, tx: Mailbox, descriptor: Descriptor)
        requires
            old(self).wf(),
        ensures
            final(self).wf(),
            final(self)@ == deregistered(old(self)@, tx@, descriptor@),
    {
        let ghost m = self@;
        let mut i: usize = 0;
        while i < self.entries.len()
            invariant
                self@ == m,
                m == old(self)@,
                distinct_ids(m),
                i <= m.len(),
                self.entries.len() == m.len(),
                forall|k: int| 0 <= k < i ==> (#[trigger] m[k]).id != tx@,
            decreases m.len() - i,
        {
            if self.entries[i].mailbox.same_channel(&tx) {
                proof {
                    lemma_id_index_is(m, tx@, i as int);
                }
                let mut e = self.entries.remove(i);
                let ghost ts = e.descriptors.deep_view();
                let ghost topic = descriptor@;
                let mut kept: Vec<Descriptor> = Vec::new();
                let mut k: usize = 0;
                while k < e.descriptors.len()
                    invariant
                        k <= e.descriptors.len(),
                        ts == e.descriptors.deep_view(),
                        topic == descriptor@,
                        kept.deep_view() == drop_topic(ts.subrange(0, k as int), topic),
                    decreases e.descriptors.len() - k,
                {
                    let ghost pre = kept.deep_view();
                    proof {
                        reveal(Seq::filter);
                        assert(ts.subrange(0, k + 1).drop_last() =~= ts.subrange(0, k as int));
                        assert(ts.subrange(0, k + 1).last() == ts[k as int]);
                    }
                    if !(e.descriptors[k] == descriptor) {
                        kept.push(e.descriptors[k].duplicate());
                        proof {
                            assert(ts[k as int] != topic);
                            assert(kept.deep_view() =~= pre.push(ts[k as int]));
                            assert(kept.deep_view() =~= drop_topic(ts.subrange(0, k + 1), topic));
                        }
                    } else {
                        proof {
                            assert(ts[k as int] == topic);
                            assert(kept.deep_view() =~= drop_topic(ts.subrange(0, k + 1), topic));
                        }
                    }
                    k += 1;
                }
                proof {
                    assert(ts.subrange(0, ts.len() as int) =~= ts);
                }
                e.descriptors = kept;
                self.entries.insert(i, e);
                proof {
                    let expected = deregistered(m, tx@, descriptor@);
                    assert(self@ =~~= expected);
                    assert forall|a: int, b: int|
                        #![trigger expected[a].id, expected[b].id]
                        0 <= a < b < expected.len() implies expected[a].id != expected[b].id by {
                        assert(expected[a].id == m[a].id && expected[b].id == m[b].id);
                    }
                }
                return ;
            }
            i += 1;
        }
        proof {
            assert(!has_id(m, tx@));
        }
    }

    /// The deliveries owed for forwarding a message made of `header` and
    /// `body` to `sent_to`: one per matching entry, in table order, framed by
    /// that entry's policy. The plan is exact; whether each delivery is then
    /// accepted is up to the subscriber.
    pub fn plan_fanout(&self, sent_to: &Descriptor, header: &Vec<u8>, body: &Vec<Chunk>) -> (plan:
        Vec<Delivery>)
        ensures
            plan.deep_view() == fanout_view(self@, sent_to@, header@, body.deep_view()),
    {
        let ghost topic = sent_to@;
        let ghost h = header@;
        let ghost b = body.deep_view();
        let mut plan: Vec<Delivery> = Vec::new();
        let mut i: usize = 0;
        while i < self.entries.len()
            invariant
                i <= self@.len(),
                self.entries.len() == self@.len(),
                topic == sent_to@ && h == header@ && b == body.deep_view(),
                plan.deep_view() == fanout_view(self@.subrange(0, i as int), topic, h, b),
            decreases self@.len() - i,
        {
            let ghost pre = plan.deep_view();
            let ghost ev = self@[i as int];
            let e = &self.entries[i];
            proof {
                assert(ev == e.deep_view());
            }
            if contains_descriptor(&e.descriptors, sent_to) {
                let m = replicate(header, body, sent_to, e.protocol);
                plan.push(Delivery { mailbox: e.mailbox.duplicate(), message: m });
                proof {
                    assert(ev.topics.contains(topic));
                    assert(plan.deep_view() =~= pre.push(
                        DeliveryView { id: ev.id, message: delivery_view(h, b, topic, ev.protocol) },
                    ));
                }
            } else {
                proof {
                    assert(!ev.topics.contains(topic));
                }
            }
            proof {
                lemma_fanout_push(self@.subrange(0, i as int), ev, topic, h, b);
                assert(self@.subrange(0, i + 1) =~= self@.subrange(0, i as int).push(ev));
            }
            i += 1;
        }
        proof {
            assert(self@.subrange(0, self@.len() as int) =~= self@);
        }
        plan
    }

    /// Forwards `message` to every subscriber tuned to `sent_to`: plans the
    /// fan-out, then attempts each delivery. Returns the identities that
    /// accepted — some mask of the planned ones, since a closed or full
    /// mailbox is skipped silently. When nothing matches `sent_to`, the plan
    /// is empty and the forward is a no-op.
    pub fn send(&self, sent_to: &Descriptor, message: Message) -> (delivered: Vec<u64>)
        ensures
            exists|keep: Seq<bool>|
                keep.len() == fanout_view(self@, sent_to@, message@.header, message@.body).len()
                    && delivered@ == masked(
                    ids_of(fanout_view(self@, sent_to@, message@.header, message@.body)),
                    keep,
                ),
    {
        let (header, _topic, body) = message.into_parts();
        let plan = self.plan_fanout(sent_to, &header, &body);
        dispatch(plan)
    }

    /// Drops every entry whose mailbox reports its receive side gone. Which
    /// entries report closed depends on the subscribers, so the table becomes
    /// some mask of its old self: entries survive in order, none is invented,
    /// and identities stay distinct.
    pub fn cleanup(&mut self)
        requires
            old(self).wf(),
        ensures
            final(self).wf(),
            exists|keep: Seq<bool>|
                keep.len() == old(self)@.len() && final(self)@ == masked(old(self)@, keep),
    {
        let ghost orig = self@;
        let mut rest: Vec<Entry> = Vec::new();
        core::mem::swap(&mut self.entries, &mut rest);
        proof {
            assert(self@ =~= masked(orig.subrange(0, 0), Seq::<bool>::empty()));
        }
        let ghost mut keep: Seq<bool> = Seq::empty();
        while rest.len() > 0
            invariant
                orig == old(self)@,
                keep.len() + rest@.len() == orig.len(),
                forall|q: int|
                    0 <= q < rest@.len() ==> (#[trigger] rest@[q]).deep_view() == orig[keep.len()
                        + q],
                self@ == masked(orig.subrange(0, keep.len() as int), keep),
            decreases rest.len(),
        {
            let ghost p = keep.len() as int;
            let ghost before = rest@;
            let e = rest.remove(0);
            proof {
                before.remove_ensures(0);
                assert(e.deep_view() == orig[p]);
                assert forall|q: int|
                    0 <= q < rest@.len() implies (#[trigger] rest@[q]).deep_view() == orig[p + 1
                    + q] by {
                    assert(rest@[q] == before[q + 1]);
                    assert(before[q + 1].deep_view() == orig[p + (q + 1)]);
                }
            }
            let open = !e.mailbox.is_closed();
            let ghost pre = self@;
            if open {
                self.entries.push(e);
                proof {
                    assert(self@ =~= pre.push(orig[p]));
                }
            }
            proof {
                let shorter = orig.subrange(0, p);
                let longer = orig.subrange(0, p + 1);
                assert(longer =~= shorter.push(orig[p]));
                crate::fanout::lemma_masked_push(shorter, keep, orig[p], open);
                keep = keep.push(open);
            }
        }
        proof {
            assert(orig.subrange(0, keep.len() as int) =~= orig);
            lemma_masked_distinct(orig, keep);
        }
    }
}

/// True when `list` holds a key equal to `d`.
fn contains_descriptor(list: &Vec<Descriptor>, d: &Descriptor) -> (r: bool)
    ensures
        r == list.deep_view().contains(d@),
{
    let mut k: usize = 0;
    while k < list.len()
        invariant
            k <= list.len(),
            forall|t: int| 0 <= t < k ==> (#[trigger] list.deep_view()[t]) != d@,
        decreases list.len() - k,
    {
        if list[k] == *d {
            proof {
                assert(list.deep_view()[k as int] == d@);
            }
            return true;
        }
        k += 1;
    }
    false
}

/// Masking a table with distinct identities keeps the identities distinct,
/// and invents no entry.
pub proof fn lemma_masked_distinct(m: Seq<EntryView>, keep: Seq<bool>)
    requires
        keep.len() == m.len(),
        distinct_ids(m),
    ensures
        distinct_ids(masked(m, keep)),
        forall|q: int| 0 <= q < masked(m, keep).len() ==> m.contains(#[trigger] masked(m, keep)[q]),
    decreases m.len(),
{
    if m.len() == 0 {
    } else {
        let m2 = m.drop_last();
        let k2 = keep.drop_last();
        assert(distinct_ids(m2));
        lemma_masked_distinct(m2, k2);
        let out2 = masked(m2, k2);
        let out = masked(m, keep);
        assert forall|q: int| 0 <= q < out2.len() implies m.contains(out2[q]) by {
            assert(m2.contains(out2[q]));
            let j = choose|j: int| 0 <= j < m2.len() && m2[j] == out2[q];
            assert(m[j] == out2[q]);
        }
        if keep.last() {
            assert(out =~= out2.push(m.last()));
            assert(m[m.len() - 1] == m.last());
            assert forall|a: int, b: int|
                #![trigger out[a].id, out[b].id]
                0 <= a < b < out.len() implies out[a].id != out[b].id by {
                if b == out.len() - 1 {
                    assert(m2.contains(out[a]));
                    let j = choose|j: int| 0 <= j < m2.len() && m2[j] == out[a];
                    assert(m[j].id != m[m.len() - 1].id);
                } else {
                    assert(out2[a].id != out2[b].id);
                }
            }
        } else {
            assert(out =~= out2);
        }
    }
}

} // verus!
