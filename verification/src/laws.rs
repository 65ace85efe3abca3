//! The laws the broker obeys, stated over the table and fan-out models and
//! proved for every table and every message.

use vstd::prelude::*;
use crate::fanout::{fanout_view, ids_of, lemma_masked_no_duplicates, masked, DeliveryView};
use crate::message::{delivery_view, Protocol};
use crate::table::{
    deregistered, deregistered_all, distinct_ids, drop_topic, entry_matches, has_id, id_index,
    registered, EntryView,
};

verus! {

/// The policy stored for the identity `id`; meaningful under [`has_id`].
pub open spec fn protocol_of(m: Seq<EntryView>, id: u64) -> Protocol {
    m[id_index(m, id)].protocol
}

/// Registering keeps mailbox identities distinct.
pub proof fn lemma_registered_distinct(m: Seq<EntryView>, id: u64, protocol: Protocol, topic: Seq<char>)
    requires
        distinct_ids(m),
    ensures
        distinct_ids(registered(m, id, protocol, topic)),
{
    let out = registered(m, id, protocol, topic);
    if has_id(m, id) {
        assert forall|a: int, b: int|
            #![trigger out[a].id, out[b].id]
            0 <= a < b < out.len() implies out[a].id != out[b].id by {
            assert(out[a].id == m[a].id && out[b].id == m[b].id);
        }
    } else {
        assert forall|a: int, b: int|
            #![trigger out[a].id, out[b].id]
            0 <= a < b < out.len() implies out[a].id != out[b].id by {
            if b == out.len() - 1 {
                assert(m[a].id != id);
            }
        }
    }
}

/// After registering `id` for `topic`, some entry of `id` contains `topic`.
pub proof fn lemma_registered_matches(m: Seq<EntryView>, id: u64, protocol: Protocol, topic: Seq<char>)
    ensures
        entry_matches(registered(m, id, protocol, topic), topic, id),
{
    let out = registered(m, id, protocol, topic);
    if has_id(m, id) {
        let j = id_index(m, id);
        assert(out[j].id == id);
        assert(out[j].topics == m[j].topics.push(topic));
        assert(out[j].topics[m[j].topics.len() as int] == topic);
        assert(out[j].topics.contains(topic));
    } else {
        let j = out.len() - 1;
        assert(out[j].id == id);
        assert(out[j].topics[0] == topic);
        assert(out[j].topics.contains(topic));
    }
}

/// The fan-out plan is sound and complete: every planned delivery belongs to
/// an entry that matches the topic and is framed by that entry's policy, and
/// every matching entry gets a planned delivery.
pub proof fn lemma_fanout_exact(m: Seq<EntryView>, topic: Seq<char>, header: Seq<u8>, body: Seq<Seq<u8>>)
    ensures
        ({
            let plan = fanout_view(m, topic, header, body);
            &&& forall|q: int|
                0 <= q < plan.len() ==> exists|j: int|
                    0 <= j < m.len() && m[j].id == (#[trigger] plan[q]).id && m[j].topics.contains(
                        topic,
                    ) && plan[q].message == delivery_view(header, body, topic, m[j].protocol)
            &&& forall|j: int|
                0 <= j < m.len() && (#[trigger] m[j]).topics.contains(topic) ==> ids_of(
                    plan,
                ).contains(m[j].id)
        }),
    decreases m.len(),
{
    let plan = fanout_view(m, topic, header, body);
    if m.len() == 0 {
    } else {
        let m2 = m.drop_last();
        lemma_fanout_exact(m2, topic, header, body);
        let plan2 = fanout_view(m2, topic, header, body);
        assert forall|q: int| 0 <= q < plan.len() implies exists|j: int|
            0 <= j < m.len() && m[j].id == (#[trigger] plan[q]).id && m[j].topics.contains(topic)
                && plan[q].message == delivery_view(header, body, topic, m[j].protocol) by {
            if q < plan2.len() {
                let j = choose|j: int|
                    0 <= j < m2.len() && m2[j].id == plan2[q].id && m2[j].topics.contains(topic)
                        && plan2[q].message == delivery_view(header, body, topic, m2[j].protocol);
                assert(m[j] == m2[j]);
                assert(plan[q] == plan2[q]);
            } else {
                let j = m.len() - 1;
                assert(m.last().topics.contains(topic));
                assert(plan[q] == DeliveryView {
                    id: m[j].id,
                    message: delivery_view(header, body, topic, m[j].protocol),
                });
            }
        }
        assert forall|j: int|
            0 <= j < m.len() && (#[trigger] m[j]).topics.contains(topic) implies ids_of(
            plan,
        ).contains(m[j].id) by {
            if j < m.len() - 1 {
                assert(m2[j] == m[j]);
                assert(ids_of(plan2).contains(m2[j].id));
                let q = choose|q: int| 0 <= q < ids_of(plan2).len() && ids_of(plan2)[q] == m2[j].id;
                assert(plan[q] == plan2[q]);
                assert(ids_of(plan)[q] == m[j].id);
            } else {
                assert(ids_of(plan)[plan.len() - 1] == m[j].id);
            }
        }
    }
}

/// When identities are distinct, the plan addresses each at most once.
pub proof fn lemma_fanout_at_most_once(
    m: Seq<EntryView>,
    topic: Seq<char>,
    header: Seq<u8>,
    body: Seq<Seq<u8>>,
)
    requires
        distinct_ids(m),
    ensures
        ids_of(fanout_view(m, topic, header, body)).no_duplicates(),
    decreases m.len(),
{
    let plan = fanout_view(m, topic, header, body);
    if m.len() == 0 {
    } else {
        let m2 = m.drop_last();
        assert(distinct_ids(m2));
        lemma_fanout_at_most_once(m2, topic, header, body);
        lemma_fanout_exact(m2, topic, header, body);
        let plan2 = fanout_view(m2, topic, header, body);
        let ids = ids_of(plan);
        let ids2 = ids_of(plan2);
        if m.last().topics.contains(topic) {
            assert forall|a: int, b: int|
                0 <= a < ids.len() && 0 <= b < ids.len() && a != b implies ids[a] != ids[b] by {
                let lo = if a < b { a } else { b };
                let hi = if a < b { b } else { a };
                if hi < ids2.len() {
                    assert(ids[lo] == ids2[lo] && ids[hi] == ids2[hi]);
                } else {
                    assert(plan[lo] == plan2[lo]);
                    let j = choose|j: int|
                        0 <= j < m2.len() && m2[j].id == plan2[lo].id && m2[j].topics.contains(
                            topic,
                        ) && plan2[lo].message == delivery_view(header, body, topic, m2[j].protocol);
                    assert(m[j].id != m[m.len() - 1].id);
                    assert(ids[hi] == m.last().id);
                    assert(ids[lo] == m[j].id);
                }
            }
        } else {
            assert(ids =~= ids2);
        }
    }
}

/// Law: delivery is at most once per message and subscriber. Whatever subset
/// of a forward's plan the mailboxes accept — and a forward's outcome is
/// always some mask of its plan — no identity appears in it twice.
pub proof fn law_at_most_once_delivery(
    m: Seq<EntryView>,
    topic: Seq<char>,
    header: Seq<u8>,
    body: Seq<Seq<u8>>,
    keep: Seq<bool>,
)
    requires
        distinct_ids(m),
        keep.len() == fanout_view(m, topic, header, body).len(),
    ensures
        masked(ids_of(fanout_view(m, topic, header, body)), keep).no_duplicates(),
{
    lemma_fanout_at_most_once(m, topic, header, body);
    lemma_masked_no_duplicates(ids_of(fanout_view(m, topic, header, body)), keep);
}

/// Law: subscribing a mailbox to a descriptor and then forwarding a message
/// tagged with that descriptor addresses exactly one delivery to that
/// mailbox, carrying the full header and body and framed by the policy
/// stored for the mailbox. Whether the mailbox then accepts the delivery is
/// its own affair: a closed mailbox receives nothing.
pub proof fn law_subscribe_then_forward(
    m: Seq<EntryView>,
    id: u64,
    protocol: Protocol,
    topic: Seq<char>,
    header: Seq<u8>,
    body: Seq<Seq<u8>>,
)
    requires
        distinct_ids(m),
    ensures
        ({
            let plan = fanout_view(registered(m, id, protocol, topic), topic, header, body);
            &&& ids_of(plan).contains(id)
            &&& ids_of(plan).no_duplicates()
            &&& exists|q: int|
                0 <= q < plan.len() && (#[trigger] plan[q]).id == id && plan[q].message
                    == delivery_view(
                    header,
                    body,
                    topic,
                    protocol_of(registered(m, id, protocol, topic), id),
                )
        }),
{
    let out = registered(m, id, protocol, topic);
    lemma_registered_distinct(m, id, protocol, topic);
    lemma_registered_matches(m, id, protocol, topic);
    lemma_fanout_exact(out, topic, header, body);
    lemma_fanout_at_most_once(out, topic, header, body);
    let plan = fanout_view(out, topic, header, body);
    let j = choose|j: int| 0 <= j < out.len() && (#[trigger] out[j]).id == id && out[j].topics.contains(topic);
    assert(ids_of(plan).contains(out[j].id));
    let q = choose|q: int| 0 <= q < ids_of(plan).len() && ids_of(plan)[q] == id;
    assert(plan[q].id == id);
    let j2 = choose|j2: int|
        0 <= j2 < out.len() && out[j2].id == plan[q].id && out[j2].topics.contains(topic)
            && plan[q].message == delivery_view(header, body, topic, out[j2].protocol);
    crate::table::lemma_id_index_is(out, id, j2);
    assert(plan[q].message == delivery_view(header, body, topic, protocol_of(out, id)));
}

/// Law: after unsubscribing a mailbox from everything, no descriptor matches
/// it any more — whatever sequence of subscribes and unsubscribes came
/// before — so no forward plans a delivery to it.
pub proof fn law_unsubscribe_all(
    m: Seq<EntryView>,
    id: u64,
    topic: Seq<char>,
    header: Seq<u8>,
    body: Seq<Seq<u8>>,
)
    requires
        distinct_ids(m),
    ensures
        !entry_matches(deregistered_all(m, id), topic, id),
        !ids_of(fanout_view(deregistered_all(m, id), topic, header, body)).contains(id),
{
    let out = deregistered_all(m, id);
    if has_id(m, id) {
        let j = id_index(m, id);
        assert forall|k: int| 0 <= k < out.len() implies (#[trigger] out[k]).id != id by {
            if k < j {
                assert(out[k] == m[k]);
            } else {
                assert(out[k] == m[k + 1]);
            }
        }
    } else {
        assert forall|k: int| 0 <= k < out.len() implies (#[trigger] out[k]).id != id by {
            assert(out[k] == m[k]);
        }
    }
    lemma_fanout_exact(out, topic, header, body);
    let plan = fanout_view(out, topic, header, body);
    if ids_of(plan).contains(id) {
        let q = choose|q: int| 0 <= q < ids_of(plan).len() && ids_of(plan)[q] == id;
        assert(plan[q].id == id);
    }
}

/// Removing a topic really removes it: the remaining list never contains it,
/// however many times it occurred.
pub proof fn lemma_drop_topic_gone(ts: Seq<Seq<char>>, topic: Seq<char>)
    ensures
        !drop_topic(ts, topic).contains(topic),
    decreases ts.len(),
{
    reveal(Seq::filter);
    if ts.len() == 0 {
    } else {
        let s2 = ts.drop_last();
        lemma_drop_topic_gone(s2, topic);
        let out = drop_topic(ts, topic);
        let out2 = drop_topic(s2, topic);
        if ts.last() != topic {
            assert(out == out2.push(ts.last()));
            if out.contains(topic) {
                let w = choose|w: int| 0 <= w < out.len() && out[w] == topic;
                if w < out2.len() {
                    assert(out2[w] == topic);
                    assert(out2.contains(topic));
                } else {
                    assert(out[w] == ts.last());
                }
            }
        } else {
            assert(out == out2);
        }
    }
}

/// Removing a topic that was never subscribed changes nothing.
pub proof fn lemma_drop_topic_absent(ts: Seq<Seq<char>>, topic: Seq<char>)
    requires
        !ts.contains(topic),
    ensures
        drop_topic(ts, topic) == ts,
    decreases ts.len(),
{
    reveal(Seq::filter);
    if ts.len() == 0 {
        assert(drop_topic(ts, topic) =~= ts);
    } else {
        let s2 = ts.drop_last();
        assert(!s2.contains(topic)) by {
            if s2.contains(topic) {
                let w = choose|w: int| 0 <= w < s2.len() && s2[w] == topic;
                assert(ts[w] == topic);
                assert(ts.contains(topic));
            }
        }
        lemma_drop_topic_absent(s2, topic);
        assert(ts.last() != topic) by {
            if ts.last() == topic {
                assert(ts[ts.len() - 1] == topic);
                assert(ts.contains(topic));
            }
        }
        assert(drop_topic(ts, topic) == drop_topic(s2, topic).push(ts.last()));
        assert(s2.push(ts.last()) =~= ts);
    }
}

/// Law: one unsubscribe removes every occurrence of the descriptor from the
/// mailbox's entry, duplicate subscriptions included, so the mailbox no
/// longer matches that descriptor.
pub proof fn law_unsubscribe_removes_duplicates(m: Seq<EntryView>, id: u64, topic: Seq<char>)
    requires
        distinct_ids(m),
    ensures
        !entry_matches(deregistered(m, id, topic), topic, id),
{
    let out = deregistered(m, id, topic);
    if has_id(m, id) {
        let j = id_index(m, id);
        assert forall|k: int| 0 <= k < out.len() implies !((#[trigger] out[k]).id == id
            && out[k].topics.contains(topic)) by {
            if k == j {
                lemma_drop_topic_gone(m[j].topics, topic);
            } else {
                assert(out[k] == m[k]);
                assert(m[k].id != m[j].id);
            }
        }
    } else {
        assert(out == m);
        assert forall|k: int| 0 <= k < out.len() implies (#[trigger] out[k]).id != id by {}
    }
}

/// Law: the delivery policy of a mailbox identity is fixed by its first
/// registration; registering it again under another policy changes nothing,
/// and every later forward to it — on the old descriptor or the new one — is
/// framed by the first policy.
pub proof fn law_policy_fixed_at_first_registration(
    m: Seq<EntryView>,
    id: u64,
    first: Protocol,
    later: Protocol,
    topic1: Seq<char>,
    topic2: Seq<char>,
    header: Seq<u8>,
    body: Seq<Seq<u8>>,
)
    requires
        distinct_ids(m),
        !has_id(m, id),
    ensures
        ({
            let once = registered(m, id, first, topic1);
            let twice = registered(once, id, later, topic2);
            &&& protocol_of(twice, id) == first
            &&& forall|q: int, t: Seq<char>|
                0 <= q < fanout_view(twice, t, header, body).len() && (#[trigger] fanout_view(
                    twice,
                    t,
                    header,
                    body,
                )[q]).id == id ==> fanout_view(twice, t, header, body)[q].message == delivery_view(
                    header,
                    body,
                    t,
                    first,
                )
        }),
{
    let once = registered(m, id, first, topic1);
    let twice = registered(once, id, later, topic2);
    lemma_registered_distinct(m, id, first, topic1);
    lemma_registered_distinct(once, id, later, topic2);
    let j1 = m.len() as int;
    assert(once[j1].id == id && once[j1].protocol == first);
    crate::table::lemma_id_index_is(once, id, j1);
    assert(twice[j1].id == id && twice[j1].protocol == first);
    crate::table::lemma_id_index_is(twice, id, j1);
    assert(protocol_of(twice, id) == first);
    assert forall|q: int, t: Seq<char>|
        0 <= q < fanout_view(twice, t, header, body).len() && (#[trigger] fanout_view(
            twice,
            t,
            header,
            body,
        )[q]).id == id implies fanout_view(twice, t, header, body)[q].message == delivery_view(
        header,
        body,
        t,
        first,
    ) by {
        let plan = fanout_view(twice, t, header, body);
        if 0 <= q < plan.len() && plan[q].id == id {
            lemma_fanout_exact(twice, t, header, body);
            let j = choose|j: int|
                0 <= j < twice.len() && twice[j].id == plan[q].id && twice[j].topics.contains(t)
                    && plan[q].message == delivery_view(header, body, t, twice[j].protocol);
            crate::table::lemma_id_index_is(twice, id, j);
            assert(j == j1);
        }
    }
}

/// Law: forwarding to a descriptor with no matching subscriber plans nothing,
/// so the forward is a no-op that completes without error.
pub proof fn law_forward_unmatched(
    m: Seq<EntryView>,
    topic: Seq<char>,
    header: Seq<u8>,
    body: Seq<Seq<u8>>,
)
    requires
        forall|j: int| 0 <= j < m.len() ==> !(#[trigger] m[j]).topics.contains(topic),
    ensures
        fanout_view(m, topic, header, body) == Seq::<DeliveryView>::empty(),
    decreases m.len(),
{
    if m.len() == 0 {
    } else {
        let m2 = m.drop_last();
        assert forall|j: int| 0 <= j < m2.len() implies !(#[trigger] m2[j]).topics.contains(
            topic,
        ) by {
            assert(m2[j] == m[j]);
        }
        law_forward_unmatched(m2, topic, header, body);
        assert(!m.last().topics.contains(topic));
    }
}

/// Law: unsubscribing a mailbox from a descriptor it was never subscribed to
/// is a no-op, not an error — whether the mailbox has an entry or not.
pub proof fn law_unsubscribe_idempotent(m: Seq<EntryView>, id: u64, topic: Seq<char>)
    requires
        distinct_ids(m),
        !entry_matches(m, topic, id),
    ensures
        deregistered(m, id, topic) == m,
{
    if has_id(m, id) {
        let j = id_index(m, id);
        assert(!m[j].topics.contains(topic));
        lemma_drop_topic_absent(m[j].topics, topic);
        let replaced = EntryView {
            id: m[j].id,
            protocol: m[j].protocol,
            topics: drop_topic(m[j].topics, topic),
        };
        assert(replaced =~~= m[j]);
        assert(deregistered(m, id, topic) == m.update(j, replaced));
        assert(m.update(j, replaced) =~~= m);
    }
}

} // verus!

