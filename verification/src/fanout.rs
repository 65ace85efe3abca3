//! Fan-out of one forwarded message to every matched subscriber.

use vstd::prelude::*;
use crate::mailbox::Mailbox;
use crate::message::{delivery_view, Message, MessageView};
use crate::table::EntryView;

verus! {

/// One planned delivery: a handle to the matched subscriber's mailbox and
/// the subscriber-specific copy of the forwarded message.
pub struct Delivery {
    pub mailbox: Mailbox,
    pub message: Message,
}

/// The mathematical value of a planned delivery.
#[verifier::ext_equal]
pub ghost struct DeliveryView {
    pub id: u64,
    pub message: MessageView,
}

impl DeepView for Delivery {
    type V = DeliveryView;

    open spec fn deep_view(&self) -> DeliveryView {
        DeliveryView { id: self.mailbox@, message: self.message@ }
    }
}

/// The deliveries owed for forwarding a message with `header` and `body` to
/// `topic`: one per entry whose topic list contains `topic`, in table order,
/// each framed by the entry's own policy.
pub open spec fn fanout_view(
    m: Seq<EntryView>,
    topic: Seq<char>,
    header: Seq<u8>,
    body: Seq<Seq<u8>>,
) -> Seq<DeliveryView>
    decreases m.len(),
{
    if m.len() == 0 {
        Seq::empty()
    } else {
        let rest = fanout_view(m.drop_last(), topic, header, body);
        if m.last().topics.contains(topic) {
            rest.push(
                DeliveryView {
                    id: m.last().id,
                    message: delivery_view(header, body, topic, m.last().protocol),
                },
            )
        } else {
            rest
        }
    }
}

/// The mailbox identities of a delivery plan, in plan order.
pub open spec fn ids_of(plan: Seq<DeliveryView>) -> Seq<u64> {
    plan.map_values(|d: DeliveryView| d.id)
}

/// The subsequence of `s` selected by the mask `keep`.
pub open spec fn masked<T>(s: Seq<T>, keep: Seq<bool>) -> Seq<T>
    recommends
        keep.len() == s.len(),
    decreases s.len(),
{
    if s.len() == 0 {
        Seq::empty()
    } else {
        let rest = masked(s.drop_last(), keep.drop_last());
        if keep.len() == s.len() && keep.last() {
            rest.push(s.last())
        } else {
            rest
        }
    }
}

/// Extending a masked sequence by one element keeps or drops that element as
/// its mask bit says.
pub proof fn lemma_masked_push<T>(s: Seq<T>, keep: Seq<bool>, x: T, b: bool)
    requires
        keep.len() == s.len(),
    ensures
        masked(s.push(x), keep.push(b)) == if b {
            masked(s, keep).push(x)
        } else {
            masked(s, keep)
        },
{
    assert(s.push(x).drop_last() =~= s);
    assert(keep.push(b).drop_last() =~= keep);
}

/// A mask keeps a duplicate-free sequence duplicate-free, and invents no
/// element.
pub proof fn lemma_masked_no_duplicates<T>(s: Seq<T>, keep: Seq<bool>)
    requires
        keep.len() == s.len(),
        s.no_duplicates(),
    ensures
        masked(s, keep).no_duplicates(),
        forall|q: int| 0 <= q < masked(s, keep).len() ==> s.contains(#[trigger] masked(s, keep)[q]),
    decreases s.len(),
{
    if s.len() == 0 {
    } else {
        let s2 = s.drop_last();
        let k2 = keep.drop_last();
        assert(s2.no_duplicates());
        lemma_masked_no_duplicates(s2, k2);
        let out2 = masked(s2, k2);
        let out = masked(s, keep);
        assert forall|q: int| 0 <= q < out2.len() implies s.contains(out2[q]) by {
            assert(s2.contains(out2[q]));
            let j = choose|j: int| 0 <= j < s2.len() && s2[j] == out2[q];
            assert(s[j] == out2[q]);
        }
        if keep.last() {
            assert(out =~= out2.push(s.last()));
            assert(s[s.len() - 1] == s.last());
            assert forall|a: int, b: int|
                0 <= a < out.len() && 0 <= b < out.len() && a != b implies out[a] != out[b] by {
                let lo = if a < b { a } else { b };
                let hi = if a < b { b } else { a };
                if hi < out2.len() {
                    assert(out2[lo] != out2[hi]);
                } else {
                    assert(s2.contains(out[lo]));
                    let j = choose|j: int| 0 <= j < s2.len() && s2[j] == out[lo];
                    assert(s[j] != s[s.len() - 1]);
                }
            }
        } else {
            assert(out =~= out2);
        }
    }
}

/// Extending the table by one entry appends that entry's delivery to the
/// plan exactly when the entry matches the topic.
pub proof fn lemma_fanout_push(
    m: Seq<EntryView>,
    e: EntryView,
    topic: Seq<char>,
    header: Seq<u8>,
    body: Seq<Seq<u8>>,
)
    ensures
        fanout_view(m.push(e), topic, header, body) == if e.topics.contains(topic) {
            fanout_view(m, topic, header, body).push(
                DeliveryView { id: e.id, message: delivery_view(header, body, topic, e.protocol) },
            )
        } else {
            fanout_view(m, topic, header, body)
        },
{
    assert(m.push(e).drop_last() =~= m);
}

/// Attempts every delivery of a plan, in order, and reports the identities of
/// the mailboxes that accepted. A mailbox that is closed or full is skipped
/// silently: no retry, no error, and the other deliveries go on unaffected.
/// Which attempts succeed depends on the subscribers, so the result is some
/// mask of the planned identities — each attempted at most once.
pub fn dispatch(plan: Vec<Delivery>) -> (delivered: Vec<u64>)
    ensures
        exists|keep: Seq<bool>|
            keep.len() == plan.deep_view().len() && delivered@ == masked(
                ids_of(plan.deep_view()),
                keep,
            ),
{
    let ghost orig = plan.deep_view();
    let mut rest = plan;
    let mut delivered: Vec<u64> = Vec::new();
    let ghost mut keep: Seq<bool> = Seq::empty();
    while rest.len() > 0
        invariant
            keep.len() + rest@.len() == orig.len(),
            forall|q: int|
                0 <= q < rest@.len() ==> (#[trigger] rest@[q]).deep_view() == orig[keep.len() + q],
            delivered@ == masked(ids_of(orig.subrange(0, keep.len() as int)), keep),
        decreases rest.len(),
    {
        let ghost p = keep.len() as int;
        let ghost before = rest@;
        let d = rest.remove(0);
        proof {
            before.remove_ensures(0);
            assert(d.deep_view() == orig[p]);
            assert forall|q: int|
                0 <= q < rest@.len() implies (#[trigger] rest@[q]).deep_view() == orig[p + 1
                + q] by {
                assert(rest@[q] == before[q + 1]);
                assert(before[q + 1].deep_view() == orig[p + (q + 1)]);
            }
        }
        let Delivery { mailbox, message } = d;
        proof {
            assert(mailbox@ == orig[p].id);
        }
        let ok = mailbox.try_send(message);
        if ok {
            delivered.push(mailbox.id());
        }
        proof {
            let shorter = orig.subrange(0, p);
            let longer = orig.subrange(0, p + 1);
            assert(longer =~= shorter.push(orig[p]));
            assert(ids_of(longer) =~= ids_of(shorter).push(orig[p].id));
            lemma_masked_push(ids_of(shorter), keep, orig[p].id, ok);
            keep = keep.push(ok);
        }
    }
    proof {
        assert(orig.subrange(0, keep.len() as int) =~= orig);
    }
    delivered
}

} // verus!
