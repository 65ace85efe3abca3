use std::sync::Arc;

use broker::{Actor, Broker, ChannelMap, Chunk, Descriptor, Mailbox, Message, Protocol};

fn descriptor(text: &str) -> Descriptor {
    Descriptor::new(text.to_string())
}

fn chunk(bytes: &[u8]) -> Chunk {
    Arc::new(bytes.to_vec())
}

fn message(header: &[u8], body: &[&[u8]]) -> Message {
    let chunks: Vec<Chunk> = body.iter().map(|b| chunk(b)).collect();
    Message::from_parts(header.to_vec(), None, chunks)
}

fn mailbox(
    id: u64,
    capacity: usize,
) -> (Mailbox, tokio::sync::mpsc::Receiver<Message>) {
    let (tx, rx) = tokio::sync::mpsc::channel(capacity);
    (Mailbox::new(id, tx), rx)
}

fn parts(m: Message) -> (Vec<u8>, Option<String>, Vec<Vec<u8>>) {
    let (header, topic, body) = m.into_parts();
    let topic = topic.map(|d| d.as_str().to_string());
    let body = body.into_iter().map(|c| (*c).clone()).collect();
    (header, topic, body)
}

#[test]
fn subscribe_then_forward_delivers_exactly_once() {
    let (m1, mut rx1) = mailbox(1, 4);
    let mut map = ChannelMap::new(8);
    map.insert(m1, Protocol::Naked, descriptor("/rooms/1"));

    let delivered = map.send(&descriptor("/rooms/1"), message(b"hdr", &[b"hi", b"there"]));
    assert_eq!(delivered, vec![1]);

    let (header, topic, body) = parts(rx1.try_recv().expect("one copy is delivered"));
    assert_eq!(header, b"hdr".to_vec());
    assert_eq!(topic, None);
    assert_eq!(body, vec![b"hi".to_vec(), b"there".to_vec()]);
    assert!(rx1.try_recv().is_err(), "no second copy may arrive");
}

#[test]
fn forward_to_closed_mailbox_delivers_nothing() {
    let (m1, rx1) = mailbox(1, 4);
    let mut map = ChannelMap::new(8);
    map.insert(m1, Protocol::Naked, descriptor("/rooms/1"));
    drop(rx1);

    let delivered = map.send(&descriptor("/rooms/1"), message(b"hdr", &[b"hi"]));
    assert_eq!(delivered, Vec::<u64>::new());
}

#[test]
fn unsubscribe_all_removes_every_subscription() {
    let (m1, mut rx1) = mailbox(1, 4);
    let mut map = ChannelMap::new(8);
    map.insert(m1.duplicate(), Protocol::Multiplexed, descriptor("/a"));
    map.insert(m1.duplicate(), Protocol::Multiplexed, descriptor("/b"));
    map.remove_value(m1.duplicate(), descriptor("/b"));
    map.insert(m1.duplicate(), Protocol::Multiplexed, descriptor("/c"));

    map.remove_key(m1);
    assert_eq!(map.len(), 0);

    for topic in ["/a", "/b", "/c"] {
        let delivered = map.send(&descriptor(topic), message(b"x", &[]));
        assert_eq!(delivered, Vec::<u64>::new());
    }
    assert!(rx1.try_recv().is_err());
}

#[test]
fn one_unsubscribe_removes_duplicate_subscriptions() {
    let (m1, mut rx1) = mailbox(1, 4);
    let mut map = ChannelMap::new(8);
    map.insert(m1.duplicate(), Protocol::Naked, descriptor("/dup"));
    map.insert(m1.duplicate(), Protocol::Naked, descriptor("/dup"));

    map.remove_value(m1, descriptor("/dup"));
    let delivered = map.send(&descriptor("/dup"), message(b"x", &[]));
    assert_eq!(delivered, Vec::<u64>::new());
    assert!(rx1.try_recv().is_err());
}

#[test]
fn delivery_policy_is_fixed_at_first_registration() {
    let (m1, mut rx1) = mailbox(1, 4);
    let mut map = ChannelMap::new(8);
    map.insert(m1.duplicate(), Protocol::Naked, descriptor("/d1"));
    map.insert(m1, Protocol::Multiplexed, descriptor("/d2"));

    map.send(&descriptor("/d1"), message(b"a", &[]));
    map.send(&descriptor("/d2"), message(b"b", &[]));

    let (_, topic, _) = parts(rx1.try_recv().unwrap());
    assert_eq!(topic, None, "first policy wins on the first descriptor");
    let (_, topic, _) = parts(rx1.try_recv().unwrap());
    assert_eq!(topic, None, "first policy wins on the second descriptor too");
}

#[test]
fn forward_without_matching_subscriber_is_a_noop() {
    let mut map = ChannelMap::new(8);
    let delivered = map.send(&descriptor("/nobody"), message(b"x", &[b"y"]));
    assert_eq!(delivered, Vec::<u64>::new());

    let (m1, mut rx1) = mailbox(1, 4);
    map.insert(m1, Protocol::Naked, descriptor("/elsewhere"));
    let delivered = map.send(&descriptor("/nobody"), message(b"x", &[b"y"]));
    assert_eq!(delivered, Vec::<u64>::new());
    assert!(rx1.try_recv().is_err());
}

#[test]
fn fanout_scenario_two_rooms() {
    let (m1, mut rx1) = mailbox(1, 4);
    let (m2, mut rx2) = mailbox(2, 4);
    let mut map = ChannelMap::new(8);
    map.insert(m1, Protocol::Naked, descriptor("/rooms/1"));
    map.insert(m2.duplicate(), Protocol::Multiplexed, descriptor("/rooms/1"));
    map.insert(m2, Protocol::Multiplexed, descriptor("/rooms/2"));

    let delivered = map.send(&descriptor("/rooms/1"), message(b"", &[b"hi"]));
    assert_eq!(delivered, vec![1, 2]);
    let (_, topic, body) = parts(rx1.try_recv().unwrap());
    assert_eq!(topic, None);
    assert_eq!(body, vec![b"hi".to_vec()]);
    let (_, topic, body) = parts(rx2.try_recv().unwrap());
    assert_eq!(topic, Some("/rooms/1".to_string()));
    assert_eq!(body, vec![b"hi".to_vec()]);

    let delivered = map.send(&descriptor("/rooms/2"), message(b"", &[b"hi"]));
    assert_eq!(delivered, vec![2]);
    assert!(rx1.try_recv().is_err(), "the naked subscriber hears nothing");
    let (_, topic, body) = parts(rx2.try_recv().unwrap());
    assert_eq!(topic, Some("/rooms/2".to_string()));
    assert_eq!(body, vec![b"hi".to_vec()]);
}

#[test]
fn closed_mailbox_is_skipped_and_later_purged() {
    let (m1, rx1) = mailbox(1, 4);
    let (m2, mut rx2) = mailbox(2, 4);
    let mut map = ChannelMap::new(8);
    map.insert(m1, Protocol::Naked, descriptor("/t"));
    map.insert(m2, Protocol::Naked, descriptor("/t"));
    assert_eq!(map.len(), 2);

    drop(rx1);
    let delivered = map.send(&descriptor("/t"), message(b"x", &[]));
    assert_eq!(delivered, vec![2], "the closed mailbox is skipped silently");
    rx2.try_recv().unwrap();

    map.cleanup();
    assert_eq!(map.len(), 1, "cleanup drops the closed entry");
    let delivered = map.send(&descriptor("/t"), message(b"y", &[]));
    assert_eq!(delivered, vec![2]);
}

#[test]
fn unsubscribe_without_subscription_is_a_noop() {
    let (m1, mut rx1) = mailbox(1, 4);
    let (m2, _rx2) = mailbox(2, 4);
    let mut map = ChannelMap::new(8);
    map.insert(m1.duplicate(), Protocol::Naked, descriptor("/t"));

    map.remove_value(m2.duplicate(), descriptor("/t"));
    map.remove_value(m1, descriptor("/never"));
    map.remove_key(m2);

    assert_eq!(map.len(), 1);
    let delivered = map.send(&descriptor("/t"), message(b"x", &[]));
    assert_eq!(delivered, vec![1]);
    rx1.try_recv().unwrap();
}

#[test]
fn full_mailbox_is_skipped_without_blocking() {
    let (m1, mut rx1) = mailbox(1, 1);
    let mut map = ChannelMap::new(8);
    map.insert(m1, Protocol::Naked, descriptor("/t"));

    assert_eq!(map.send(&descriptor("/t"), message(b"one", &[])), vec![1]);
    assert_eq!(
        map.send(&descriptor("/t"), message(b"two", &[])),
        Vec::<u64>::new(),
        "a full mailbox is skipped, no backpressure on the producer"
    );
    let (header, _, _) = parts(rx1.try_recv().unwrap());
    assert_eq!(header, b"one".to_vec());
    assert!(rx1.try_recv().is_err());
}

#[test]
fn actor_applies_commands_and_cleans_up_on_cadence() {
    let (m1, rx1) = mailbox(1, 4);
    let mut actor = Actor::new(8, 3);

    actor.handle(broker::Command::Register(descriptor("/t"), Protocol::Naked, m1));
    drop(rx1);
    let delivered = actor.handle(broker::Command::Forward(descriptor("/t"), message(b"x", &[])));
    assert_eq!(delivered, Vec::<u64>::new());
    // The third command reaches the cadence; the closed entry is purged with it.
    let (m2, mut rx2) = mailbox(2, 4);
    actor.handle(broker::Command::Register(descriptor("/t"), Protocol::Naked, m2));
    let delivered = actor.handle(broker::Command::Forward(descriptor("/t"), message(b"y", &[])));
    assert_eq!(delivered, vec![2]);
    rx2.try_recv().unwrap();
}

#[test]
fn broker_handle_feeds_the_actor_queue() {
    let (queue, mut commands) = Broker::new();
    let broker = Broker::from_queue(queue);
    let another = broker.duplicate();

    let (m1, mut rx1) = mailbox(1, 4);
    broker.subscribe(&descriptor("/t"), Protocol::Multiplexed, &m1);
    another.send_to(&descriptor("/t"), message(b"hdr", &[b"c1"]));
    broker.unsubscribe(&descriptor("/t"), &m1);
    broker.send(&descriptor("/t"), message(b"hdr", &[b"c2"]));
    broker.unsubscribe_all(&m1);

    let mut actor = Actor::new(8, 10);
    let mut rounds: Vec<Vec<u64>> = Vec::new();
    while let Ok(cmd) = commands.try_recv() {
        rounds.push(actor.handle(cmd));
    }
    assert_eq!(rounds.len(), 5, "all five requests arrive in order");
    assert_eq!(rounds[1], vec![1], "the forward before the unsubscribe lands");
    assert_eq!(rounds[3], Vec::<u64>::new(), "the forward after it does not");

    let (header, topic, body) = parts(rx1.try_recv().unwrap());
    assert_eq!(header, b"hdr".to_vec());
    assert_eq!(topic, Some("/t".to_string()));
    assert_eq!(body, vec![b"c1".to_vec()]);
    assert!(rx1.try_recv().is_err());
}

#[test]
fn message_parts_round_trip() {
    let m = Message::from_parts(
        b"head".to_vec(),
        Some(descriptor("/tag")),
        vec![chunk(b"c1"), chunk(b"c2")],
    );
    let (header, topic, body) = parts(m);
    assert_eq!(header, b"head".to_vec());
    assert_eq!(topic, Some("/tag".to_string()));
    assert_eq!(body, vec![b"c1".to_vec(), b"c2".to_vec()]);
}

#[test]
fn replication_shares_chunks_instead_of_copying() {
    let source = vec![chunk(b"payload")];
    let header = b"h".to_vec();
    let naked = broker::message::replicate(&header, &source, &descriptor("/t"), Protocol::Naked);
    let tagged = broker::message::replicate(
        &header,
        &source,
        &descriptor("/t"),
        Protocol::Multiplexed,
    );

    let (h, topic, body) = naked.into_parts();
    assert_eq!(h, b"h".to_vec());
    assert!(topic.is_none());
    assert!(Arc::ptr_eq(&body[0], &source[0]), "chunks are shared, not copied");

    let (_, topic, body) = tagged.into_parts();
    assert_eq!(topic.map(|d| d.as_str().to_string()), Some("/t".to_string()));
    assert!(Arc::ptr_eq(&body[0], &source[0]));
}

#[test]
fn descriptors_compare_by_their_text() {
    assert_eq!(descriptor("/rooms/1"), descriptor("/rooms/1"));
    assert!(descriptor("/rooms/1") != descriptor("/rooms/2"));
    let d = descriptor("/rooms/1");
    assert_eq!(d.duplicate(), d);
    assert_eq!(d.as_str(), "/rooms/1");
}

#[test]
fn mailboxes_compare_by_identity() {
    let (m1, _rx1) = mailbox(7, 2);
    let (m2, _rx2) = mailbox(8, 2);
    assert!(m1.same_channel(&m1.duplicate()));
    assert!(!m1.same_channel(&m2));
    assert_eq!(m1.id(), 7);
}

#[test]
fn mailbox_reports_closed_after_receiver_drops() {
    let (m1, rx1) = mailbox(1, 2);
    assert!(!m1.is_closed());
    drop(rx1);
    assert!(m1.is_closed());
}
