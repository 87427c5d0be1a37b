use hermes::node::{
    indices, on_received, poll_order, publish_packet, publish_targets, should_stop, Id,
};
use hermes::packet::{Message as PacketMessage, Packet};
use hermes::Message;

#[test]
fn id_from_conversions() {
    assert_eq!(Id::from(5u16), Id::Id(5));
    assert_eq!(Id::from(Some(6u16)), Id::Id(6));
    assert_eq!(Id::from(None::<u16>), Id::Anonymous);
    let id: Id = 7u16.into();
    assert_eq!(id, Id::Id(7));
    assert_ne!(Id::Id(0), Id::Anonymous);
}

#[test]
fn publish_skips_the_excepted_links() {
    assert_eq!(publish_targets(3, &[]), vec![true, true, true]);
    assert_eq!(publish_targets(3, &[1]), vec![true, false, true]);
    assert_eq!(publish_targets(4, &[0, 3, 9]), vec![false, true, true, false]);
    assert_eq!(publish_targets(0, &[0]), Vec::<bool>::new());
}

#[test]
fn forwarding_goes_everywhere_but_the_source() {
    let targets = publish_targets(2, &[0]);
    assert_eq!(targets, vec![false, true]);
}

#[test]
fn indices_count_up() {
    assert_eq!(indices(4), vec![0, 1, 2, 3]);
    assert_eq!(indices(0), Vec::<usize>::new());
}

#[test]
fn poll_order_visits_every_link_once() {
    let mut rng = fastrand::Rng::with_seed(8);
    for n in 0..10 {
        let mut order = poll_order(&mut rng, n);
        assert_eq!(order.len(), n);
        order.sort();
        assert_eq!(order, indices(n));
    }
}

#[test]
fn received_messages_are_forwarded_as_own() {
    let forward = on_received(Id::Id(6), 3, 1, 2, 4);
    assert_eq!(forward.origin, Id::Id(6));
    assert_eq!(forward.topic, 2);
    assert_eq!(forward.targets, vec![true, false, true]);

    let data = [1u8, 2];
    let packet = publish_packet(forward.origin, Message { id: forward.topic, data: &data });
    assert_eq!(
        packet,
        Packet {
            origin: Id::Id(6),
            message: PacketMessage::Publish(Message { id: 2, data: &[1, 2] }),
        }
    );
}

#[test]
fn a_cancelled_node_stops() {
    assert!(should_stop(true));
    assert!(!should_stop(false));
}
