use hermes::link::{
    count_accepted, offer_byte, store_dequeued, transfer_len, ChannelLink, FeedOutcome, Link,
    LinkError, LookAhead, PendingWrite, VecLink, WriteStep, LOOK_AHEAD,
};
use hermes::packet::{Message as PacketMessage, Packet};
use hermes::{Id, Message};
use heapless::spsc::Queue;
use postcard::accumulator::{CobsAccumulator, FeedResult};

/// Test that channel link can correctly send and receive bytes.
#[test]
fn test_channel_link() {
    let mut buffer_1 = Queue::<u8, 129>::new();
    let mut buffer_2 = Queue::<u8, 129>::new();

    let (mut link_1, mut link_2) = ChannelLink::new(&mut buffer_1, &mut buffer_2);

    let written = link_1.write(&[2; 128]).unwrap();

    assert_eq!(written, 128);

    let mut buf = [0; 128];
    link_2.read(&mut buf).unwrap();

    assert_eq!(buf, [2; 128]);
}

#[test]
fn channel_link_blocks_when_empty_and_when_full() {
    let mut buffer_1 = Queue::<u8, 5>::new();
    let mut buffer_2 = Queue::<u8, 5>::new();
    let (mut link_1, mut link_2) = ChannelLink::new(&mut buffer_1, &mut buffer_2);

    let mut buf = [0u8; 8];
    assert_eq!(link_2.read(&mut buf), Err(LinkError::WouldBlock));

    // capacity of a queue of 5 slots is 4 bytes
    assert_eq!(link_1.write(&[1, 2, 3, 4, 5, 6]), Ok(4));
    assert_eq!(link_1.write(&[7]), Err(LinkError::WouldBlock));

    assert_eq!(link_2.read(&mut buf), Ok(4));
    assert_eq!(&buf[..4], &[1, 2, 3, 4]);
    assert_eq!(&buf[4..], &[0, 0, 0, 0]);

    // and the other direction
    assert_eq!(link_2.write(&[9, 8]), Ok(2));
    let mut small = [0u8; 1];
    assert_eq!(link_1.read(&mut small), Ok(1));
    assert_eq!(small, [9]);
    assert_eq!(link_1.read(&mut small), Ok(1));
    assert_eq!(small, [8]);
}

#[test]
fn transfer_len_is_the_smaller_amount() {
    assert_eq!(transfer_len(5, 3), Ok(3));
    assert_eq!(transfer_len(2, 7), Ok(2));
    assert_eq!(transfer_len(0, 7), Err(LinkError::WouldBlock));
    assert_eq!(transfer_len(4, 0), Err(LinkError::WouldBlock));
}

#[test]
fn vec_link_reads_back_what_was_written_in_order() {
    let mut link = VecLink::<4>::new();
    assert_eq!(link.capacity(), 4);
    assert_eq!(link.write(&[1, 2, 3]), Ok(3));
    assert_eq!(link.write(&[4, 5, 6]), Ok(1));
    assert_eq!(link.write(&[7]), Err(LinkError::WouldBlock));
    assert_eq!(link.as_slice(), &[1, 2, 3, 4]);

    let mut out = [9u8; 3];
    assert_eq!(link.read(&mut out[..2]), Ok(2));
    assert_eq!(out, [1, 2, 9]);
    assert_eq!(link.len(), 2);
    assert_eq!(link.as_slice(), &[3, 4]);

    assert_eq!(link.read(&mut out), Ok(2));
    assert_eq!(out, [3, 4, 9]);
    assert_eq!(link.read(&mut out), Err(LinkError::WouldBlock));
    assert_eq!(link.write(&[]), Err(LinkError::WouldBlock));
}

#[test]
fn look_ahead_keeps_the_unconsumed_tail() {
    let mut window = LookAhead::new();
    assert_eq!(window.pending_len(), 0);
    assert_eq!(window.space(), LOOK_AHEAD);

    // nothing read and nothing waiting: the read would block
    let chunk = [0u8; LOOK_AHEAD];
    assert_eq!(window.receive(&chunk, Err(LinkError::WouldBlock)), Err(LinkError::WouldBlock));
    assert_eq!(window.receive(&chunk, Err(LinkError::Other)), Err(LinkError::Other));

    let mut chunk = [0u8; LOOK_AHEAD];
    chunk[..5].copy_from_slice(&[10, 11, 0, 12, 13]);
    assert_eq!(window.receive(&chunk, Ok(5)), Ok(5));
    assert_eq!(window.filled(5), &[10, 11, 0, 12, 13]);

    // the decoder finished a frame at the zero and left two bytes
    window.settle(5, FeedOutcome::Success { remaining: 2 });
    assert_eq!(window.pending_len(), 2);
    assert_eq!(window.space(), LOOK_AHEAD - 2);
    assert_eq!(window.filled(4), &[12, 13, 0, 0]);

    // a blocked link leaves the waiting bytes to be fed again
    assert_eq!(window.receive(&chunk, Err(LinkError::WouldBlock)), Ok(2));

    let mut next = [0u8; LOOK_AHEAD];
    next[..1].copy_from_slice(&[14]);
    assert_eq!(window.receive(&next, Ok(1)), Ok(3));
    assert_eq!(window.filled(3), &[12, 13, 14]);

    window.settle(3, FeedOutcome::Consumed);
    assert_eq!(window.pending_len(), 0);
}

#[test]
fn look_ahead_errors_keep_their_tail_too() {
    let mut window = LookAhead::new();
    let mut chunk = [0u8; LOOK_AHEAD];
    chunk[..4].copy_from_slice(&[1, 2, 3, 4]);
    assert_eq!(window.receive(&chunk, Ok(4)), Ok(4));
    window.settle(4, FeedOutcome::DeserError { remaining: 1 });
    assert_eq!(window.filled(2), &[4, 0]);
    assert_eq!(window.receive(&chunk, Ok(4)), Ok(5));
    window.settle(5, FeedOutcome::OverFull { remaining: 0 });
    assert_eq!(window.pending_len(), 0);
    assert_eq!(window.filled(3), &[0, 0, 0]);
}

#[test]
fn pending_write_steps() {
    let mut write = PendingWrite::new(vec![1, 2, 3, 4]);
    assert!(!write.is_complete());
    assert_eq!(write.remaining(), &[1, 2, 3, 4]);
    let step = write.on_write(Err(LinkError::WouldBlock));
    assert_eq!(step, WriteStep::Blocked);
    assert!(step.wants_wake());
    let step = write.on_write(Ok(3));
    assert_eq!(step, WriteStep::Partial);
    assert!(step.wants_wake());
    assert_eq!(write.remaining(), &[4]);
    // the attempt that takes the last byte completes the write
    let step = write.on_write(Ok(1));
    assert_eq!(step, WriteStep::Complete);
    assert!(!step.wants_wake());
    assert!(write.is_complete());
    assert_eq!(write.remaining(), &[] as &[u8]);

    let mut whole = PendingWrite::new(vec![7, 8]);
    assert_eq!(whole.on_write(Ok(2)), WriteStep::Complete);

    let mut nothing_taken = PendingWrite::new(vec![7, 8]);
    assert_eq!(nothing_taken.on_write(Ok(0)), WriteStep::Partial);
    assert_eq!(nothing_taken.remaining(), &[7, 8]);

    let mut failing = PendingWrite::new(vec![7, 8]);
    let step = failing.on_write(Err(LinkError::Other));
    assert_eq!(step, WriteStep::Failed);
    assert!(!step.wants_wake());
    assert!(!failing.is_complete());

    let empty = PendingWrite::empty();
    assert!(empty.is_complete());
}

#[test]
fn channel_link_steps() {
    let mut buf = [0u8; 3];
    assert_eq!(store_dequeued(&mut buf, 1, Some(9)), Some(2));
    assert_eq!(buf, [0, 9, 0]);
    assert_eq!(store_dequeued(&mut buf, 2, None), None);
    assert_eq!(buf, [0, 9, 0]);

    assert_eq!(count_accepted(4, Ok(())), Some(5));
    assert_eq!(count_accepted(4, Err(7)), None);

    let mut queue = Queue::<u8, 3>::new();
    let (mut tx, mut rx) = queue.split();
    let data = [5u8, 6, 7];
    assert_eq!(offer_byte(&mut tx, &data, 0), Ok(()));
    assert_eq!(offer_byte(&mut tx, &data, 1), Ok(()));
    assert_eq!(offer_byte(&mut tx, &data, 2), Err(7));
    assert_eq!(rx.dequeue(), Some(5));
}

/// Postcard frame of a packet from node `origin` publishing `data` on topic
/// `topic`, built from plain values laid out as the packet is.
fn frame(origin: u16, topic: u16, data: &[u8]) -> Vec<u8> {
    let mut raw = [0u8; 300];
    let bytes =
        postcard::to_slice_cobs(&(0u32, origin, 0u32, topic, data), &mut raw).unwrap();
    bytes.to_vec()
}

/// Check that a stream of frames on a vector link is cut back into the
/// same frames, in order, through the look-ahead window.
#[test]
fn vec_link_frames_accumulate_in_order() {
    let payloads: [(u16, u16, Vec<u8>); 3] = [
        (1, 1, vec![2; 128]),
        (7, 0, vec![0, 0, 0, 0]),
        (7, 0, vec![2, 4, 6, 8]),
    ];
    let mut link = VecLink::<1024>::new();
    for (origin, topic, data) in payloads.iter() {
        let f = frame(*origin, *topic, data);
        assert_eq!(link.write(&f), Ok(f.len()));
    }

    let mut window = LookAhead::new();
    let mut accumulator: CobsAccumulator<256> = CobsAccumulator::new();
    let mut seen = Vec::new();
    for _ in 0..100 {
        let mut chunk = [0u8; LOOK_AHEAD];
        let space = window.space();
        let read = link.read(&mut chunk[..space]);
        let bytes = match window.receive(&chunk[..space], read) {
            Ok(b) => b,
            Err(_) => break,
        };
        let fed = window.filled(bytes).to_vec();
        let outcome = match accumulator.feed_ref::<(u32, u16, u32, u16, &[u8])>(&fed) {
            FeedResult::Consumed => FeedOutcome::Consumed,
            FeedResult::OverFull(rem) => FeedOutcome::OverFull { remaining: rem.len() },
            FeedResult::DeserError(rem) => FeedOutcome::DeserError { remaining: rem.len() },
            FeedResult::Success { data, remaining } => {
                seen.push((data.1, data.3, data.4.to_vec()));
                FeedOutcome::Success { remaining: remaining.len() }
            }
        };
        window.settle(bytes, outcome);
    }
    assert_eq!(seen.len(), 3);
    for (i, (origin, topic, data)) in payloads.iter().enumerate() {
        assert_eq!(seen[i], (*origin, *topic, data.clone()));
    }
}

/// The packets of the original accumulation scenario.
fn test_packets(big: &[u8; 128]) -> [Packet<'_>; 3] {
    [
        Packet {
            origin: Id::Id(1),
            message: PacketMessage::Publish(Message { id: 1, data: big }),
        },
        Packet {
            origin: Id::Anonymous,
            message: PacketMessage::Publish(Message {
                id: 0,
                data: &[0, 0, 0, 0],
            }),
        },
        Packet {
            origin: Id::Anonymous,
            message: PacketMessage::Publish(Message {
                id: 0,
                data: &[2, 4, 6, 8],
            }),
        },
    ]
}

/// Postcard COBS frame of a packet, laid out field by field as a packet is
/// (enum variants as their index).
fn packet_frame(packet: &Packet) -> Vec<u8> {
    let mut raw = [0u8; 300];
    let PacketMessage::Publish(m) = packet.message;
    let bytes = match packet.origin {
        Id::Id(v) => postcard::to_slice_cobs(&(0u32, v, 0u32, m.id, m.data), &mut raw),
        Id::Anonymous => postcard::to_slice_cobs(&(1u32, 0u32, m.id, m.data), &mut raw),
    }
    .unwrap();
    bytes.to_vec()
}

/// A decoded packet, owning its payload.
#[derive(Debug, PartialEq)]
struct Decoded {
    origin: Id,
    topic: u16,
    data: Vec<u8>,
}

struct DecodedVisitor;

impl<'de> serde::de::Visitor<'de> for DecodedVisitor {
    type Value = Decoded;

    fn expecting(&self, f: &mut std::fmt::Formatter) -> std::fmt::Result {
        f.write_str("a packet")
    }

    fn visit_seq<A: serde::de::SeqAccess<'de>>(self, mut seq: A) -> Result<Decoded, A::Error> {
        let missing = || serde::de::Error::custom("short packet");
        let origin = match seq.next_element::<u32>()?.ok_or_else(missing)? {
            0 => Id::Id(seq.next_element::<u16>()?.ok_or_else(missing)?),
            1 => Id::Anonymous,
            _ => return Err(serde::de::Error::custom("bad origin")),
        };
        let variant = seq.next_element::<u32>()?.ok_or_else(missing)?;
        if variant != 0 {
            return Err(serde::de::Error::custom("bad message"));
        }
        let topic = seq.next_element::<u16>()?.ok_or_else(missing)?;
        let data = seq.next_element::<&'de [u8]>()?.ok_or_else(missing)?;
        Ok(Decoded {
            origin,
            topic,
            data: data.to_vec(),
        })
    }
}

impl<'de> serde::Deserialize<'de> for Decoded {
    fn deserialize<D: serde::Deserializer<'de>>(d: D) -> Result<Decoded, D::Error> {
        d.deserialize_tuple(5, DecodedVisitor)
    }
}

/// Check that the internal accumulator can correctly handle receiving a stream of bytes
/// and decode it into corresponding packets.
#[test]
fn test_link_accumulation() {
    let big = [2u8; 128];
    let packets = test_packets(&big);
    let mut buffer = VecLink::<1024>::new();

    for packet in packets.iter() {
        let f = packet_frame(packet);
        assert_eq!(buffer.write(&f), Ok(f.len()));
    }

    let mut window = LookAhead::new();
    let mut accumulator: CobsAccumulator<256> = CobsAccumulator::new();
    let mut idx = 0;

    for _ in 0..100 {
        let mut chunk = [0u8; LOOK_AHEAD];
        let space = window.space();
        let read = buffer.read(&mut chunk[..space]);
        let bytes = match window.receive(&chunk[..space], read) {
            Ok(b) => b,
            Err(_) => {
                if idx == 3 {
                    break;
                }
                continue;
            }
        };
        let fed = window.filled(bytes).to_vec();
        let outcome = match accumulator.feed_ref::<Decoded>(&fed) {
            FeedResult::Consumed => FeedOutcome::Consumed,
            FeedResult::OverFull(rem) => FeedOutcome::OverFull { remaining: rem.len() },
            FeedResult::DeserError(rem) => FeedOutcome::DeserError { remaining: rem.len() },
            FeedResult::Success { data, remaining } => {
                let PacketMessage::Publish(m) = packets[idx].message;
                let got = Packet {
                    origin: data.origin,
                    message: PacketMessage::Publish(Message {
                        id: data.topic,
                        data: &data.data,
                    }),
                };
                assert_eq!(got, packets[idx]);
                assert_eq!(data.data, m.data.to_vec());
                idx += 1;
                FeedOutcome::Success { remaining: remaining.len() }
            }
        };
        window.settle(bytes, outcome);
    }
    assert_eq!(idx, 3);
}
