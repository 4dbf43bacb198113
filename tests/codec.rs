use cobalt_two::{next_message, InternalMessage, Message, MovingAverage};

#[derive(Debug, Clone, PartialEq)]
struct Text(String);

impl Message for Text {
    fn encode(&self) -> Option<Vec<u8>> {
        bincode::serialize(&self.0, bincode::Infinite).ok()
    }

    fn decode(bytes: &[u8]) -> Option<(Self, usize)> {
        let s: String = bincode::deserialize(bytes).ok()?;
        let n = bincode::serialized_size(&s) as usize;
        Some((Text(s), n))
    }
}

fn framed<T: Message>(tag: u8, m: &T) -> Vec<u8> {
    let mut out = vec![tag];
    out.extend(m.encode().unwrap());
    out
}

#[test]
fn ping_encodes_as_variant_tick_and_time() {
    let bytes = InternalMessage::Ping(3, 0x0102).encode().unwrap();
    assert_eq!(bytes, vec![0, 0, 0, 0, 3, 2, 1, 0, 0, 0, 0, 0, 0]);
}

#[test]
fn pong_encodes_as_variant_tick_and_two_times() {
    let bytes = InternalMessage::Pong(7, 1, 0x0a0b).encode().unwrap();
    assert_eq!(
        bytes,
        vec![1, 0, 0, 0, 7, 1, 0, 0, 0, 0, 0, 0, 0, 0x0b, 0x0a, 0, 0, 0, 0, 0, 0]
    );
}

#[test]
fn internal_messages_round_trip_with_trailing_bytes() {
    for m in [InternalMessage::Ping(255, u64::MAX), InternalMessage::Pong(0, 42, 99)] {
        let mut bytes = m.encode().unwrap();
        let len = bytes.len();
        bytes.extend([9, 9, 9]);
        assert_eq!(InternalMessage::decode(&bytes), Some((m, len)));
    }
}

#[test]
fn internal_decode_rejects_short_and_unknown_input() {
    assert_eq!(InternalMessage::decode(&[0, 0, 0]), None);
    assert_eq!(InternalMessage::decode(&[0, 0, 0, 0, 1, 2]), None);
    assert_eq!(InternalMessage::decode(&[2, 0, 0, 0, 1, 2, 3, 4, 5, 6, 7, 8, 9]), None);
}

#[test]
fn interleaved_frames_decode_in_order_across_calls() {
    let mut stream = Vec::new();
    stream.extend(framed(0, &InternalMessage::Ping(1, 10)));
    stream.extend(framed(1, &Text("a".to_string())));
    stream.extend(framed(0, &InternalMessage::Pong(2, 20, 30)));
    stream.extend(framed(0, &InternalMessage::Ping(3, 40)));
    stream.extend(framed(1, &Text("b".to_string())));
    stream.extend(framed(0, &InternalMessage::Ping(4, 50)));

    let mut buffer = stream;
    let mut queue: Vec<InternalMessage> = Vec::new();
    let first: Option<Text> = next_message(&mut buffer, &mut queue);
    assert_eq!(first, Some(Text("a".to_string())));
    assert_eq!(queue, vec![InternalMessage::Ping(1, 10)]);

    let second: Option<Text> = next_message(&mut buffer, &mut queue);
    assert_eq!(second, Some(Text("b".to_string())));
    assert_eq!(
        queue,
        vec![InternalMessage::Ping(1, 10), InternalMessage::Pong(2, 20, 30), InternalMessage::Ping(3, 40)]
    );

    let third: Option<Text> = next_message(&mut buffer, &mut queue);
    assert_eq!(third, None);
    assert_eq!(queue.len(), 4);
    assert_eq!(queue[3], InternalMessage::Ping(4, 50));
    assert!(buffer.is_empty());
}

#[test]
fn empty_buffer_gives_nothing() {
    let mut buffer: Vec<u8> = Vec::new();
    let mut queue: Vec<InternalMessage> = Vec::new();
    let m: Option<Text> = next_message(&mut buffer, &mut queue);
    assert_eq!(m, None);
    assert!(queue.is_empty());
}

#[test]
fn noise_bytes_are_skipped() {
    let mut buffer = vec![7, 200];
    buffer.extend(framed(1, &Text("x".to_string())));
    let mut queue: Vec<InternalMessage> = Vec::new();
    let m: Option<Text> = next_message(&mut buffer, &mut queue);
    assert_eq!(m, Some(Text("x".to_string())));
    assert!(buffer.is_empty());
}

#[test]
fn truncated_frame_is_consumed_byte_by_byte() {
    let full = framed(0, &InternalMessage::Ping(1, 10));
    let mut buffer = full[..6].to_vec();
    let mut queue: Vec<InternalMessage> = Vec::new();
    let m: Option<Text> = next_message(&mut buffer, &mut queue);
    assert_eq!(m, None);
    assert!(queue.is_empty());
    assert!(buffer.is_empty());
}

#[test]
fn average_is_zero_before_updates() {
    let a = MovingAverage::new(16);
    assert_eq!(a.get(), 0);
}

#[test]
fn average_of_fewer_than_capacity_samples() {
    let mut a = MovingAverage::new(16);
    for v in [10, 20, 40] {
        a.update(v, 100);
    }
    assert_eq!(a.get(), 23);
}

#[test]
fn average_keeps_only_the_last_capacity_samples() {
    let mut a = MovingAverage::new(4);
    for v in [1000, 1000, 1, 2, 3, 4] {
        a.update(v, 100);
    }
    assert_eq!(a.get(), 2);
    let mut b = MovingAverage::new(16);
    for v in 1..=20 {
        b.update(v, 100);
    }
    assert_eq!(b.get(), (5..=20).sum::<i64>() / 16);
}

#[test]
fn average_blends_with_half_weight() {
    let mut a = MovingAverage::new(16);
    a.update(100, 50);
    assert_eq!(a.get(), 50);
    a.update(100, 50);
    assert_eq!(a.get(), 62);
}

#[test]
fn average_of_negative_samples_rounds_down() {
    let mut a = MovingAverage::new(16);
    a.update(-1, 100);
    a.update(-2, 100);
    assert_eq!(a.get(), -2);
}
