use drawlink::frame::frame_envelope;
use drawlink::ingest::{envelope_label, FrameAccumulator};
use drawlink::proto::{HostEnvelope, ModemUartMessages};

#[test]
fn whole_frame_in_one_push() {
    let env = HostEnvelope::ProtocolMessage(ModemUartMessages::Loopback(7));
    let framed = frame_envelope(&env).unwrap();
    let mut acc = FrameAccumulator::new();
    let msgs = acc.push_bytes(&framed);
    assert_eq!(msgs, vec![env]);
    assert!(acc.buf.is_empty());
    assert_eq!(acc.since_last_err, 1);
}

#[test]
fn frame_split_across_pushes() {
    let env = HostEnvelope::Log(b"split me".to_vec());
    let framed = frame_envelope(&env).unwrap();
    let mut acc = FrameAccumulator::new();
    for chunk in framed.chunks(3) {
        let early = acc.push_bytes(chunk);
        if chunk.contains(&0) {
            assert_eq!(early, vec![env.clone()]);
        } else {
            assert!(early.is_empty());
        }
    }
    assert!(acc.buf.is_empty());
}

#[test]
fn several_frames_in_one_push() {
    let a = HostEnvelope::Warn(b"one".to_vec());
    let b = HostEnvelope::ProtocolMessage(ModemUartMessages::AnnounceTurn(3));
    let mut stream = frame_envelope(&a).unwrap();
    stream.extend_from_slice(&frame_envelope(&b).unwrap());
    stream.push(0x42);  // a trailing fragment stays pending
    let mut acc = FrameAccumulator::new();
    let msgs = acc.push_bytes(&stream);
    assert_eq!(msgs, vec![a, b]);
    assert_eq!(acc.buf, vec![0x42]);
    assert_eq!(acc.since_last_err, 2);
}

#[test]
fn bad_frame_recovers_at_next_boundary() {
    // The first reserved byte ends a frame that does not destuff to a
    // message; only the later boundary carries a valid frame, and the
    // decoder picks it up without losing synchronization.
    let mut stream: Vec<u8> = vec![0x01, 0x00, 0x02, 0x00];
    let env = HostEnvelope::ProtocolMessage(ModemUartMessages::Loopback(0x4242_4242));
    stream.extend_from_slice(&frame_envelope(&env).unwrap());
    let mut acc = FrameAccumulator::new();
    let msgs = acc.push_bytes(&stream);
    assert_eq!(msgs, vec![env]);
    assert!(acc.buf.is_empty());
    // The bad frames reset the run counter before the good one raised it.
    assert_eq!(acc.since_last_err, 1);
}

#[test]
fn bad_frame_resets_counter() {
    let env = HostEnvelope::Log(b"x".to_vec());
    let mut acc = FrameAccumulator::new();
    let mut stream = frame_envelope(&env).unwrap();
    stream.extend_from_slice(&frame_envelope(&env).unwrap());
    acc.push_bytes(&stream);
    assert_eq!(acc.since_last_err, 2);
    acc.push_bytes(&[0x01, 0x00]);
    assert_eq!(acc.since_last_err, 0);
}

#[test]
fn labels_follow_severity() {
    assert_eq!(envelope_label(&HostEnvelope::Log(Vec::new())), "LOG");
    assert_eq!(envelope_label(&HostEnvelope::Warn(Vec::new())), "WRN");
    assert_eq!(envelope_label(&HostEnvelope::Error(Vec::new())), "ERR");
    assert_eq!(envelope_label(&HostEnvelope::BinaryRaw(Vec::new())), "BIN");
    assert_eq!(
        envelope_label(&HostEnvelope::ProtocolMessage(ModemUartMessages::Loopback(0))),
        "RX"
    );
}
