use drawlink::frame::{destuff_bytes, frame_envelope, stuff_bytes, MAX_HOST_FRAME};
use drawlink::proto::HostEnvelope;

#[test]
fn stuff_roundtrips_plain_bytes() {
    let data: Vec<u8> = vec![1, 2, 3, 4, 5];
    let stuffed = stuff_bytes(&data);
    assert!(stuffed.iter().all(|&b| b != 0));
    assert_eq!(destuff_bytes(&stuffed), Some(data));
}

#[test]
fn stuff_roundtrips_bytes_with_zeros() {
    let data: Vec<u8> = vec![0, 1, 0, 0, 2, 3, 0];
    let stuffed = stuff_bytes(&data);
    assert!(stuffed.iter().all(|&b| b != 0));
    assert_eq!(destuff_bytes(&stuffed), Some(data));
}

#[test]
fn stuff_roundtrips_empty() {
    let stuffed = stuff_bytes(&[]);
    assert_eq!(stuffed, vec![1]);
    assert_eq!(destuff_bytes(&stuffed), Some(Vec::new()));
}

#[test]
fn stuff_roundtrips_long_runs() {
    // Longer than one full 254-byte group, with and without zeros.
    let no_zeros: Vec<u8> = (0..600u32).map(|i| (i % 255) as u8 + 1).collect();
    let stuffed = stuff_bytes(&no_zeros);
    assert!(stuffed.iter().all(|&b| b != 0));
    assert_eq!(destuff_bytes(&stuffed), Some(no_zeros));

    let with_zeros: Vec<u8> = (0..600u32).map(|i| (i % 7) as u8).collect();
    let stuffed = stuff_bytes(&with_zeros);
    assert!(stuffed.iter().all(|&b| b != 0));
    assert_eq!(destuff_bytes(&stuffed), Some(with_zeros));
}

#[test]
fn stuff_known_small_frames() {
    assert_eq!(stuff_bytes(&[5]), vec![2, 5]);
    assert_eq!(stuff_bytes(&[0]), vec![1, 1]);
    assert_eq!(stuff_bytes(&[1, 0, 2]), vec![2, 1, 2, 2]);
}

#[test]
fn destuff_rejects_malformed_frames() {
    // Empty, a zero code byte, and a code byte running past the end.
    assert_eq!(destuff_bytes(&[]), None);
    assert_eq!(destuff_bytes(&[0]), None);
    assert_eq!(destuff_bytes(&[5, 1]), None);
    assert_eq!(destuff_bytes(&[2]), None);
}

#[test]
fn frame_envelope_appends_one_terminator() {
    let framed = frame_envelope(&HostEnvelope::Log(b"hi".to_vec())).unwrap();
    // Exactly one reserved byte, at the very end.
    assert_eq!(framed.iter().filter(|&&b| b == 0).count(), 1);
    assert_eq!(*framed.last().unwrap(), 0);
}

#[test]
fn frame_envelope_refuses_oversize() {
    // An envelope whose encoding exceeds the frame cap is refused rather
    // than truncated.
    let big = HostEnvelope::BinaryRaw(vec![7u8; MAX_HOST_FRAME + 1]);
    assert_eq!(frame_envelope(&big), None);
    let fits = HostEnvelope::BinaryRaw(vec![7u8; 64]);
    assert!(frame_envelope(&fits).is_some());
}
