use hub_diff::sync_id::{
    decode, encode, farcaster_to_unix, timestamp_from_sync_id, DecodeError, RecordType, SyncId,
};

/// A well-formed identifier: 10 ASCII digits, one type byte, 4 big-endian
/// subject bytes, then an opaque suffix.
fn sample_id(delta_digits: &str, record_type: u8, fid: [u8; 4], suffix: &[u8]) -> Vec<u8> {
    let mut bytes = delta_digits.as_bytes().to_vec();
    bytes.push(record_type);
    bytes.extend_from_slice(&fid);
    bytes.extend_from_slice(suffix);
    bytes
}

#[test]
fn decode_reads_all_fields() {
    let bytes = sample_id("0000086400", 1, [0, 1, 0, 7], &[0xde, 0xad]);
    let id = decode(&bytes).unwrap();
    assert_eq!(id.timestamp_delta, 86400);
    assert_eq!(id.record_type, 1);
    assert_eq!(id.subject_fid, 65543);
    assert_eq!(id.suffix, vec![0xde, 0xad]);
    assert_eq!(id.decoded_time(), 1609459200 + 86400);
}

#[test]
fn round_trip_reproduces_bytes() {
    let cases: Vec<Vec<u8>> = vec![
        sample_id("0000000000", 1, [0, 0, 0, 0], &[]),
        sample_id("0106211280", 1, [0, 0, 7, 243], &[9, 8, 7]),
        sample_id("4294967295", 200, [255, 255, 255, 255], &[0; 16]),
        sample_id("0000000042", 9, [1, 2, 3, 4], &[0xaa]),
    ];
    for bytes in cases {
        let id = decode(&bytes).unwrap();
        assert_eq!(encode(&id), bytes);
    }
}

#[test]
fn too_short_inputs_are_rejected() {
    assert_eq!(decode(&vec![]).err(), Some(DecodeError::TooShort));
    assert_eq!(decode(&vec![48; 14]).err(), Some(DecodeError::TooShort));
    // 15 bytes is the minimum: all-digit prefix decodes.
    assert!(decode(&vec![48; 15]).is_ok());
}

#[test]
fn non_digit_timestamp_is_rejected() {
    let mut bytes = sample_id("0000086400", 1, [0, 0, 0, 1], &[]);
    bytes[3] = b'x';
    assert_eq!(decode(&bytes).err(), Some(DecodeError::InvalidTimestamp));
    let mut bytes2 = sample_id("0000086400", 1, [0, 0, 0, 1], &[]);
    bytes2[0] = 0x00;
    assert_eq!(decode(&bytes2).err(), Some(DecodeError::InvalidTimestamp));
}

#[test]
fn overflowing_timestamp_is_rejected() {
    // 9999999999 does not fit the 32-bit timestamp width.
    let bytes = sample_id("9999999999", 1, [0, 0, 0, 1], &[]);
    assert_eq!(decode(&bytes).err(), Some(DecodeError::InvalidTimestamp));
    // 4294967295 just fits.
    let bytes = sample_id("4294967295", 1, [0, 0, 0, 1], &[]);
    assert!(decode(&bytes).is_ok());
}

#[test]
fn unknown_type_byte_decodes_with_unknown_label() {
    for unknown in [0u8, 2, 42, 200, 255] {
        let bytes = sample_id("0000000001", unknown, [0, 0, 0, 1], &[1]);
        let id = decode(&bytes).unwrap();
        assert_eq!(id.record_type(), RecordType::Unknown);
        assert_eq!(id.record_type_label(), "unknown");
    }
}

#[test]
fn known_type_bytes_have_stable_labels() {
    let labels: Vec<(u8, &str)> =
        vec![(1, "user message"), (7, "username proof"), (9, "on-chain event")];
    for (byte, label) in labels {
        let bytes = sample_id("0000000001", byte, [0, 0, 0, 1], &[]);
        let id = decode(&bytes).unwrap();
        assert_eq!(id.record_type_label(), label);
    }
}

#[test]
fn timestamp_alone_can_be_read() {
    // Ten digit bytes suffice, whatever follows.
    let bytes = b"0000086400".to_vec();
    assert_eq!(timestamp_from_sync_id(&bytes), Ok(1609459200 + 86400));
    assert_eq!(timestamp_from_sync_id(&b"000008640".to_vec()), Err(DecodeError::TooShort));
    assert_eq!(
        timestamp_from_sync_id(&b"00000x6400".to_vec()),
        Err(DecodeError::InvalidTimestamp)
    );
}

#[test]
fn epoch_conversion_adds_network_epoch() {
    assert_eq!(farcaster_to_unix(0), 1609459200);
    assert_eq!(farcaster_to_unix(86400), 1609545600);
}

#[test]
fn encode_from_fields_matches_layout() {
    let id = SyncId { timestamp_delta: 42, record_type: 7, subject_fid: 258, suffix: vec![5] };
    let bytes = encode(&id);
    assert_eq!(&bytes[0..10], b"0000000042");
    assert_eq!(bytes[10], 7);
    assert_eq!(&bytes[11..15], &[0, 0, 1, 2]);
    assert_eq!(&bytes[15..], &[5]);
}
