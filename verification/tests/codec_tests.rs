use vmm::codec::{push_u16_le, push_u64_le, read_u16_le, read_u64_le};
use vmm::cpu_state::{deserialize_cpu_state, serialize_cpu_state, CpuStateRecord,
    CPU_SCHEMA_VERSION};
use vmm::errors::VmmError;
use vmm::message::{
    build_migration_message, decode_migration_message, encode_migration_message, frame_body,
    unframe_body, MigrationMessage,
};

#[test]
fn word_encoding_is_little_endian() {
    let mut out = Vec::new();
    push_u64_le(&mut out, 0x0123_4567_89ab_cdef);
    assert_eq!(out, vec![0xef, 0xcd, 0xab, 0x89, 0x67, 0x45, 0x23, 0x01]);
    let mut pos = 0usize;
    assert_eq!(read_u64_le(&out, &mut pos), Ok(0x0123_4567_89ab_cdef));
    assert_eq!(pos, 8);

    let mut half = Vec::new();
    push_u16_le(&mut half, 0xbeef);
    assert_eq!(half, vec![0xef, 0xbe]);
    let mut pos2 = 0usize;
    assert_eq!(read_u16_le(&half, &mut pos2), Ok(0xbeef));
}

#[test]
fn word_read_rejects_short_buffer() {
    let buf = vec![1u8, 2, 3];
    let mut pos = 0usize;
    assert_eq!(read_u64_le(&buf, &mut pos), Err(VmmError::TruncatedInput));
    assert_eq!(pos, 0);
}

fn sample_message() -> MigrationMessage {
    let mut data = Vec::new();
    for i in 0..8192usize {
        data.push((i % 251) as u8);
    }
    build_migration_message(data, vec![3, 9], String::from("cpu_live.txt"), false)
}

#[test]
fn message_round_trip() {
    let msg = sample_message();
    let bytes = encode_migration_message(&msg);
    let back = decode_migration_message(&bytes).unwrap();
    assert_eq!(back.data, msg.data);
    assert_eq!(back.data_len, 8192);
    assert_eq!(back.dirty_pages, vec![3, 9]);
    assert_eq!(back.dirty_pages_len, 2);
    assert_eq!(back.cpu_state_file_path, "cpu_live.txt");
    assert!(!back.is_last);
    assert!(!back.init_migration);
}

#[test]
fn message_decode_rejects_truncation() {
    let bytes = encode_migration_message(&sample_message());
    let cut = bytes[..bytes.len() - 3].to_vec();
    assert!(matches!(
        decode_migration_message(&cut),
        Err(VmmError::TruncatedInput)
    ));
}

#[test]
fn message_decode_rejects_trailing_bytes() {
    let mut bytes = encode_migration_message(&sample_message());
    bytes.push(0);
    assert!(matches!(
        decode_migration_message(&bytes),
        Err(VmmError::MalformedInput)
    ));
}

#[test]
fn message_decode_rejects_bad_flag_byte() {
    let mut bytes = encode_migration_message(&sample_message());
    let last = bytes.len() - 1;
    bytes[last] = 7;
    assert!(matches!(
        decode_migration_message(&bytes),
        Err(VmmError::MalformedInput)
    ));
}

#[test]
fn message_decode_rejects_invalid_utf8_path() {
    let msg = build_migration_message(Vec::new(), Vec::new(), String::from("x"), true);
    let mut bytes = encode_migration_message(&msg);
    // The path's single byte sits before the two flag bytes.
    let idx = bytes.len() - 3;
    assert_eq!(bytes[idx], b'x');
    bytes[idx] = 0xff;
    assert!(matches!(
        decode_migration_message(&bytes),
        Err(VmmError::InvalidUtf8)
    ));
}

#[test]
fn framing_round_trip() {
    let body = vec![1u8, 2, 3, 4, 5];
    let framed = frame_body(&body);
    assert_eq!(framed.len(), 13);
    assert_eq!(framed[0], 5);
    assert_eq!(unframe_body(&framed).unwrap(), body);
}

#[test]
fn framing_rejects_short_body() {
    // A body shorter than its advertised length is a truncation error.
    let mut framed = frame_body(&vec![0u8; 100]);
    framed.truncate(40);
    assert_eq!(unframe_body(&framed), Err(VmmError::TruncatedInput));
}

#[test]
fn cpu_state_round_trip() {
    let rec = CpuStateRecord::new(
        vec![vec![1u8, 2, 3], Vec::new(), vec![9u8; 300]],
        vec![7u8, 7, 7],
    );
    let bytes = serialize_cpu_state(&rec);
    let back = deserialize_cpu_state(&bytes).unwrap();
    assert_eq!(back.version, CPU_SCHEMA_VERSION);
    assert_eq!(back.vcpu_states, rec.vcpu_states);
    assert_eq!(back.vm_state, rec.vm_state);
}

#[test]
fn cpu_state_resnapshot_is_identical() {
    // A restored VM state, serialized again at once, gives the same blob
    // byte for byte: the snapshot cycle is deterministic.
    let rec = CpuStateRecord::new(vec![vec![0x41u8; 64], vec![0x42u8; 64]], vec![1u8, 2]);
    let first = serialize_cpu_state(&rec);
    let restored = deserialize_cpu_state(&first).unwrap();
    let second = serialize_cpu_state(&restored);
    assert_eq!(first, second);
}

#[test]
fn cpu_state_rejects_future_version() {
    let rec = CpuStateRecord {
        version: CPU_SCHEMA_VERSION + 1,
        vcpu_states: vec![vec![1u8]],
        vm_state: Vec::new(),
    };
    let bytes = serialize_cpu_state(&rec);
    assert!(matches!(
        deserialize_cpu_state(&bytes),
        Err(VmmError::SchemaVersionUnsupported)
    ));
}

#[test]
fn cpu_state_rejects_truncation() {
    let rec = CpuStateRecord::new(vec![vec![1u8, 2, 3]], vec![4u8]);
    let mut bytes = serialize_cpu_state(&rec);
    bytes.pop();
    assert!(matches!(
        deserialize_cpu_state(&bytes),
        Err(VmmError::TruncatedInput)
    ));
}
