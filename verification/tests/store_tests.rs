use vmm::errors::VmmError;
use vmm::hash::chunk_hash;
use vmm::store::{bytes_equal, ChunkStore};
use vmm::store_codec::{
    assemble_store, decode_layout, decode_payload, decode_store_state, encode_layout,
    encode_payload, encode_store_state,
};
use vmm::DEFAULT_CHUNK_SIZE;

const MIB: usize = 1024 * 1024;

#[test]
fn fnv1a_known_values() {
    // FNV-1a 64-bit reference values.
    assert_eq!(chunk_hash(&Vec::new()), 0xcbf2_9ce4_8422_2325);
    assert_eq!(chunk_hash(&vec![b'a']), 0xaf63_dc4c_8601_ec8c);
    assert_eq!(chunk_hash(&vec![b'a', b'b', b'c']), 0xe71f_a219_0541_574b);
}

#[test]
fn single_all_zero_image() {
    // A 16 MiB image of zeros dedups to one chunk referenced 16 times.
    let image = vec![0u8; 16 * MIB];
    let mut store = ChunkStore::new(DEFAULT_CHUNK_SIZE, 1);
    store.save(&image).unwrap();
    assert_eq!(store.layout.len(), 16);
    assert_eq!(store.payload.len(), 1);
    let h0 = store.layout[0].hash;
    for i in 0..16 {
        assert_eq!(store.layout[i].hash, h0);
        assert_eq!(store.layout[i].offset, (i * MIB) as u64);
    }
    let loaded = store.load();
    assert_eq!(loaded.len(), 16 * MIB);
    assert!(bytes_equal(&loaded, &image));
}

#[test]
fn single_chunk_flip() {
    // Zeros with "deadbee" at 1 MiB; save, flip the head to "beef", save
    // again: only the first chunk's row changes.
    let mut image = vec![0u8; 16 * MIB];
    let tag = b"deadbee";
    for (i, b) in tag.iter().enumerate() {
        image[MIB + i] = *b;
    }
    let mut store = ChunkStore::new(MIB, 1);
    store.save(&image).unwrap();
    let first_layout: Vec<(u64, u64)> =
        store.layout.iter().map(|e| (e.offset, e.hash)).collect();
    assert_eq!(store.payload.len(), 2);

    let patch = b"beef";
    for (i, b) in patch.iter().enumerate() {
        image[i] = *b;
    }
    store.save(&image).unwrap();
    let second_layout: Vec<(u64, u64)> =
        store.layout.iter().map(|e| (e.offset, e.hash)).collect();

    assert_ne!(first_layout[0], second_layout[0]);
    assert_eq!(&first_layout[1..], &second_layout[1..]);
    // The shared payload now holds the zero chunk, the "deadbee" chunk,
    // and the new "beef" chunk.
    assert_eq!(store.payload.len(), 3);
    let loaded = store.load();
    assert!(bytes_equal(&loaded, &image));
}

#[test]
fn save_load_round_trip_partial_chunk() {
    // A length that is not a chunk multiple: the tail chunk is padded,
    // and the load cuts back to the exact length.
    let mut image = Vec::new();
    for i in 0..40usize {
        image.push((i * 7 + 3) as u8);
    }
    let mut store = ChunkStore::new(16, 1);
    store.save(&image).unwrap();
    assert_eq!(store.layout.len(), 3);
    let loaded = store.load();
    assert_eq!(loaded, image);
}

#[test]
fn save_twice_same_layout() {
    let mut image = vec![9u8; 64];
    image[17] = 42;
    let mut s1 = ChunkStore::new(16, 1);
    let mut s2 = ChunkStore::new(16, 1);
    s1.save(&image).unwrap();
    s1.save(&image).unwrap();
    s2.save(&image).unwrap();
    assert_eq!(s1.layout, s2.layout);
    // No duplicate identifiers in either payload.
    for a in 0..s1.payload.len() {
        for b in (a + 1)..s1.payload.len() {
            assert_ne!(s1.payload[a].hash, s1.payload[b].hash);
        }
    }
}

#[test]
fn hash_collision_probe() {
    // Two distinct chunks under one pre-arranged identifier: the second
    // insert is refused and the stored bytes stay untouched.
    let mut store = ChunkStore::new(8, 1);
    let first = vec![1u8; 8];
    let second = vec![2u8; 8];
    assert_eq!(store.insert_chunk(42, first.clone()), Ok(true));
    assert_eq!(store.insert_chunk(42, second), Err(VmmError::HashCollision));
    assert_eq!(store.payload.len(), 1);
    assert!(bytes_equal(&store.payload[0].bytes, &first));
    // The byte-equal duplicate still dedups.
    assert_eq!(store.insert_chunk(42, first), Ok(false));
    assert_eq!(store.payload.len(), 1);
}

#[test]
fn store_tables_round_trip() {
    let mut image = vec![5u8; 48];
    image[0] = 1;
    image[33] = 7;
    let mut store = ChunkStore::new(16, 3);
    store.save(&image).unwrap();

    let state_bytes = encode_store_state(&store);
    let layout_bytes = encode_layout(&store);
    let payload_bytes = encode_payload(&store);

    let (version, chunk_size, image_len) = decode_store_state(&state_bytes).unwrap();
    assert_eq!(version, 3);
    assert_eq!(chunk_size, 16);
    assert_eq!(image_len, 48);
    let layout = decode_layout(&layout_bytes).unwrap();
    assert_eq!(layout, store.layout);
    let payload = decode_payload(&payload_bytes).unwrap();
    assert_eq!(payload.len(), store.payload.len());

    let rebuilt = assemble_store(version, chunk_size, image_len, layout, payload).unwrap();
    let loaded = rebuilt.load();
    assert_eq!(loaded, image);
}

#[test]
fn assemble_rejects_malformed_tables() {
    let mut store = ChunkStore::new(16, 1);
    store.save(&vec![3u8; 32]).unwrap();
    let layout = decode_layout(&encode_layout(&store)).unwrap();
    let payload = decode_payload(&encode_payload(&store)).unwrap();
    // Chunk size zero.
    assert!(matches!(
        assemble_store(1, 0, 32, layout.clone(), Vec::new()),
        Err(VmmError::MalformedInput)
    ));
    // Image length beyond what the layout covers.
    assert!(matches!(
        assemble_store(1, 16, 33, layout, payload),
        Err(VmmError::MalformedInput)
    ));
}

#[test]
fn decode_layout_rejects_truncation() {
    let mut store = ChunkStore::new(16, 1);
    store.save(&vec![3u8; 32]).unwrap();
    let mut bytes = encode_layout(&store);
    bytes.pop();
    assert_eq!(decode_layout(&bytes), Err(VmmError::TruncatedInput));
}
