use journald::{
    rhash64, get_obj_at_offset, Journal, JournalError, JournalState, Object, ObjectType,
    HashableObject, SizedObject, DataObject, ObjectHeader,
};

fn w64(b: &mut Vec<u8>, off: usize, v: u64) {
    b[off..off + 8].copy_from_slice(&v.to_le_bytes());
}

fn obj_header(b: &mut Vec<u8>, off: usize, t: u8, size: u64) {
    b[off] = t;
    w64(b, off + 8, size);
}

// A complete, well-formed journal file image, built in memory:
// a 240-byte header followed by ten objects -- the two hash tables, a
// field, two data objects, two entries, two entry arrays and a tag.
fn sample_journal() -> Vec<u8> {
    let total = 880;
    let mut b = vec![0u8; total];

    let h_field = rhash64(b"MESSAGE");
    let h_data1 = rhash64(b"MESSAGE=hello");
    let h_data2 = rhash64(b"_PID=42");

    // file header
    b[0..8].copy_from_slice(b"LPKSHHRH");
    b[16] = 0; // state: offline
    for i in 24..88 {
        b[i] = i as u8; // the four 128-bit identifiers
    }
    w64(&mut b, 88, 240); // header_size
    w64(&mut b, 96, (total - 240) as u64); // arena_size
    w64(&mut b, 104, 320); // data_hash_table_offset (payload of the object at 304)
    w64(&mut b, 112, 16); // data_hash_table_size
    w64(&mut b, 120, 256); // field_hash_table_offset (payload of the object at 240)
    w64(&mut b, 128, 16); // field_hash_table_size
    w64(&mut b, 136, 816); // tail_object_offset
    w64(&mut b, 144, 10); // n_objects
    w64(&mut b, 152, 2); // n_entries
    w64(&mut b, 160, 2); // tail_entry_seqnum
    w64(&mut b, 168, 1); // head_entry_seqnum
    w64(&mut b, 176, 744); // entry_array_offset
    w64(&mut b, 184, 1_000_000); // head_entry_realtime
    w64(&mut b, 192, 2_000_000); // tail_entry_realtime
    w64(&mut b, 200, 6); // tail_entry_monotonic
    w64(&mut b, 208, 2); // n_data
    w64(&mut b, 216, 1); // n_fields
    w64(&mut b, 224, 1); // n_tags
    w64(&mut b, 232, 2); // n_entry_arrays

    // field hash table at 240, one bucket
    obj_header(&mut b, 240, 5, 64);
    // data hash table at 304, one bucket
    obj_header(&mut b, 304, 4, 64);

    // field object at 368: payload "MESSAGE"
    obj_header(&mut b, 368, 2, 40 + 7);
    w64(&mut b, 384, h_field); // hash
    w64(&mut b, 392, 0); // next_hash_offset
    w64(&mut b, 400, 416); // head_data_offset
    b[408..415].copy_from_slice(b"MESSAGE");

    // data object at 416: payload "MESSAGE=hello"
    obj_header(&mut b, 416, 1, 64 + 13);
    w64(&mut b, 432, h_data1); // hash
    w64(&mut b, 440, 0); // next_hash_offset
    w64(&mut b, 448, 0); // next_field_offset
    w64(&mut b, 456, 568); // entry_offset
    w64(&mut b, 464, 0); // entry_array_offset
    w64(&mut b, 472, 2); // n_entries
    b[480..493].copy_from_slice(b"MESSAGE=hello");

    // data object at 496: payload "_PID=42"
    obj_header(&mut b, 496, 1, 64 + 7);
    w64(&mut b, 512, h_data2);
    w64(&mut b, 520, 0);
    w64(&mut b, 528, 0);
    w64(&mut b, 536, 568);
    w64(&mut b, 544, 0);
    w64(&mut b, 552, 1);
    b[560..567].copy_from_slice(b"_PID=42");

    // entry object at 568 with two items
    obj_header(&mut b, 568, 3, 96);
    w64(&mut b, 584, 1); // seqnum
    w64(&mut b, 592, 1_000_000); // realtime
    w64(&mut b, 600, 5); // monotonic
    w64(&mut b, 608, 0x1111); // boot_id low half
    w64(&mut b, 616, 0x2222); // boot_id high half
    w64(&mut b, 624, h_data1 ^ h_data2); // xor_hash
    w64(&mut b, 632, 416); // item 0 offset
    w64(&mut b, 640, h_data1); // item 0 hash
    w64(&mut b, 648, 496); // item 1 offset
    w64(&mut b, 656, h_data2); // item 1 hash

    // entry object at 664 with one item
    obj_header(&mut b, 664, 3, 80);
    w64(&mut b, 680, 2); // seqnum
    w64(&mut b, 688, 2_000_000); // realtime
    w64(&mut b, 696, 6); // monotonic
    w64(&mut b, 704, 0x1111);
    w64(&mut b, 712, 0x2222);
    w64(&mut b, 720, h_data1); // xor_hash
    w64(&mut b, 728, 416); // item 0 offset
    w64(&mut b, 736, h_data1); // item 0 hash

    // entry array at 744: slots [568, 0], link to 784
    obj_header(&mut b, 744, 6, 40);
    w64(&mut b, 760, 784); // next_entry_array_offset
    w64(&mut b, 768, 568);
    w64(&mut b, 776, 0); // null slot, skipped

    // entry array at 784: slot [664], end of chain
    obj_header(&mut b, 784, 6, 32);
    w64(&mut b, 800, 0); // next_entry_array_offset
    w64(&mut b, 808, 664);

    // tag object at 816
    obj_header(&mut b, 816, 7, 64);
    w64(&mut b, 832, 3); // seqnum
    w64(&mut b, 840, 7); // epoch
    for i in 848..880 {
        b[i] = 0xab;
    }

    b
}

#[test]
fn test_open_empty_fails_invalid_header() {
    let empty: Vec<u8> = Vec::new();
    match Journal::new(&empty) {
        Err(e) => assert_eq!(e, JournalError::InvalidHeader),
        Ok(_) => panic!("empty input must not open"),
    }
}

#[test]
fn test_open_bad_signature_fails() {
    let mut b = sample_journal();
    b[0] = b'X';
    assert!(matches!(Journal::new(&b), Err(JournalError::InvalidHeader)));
}

#[test]
fn test_open_small_header_size_fails() {
    let mut b = sample_journal();
    w64(&mut b, 88, 239);
    assert!(matches!(Journal::new(&b), Err(JournalError::InvalidHeader)));
}

#[test]
fn test_journal_state_offline() {
    let b = sample_journal();
    let journal = Journal::new(&b).unwrap();
    assert!(journal.header.state == JournalState::Offline);
}

#[test]
fn test_journal_state_coerced_to_max() {
    let mut b = sample_journal();
    b[16] = 77; // out-of-range state byte is tolerated
    let journal = Journal::new(&b).unwrap();
    assert!(journal.header.state == JournalState::StateMax);
}

#[test]
fn test_header_parsing() {
    let b = sample_journal();
    let journal = Journal::new(&b).unwrap();
    assert_eq!(journal.header.header_size, 240);
    assert_eq!(journal.header.arena_size, 640);
    assert_eq!(journal.header.data_hash_table_size, 16);
    assert_eq!(journal.header.field_hash_table_size, 16);
    assert_eq!(journal.header.field_hash_table_offset, 256);
    assert_eq!(journal.header.entry_array_offset, 744);
    assert_eq!(journal.header.n_objects, 10);
    assert_eq!(journal.header.n_entries, 2);
    assert_eq!(journal.header.n_entry_arrays, 2);
    assert_eq!(journal.header.head_entry_seqnum, 1);
    assert_eq!(journal.header.tail_entry_seqnum, 2);
}

#[test]
fn test_offset_zero_invalid() {
    let b = sample_journal();
    assert!(matches!(get_obj_at_offset(&b, 0), Err(JournalError::InvalidOffset)));
}

#[test]
fn test_offset_unaligned_invalid() {
    let b = sample_journal();
    assert!(matches!(get_obj_at_offset(&b, 241), Err(JournalError::InvalidOffset)));
    assert!(matches!(get_obj_at_offset(&b, 244), Err(JournalError::InvalidOffset)));
}

#[test]
fn test_offset_past_buffer_invalid() {
    let b = sample_journal();
    assert!(matches!(get_obj_at_offset(&b, 880), Err(JournalError::InvalidOffset)));
    assert!(matches!(get_obj_at_offset(&b, 10000), Err(JournalError::InvalidOffset)));
}

#[test]
fn test_object_past_buffer_end_truncated() {
    let b = sample_journal();
    // the data object at 416 declares 77 bytes; cut the buffer short
    assert!(matches!(get_obj_at_offset(&b[..480], 416), Err(JournalError::Truncated)));
    // not even the 16 header bytes left
    assert!(matches!(get_obj_at_offset(&b[..424], 416), Err(JournalError::Truncated)));
}

#[test]
fn test_unused_object_error() {
    let b = sample_journal();
    // offset 8 is inside the file header, where the byte read as the
    // type tag is 0
    assert!(matches!(get_obj_at_offset(&b, 8), Err(JournalError::UnusedObject)));
}

#[test]
fn test_unknown_object_error() {
    let mut b = sample_journal();
    b[816] = 9;
    assert!(matches!(get_obj_at_offset(&b, 816), Err(JournalError::UnknownObject)));
}

#[test]
fn test_invalid_size_error() {
    let mut b = sample_journal();
    w64(&mut b, 424, 63); // a data object must declare at least 64 bytes
    assert!(matches!(get_obj_at_offset(&b, 416), Err(JournalError::InvalidSize)));
}

#[test]
fn test_decode_data_object_fields() {
    let b = sample_journal();
    match get_obj_at_offset(&b, 416) {
        Ok(Object::Data(d)) => {
            assert_eq!(d.object.size, 77);
            assert!(d.object.type_ == ObjectType::ObjectData);
            assert_eq!(d.payload, b"MESSAGE=hello".to_vec());
            assert_eq!(d.hash, rhash64(b"MESSAGE=hello"));
            assert_eq!(d.entry_offset, 568);
            assert_eq!(d.n_entries, 2);
            assert_eq!(d.hash, d.hash());
        },
        _ => panic!("expected a data object at 416"),
    }
    match get_obj_at_offset(&b, 416) {
        Ok(o) => assert_eq!(o.size(), 77),
        _ => panic!("expected an object at 416"),
    }
}

#[test]
fn test_decode_entry_object_fields() {
    let b = sample_journal();
    match get_obj_at_offset(&b, 568) {
        Ok(Object::Entry(e)) => {
            assert_eq!(e.seqnum, 1);
            assert_eq!(e.realtime, 1_000_000);
            assert_eq!(e.monotonic, 5);
            assert_eq!(e.boot_id, 0x1111u128 | (0x2222u128 << 64));
            assert_eq!(e.items.len(), 2);
            assert_eq!(e.items[0].object_offset, 416);
            assert_eq!(e.items[1].object_offset, 496);
            assert_eq!(e.xor_hash, e.hash());
        },
        _ => panic!("expected an entry object at 568"),
    }
}

#[test]
fn test_object_iter_count_matches_n_objects() {
    let b = sample_journal();
    let journal = Journal::new(&b).unwrap();
    let mut it = journal.obj_iter();
    let mut counter: u64 = 0;
    while let Some(_) = it.next() {
        counter += 1;
    }
    assert_eq!(counter, journal.header.n_objects);
}

#[test]
fn test_object_header_iter_count_matches_n_objects() {
    let b = sample_journal();
    let journal = Journal::new(&b).unwrap();
    let mut it = journal.iter_headers();
    let mut counter: u64 = 0;
    while let Some(h) = it.next() {
        assert!(h.size >= 16);
        counter += 1;
    }
    assert_eq!(counter, journal.header.n_objects);
}

#[test]
fn test_iter_entries_count_matches_n_entries() {
    let b = sample_journal();
    let journal = Journal::new(&b).unwrap();
    let mut it = journal.iter_entries();
    let mut counter: u64 = 0;
    while let Some(_) = it.next() {
        counter += 1;
    }
    assert_eq!(counter, journal.header.n_entries);
}

#[test]
fn test_entry_array_iter_flattens_to_n_entries() {
    let b = sample_journal();
    let journal = Journal::new(&b).unwrap();
    let mut it = journal.ea_iter();
    let mut offsets: Vec<u64> = Vec::new();
    while let Some(ea) = it.next() {
        for off in ea.items.iter() {
            assert!(*off != 0);
            offsets.push(*off);
        }
    }
    assert_eq!(offsets, vec![568, 664]);
    assert_eq!(offsets.len() as u64, journal.header.n_entries);
}

#[test]
fn test_entries_in_increasing_seqnum_order() {
    let b = sample_journal();
    let journal = Journal::new(&b).unwrap();
    let mut it = journal.iter_entries();
    let mut last: u64 = 0;
    let mut any = false;
    while let Some(e) = it.next() {
        assert!(e.seqnum > last);
        last = e.seqnum;
        any = true;
    }
    assert!(any);
}

#[test]
fn test_iterated_object_offsets_are_aligned() {
    let b = sample_journal();
    let journal = Journal::new(&b).unwrap();
    let mut it = journal.obj_iter();
    while let Some(_) = it.next() {
        assert_eq!(it.current_offset % 8, 0);
    }
}

#[test]
fn test_verify_ok() {
    let b = sample_journal();
    let journal = Journal::new(&b).unwrap();
    assert!(journal.verify(false));
    assert!(journal.verify(true));
}

#[test]
fn test_verify_detects_corrupt_data_payload() {
    let mut b = sample_journal();
    b[485] ^= 0xff; // flip a byte inside "MESSAGE=hello"
    let journal = Journal::new(&b).unwrap();
    assert!(!journal.verify(false));
    assert!(!journal.verify(true));
}

#[test]
fn test_deep_verify_detects_corrupt_field_hash() {
    let mut b = sample_journal();
    b[384] ^= 0xff; // stored hash of the field object
    let journal = Journal::new(&b).unwrap();
    assert!(journal.verify(false)); // shallow checks data objects only
    assert!(!journal.verify(true));
}

#[test]
fn test_deep_verify_detects_corrupt_entry_xor_hash() {
    let mut b = sample_journal();
    b[624] ^= 0xff; // stored xor_hash of the first entry
    let journal = Journal::new(&b).unwrap();
    assert!(journal.verify(false));
    assert!(!journal.verify(true));
}

#[test]
fn test_get_data_finds_key_and_leaves_separator() {
    let b = sample_journal();
    let journal = Journal::new(&b).unwrap();
    let mut it = journal.iter_entries();
    let e = it.next().unwrap();
    assert_eq!(e.get_data("MESSAGE", &b), Some("=hello".to_string()));
    assert_eq!(e.get_data("_PID", &b), Some("=42".to_string()));
    assert_eq!(e.get_data("NO_SUCH_FIELD", &b), None);
}

#[test]
fn test_data_object_is_trusted() {
    let b = sample_journal();
    match get_obj_at_offset(&b, 496) {
        Ok(Object::Data(d)) => assert!(d.payload_is_trusted()),
        _ => panic!("expected a data object at 496"),
    }
    match get_obj_at_offset(&b, 416) {
        Ok(Object::Data(d)) => assert!(!d.payload_is_trusted()),
        _ => panic!("expected a data object at 416"),
    }
}

#[test]
fn test_compression_false() {
    let b = sample_journal();
    let journal = Journal::new(&b).unwrap();
    let mut it = journal.iter_headers();
    while let Some(oh) = it.next() {
        assert!(!oh.is_compressed());
    }
}

#[test]
fn test_compression_flag_detected() {
    let mut b = sample_journal();
    b[417] = 1; // xz bit in the flags byte of the data object at 416
    let journal = Journal::new(&b).unwrap();
    let mut it = journal.iter_headers();
    let mut seen = 0;
    while let Some(oh) = it.next() {
        if oh.is_compressed() {
            seen += 1;
        }
    }
    assert_eq!(seen, 1);
}

#[test]
fn test_recomputed_hash_on_constructed_data_object() {
    let oh = ObjectHeader {
        type_: ObjectType::ObjectData,
        flags: 0,
        reserved: [0; 6],
        size: 64,
    };
    let d = DataObject {
        object: oh,
        hash: rhash64(b"k=v"),
        next_hash_offset: 0,
        next_field_offset: 0,
        entry_offset: 0,
        entry_array_offset: 0,
        n_entries: 0,
        payload: b"k=v".to_vec(),
    };
    assert_eq!(d.hash(), d.hash);
}
