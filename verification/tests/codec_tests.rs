use sqlite_lite::codec::deserialize_slot;
use sqlite_lite::codec::id_from_le_bytes;
use sqlite_lite::codec::id_to_le_bytes;
use sqlite_lite::codec::serialize_row;
use sqlite_lite::row::SimpleRow;

#[test]
fn id_little_endian_bytes() {
    assert_eq!(id_to_le_bytes(1), vec![1, 0, 0, 0]);
    assert_eq!(id_to_le_bytes(0xDEADBEEF), vec![0xEF, 0xBE, 0xAD, 0xDE]);
    assert_eq!(id_to_le_bytes(u32::MAX), vec![0xFF, 0xFF, 0xFF, 0xFF]);
}

#[test]
fn id_round_trips_through_bytes() {
    for id in [0u32, 1, 256, 65536, 16777216, u32::MAX] {
        let bytes = id_to_le_bytes(id);
        assert_eq!(id_from_le_bytes(&bytes, 0), id);
    }
}

#[test]
fn serialized_slot_layout() {
    let mut row = SimpleRow::new();
    row.set_id(1);
    row.set_username(&b"alice".to_vec());
    row.set_email(&b"alice@example.com".to_vec());
    let slot = serialize_row(&row);
    assert_eq!(slot.len(), 291);
    assert_eq!(&slot[0..4], &[1, 0, 0, 0]);
    assert_eq!(&slot[4..9], b"alice");
    assert!(slot[9..36].iter().all(|&b| b == 0));
    assert_eq!(&slot[36..53], b"alice@example.com");
    assert!(slot[53..291].iter().all(|&b| b == 0));
}

#[test]
fn slot_round_trips_through_bytes() {
    let mut row = SimpleRow::new();
    row.set_id(99);
    row.set_username(&b"bob".to_vec());
    row.set_email(&b"bob@e".to_vec());
    let slot = serialize_row(&row);
    let back = deserialize_slot(&slot, 0);
    assert_eq!(back.get_id(), 99);
    assert_eq!(back.get_username(), b"bob".to_vec());
    assert_eq!(back.get_email(), b"bob@e".to_vec());
}

#[test]
fn deserialize_trims_at_first_zero() {
    let mut slot = vec![0u8; 291];
    slot[0] = 5;
    slot[4] = b'a';
    slot[5] = b'b';
    // a zero byte ends the username even though more bytes follow it
    slot[7] = b'c';
    slot[36] = b'x';
    let row = deserialize_slot(&slot, 0);
    assert_eq!(row.get_id(), 5);
    assert_eq!(row.get_username(), b"ab".to_vec());
    assert_eq!(row.get_email(), b"x".to_vec());
}

#[test]
fn deserialize_reads_at_offset() {
    let mut bytes = vec![0u8; 582];
    bytes[291] = 2;
    bytes[295] = b'z';
    let row = deserialize_slot(&bytes, 291);
    assert_eq!(row.get_id(), 2);
    assert_eq!(row.get_username(), b"z".to_vec());
}
