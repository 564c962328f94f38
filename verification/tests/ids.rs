use coupler::ids::{from_be_bytes, iid, iid_windows, uuid_to_tuid, Uuid};

#[test]
fn be_bytes_make_a_word() {
    assert_eq!(from_be_bytes(0x12, 0x34, 0x56, 0x78), 0x12345678);
    assert_eq!(from_be_bytes(0, 0, 0, 1), 1);
    assert_eq!(from_be_bytes(0xff, 0, 0, 0), 0xff000000);
}

#[test]
fn iid_lays_words_out_most_significant_first() {
    assert_eq!(
        iid(0x00112233, 0x44556677, 0x8899aabb, 0xccddeeff),
        [
            0x00, 0x11, 0x22, 0x33, 0x44, 0x55, 0x66, 0x77, 0x88, 0x99, 0xaa, 0xbb, 0xcc, 0xdd,
            0xee, 0xff
        ]
    );
}

#[test]
fn iid_windows_follows_com_layout() {
    assert_eq!(
        iid_windows(0x00112233, 0x44556677, 0x8899aabb, 0xccddeeff),
        [
            0x33, 0x22, 0x11, 0x00, 0x55, 0x44, 0x77, 0x66, 0x88, 0x99, 0xaa, 0xbb, 0xcc, 0xdd,
            0xee, 0xff
        ]
    );
}

#[test]
fn uuid_bytes_round_trip_through_words() {
    let bytes: [u8; 16] = [1, 2, 3, 4, 5, 6, 7, 8, 9, 10, 11, 12, 13, 14, 15, 16];
    let uuid = Uuid::from_uuid_bytes(bytes);
    assert_eq!(uuid, Uuid(0x01020304, 0x05060708, 0x090a0b0c, 0x0d0e0f10));
    assert_eq!(uuid_to_tuid(&uuid), bytes);
}

#[test]
fn uuid_from_name_is_the_v5_uuid_in_the_coupler_namespace() {
    let namespace = uuid::Uuid::from_bytes([
        0xad, 0xf0, 0x07, 0x9f, 0x40, 0x7f, 0x49, 0xcc, 0xb1, 0x0d, 0x2d, 0x37, 0x63, 0x36, 0x57,
        0x58,
    ]);
    for name in ["gain", "Coupler Test Plugin", ""] {
        let expected = uuid::Uuid::new_v5(&namespace, name.as_bytes());
        let uuid = Uuid::from_name(name);
        assert_eq!(uuid_to_tuid(&uuid), *expected.as_bytes());
        // Version 5, RFC 4122 variant.
        let bytes = uuid_to_tuid(&uuid);
        assert_eq!(bytes[6] >> 4, 5);
        assert_eq!(bytes[8] & 0xc0, 0x80);
    }
}

#[test]
fn uuid_from_name_differs_between_names() {
    assert_ne!(Uuid::from_name("gain"), Uuid::from_name("gain2"));
    assert_eq!(Uuid::from_name("gain"), Uuid::from_name("gain"));
}

#[test]
fn uuid_from_name_is_not_the_namespace() {
    // The wrapper must not hand its namespace back unchanged.
    let uuid = Uuid::from_name("gain");
    assert_ne!(uuid, Uuid(0xadf0079f, 0x407f49cc, 0xb10d2d37, 0x63365758));
}

#[test]
fn words_round_trip_through_tuid_bytes() {
    let uuid = Uuid(0xdeadbeef, 0x01234567, 0x89abcdef, 0xfedcba98);
    assert_eq!(Uuid::from_uuid_bytes(uuid_to_tuid(&uuid)), uuid);
}
