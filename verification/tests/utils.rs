use tablekv::utils::{
    build_id_to_name_table_anchor, build_id_to_name_table_inner_key, build_inner_key,
    build_name_to_id_table_inner_key, build_userland_table_anchor, extract_key, extract_table_id,
    same_bytes, u32_to_u8x4, u8s_to_u32, u8x4_to_u32,
};

#[test]
fn test_build_inner_key() {
    let inner_key = build_inner_key([0, 0, 4, 0], &[0, 0, 0, 0]);
    assert_eq!(inner_key, vec![0, 0, 4, 0, 0, 0, 0, 0]);
}

#[test]
fn test_build_name_to_id_table_inner_key() {
    assert_eq!(
        build_name_to_id_table_inner_key("huobi.btc.usdt.1m"),
        vec![
            0, 0, 0, 0, 104, 117, 111, 98, 105, 46, 98, 116, 99, 46, 117, 115, 100, 116, 46, 49,
            109
        ]
    );
}

#[test]
fn test_build_id_to_name_table_inner_key() {
    assert_eq!(
        build_id_to_name_table_inner_key([0, 0, 4, 0]),
        vec![0, 0, 0, 1, 0, 0, 4, 0]
    );
}

#[test]
fn test_build_id_to_name_table_anchor() {
    assert_eq!(
        build_id_to_name_table_anchor(),
        vec![0, 0, 0, 1, 255, 255, 255, 255]
    );
}

#[test]
fn test_build_userland_table_anchor() {
    assert_eq!(
        build_userland_table_anchor([0, 0, 4, 0], 4),
        vec![0, 0, 4, 0, 255, 255, 255, 255, 255]
    );
}

#[test]
fn test_extract_table_id() {
    let inner_key = [0, 0, 4, 0, 0, 0, 0, 0];
    let table_id = extract_table_id(&inner_key);
    assert_eq!(table_id, [0, 0, 4, 0]);
}

#[test]
fn test_extract_key() {
    let inner_key = [0, 0, 4, 0, 0, 0, 0, 128, 0, 254];
    let table_id = extract_key(&inner_key);
    assert_eq!(table_id, [0, 0, 0, 128, 0, 254]);
}

#[test]
fn numbers_are_written_most_significant_byte_first() {
    assert_eq!(u32_to_u8x4(0x0102_0304), [1, 2, 3, 4]);
    assert_eq!(u32_to_u8x4(1024), [0, 0, 4, 0]);
    assert_eq!(u32_to_u8x4(0), [0, 0, 0, 0]);
    assert_eq!(u32_to_u8x4(u32::MAX), [255, 255, 255, 255]);
    assert_eq!(u8x4_to_u32([1, 2, 3, 4]), 0x0102_0304);
    assert_eq!(u8x4_to_u32([255, 255, 255, 254]), 4294967294);
    assert_eq!(u8s_to_u32(&[0, 0, 4, 0]), 1024);
    assert_eq!(u8s_to_u32(&[0, 0, 4, 1, 9, 9]), 1025);
}

#[test]
fn number_round_trip() {
    for n in [0u32, 1, 255, 256, 1024, 65535, 65536, 0x00FF_FFFF, 0x0100_0000, u32::MAX] {
        assert_eq!(u8x4_to_u32(u32_to_u8x4(n)), n);
    }
}

#[test]
fn big_endian_bytes_order_as_the_numbers() {
    let numbers = [0u32, 1, 255, 256, 1024, 1025, 65535, 65536, 0x0100_0000, u32::MAX];
    for a in numbers {
        for b in numbers {
            assert_eq!(u32_to_u8x4(a) < u32_to_u8x4(b), a < b);
        }
    }
}

#[test]
fn key_round_trip() {
    let table_id = [0, 0, 4, 7];
    for key in [&b""[..], &b"k"[..], &[255, 255, 255, 255][..], &[0, 0, 0, 0, 0, 0][..]] {
        let inner_key = build_inner_key(table_id, key);
        assert_eq!(extract_table_id(&inner_key), table_id);
        assert_eq!(extract_key(&inner_key), key);
    }
}

#[test]
fn anchor_lies_above_every_key_of_the_agreed_length() {
    let table_id = [0, 0, 4, 0];
    let anchor = build_userland_table_anchor(table_id, 4);
    let keys: [&[u8]; 7] = [
        &[],
        &[0],
        &[255],
        &[255, 255, 255, 255],
        &[255, 255, 255, 254],
        b"k111",
        b"zz",
    ];
    for key in keys {
        assert!(build_inner_key(table_id, key) < anchor);
    }
    assert!(build_inner_key(table_id, &[255, 255, 255, 255, 255]) >= anchor);
    assert!(build_inner_key([0, 0, 4, 1], &[]) > anchor);
}

#[test]
fn anchors_of_the_longest_and_the_shortest_keys() {
    assert_eq!(build_userland_table_anchor([1, 2, 3, 4], 0), vec![1, 2, 3, 4, 255]);
    let anchor = build_userland_table_anchor([1, 2, 3, 4], 255);
    assert_eq!(anchor.len(), 4 + 256);
    assert!(anchor[4..].iter().all(|b| *b == 255));
}

#[test]
fn name_to_id_table_anchor() {
    let anchor = tablekv::utils::build_name_to_id_table_anchor();
    assert_eq!(anchor.len(), 4 + 1025);
    assert_eq!(&anchor[..4], &[0, 0, 0, 0]);
    assert!(anchor[4..].iter().all(|b| *b == 255));
}

#[test]
fn info_table_key() {
    assert_eq!(
        tablekv::utils::build_info_table_inner_key([0, 0]),
        vec![0, 0, 0, 2, 0, 0]
    );
}

#[test]
fn names_are_stored_as_utf8() {
    assert_eq!(
        build_name_to_id_table_inner_key("\u{e9}"),
        vec![0, 0, 0, 0, 0xC3, 0xA9]
    );
    assert_eq!(build_name_to_id_table_inner_key(""), vec![0, 0, 0, 0]);
}

#[test]
fn same_bytes_compares_contents() {
    assert!(same_bytes(&[], &[]));
    assert!(same_bytes(&[1, 2, 3], &[1, 2, 3]));
    assert!(!same_bytes(&[1, 2, 3], &[1, 2, 4]));
    assert!(!same_bytes(&[1, 2, 3], &[1, 2]));
    assert!(!same_bytes(&[], &[0]));
}
