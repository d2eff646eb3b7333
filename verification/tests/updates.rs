use tablekv::error::Error;
use tablekv::table::Table;
use tablekv::update::Update;
use tablekv::updates::Updates;
use tablekv::utils::{build_delete_range_hint, extract_delete_range_hint};

fn boxed(bytes: &[u8]) -> Box<[u8]> {
    bytes.to_vec().into_boxed_slice()
}

#[test]
fn new_updates_are_empty() {
    let updates = Updates::new();
    assert_eq!(updates.sn, 0);
    assert!(updates.vec.is_empty());
}

#[test]
fn put_and_delete_decode_in_order() {
    let k = [0u8, 0, 4, 0, b'k'];
    let k2 = [0u8, 0, 4, 0, b'j'];
    let mut updates = Updates::new();
    updates.sn = 9;
    updates.put(boxed(&k), boxed(b"v"));
    assert_eq!(updates.delete(boxed(&k2)), Ok(()));
    assert_eq!(updates.sn, 9);
    assert_eq!(
        updates.vec,
        vec![
            Update::Put { key: k.to_vec().into(), value: b"v".to_vec().into() },
            Update::Delete { key: k2.to_vec().into() },
        ]
    );
}

#[test]
fn delete_range_hint_decodes_to_a_range() {
    let from = [0u8, 0, 4, 0];
    let to = [0u8, 0, 4, 0, 255, 255, 255, 255, 255];
    let hint = build_delete_range_hint(&from, &to).unwrap();
    assert_eq!(
        hint,
        vec![255, 255, 255, 255, 0, 0, 0, 4, 0, 0, 4, 0, 0, 0, 4, 0, 255, 255, 255, 255, 255]
    );
    let mut updates = Updates::new();
    assert_eq!(updates.delete(boxed(&hint)), Ok(()));
    assert_eq!(
        updates.vec,
        vec![Update::DeleteRange { from_key: from.to_vec().into(), to_key: to.to_vec().into() }]
    );
}

#[test]
fn malformed_delete_range_hint_is_rejected_and_changes_nothing() {
    let mut updates = Updates::new();
    updates.put(boxed(&[0, 0, 4, 0]), boxed(&[1]));
    let broken: Vec<Vec<u8>> = vec![
        vec![255, 255, 255, 255],
        vec![255, 255, 255, 255, 0, 0, 0],
        vec![255, 255, 255, 255, 0, 0, 0, 4, 0, 0, 4, 0],
        vec![255, 255, 255, 255, 0, 0, 0, 4, 0, 0, 4, 0, 0, 0, 4],
        vec![255, 255, 255, 255, 0, 0, 0, 3, 0, 0, 4, 0, 0, 4, 0],
        vec![255, 255, 255, 255, 0, 0, 0, 9, 0, 0, 4, 0, 0, 0, 4, 0],
        vec![255, 255, 255, 255, 255, 255, 255, 255, 0, 0, 4, 0, 0, 0, 4, 0],
    ];
    for key in broken {
        assert_eq!(updates.delete(boxed(&key)), Err(Error::MalformedDeleteRangeHint));
        assert_eq!(extract_delete_range_hint(&key), None);
    }
    assert_eq!(
        updates.vec,
        vec![Update::Put { key: vec![0, 0, 4, 0].into(), value: vec![1].into() }]
    );
}

#[test]
fn short_keys_are_plain_deletes() {
    let mut updates = Updates::new();
    assert_eq!(updates.delete(boxed(&[])), Ok(()));
    assert_eq!(updates.delete(boxed(&[255, 255, 255])), Ok(()));
    assert_eq!(updates.delete(boxed(&[255, 255, 255, 254, 1])), Ok(()));
    assert_eq!(
        updates.vec,
        vec![
            Update::Delete { key: Vec::<u8>::new().into() },
            Update::Delete { key: vec![255, 255, 255].into() },
            Update::Delete { key: vec![255, 255, 255, 254, 1].into() },
        ]
    );
}

#[test]
fn hint_round_trip() {
    let from = [0u8, 0, 4, 0, 1, 2, 3];
    let to = [0u8, 0, 4, 0];
    let hint = build_delete_range_hint(&from, &to).unwrap();
    let (f, t) = extract_delete_range_hint(&hint).unwrap();
    assert_eq!(f, from.to_vec());
    assert_eq!(t, to.to_vec());
}

#[test]
fn hint_needs_two_stored_keys() {
    assert_eq!(build_delete_range_hint(&[0, 0, 4], &[0, 0, 4, 0]), None);
    assert_eq!(build_delete_range_hint(&[0, 0, 4, 0], &[0, 0, 4]), None);
    assert_eq!(build_delete_range_hint(&[], &[]), None);
}

#[test]
fn replay_decodes_a_batch() {
    let table = Table::new([0, 0, 4, 0]);
    let hint = build_delete_range_hint(&[0, 0, 4, 0], &[0, 0, 4, 1]).unwrap();
    let batch = vec![
        table.put(b"k", b"v"),
        table.delete(b"k2"),
        Update::Delete { key: hint },
    ];
    let updates = Updates::replay(42, &batch).unwrap();
    assert_eq!(updates.sn, 42);
    assert_eq!(
        updates.vec,
        vec![
            Update::Put { key: vec![0, 0, 4, 0, b'k'].into(), value: vec![b'v'].into() },
            Update::Delete { key: vec![0, 0, 4, 0, b'k', b'2'].into() },
            Update::DeleteRange {
                from_key: vec![0, 0, 4, 0].into(),
                to_key: vec![0, 0, 4, 1].into(),
            },
        ]
    );
}

#[test]
fn replay_of_an_empty_batch() {
    let updates = Updates::replay(7, &vec![]).unwrap();
    assert_eq!(updates.sn, 7);
    assert!(updates.vec.is_empty());
}

#[test]
fn replay_fails_on_a_malformed_hint() {
    let table = Table::new([0, 0, 4, 0]);
    let batch = vec![
        table.put(b"k", b"v"),
        Update::Delete { key: vec![255, 255, 255, 255, 1].into() },
        table.delete(b"k2"),
    ];
    assert_eq!(Updates::replay(1, &batch).err(), Some(Error::MalformedDeleteRangeHint));
}

#[test]
fn replay_keeps_a_range_delete_as_it_is() {
    let batch = vec![Update::DeleteRange {
        from_key: vec![255, 255, 255, 255].into(),
        to_key: vec![1].into(),
    }];
    let updates = Updates::replay(3, &batch).unwrap();
    assert_eq!(updates.vec, batch);
}
