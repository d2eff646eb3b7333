//! The registry, the table handle and the bounded walk, run against a small
//! ordered map that stands in for the storage engine.

use std::collections::BTreeMap;

use tablekv::consts::{MAX_USERLAND_KEY_LEN, MIN_USERLAND_TABLE_ID, SEED_ITEM_ID};
use tablekv::db;
use tablekv::error::Error;
use tablekv::table::Table;
use tablekv::update::Update;
use tablekv::utils;

struct Engine {
    map: BTreeMap<Vec<u8>, Vec<u8>>,
}

impl Engine {
    fn open() -> Engine {
        let mut engine = Engine { map: BTreeMap::new() };
        engine.write(&db::registry_anchors());
        engine
    }

    fn get(&self, key: &[u8]) -> Option<Vec<u8>> {
        self.map.get(key).cloned()
    }

    fn apply(&mut self, update: &Update) {
        match update {
            Update::Put { key, value } => {
                self.map.insert(key.to_vec(), value.to_vec());
            }
            Update::Delete { key } => {
                self.map.remove(&key[..]);
            }
            Update::DeleteRange { from_key, to_key } => {
                let doomed: Vec<Vec<u8>> = self
                    .map
                    .range(from_key.to_vec()..to_key.to_vec())
                    .map(|(k, _)| k.clone())
                    .collect();
                for k in doomed {
                    self.map.remove(&k);
                }
            }
        }
    }

    fn write(&mut self, writes: &[Update]) {
        for update in writes {
            self.apply(update);
        }
    }

    fn get_table_id_by_name(&self, name: &str) -> Option<[u8; 4]> {
        let found = self.get(&utils::build_name_to_id_table_inner_key(name));
        db::get_table_id_by_name(found.as_deref()).unwrap()
    }

    fn get_table_name_by_id(&self, id: [u8; 4]) -> Option<String> {
        let found = self.get(&utils::build_id_to_name_table_inner_key(id));
        db::get_table_name_by_id(found.as_deref()).unwrap()
    }

    fn seed(&self) -> Option<Vec<u8>> {
        self.get(&utils::build_info_table_inner_key(SEED_ITEM_ID))
    }

    fn new_table(&mut self, name: &str) -> Result<Table, Error> {
        let found = self.get(&utils::build_name_to_id_table_inner_key(name));
        let seed = self.seed();
        assert!(!db::table_ids_exhausted(seed.as_deref()));
        let opened = db::new_table(name, found.as_deref(), seed.as_deref())?;
        self.write(&opened.writes);
        Ok(opened.table)
    }

    fn create_table(&mut self, name: &str) -> Result<Table, Error> {
        let seed = self.seed();
        assert!(!db::table_ids_exhausted(seed.as_deref()));
        let opened = db::create_table(name, seed.as_deref())?;
        self.write(&opened.writes);
        Ok(opened.table)
    }

    fn generate_next_table_id(&mut self) -> Result<[u8; 4], Error> {
        let seed = self.seed();
        assert!(!db::table_ids_exhausted(seed.as_deref()));
        let (id, write) = db::generate_next_table_id(seed.as_deref())?;
        self.apply(&write);
        Ok(id)
    }

    fn rename_table(&mut self, old_name: &str, new_name: &str) -> Result<(), Error> {
        let found = self.get(&utils::build_name_to_id_table_inner_key(old_name));
        let found_new = self.get(&utils::build_name_to_id_table_inner_key(new_name));
        let writes = db::rename_table(old_name, new_name, found.as_deref(), found_new.as_deref())?;
        self.write(&writes);
        Ok(())
    }

    fn destroy_table(&mut self, name: &str) -> Result<(), Error> {
        let found = self.get(&utils::build_name_to_id_table_inner_key(name));
        let writes = db::destroy_table(name, found.as_deref())?;
        self.write(&writes);
        Ok(())
    }

    fn get_tables(&self) -> Vec<(String, u32)> {
        let start = utils::build_id_to_name_table_inner_key([0, 0, 0, 0])[..4].to_vec();
        let rows: Vec<(Vec<u8>, Vec<u8>)> = self
            .map
            .range(start.clone()..)
            .take_while(|(k, _)| k.starts_with(&start))
            .map(|(k, v)| (k.clone(), v.clone()))
            .collect();
        db::get_tables(&rows).unwrap()
    }

    fn put(&mut self, table: &Table, key: &[u8], value: &[u8]) {
        let write = table.put(key, value);
        self.apply(&write);
    }

    fn delete(&mut self, table: &Table, key: &[u8]) {
        let write = table.delete(key);
        self.apply(&write);
    }

    fn get_in(&self, table: &Table, key: &[u8]) -> Option<Vec<u8>> {
        self.get(&table.get(key))
    }

    fn cursor(&self) -> Cursor {
        Cursor {
            entries: self.map.iter().map(|(k, v)| (k.clone(), v.clone())).collect(),
            pos: None,
            prefix: Vec::new(),
        }
    }
}

/// A cursor over the whole keyspace that, once sent somewhere, stays among
/// the keys that share the first four bytes of where it was sent.
struct Cursor {
    entries: Vec<(Vec<u8>, Vec<u8>)>,
    pos: Option<usize>,
    prefix: Vec<u8>,
}

impl Cursor {
    fn seek(&mut self, key: &[u8]) {
        self.prefix = key[..4].to_vec();
        self.pos = self.entries.iter().position(|(k, _)| &k[..] >= key);
    }

    fn seek_for_prev(&mut self, key: &[u8]) {
        self.prefix = key[..4].to_vec();
        self.pos = self.entries.iter().rposition(|(k, _)| &k[..] <= key);
    }

    fn next(&mut self) {
        self.pos = match self.pos {
            Some(i) if i + 1 < self.entries.len() => Some(i + 1),
            _ => None,
        };
    }

    fn prev(&mut self) {
        self.pos = match self.pos {
            Some(i) if i > 0 => Some(i - 1),
            _ => None,
        };
    }

    fn key(&self) -> Option<&[u8]> {
        match self.pos {
            Some(i) if self.entries[i].0.starts_with(&self.prefix) => Some(&self.entries[i].0),
            _ => None,
        }
    }

    fn value(&self) -> Option<&[u8]> {
        match self.pos {
            Some(i) if self.entries[i].0.starts_with(&self.prefix) => Some(&self.entries[i].1),
            _ => None,
        }
    }
}

fn seek_to_last(cursor: &mut Cursor, table: &Table) {
    let iter = table.iter();
    cursor.seek(iter.seek_to_last());
    if iter.seek_to_last_steps_back(cursor.key()) {
        cursor.prev();
    }
}

#[test]
fn test_new_table() {
    let mut db = Engine::open();
    assert!(db.new_table("huobi.btc.usdt.1min").is_ok())
}

#[test]
fn test_rename_table() {
    let mut db = Engine::open();
    let old_name = "huobi.btc.usdt.1min";
    let new_name = "huobi.btc.usdt.5min";
    let table = db.new_table(old_name).unwrap();
    assert!(db.rename_table(old_name, new_name).is_ok());

    let old_name_to_id_table_inner_key = utils::build_name_to_id_table_inner_key(&old_name);
    let id = db.get(&old_name_to_id_table_inner_key);
    assert!(id.is_none());

    let new_name_to_id_table_inner_key = utils::build_name_to_id_table_inner_key(&new_name);
    let id = db.get(&new_name_to_id_table_inner_key);
    assert_eq!(id.unwrap(), table.id());

    let id_to_name_table_inner_key = utils::build_id_to_name_table_inner_key(table.id());
    let name = db.get(&id_to_name_table_inner_key);
    assert_eq!(String::from_utf8(name.unwrap()).unwrap(), new_name);
}

#[test]
fn test_destroy_table() {
    let mut db = Engine::open();
    let name = "huobi.btc.usdt.1min";
    let table = db.new_table(name).unwrap();
    db.put(&table, b"k111", b"v111");
    let result = db.get_in(&table, b"k111");
    assert_eq!(String::from_utf8(result.unwrap()).unwrap(), "v111");
    db.destroy_table(name).unwrap();
    let result = db.get_in(&table, b"k111");
    assert!(result.is_none());
}

#[test]
fn test_get_tables() {
    let mut db = Engine::open();
    let name0 = "huobi.btc.usdt.1min".to_owned();
    let name1 = "huobi.btc.usdt.3min".to_owned();
    let name2 = "huobi.btc.usdt.5min".to_owned();
    let table0 = db.new_table(&name0).unwrap();
    let table1 = db.new_table(&name1).unwrap();
    let table2 = db.new_table(&name2).unwrap();
    let id0 = utils::u8x4_to_u32(table0.id());
    let id1 = utils::u8x4_to_u32(table1.id());
    let id2 = utils::u8x4_to_u32(table2.id());
    let result = db.get_tables();
    assert_eq!(result, vec![(name0, id0), (name1, id1), (name2, id2)]);
}

#[test]
fn test_create_table() {
    let mut db = Engine::open();
    let table = db.create_table("huobi.btc.usdt.1m").unwrap();
    assert_eq!(table.id(), MIN_USERLAND_TABLE_ID);
    let table = db.create_table("huobi.btc.usdt.5m").unwrap();
    assert_eq!(table.id(), [0, 0, 4, 1]);
}

#[test]
fn test_generate_next_table_id() {
    let mut db = Engine::open();
    let id = db.generate_next_table_id().unwrap();
    assert_eq!(id, MIN_USERLAND_TABLE_ID);
}

#[test]
fn test_register_table() {
    let mut db = Engine::open();
    let name = "huobi.btc.usdt.1m";
    let name_clone = name.clone();
    let _table = db.new_table(name).unwrap();
    let name_to_id_table_inner_key = utils::build_name_to_id_table_inner_key(&name_clone);
    let id_to_name_table_inner_key =
        utils::build_id_to_name_table_inner_key(MIN_USERLAND_TABLE_ID);
    let writes = db::register_table(
        name_to_id_table_inner_key.clone(),
        MIN_USERLAND_TABLE_ID,
        id_to_name_table_inner_key.clone(),
        &name_clone,
    );
    db.write(&writes);

    let id = db.get(&name_to_id_table_inner_key);
    assert_eq!(id.unwrap(), [0, 0, 4, 0]);

    let name = db.get(&id_to_name_table_inner_key);
    assert_eq!(String::from_utf8(name.unwrap()).unwrap(), "huobi.btc.usdt.1m");
}

#[test]
fn test_seek() {
    let mut db = Engine::open();
    let name = "huobi.btc.usdt.1m";
    let table = db.new_table(name).unwrap();
    let k1 = b"k1";
    let v1 = b"v1";
    let k2 = b"k2";
    let v2 = b"v2";
    let k3 = b"k3";
    let v3 = b"v3";
    db.put(&table, k1, v1);
    db.put(&table, k2, v2);
    db.put(&table, k3, v3);
    let iter = table.iter();
    let mut cursor = db.cursor();
    cursor.seek(&iter.seek_to_first());
    assert!(iter.is_valid(cursor.key()));
    assert_eq!(k1, iter.key(cursor.key()).unwrap());
}

#[test]
fn test_put() {
    let mut db = Engine::open();
    let name = "huobi.btc.usdt.1min";
    let table = db.new_table(name).unwrap();
    db.put(&table, b"k111", b"v111");
    assert_eq!(
        db.get(&[0, 0, 4, 0, b'k', b'1', b'1', b'1']),
        Some(b"v111".to_vec())
    );
}

#[test]
fn test_get() {
    let mut db = Engine::open();
    let name = "huobi.btc.usdt.1min";
    let table = db.new_table(name).unwrap();
    db.put(&table, b"k111", b"v111");
    let result = db.get_in(&table, b"k111");
    assert_eq!(String::from_utf8(result.unwrap()).unwrap(), "v111");
}

#[test]
fn test_delete() {
    let mut db = Engine::open();
    let name = "huobi.btc.usdt.1min";
    let table = db.new_table(name).unwrap();
    db.put(&table, b"k111", b"v111");
    assert!(db.get_in(&table, b"k111").is_some());
    db.delete(&table, b"k111");
    let result = db.get_in(&table, b"k111");
    assert!(result.is_none());
}

#[test]
fn ids_grow_with_each_new_table() {
    let mut db = Engine::open();
    let mut last = 0u32;
    for (i, name) in ["a", "b", "c", "d", "e"].iter().enumerate() {
        let id = utils::u8x4_to_u32(db.new_table(name).unwrap().id());
        assert_eq!(id, 1024 + i as u32);
        assert!(id > last);
        last = id;
    }
}

#[test]
fn opening_a_table_twice_gives_the_same_id_and_writes_nothing() {
    let mut db = Engine::open();
    let first = db.new_table("A").unwrap().id();
    let before = db.map.clone();
    let found = db.get(&utils::build_name_to_id_table_inner_key("A"));
    let opened = db::new_table("A", found.as_deref(), db.seed().as_deref()).unwrap();
    assert!(opened.writes.is_empty());
    assert_eq!(opened.table.id(), first);
    assert_eq!(db.map, before);
}

#[test]
fn create_then_lookup() {
    let mut db = Engine::open();
    let table = db.new_table("A").unwrap();
    assert_eq!(db.get_table_id_by_name("A"), Some(table.id()));
    assert_eq!(db.get_table_name_by_id(table.id()), Some("A".to_string()));
    assert_eq!(db.get_table_id_by_name("B"), None);
    assert_eq!(db.get_table_name_by_id([0, 0, 4, 1]), None);
}

#[test]
fn creating_a_table_stores_counter_records_and_anchor() {
    let opened = db::create_table("A", None).unwrap();
    let anchor = utils::build_userland_table_anchor([0, 0, 4, 0], MAX_USERLAND_KEY_LEN);
    assert_eq!(
        opened.writes,
        vec![
            Update::Put { key: vec![0, 0, 0, 2, 0, 0].into(), value: vec![0, 0, 4, 0].into() },
            Update::Put { key: vec![0, 0, 0, 0, b'A'].into(), value: vec![0, 0, 4, 0].into() },
            Update::Put { key: vec![0, 0, 0, 1, 0, 0, 4, 0].into(), value: vec![b'A'].into() },
            Update::Put { key: anchor.clone(), value: anchor },
        ]
    );
    assert_eq!(opened.table.id(), [0, 0, 4, 0]);
    assert_eq!(
        opened.table.anchor(),
        &vec![0, 0, 4, 0, 255, 255, 255, 255, 255]
    );
}

#[test]
fn rename_keeps_id_and_data() {
    let mut db = Engine::open();
    let table = db.new_table("A").unwrap();
    db.put(&table, b"k", b"v");
    db.rename_table("A", "B").unwrap();
    assert_eq!(db.get_table_id_by_name("A"), None);
    assert_eq!(db.get_table_id_by_name("B"), Some(table.id()));
    assert_eq!(db.get_table_name_by_id(table.id()), Some("B".to_string()));
    let again = db.new_table("B").unwrap();
    assert_eq!(again.id(), table.id());
    assert_eq!(db.get_in(&again, b"k"), Some(b"v".to_vec()));
}

#[test]
fn rename_writes_four_records() {
    let id = [0u8, 0, 4, 7];
    let writes = db::rename_table("A", "B", Some(&id), None).unwrap();
    assert_eq!(
        writes,
        vec![
            Update::Delete { key: vec![0, 0, 0, 0, b'A'].into() },
            Update::Delete { key: vec![0, 0, 0, 1, 0, 0, 4, 7].into() },
            Update::Put { key: vec![0, 0, 0, 0, b'B'].into(), value: vec![0, 0, 4, 7].into() },
            Update::Put { key: vec![0, 0, 0, 1, 0, 0, 4, 7].into(), value: vec![b'B'].into() },
        ]
    );
}

#[test]
fn rename_to_the_same_name_keeps_the_table() {
    let mut db = Engine::open();
    let table = db.new_table("A").unwrap();
    db.rename_table("A", "A").unwrap();
    assert_eq!(db.get_table_id_by_name("A"), Some(table.id()));
    assert_eq!(db.get_table_name_by_id(table.id()), Some("A".to_string()));
}

#[test]
fn rename_and_destroy_of_an_unknown_table_do_nothing() {
    let mut db = Engine::open();
    db.new_table("A").unwrap();
    let before = db.map.clone();
    assert!(db::rename_table("X", "Y", None, None).unwrap().is_empty());
    assert!(db::rename_table("X", "Y", None, Some(&[0, 0, 4, 0])).unwrap().is_empty());
    assert!(db::rename_table("X", "Y", None, Some(&[1])).unwrap().is_empty());
    assert!(db::destroy_table("X", None).unwrap().is_empty());
    db.rename_table("X", "Y").unwrap();
    db.destroy_table("X").unwrap();
    assert_eq!(db.map, before);
}

#[test]
fn destroy_writes_two_deletes_and_a_range() {
    let id = [0u8, 0, 4, 7];
    let writes = db::destroy_table("A", Some(&id)).unwrap();
    assert_eq!(
        writes,
        vec![
            Update::Delete { key: vec![0, 0, 0, 0, b'A'].into() },
            Update::Delete { key: vec![0, 0, 0, 1, 0, 0, 4, 7].into() },
            Update::DeleteRange {
                from_key: vec![0, 0, 4, 7].into(),
                to_key: vec![0, 0, 4, 7, 255, 255, 255, 255, 255].into(),
            },
        ]
    );
}

#[test]
fn destroy_removes_records_and_data_and_the_id_is_not_handed_out_again() {
    let mut db = Engine::open();
    let a = db.new_table("A").unwrap();
    let b = db.new_table("B").unwrap();
    db.put(&a, b"k", b"v");
    db.put(&a, &[255, 255, 255, 255], b"top");
    db.put(&b, b"k", b"w");
    db.destroy_table("A").unwrap();
    assert_eq!(db.get_in(&a, b"k"), None);
    assert_eq!(db.get_in(&a, &[255, 255, 255, 255]), None);
    assert_eq!(db.get_in(&b, b"k"), Some(b"w".to_vec()));
    assert_eq!(db.get_table_id_by_name("A"), None);
    assert_eq!(db.get_table_name_by_id(a.id()), None);
    let again = db.new_table("A").unwrap();
    assert_eq!(again.id(), [0, 0, 4, 2]);
    assert_eq!(db.get_in(&again, b"k"), None);
}

#[test]
fn listing_follows_creation_order() {
    let mut db = Engine::open();
    db.new_table("x").unwrap();
    db.new_table("y").unwrap();
    db.new_table("z").unwrap();
    assert_eq!(
        db.get_tables(),
        vec![("x".to_string(), 1024), ("y".to_string(), 1025), ("z".to_string(), 1026)]
    );
}

#[test]
fn listing_of_an_empty_registry_is_empty() {
    let db = Engine::open();
    assert_eq!(db.get_tables(), vec![]);
    assert_eq!(db::get_tables(&vec![]), Ok(vec![]));
}

#[test]
fn listing_ends_at_the_anchor_and_outside_the_table() {
    let rows = vec![
        (vec![0, 0, 0, 1, 0, 0, 4, 0], b"x".to_vec()),
        (vec![0, 0, 0, 1, 255, 255, 255, 255], vec![0, 0, 0, 1, 255, 255, 255, 255]),
        (vec![0, 0, 0, 1, 0, 0, 4, 1], b"y".to_vec()),
    ];
    assert_eq!(db::get_tables(&rows), Ok(vec![("x".to_string(), 1024)]));
    let rows = vec![
        (vec![0, 0, 0, 1, 0, 0, 4, 0], b"x".to_vec()),
        (vec![0, 0, 0, 2, 0, 0], vec![0, 0, 4, 0]),
    ];
    assert_eq!(db::get_tables(&rows), Ok(vec![("x".to_string(), 1024)]));
    let rows = vec![(vec![0, 0, 0], b"x".to_vec())];
    assert_eq!(db::get_tables(&rows), Ok(vec![]));
}

#[test]
fn listing_fails_on_a_broken_entry() {
    let rows = vec![
        (vec![0, 0, 0, 1, 0, 0, 4, 0], b"x".to_vec()),
        (vec![0, 0, 0, 1, 0, 0, 4], b"y".to_vec()),
    ];
    assert_eq!(db::get_tables(&rows), Err(Error::CorruptTableId));
    let rows = vec![(vec![0, 0, 0, 1, 0, 0, 4, 0, 0], b"y".to_vec())];
    assert_eq!(db::get_tables(&rows), Err(Error::CorruptTableId));
    let rows = vec![
        (vec![0, 0, 0, 1, 0, 0, 4, 0], b"x".to_vec()),
        (vec![0, 0, 0, 1, 0, 0, 4, 1], vec![0xC3, 0x28]),
    ];
    assert_eq!(db::get_tables(&rows), Err(Error::CorruptTableName));
}

#[test]
fn lookups_read_what_is_stored() {
    assert_eq!(db::get_table_id_by_name(None), Ok(None));
    assert_eq!(db::get_table_id_by_name(Some(&[0, 0, 4, 0])), Ok(Some([0, 0, 4, 0])));
    assert_eq!(db::get_table_id_by_name(Some(&[0, 0, 4])), Err(Error::CorruptTableId));
    assert_eq!(db::get_table_id_by_name(Some(&[0, 0, 4, 0, 0])), Err(Error::CorruptTableId));
    assert_eq!(db::get_table_name_by_id(None), Ok(None));
    assert_eq!(
        db::get_table_name_by_id(Some("tab\u{e9}".as_bytes())),
        Ok(Some("tab\u{e9}".to_string()))
    );
    assert_eq!(db::get_table_name_by_id(Some(&[])), Ok(Some(String::new())));
    assert_eq!(db::get_table_name_by_id(Some(&[0xFF])), Err(Error::CorruptTableName));
}

#[test]
fn a_broken_record_fails_rename_destroy_and_open() {
    assert_eq!(db::rename_table("A", "B", Some(&[1, 2]), None), Err(Error::CorruptTableId));
    assert_eq!(
        db::rename_table("A", "B", Some(&[0, 0, 4, 0]), Some(&[1, 2])),
        Err(Error::CorruptTableId)
    );
    assert_eq!(db::destroy_table("A", Some(&[1, 2])), Err(Error::CorruptTableId));
    assert_eq!(db::new_table("A", Some(&[1, 2]), None).err(), Some(Error::CorruptTableId));
}

#[test]
fn next_id_follows_the_counter() {
    let (id, write) = db::generate_next_table_id(None).unwrap();
    assert_eq!(id, [0, 0, 4, 0]);
    assert_eq!(
        write,
        Update::Put { key: vec![0, 0, 0, 2, 0, 0].into(), value: vec![0, 0, 4, 0].into() }
    );
    let (id, write) = db::generate_next_table_id(Some(&[0, 0, 4, 255])).unwrap();
    assert_eq!(id, [0, 0, 5, 0]);
    assert_eq!(
        write,
        Update::Put { key: vec![0, 0, 0, 2, 0, 0].into(), value: vec![0, 0, 5, 0].into() }
    );
    let (id, _) = db::generate_next_table_id(Some(&[255, 255, 255, 252])).unwrap();
    assert_eq!(id, [255, 255, 255, 253]);
}

#[test]
fn ids_are_exhausted_at_the_top_of_the_range() {
    assert!(db::table_ids_exhausted(Some(&[255, 255, 255, 253])));
    assert!(db::table_ids_exhausted(Some(&[255, 255, 255, 254])));
    assert!(db::table_ids_exhausted(Some(&[255, 255, 255, 255])));
    assert!(!db::table_ids_exhausted(Some(&[255, 255, 255, 252])));
    assert!(!db::table_ids_exhausted(Some(&[0, 0, 4, 0])));
    assert!(!db::table_ids_exhausted(None));
    assert!(!db::table_ids_exhausted(Some(&[255, 255, 255])));
    assert!(!db::table_ids_exhausted(Some(&[255, 255, 255, 255, 255])));
}

#[test]
fn rename_onto_a_registered_name_keeps_the_records_paired() {
    let mut db = Engine::open();
    let a = db.new_table("A").unwrap();
    let b = db.new_table("B").unwrap();
    let c = db.new_table("C").unwrap();
    db.put(&b, b"k", b"v");
    let writes = db::rename_table("A", "B", Some(&a.id()), Some(&b.id())).unwrap();
    assert_eq!(
        writes,
        vec![
            Update::Delete { key: vec![0, 0, 0, 0, b'A'].into() },
            Update::Delete { key: vec![0, 0, 0, 1, 0, 0, 4, 0].into() },
            Update::Delete { key: vec![0, 0, 0, 1, 0, 0, 4, 1].into() },
            Update::Put { key: vec![0, 0, 0, 0, b'B'].into(), value: vec![0, 0, 4, 0].into() },
            Update::Put { key: vec![0, 0, 0, 1, 0, 0, 4, 0].into(), value: vec![b'B'].into() },
        ]
    );
    db.rename_table("A", "B").unwrap();
    assert_eq!(db.get_table_id_by_name("A"), None);
    assert_eq!(db.get_table_id_by_name("B"), Some(a.id()));
    assert_eq!(db.get_table_name_by_id(a.id()), Some("B".to_string()));
    assert_eq!(db.get_table_name_by_id(b.id()), None);
    assert_eq!(db.get_table_id_by_name("C"), Some(c.id()));
    assert_eq!(db.get_table_name_by_id(c.id()), Some("C".to_string()));
    assert_eq!(db.get_tables(), vec![("B".to_string(), 1024), ("C".to_string(), 1026)]);
    assert_eq!(db.get_in(&b, b"k"), Some(b"v".to_vec()));
}

#[test]
fn rename_to_the_same_name_writes_the_four_records() {
    let id = [0u8, 0, 4, 7];
    let writes = db::rename_table("A", "A", Some(&id), Some(&id)).unwrap();
    assert_eq!(
        writes,
        vec![
            Update::Delete { key: vec![0, 0, 0, 0, b'A'].into() },
            Update::Delete { key: vec![0, 0, 0, 1, 0, 0, 4, 7].into() },
            Update::Put { key: vec![0, 0, 0, 0, b'A'].into(), value: vec![0, 0, 4, 7].into() },
            Update::Put { key: vec![0, 0, 0, 1, 0, 0, 4, 7].into(), value: vec![b'A'].into() },
        ]
    );
}

#[test]
fn next_id_rejects_a_broken_counter() {
    assert_eq!(db::generate_next_table_id(Some(&[0, 4, 0])), Err(Error::CorruptSeed));
    assert_eq!(db::generate_next_table_id(Some(&[0, 0, 4, 0, 0])), Err(Error::CorruptSeed));
    assert_eq!(db::generate_next_table_id(Some(&[])), Err(Error::CorruptSeed));
    assert_eq!(db::new_table("A", None, Some(&[1])).err(), Some(Error::CorruptSeed));
}

#[test]
fn registry_anchors_are_stored_under_themselves() {
    let writes = db::registry_anchors();
    let mut name_to_id = vec![0u8, 0, 0, 0];
    name_to_id.extend(vec![255u8; 1025]);
    let id_to_name = vec![0u8, 0, 0, 1, 255, 255, 255, 255];
    assert_eq!(
        writes,
        vec![
            Update::Put { key: name_to_id.clone().into(), value: name_to_id.into() },
            Update::Put { key: id_to_name.clone().into(), value: id_to_name.into() },
        ]
    );
}

#[test]
fn walk_yields_the_keys_in_order_and_ends_at_the_anchor() {
    let mut db = Engine::open();
    let table = db.new_table("t").unwrap();
    let other = db.new_table("u").unwrap();
    db.put(&table, b"k2", b"v2");
    db.put(&table, b"k3", b"v3");
    db.put(&table, b"k1", b"v1");
    db.put(&other, b"k0", b"w0");
    let iter = table.iter();
    let mut cursor = db.cursor();
    cursor.seek(&iter.seek_to_first());
    let mut seen: Vec<(Vec<u8>, Vec<u8>)> = Vec::new();
    while iter.is_valid(cursor.key()) {
        seen.push((
            iter.key(cursor.key()).unwrap().to_vec(),
            cursor.value().unwrap().to_vec(),
        ));
        cursor.next();
    }
    assert_eq!(
        seen,
        vec![
            (b"k1".to_vec(), b"v1".to_vec()),
            (b"k2".to_vec(), b"v2".to_vec()),
            (b"k3".to_vec(), b"v3".to_vec()),
        ]
    );
    assert_eq!(cursor.key(), Some(&table.anchor()[..]));
    assert!(!iter.is_valid(cursor.key()));
}

#[test]
fn seek_to_last_lands_on_the_last_key_or_nowhere() {
    let mut db = Engine::open();
    let table = db.new_table("t").unwrap();
    let empty = db.new_table("u").unwrap();
    db.put(&table, b"k1", b"v1");
    db.put(&table, b"k3", b"v3");
    let mut cursor = db.cursor();
    seek_to_last(&mut cursor, &table);
    let iter = table.iter();
    assert!(iter.is_valid(cursor.key()));
    assert_eq!(iter.key(cursor.key()), Some(&b"k3"[..]));
    cursor.prev();
    assert_eq!(iter.key(cursor.key()), Some(&b"k1"[..]));
    cursor.prev();
    assert!(!iter.is_valid(cursor.key()));

    let mut cursor = db.cursor();
    seek_to_last(&mut cursor, &empty);
    assert!(!empty.iter().is_valid(cursor.key()));
}

#[test]
fn seek_and_seek_for_prev_go_to_the_encoded_key() {
    let mut db = Engine::open();
    let table = db.new_table("t").unwrap();
    db.put(&table, b"k1", b"v1");
    db.put(&table, b"k3", b"v3");
    let iter = table.iter();
    assert_eq!(iter.seek(b"k2"), vec![0, 0, 4, 0, b'k', b'2']);
    assert_eq!(iter.seek_for_prev(b"k2"), vec![0, 0, 4, 0, b'k', b'2']);
    assert_eq!(iter.seek_to_first(), vec![0, 0, 4, 0]);
    assert_eq!(iter.seek_to_last(), &vec![0, 0, 4, 0, 255, 255, 255, 255, 255]);
    let mut cursor = db.cursor();
    cursor.seek(&iter.seek(b"k2"));
    assert_eq!(iter.key(cursor.key()), Some(&b"k3"[..]));
    cursor.seek_for_prev(&iter.seek_for_prev(b"k2"));
    assert_eq!(iter.key(cursor.key()), Some(&b"k1"[..]));
    cursor.seek(&iter.seek(b"k4"));
    assert!(!iter.is_valid(cursor.key()));
}

#[test]
fn is_valid_is_false_at_the_anchor_and_off_the_end() {
    let table = Table::new([0, 0, 4, 0]);
    let iter = table.iter();
    assert!(!iter.is_valid(None));
    assert!(!iter.is_valid(Some(&[0, 0, 4, 0, 255, 255, 255, 255, 255])));
    assert!(iter.is_valid(Some(&[0, 0, 4, 0, 255, 255, 255, 255])));
    assert!(iter.is_valid(Some(&[0, 0, 4, 0])));
    assert!(!iter.seek_to_last_steps_back(None));
    assert!(iter.seek_to_last_steps_back(Some(&[0, 0, 4, 0, 255, 255, 255, 255, 255])));
    assert_eq!(iter.key(None), None);
    assert_eq!(iter.key(Some(&[0, 0, 4])), None);
    assert_eq!(iter.key(Some(&[0, 0, 4, 0])), Some(&[][..]));
    assert_eq!(iter.key(Some(&[0, 0, 4, 0, 9, 8])), Some(&[9u8, 8][..]));
}

#[test]
fn batch_encodes_its_keys_and_keeps_the_order() {
    let table = Table::new([0, 0, 4, 5]);
    let mut batch = table.batch();
    assert!(batch.ops().is_empty());
    batch.put(b"k1", b"v1");
    batch.delete(b"k2");
    batch.delete_range(b"a", b"z");
    batch.put(b"", b"");
    let expected = vec![
        Update::Put { key: vec![0, 0, 4, 5, b'k', b'1'].into(), value: b"v1".to_vec().into() },
        Update::Delete { key: vec![0, 0, 4, 5, b'k', b'2'].into() },
        Update::DeleteRange {
            from_key: vec![0, 0, 4, 5, b'a'].into(),
            to_key: vec![0, 0, 4, 5, b'z'].into(),
        },
        Update::Put { key: vec![0, 0, 4, 5].into(), value: Vec::<u8>::new().into() },
    ];
    assert_eq!(batch.ops(), &expected);
    assert_eq!(table.write(batch), expected);
}

#[test]
fn a_committed_batch_is_visible_as_a_whole() {
    let mut db = Engine::open();
    let table = db.new_table("t").unwrap();
    db.put(&table, b"a", b"0");
    db.put(&table, b"b", b"0");
    db.put(&table, b"c", b"0");
    let mut batch = table.batch();
    batch.delete_range(b"a", b"c");
    batch.put(b"d", b"1");
    let writes = table.write(batch);
    db.write(&writes);
    assert_eq!(db.get_in(&table, b"a"), None);
    assert_eq!(db.get_in(&table, b"b"), None);
    assert_eq!(db.get_in(&table, b"c"), Some(b"0".to_vec()));
    assert_eq!(db.get_in(&table, b"d"), Some(b"1".to_vec()));
}

#[test]
fn table_handle_encodes_single_writes() {
    let table = Table::new([0, 0, 4, 0]);
    assert_eq!(
        table.put(b"k", b"v"),
        Update::Put { key: vec![0, 0, 4, 0, b'k'].into(), value: vec![b'v'].into() }
    );
    assert_eq!(table.delete(b"k"), Update::Delete { key: vec![0, 0, 4, 0, b'k'].into() });
    assert_eq!(table.get(b"k"), vec![0, 0, 4, 0, b'k']);
    assert_eq!(table.id(), [0, 0, 4, 0]);
}
