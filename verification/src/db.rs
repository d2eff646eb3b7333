use vstd::prelude::*;
use vstd::utf8::{decode_utf8, encode_utf8, valid_utf8};
use bytes::Bytes;
use crate::buffer::{bytes_as_slice, bytes_from_slice, bytes_view};
use crate::consts::{
    TableId, DELETE_RANGE_HINT_TABLE_ID, ID_TO_NAME_TABLE_ID, INFO_TABLE_ID,
    MAX_USERLAND_KEY_LEN, MAX_USERLAND_TABLE_ID, MIN_USERLAND_TABLE_ID, NAME_TO_ID_TABLE_ID,
    SEED_ITEM_ID,
};
use crate::engine::{spec_apply, spec_commit, spec_get, Store};
use crate::error::Error;
use crate::order::{
    lemma_be_bytes_round_trip, lemma_be_order, lemma_be_round_trip, lemma_lex_le_extension,
    lemma_lex_lt_common_prefix, lex_lt,
};
use crate::table::Table;
use crate::update::{Update, UpdateView};
use crate::utils::{
    build_id_to_name_table_anchor, build_id_to_name_table_inner_key, build_info_table_inner_key,
    build_name_to_id_table_anchor, build_name_to_id_table_inner_key, build_userland_table_anchor,
    extract_key, extract_table_id, lemma_anchor_above_keys, lemma_inner_key_injective, same_bytes,
    spec_anchor, spec_be_to_u32, spec_extract_key, spec_extract_table_id, spec_inner_key,
    spec_u32_to_be, u32_to_u8x4, u8s_to_u32, u8x4_to_u32,
};

verus! {

////////////////////////////////////////////////////////////////////////////////
// the registry's records
////////////////////////////////////////////////////////////////////////////////

/// The key of the record that maps `name` to its id.
pub open spec fn spec_name_key(name: Seq<char>) -> Seq<u8> {
    spec_inner_key(NAME_TO_ID_TABLE_ID@, encode_utf8(name))
}

/// The key of the record that maps `id` to its name.
pub open spec fn spec_id_key(id: Seq<u8>) -> Seq<u8> {
    spec_inner_key(ID_TO_NAME_TABLE_ID@, id)
}

/// The key of the record that holds the id counter.
pub open spec fn spec_seed_key() -> Seq<u8> {
    spec_inner_key(INFO_TABLE_ID@, SEED_ITEM_ID@)
}

/// What a point lookup found, as a byte sequence.
pub open spec fn spec_stored(stored: Option<&[u8]>) -> Option<Seq<u8>> {
    match stored {
        Some(v) => Some(v@),
        None => None,
    }
}

/// How long a table name may be: its key must fit a buffer.
pub open spec fn spec_name_fits(name: Seq<char>) -> bool {
    4 + encode_utf8(name).len() <= isize::MAX
}

////////////////////////////////////////////////////////////////////////////////
// lookups
////////////////////////////////////////////////////////////////////////////////

/// The id that the name-to-id record `stored` holds: none where there is no
/// record, an error where the record is not four bytes long.
pub open spec fn spec_table_id_of(stored: Option<Seq<u8>>) -> Result<Option<Seq<u8>>, Error> {
    match stored {
        None => Ok(None),
        Some(v) => if v.len() == 4 {
            Ok(Some(v))
        } else {
            Err(Error::CorruptTableId)
        },
    }
}

/// Reads the result of looking a table name up in the name-to-id table.
pub fn get_table_id_by_name(stored: Option<&[u8]>) -> (r: Result<Option<TableId>, Error>)
    ensures
        match spec_table_id_of(spec_stored(stored)) {
            Ok(None) => r == Ok::<Option<TableId>, Error>(None),
            Ok(Some(v)) => r matches Ok(Some(id)) && id@ == v,
            Err(e) => r == Err::<Option<TableId>, Error>(e),
        },
{
    match stored {
        None => Ok(None),
        Some(v) => {
            if v.len() == 4 {
                let id = extract_table_id(v);
                assert(id@ =~= v@);
                Ok(Some(id))
            } else {
                Err(Error::CorruptTableId)
            }
        },
    }
}

/// `std::str::from_utf8`: the string that the bytes encode, where they are
/// valid UTF-8, and nothing where they are not.
#[verifier::external_body]
fn str_from_utf8(bytes: &[u8]) -> (r: Option<&str>)
    ensures
        r is Some <==> valid_utf8(bytes@),
        r matches Some(s) ==> encode_utf8(s@) == bytes@,
{
    match std::str::from_utf8(bytes) {
        Ok(s) => Some(s),
        Err(_) => None,
    }
}

/// Reads a stored table name.
fn decode_name(value: &[u8]) -> (r: Option<String>)
    ensures
        r is Some <==> valid_utf8(value@),
        r matches Some(name) ==> name@ == decode_utf8(value@),
{
    match str_from_utf8(value) {
        Some(s) => {
            proof {
                vstd::utf8::encode_utf8_decode_utf8(s@);
            }
            Some(s.to_owned())
        },
        None => None,
    }
}

/// The name that the id-to-name record `stored` holds: none where there is
/// no record, an error where the record is not UTF-8.
pub open spec fn spec_table_name_of(stored: Option<Seq<u8>>) -> Result<Option<Seq<char>>, Error> {
    match stored {
        None => Ok(None),
        Some(v) => if valid_utf8(v) {
            Ok(Some(decode_utf8(v)))
        } else {
            Err(Error::CorruptTableName)
        },
    }
}

/// Reads the result of looking a table id up in the id-to-name table.
pub fn get_table_name_by_id(stored: Option<&[u8]>) -> (r: Result<Option<String>, Error>)
    ensures
        match spec_table_name_of(spec_stored(stored)) {
            Ok(None) => r == Ok::<Option<String>, Error>(None),
            Ok(Some(name)) => r matches Ok(Some(s)) && s@ == name,
            Err(e) => r == Err::<Option<String>, Error>(e),
        },
{
    match stored {
        None => Ok(None),
        Some(v) => match decode_name(v) {
            Some(name) => Ok(Some(name)),
            None => Err(Error::CorruptTableName),
        },
    }
}

////////////////////////////////////////////////////////////////////////////////
// id allocation
////////////////////////////////////////////////////////////////////////////////

/// Whether the stored counter `seed` allows no further id: its successor
/// would reach the top of the userland range. Ids are never handed out
/// twice, so there is no way on from here.
pub open spec fn spec_table_ids_exhausted(seed: Option<Seq<u8>>) -> bool {
    seed matches Some(s) && s.len() == 4 && spec_be_to_u32(s) + 1 >= spec_be_to_u32(
        MAX_USERLAND_TABLE_ID@,
    )
}

/// The id that follows the stored counter `seed`: the one after it, or the
/// first userland id where there is no counter yet.
pub open spec fn spec_next_table_id(seed: Option<Seq<u8>>) -> Result<u32, Error>
    recommends
        !spec_table_ids_exhausted(seed),
{
    match seed {
        None => Ok(spec_be_to_u32(MIN_USERLAND_TABLE_ID@)),
        Some(s) => if s.len() != 4 {
            Err(Error::CorruptSeed)
        } else {
            Ok((spec_be_to_u32(s) + 1) as u32)
        },
    }
}

/// Whether the stored counter allows no further id. Whoever creates a table
/// asks this first, and stops for good where the answer is yes.
pub fn table_ids_exhausted(seed: Option<&[u8]>) -> (exhausted: bool)
    ensures
        exhausted == spec_table_ids_exhausted(spec_stored(seed)),
{
    match seed {
        Some(seed_value) => seed_value.len() == 4 && u8s_to_u32(seed_value) >= u8x4_to_u32(
            MAX_USERLAND_TABLE_ID,
        ) - 1,
        None => false,
    }
}

/// The write that makes `id` the stored counter.
pub open spec fn spec_seed_write(id: Seq<u8>) -> UpdateView {
    UpdateView::Put { key: spec_seed_key(), value: id }
}

/// Picks the id of the next new table from the stored counter, and gives the
/// write that records it as handed out. A counter that allows no further id
/// is not taken: see `table_ids_exhausted`.
pub fn generate_next_table_id(seed: Option<&[u8]>) -> (r: Result<(TableId, Update), Error>)
    requires
        !spec_table_ids_exhausted(spec_stored(seed)),
    ensures
        match spec_next_table_id(spec_stored(seed)) {
            Ok(n) => r matches Ok((id, write)) && id@ == spec_u32_to_be(n) && write@
                == spec_seed_write(id@),
            Err(e) => r matches Err(f) && f == e,
        },
{
    let next_id: TableId = match seed {
        Some(seed_value) => {
            if seed_value.len() != 4 {
                return Err(Error::CorruptSeed);
            }
            let last = u8s_to_u32(seed_value);
            u32_to_u8x4(last + 1)
        },
        None => {
            assert(MIN_USERLAND_TABLE_ID@ =~= spec_u32_to_be(
                spec_be_to_u32(MIN_USERLAND_TABLE_ID@),
            ));
            MIN_USERLAND_TABLE_ID
        },
    };
    let seed_key = build_info_table_inner_key(SEED_ITEM_ID);
    let write = Update::Put { key: seed_key, value: bytes_from_slice(&next_id) };
    Ok((next_id, write))
}

////////////////////////////////////////////////////////////////////////////////
// creating, renaming and destroying tables
////////////////////////////////////////////////////////////////////////////////

/// The two records of a registered table: its name under the name-to-id
/// table, its id under the id-to-name table.
pub open spec fn spec_register_writes(name: Seq<char>, id: Seq<u8>) -> Seq<UpdateView> {
    seq![
        UpdateView::Put { key: spec_name_key(name), value: id },
        UpdateView::Put { key: spec_id_key(id), value: encode_utf8(name) },
    ]
}

/// The anchor of a userland table.
pub open spec fn spec_table_anchor(id: Seq<u8>) -> Seq<u8> {
    spec_anchor(id, MAX_USERLAND_KEY_LEN as nat)
}

/// Everything that creating the table `name` under `id` writes: the new
/// counter, the two registry records, and the table's anchor, stored under
/// itself.
pub open spec fn spec_create_writes(name: Seq<char>, id: Seq<u8>) -> Seq<UpdateView> {
    seq![spec_seed_write(id)] + spec_register_writes(name, id) + seq![
        UpdateView::Put { key: spec_table_anchor(id), value: spec_table_anchor(id) },
    ]
}

/// What renaming the table `id` from `old_name` to `new_name` writes: the
/// old records go, the new ones come, the id stays. Where `new_name` was the
/// name of another table, `other`, that table's id-to-name record goes too:
/// the name now leads to `id` alone, and no id leads to a name that does
/// not lead back.
pub open spec fn spec_rename_writes(
    old_name: Seq<char>,
    new_name: Seq<char>,
    id: Seq<u8>,
    other: Option<Seq<u8>>,
) -> Seq<UpdateView> {
    seq![
        UpdateView::Delete { key: spec_name_key(old_name) },
        UpdateView::Delete { key: spec_id_key(id) },
    ] + spec_displaced_writes(id, other) + seq![
        UpdateView::Put { key: spec_name_key(new_name), value: id },
        UpdateView::Put { key: spec_id_key(id), value: encode_utf8(new_name) },
    ]
}

/// The removal of the id-to-name record of the table that held the new name
/// of a rename, where there was one other than the renamed table itself.
pub open spec fn spec_displaced_writes(id: Seq<u8>, other: Option<Seq<u8>>) -> Seq<UpdateView> {
    match other {
        Some(o) => if o != id {
            seq![UpdateView::Delete { key: spec_id_key(o) }]
        } else {
            Seq::empty()
        },
        None => Seq::empty(),
    }
}

/// What destroying the table `name` with the id `id` writes: both records
/// go, and so does every key from the bare id up to the anchor.
pub open spec fn spec_destroy_writes(name: Seq<char>, id: Seq<u8>) -> Seq<UpdateView> {
    seq![
        UpdateView::Delete { key: spec_name_key(name) },
        UpdateView::Delete { key: spec_id_key(id) },
        UpdateView::DeleteRange { from_key: id, to_key: spec_table_anchor(id) },
    ]
}

/// A table handle, and the writes that must be committed as one batch
/// before the handle is used.
pub struct Opened {
    pub table: Table,
    pub writes: Vec<Update>,
}

/// The batch that registers `name` under `id`: it stores the id under the
/// key `name_to_id_table_inner_key` and the name under the key
/// `id_to_name_table_inner_key`.
pub fn register_table(
    name_to_id_table_inner_key: Bytes,
    id: TableId,
    id_to_name_table_inner_key: Bytes,
    name: &str,
) -> (writes: Vec<Update>)
    ensures
        writes.deep_view() == seq![
            UpdateView::Put { key: bytes_view(name_to_id_table_inner_key), value: id@ },
            UpdateView::Put {
                key: bytes_view(id_to_name_table_inner_key),
                value: encode_utf8(name@),
            },
        ],
{
    let mut writes: Vec<Update> = Vec::new();
    let name_record = Update::Put { key: name_to_id_table_inner_key, value: bytes_from_slice(&id) };
    let id_record = Update::Put {
        key: id_to_name_table_inner_key,
        value: bytes_from_slice(name.as_bytes()),
    };
    writes.push(name_record);
    writes.push(id_record);
    assert(writes.deep_view() =~= seq![name_record@, id_record@]);
    writes
}

/// Creates the table `name`: picks its id from the stored counter `seed`
/// and gives the handle with the batch that records counter, registry
/// entries and anchor.
pub fn create_table(name: &str, seed: Option<&[u8]>) -> (r: Result<Opened, Error>)
    requires
        spec_name_fits(name@),
        !spec_table_ids_exhausted(spec_stored(seed)),
    ensures
        match spec_next_table_id(spec_stored(seed)) {
            Ok(n) => r matches Ok(opened) && opened.table.spec_id() == spec_u32_to_be(n)
                && opened.writes.deep_view() == spec_create_writes(name@, spec_u32_to_be(n)),
            Err(e) => r matches Err(f) && f == e,
        },
{
    let (id, seed_write) = match generate_next_table_id(seed) {
        Ok(next) => next,
        Err(e) => {
            return Err(e);
        },
    };
    let mut writes: Vec<Update> = Vec::new();
    writes.push(seed_write);
    let name_to_id_table_inner_key = build_name_to_id_table_inner_key(name);
    let id_to_name_table_inner_key = build_id_to_name_table_inner_key(id);
    let mut records = register_table(
        name_to_id_table_inner_key,
        id,
        id_to_name_table_inner_key,
        name,
    );
    writes.append(&mut records);
    let anchor = build_userland_table_anchor(id, MAX_USERLAND_KEY_LEN);
    writes.push(Update::Put { key: anchor.clone(), value: anchor });
    assert(writes.deep_view() =~= spec_create_writes(name@, id@));
    Ok(Opened { table: Table::new(id), writes })
}

/// Opens the table `name`, creating it where the name-to-id table holds no
/// record of it. `found` is what the lookup of the name gave, `seed` the
/// stored counter, which is read only where nothing was found.
pub fn new_table(name: &str, found: Option<&[u8]>, seed: Option<&[u8]>) -> (r: Result<
    Opened,
    Error,
>)
    requires
        spec_name_fits(name@),
        spec_table_id_of(spec_stored(found)) == Ok::<Option<Seq<u8>>, Error>(None)
            ==> !spec_table_ids_exhausted(spec_stored(seed)),
    ensures
        match spec_table_id_of(spec_stored(found)) {
            Ok(Some(id)) => r matches Ok(opened) && opened.table.spec_id() == id
                && opened.writes@.len() == 0,
            Ok(None) => match spec_next_table_id(spec_stored(seed)) {
                Ok(n) => r matches Ok(opened) && opened.table.spec_id() == spec_u32_to_be(n)
                    && opened.writes.deep_view() == spec_create_writes(
                    name@,
                    spec_u32_to_be(n),
                ),
                Err(e) => r matches Err(f) && f == e,
            },
            Err(e) => r matches Err(f) && f == e,
        },
{
    match get_table_id_by_name(found) {
        Ok(Some(id)) => Ok(Opened { table: Table::new(id), writes: Vec::new() }),
        Ok(None) => create_table(name, seed),
        Err(e) => Err(e),
    }
}

/// The batch that renames the table `old_name` to `new_name`. `found` is
/// what the lookup of `old_name` gave, `found_new` what the lookup of
/// `new_name` gave. Where `old_name` is not registered, the batch is empty.
/// Where `new_name` was registered for another table, that table loses its
/// name: its id-to-name record is removed, its data stays where it is.
pub fn rename_table(
    old_name: &str,
    new_name: &str,
    found: Option<&[u8]>,
    found_new: Option<&[u8]>,
) -> (r: Result<Vec<Update>, Error>)
    requires
        spec_name_fits(old_name@),
        spec_name_fits(new_name@),
    ensures
        match spec_table_id_of(spec_stored(found)) {
            Ok(Some(id)) => match spec_table_id_of(spec_stored(found_new)) {
                Ok(other) => r matches Ok(writes) && writes.deep_view() == spec_rename_writes(
                    old_name@,
                    new_name@,
                    id,
                    other,
                ),
                Err(e) => r matches Err(f) && f == e,
            },
            Ok(None) => r matches Ok(writes) && writes@.len() == 0,
            Err(e) => r matches Err(f) && f == e,
        },
{
    let mut batch: Vec<Update> = Vec::new();
    let id = match get_table_id_by_name(found) {
        Ok(Some(id)) => id,
        Ok(None) => {
            return Ok(batch);
        },
        Err(e) => {
            return Err(e);
        },
    };
    let other = match get_table_id_by_name(found_new) {
        Ok(other) => other,
        Err(e) => {
            return Err(e);
        },
    };
    let id_to_name_table_inner_key = build_id_to_name_table_inner_key(id);
    batch.push(Update::Delete { key: build_name_to_id_table_inner_key(old_name) });
    batch.push(Update::Delete { key: id_to_name_table_inner_key.clone() });
    match other {
        Some(o) => {
            if !same_bytes(&o, &id) {
                batch.push(Update::Delete { key: build_id_to_name_table_inner_key(o) });
            }
        },
        None => {},
    }
    batch.push(
        Update::Put {
            key: build_name_to_id_table_inner_key(new_name),
            value: bytes_from_slice(&id),
        },
    );
    batch.push(
        Update::Put {
            key: id_to_name_table_inner_key,
            value: bytes_from_slice(new_name.as_bytes()),
        },
    );
    assert(batch.deep_view() =~= spec_rename_writes(
        old_name@,
        new_name@,
        id@,
        spec_table_id_of(spec_stored(found_new)).unwrap(),
    ));
    Ok(batch)
}

/// The batch that destroys the table `name`. `found` is what the lookup of
/// `name` gave; where it gave nothing, the batch is empty.
pub fn destroy_table(name: &str, found: Option<&[u8]>) -> (r: Result<Vec<Update>, Error>)
    requires
        spec_name_fits(name@),
    ensures
        match spec_table_id_of(spec_stored(found)) {
            Ok(Some(id)) => r matches Ok(writes) && writes.deep_view() == spec_destroy_writes(
                name@,
                id,
            ),
            Ok(None) => r matches Ok(writes) && writes@.len() == 0,
            Err(e) => r matches Err(f) && f == e,
        },
{
    let mut batch: Vec<Update> = Vec::new();
    match get_table_id_by_name(found) {
        Ok(Some(id)) => {
            batch.push(Update::Delete { key: build_name_to_id_table_inner_key(name) });
            batch.push(Update::Delete { key: build_id_to_name_table_inner_key(id) });
            batch.push(
                Update::DeleteRange {
                    from_key: bytes_from_slice(&id),
                    to_key: build_userland_table_anchor(id, MAX_USERLAND_KEY_LEN),
                },
            );
            assert(batch.deep_view() =~= spec_destroy_writes(name@, id@));
        },
        Ok(None) => {},
        Err(e) => {
            return Err(e);
        },
    }
    Ok(batch)
}


/// The anchors of the two registry tables, each stored under itself.
pub open spec fn spec_registry_anchor_writes() -> Seq<UpdateView> {
    seq![
        UpdateView::Put {
            key: spec_anchor(NAME_TO_ID_TABLE_ID@, 1024),
            value: spec_anchor(NAME_TO_ID_TABLE_ID@, 1024),
        },
        UpdateView::Put {
            key: spec_anchor(ID_TO_NAME_TABLE_ID@, 3),
            value: spec_anchor(ID_TO_NAME_TABLE_ID@, 3),
        },
    ]
}

/// The batch that a database is opened with: it stores the anchors of the
/// two registry tables, so that a walk over either ends on an entry.
pub fn registry_anchors() -> (writes: Vec<Update>)
    ensures
        writes.deep_view() == spec_registry_anchor_writes(),
{
    let mut writes: Vec<Update> = Vec::new();
    let name_to_id = build_name_to_id_table_anchor();
    let id_to_name = build_id_to_name_table_anchor();
    writes.push(Update::Put { key: name_to_id.clone(), value: name_to_id });
    writes.push(Update::Put { key: id_to_name.clone(), value: id_to_name });
    assert(writes.deep_view() =~= spec_registry_anchor_writes());
    writes
}

////////////////////////////////////////////////////////////////////////////////
// listing tables
////////////////////////////////////////////////////////////////////////////////

/// Whether a stored key is an entry of the id-to-name table: it carries
/// that table's id and is not the table's anchor.
pub open spec fn spec_is_table_row(key: Seq<u8>) -> bool {
    &&& key.len() >= 4
    &&& spec_extract_table_id(key) == ID_TO_NAME_TABLE_ID@
    &&& key != spec_anchor(ID_TO_NAME_TABLE_ID@, 3)
}

/// The table that an entry of the id-to-name table stands for: its name
/// and its id as a number.
pub open spec fn spec_table_row(key: Seq<u8>, value: Seq<u8>) -> Result<(Seq<char>, u32), Error> {
    if key.len() != 8 {
        Err(Error::CorruptTableId)
    } else if !valid_utf8(value) {
        Err(Error::CorruptTableName)
    } else {
        Ok((decode_utf8(value), spec_be_to_u32(spec_extract_key(key))))
    }
}

/// Whether each of the first `n` entries is an entry of the id-to-name
/// table that stands for a table.
pub open spec fn spec_rows_listed(rows: Seq<(Vec<u8>, Vec<u8>)>, n: int) -> bool {
    forall|i: int|
        0 <= i < n ==> spec_is_table_row((#[trigger] rows[i]).0@) && spec_table_row(
            rows[i].0@,
            rows[i].1@,
        ) is Ok
}

fn is_table_row(key: &[u8]) -> (r: bool)
    ensures
        r == spec_is_table_row(key@),
{
    if key.len() < 4 {
        return false;
    }
    let anchor = build_id_to_name_table_anchor();
    same_bytes(&extract_table_id(key), &ID_TO_NAME_TABLE_ID) && !same_bytes(
        key,
        bytes_as_slice(&anchor),
    )
}

/// Lists the tables from the entries that a cursor gave, in its order, from
/// the start of the id-to-name table on. The listing ends at the first
/// entry that is the table's anchor or lies outside the table, or with the
/// last entry. An entry that does not stand for a table fails the listing.
pub fn get_tables(rows: &Vec<(Vec<u8>, Vec<u8>)>) -> (r: Result<Vec<(String, u32)>, Error>)
    ensures
        match r {
            Ok(tables) => {
                &&& tables@.len() <= rows@.len()
                &&& spec_rows_listed(rows@, tables@.len() as int)
                &&& forall|i: int|
                    0 <= i < tables@.len() ==> spec_table_row(rows@[i].0@, rows@[i].1@) == Ok::<
                        (Seq<char>, u32),
                        Error,
                    >(((#[trigger] tables@[i]).0@, tables@[i].1))
                &&& tables@.len() == rows@.len() || !spec_is_table_row(
                    rows@[tables@.len() as int].0@,
                )
            },
            Err(e) => exists|j: int|
                {
                    &&& 0 <= j < rows@.len()
                    &&& spec_rows_listed(rows@, j)
                    &&& spec_is_table_row(rows@[j].0@)
                    &&& #[trigger] spec_table_row(rows@[j].0@, rows@[j].1@) == Err::<
                        (Seq<char>, u32),
                        Error,
                    >(e)
                },
        },
{
    let mut result: Vec<(String, u32)> = Vec::new();
    let mut i: usize = 0;
    while i < rows.len()
        invariant
            i <= rows@.len(),
            result@.len() == i,
            spec_rows_listed(rows@, i as int),
            forall|k: int|
                0 <= k < i ==> spec_table_row(rows@[k].0@, rows@[k].1@) == Ok::<
                    (Seq<char>, u32),
                    Error,
                >(((#[trigger] result@[k]).0@, result@[k].1)),
        decreases rows@.len() - i,
    {
        let key = rows[i].0.as_slice();
        let value = rows[i].1.as_slice();
        if !is_table_row(key) {
            return Ok(result);
        }
        if key.len() != 8 {
            assert(spec_table_row(rows@[i as int].0@, rows@[i as int].1@) == Err::<
                (Seq<char>, u32),
                Error,
            >(Error::CorruptTableId));
            return Err(Error::CorruptTableId);
        }
        let id = u8s_to_u32(extract_key(key));
        match decode_name(value) {
            Some(name) => {
                result.push((name, id));
            },
            None => {
                assert(spec_table_row(rows@[i as int].0@, rows@[i as int].1@) == Err::<
                    (Seq<char>, u32),
                    Error,
                >(Error::CorruptTableName));
                return Err(Error::CorruptTableName);
            },
        }
        i += 1;
    }
    Ok(result)
}


////////////////////////////////////////////////////////////////////////////////
// what holds of the registry
////////////////////////////////////////////////////////////////////////////////

/// Two names have the same key in the name-to-id table only where they are
/// the same name.
pub proof fn lemma_name_key_injective(a: Seq<char>, b: Seq<char>)
    requires
        spec_name_key(a) == spec_name_key(b),
    ensures
        a == b,
{
    lemma_inner_key_injective(
        NAME_TO_ID_TABLE_ID@,
        encode_utf8(a),
        NAME_TO_ID_TABLE_ID@,
        encode_utf8(b),
    );
    vstd::utf8::encode_utf8_decode_utf8(a);
    vstd::utf8::encode_utf8_decode_utf8(b);
}

/// The first id handed out is the first userland id, 1024.
pub proof fn lemma_first_table_id()
    ensures
        spec_next_table_id(None) == Ok::<u32, Error>(0x400u32),
{
}

/// Every id handed out lies in the userland range and below the reserved
/// ids, as long as the stored counter, where there is one, is itself an id
/// of that range.
pub proof fn lemma_table_ids_in_range(seed: Option<Seq<u8>>, n: u32)
    requires
        !spec_table_ids_exhausted(seed),
        spec_next_table_id(seed) == Ok::<u32, Error>(n),
        seed matches Some(s) ==> spec_be_to_u32(s) >= spec_be_to_u32(MIN_USERLAND_TABLE_ID@),
    ensures
        0x400 <= n < 0xFFFF_FFFE,
        spec_u32_to_be(n) != DELETE_RANGE_HINT_TABLE_ID@,
{
    lemma_be_round_trip(n);
    assert(spec_be_to_u32(DELETE_RANGE_HINT_TABLE_ID@) == 0xFFFF_FFFFu32);
}

/// Ids only grow: an id that is handed out lies above the stored counter,
/// and once the table `name` was created under it, the counter either
/// allows no further id or the id handed out next is the one after it.
pub proof fn lemma_table_ids_increase(store: Store, name: Seq<char>, n: u32)
    requires
        !spec_table_ids_exhausted(spec_get(store, spec_seed_key())),
        spec_next_table_id(spec_get(store, spec_seed_key())) == Ok::<u32, Error>(n),
    ensures
        spec_get(store, spec_seed_key()) matches Some(seed) ==> spec_be_to_u32(seed) < n,
        ({
            let after = spec_commit(store, spec_create_writes(name, spec_u32_to_be(n)));
            let seed = spec_get(after, spec_seed_key());
            &&& seed == Some(spec_u32_to_be(n))
            &&& !spec_table_ids_exhausted(seed) ==> spec_next_table_id(seed) == Ok::<u32, Error>(
                (n + 1) as u32,
            )
        }),
{
    let id = spec_u32_to_be(n);
    lemma_create_commit(store, name, id);
    lemma_be_round_trip(n);
    let seed_key = spec_seed_key();
    assert(seed_key.len() == 6);
    assert(spec_name_key(name)[3] != seed_key[3]);
    assert(spec_id_key(id).len() == 8);
    assert(spec_table_anchor(id).len() == 9);
}

/// After a table was created, its name leads to its id and its id to its
/// name.
pub proof fn lemma_create_then_lookup(store: Store, name: Seq<char>, n: u32)
    requires
        !spec_table_ids_exhausted(spec_get(store, spec_seed_key())),
        spec_next_table_id(spec_get(store, spec_seed_key())) == Ok::<u32, Error>(n),
    ensures
        ({
            let id = spec_u32_to_be(n);
            let after = spec_commit(store, spec_create_writes(name, id));
            &&& spec_table_id_of(spec_get(after, spec_name_key(name))) == Ok::<
                Option<Seq<u8>>,
                Error,
            >(Some(id))
            &&& spec_table_name_of(spec_get(after, spec_id_key(id))) == Ok::<
                Option<Seq<char>>,
                Error,
            >(Some(name))
            &&& spec_get(after, spec_table_anchor(id)) == Some(spec_table_anchor(id))
        }),
{
    let id = spec_u32_to_be(n);
    lemma_create_commit(store, name, id);
    lemma_be_round_trip(n);
    vstd::utf8::encode_utf8_valid_utf8(name);
    vstd::utf8::encode_utf8_decode_utf8(name);
    assert(spec_id_key(id).len() == 8);
    assert(spec_table_anchor(id).len() == 9);
    assert(spec_name_key(name)[3] != spec_id_key(id)[3]);
    // the anchor carries the new id, which is not that of the name-to-id table
    assert(n != 0);
    assert(spec_be_to_u32(NAME_TO_ID_TABLE_ID@) == 0);
    assert(spec_table_anchor(id).subrange(0, 4) =~= id);
    if spec_name_key(name) == spec_table_anchor(id) {
        assert(spec_name_key(name).subrange(0, 4) =~= NAME_TO_ID_TABLE_ID@);
    }
}

/// The keyspace after a rename was committed.
pub proof fn lemma_rename_commit(
    store: Store,
    old_name: Seq<char>,
    new_name: Seq<char>,
    id: Seq<u8>,
    other: Option<Seq<u8>>,
)
    ensures
        spec_commit(store, spec_rename_writes(old_name, new_name, id, other)) == ({
            let cleared = store.remove(spec_name_key(old_name)).remove(spec_id_key(id));
            let displaced = match other {
                Some(o) => if o != id {
                    cleared.remove(spec_id_key(o))
                } else {
                    cleared
                },
                None => cleared,
            };
            displaced.insert(spec_name_key(new_name), id).insert(
                spec_id_key(id),
                encode_utf8(new_name),
            )
        }),
{
    let writes = spec_rename_writes(old_name, new_name, id, other);
    reveal_with_fuel(spec_commit, 6);
    let w4 = writes.drop_last();
    let w3 = w4.drop_last();
    let w2 = w3.drop_last();
    if other is Some && other.unwrap() != id {
        let w1 = w2.drop_last();
        let w0 = w1.drop_last();
        assert(w0 =~= Seq::<UpdateView>::empty());
    } else {
        let w1 = w2.drop_last();
        assert(w1 =~= Seq::<UpdateView>::empty());
    }
}

/// Renaming a table keeps its id and its data: the new name leads to the
/// id and the id to the new name, the old name, where it differs, leads
/// nowhere, and nothing outside the two registry tables changes.
pub proof fn lemma_rename_keeps_id_and_data(
    store: Store,
    old_name: Seq<char>,
    new_name: Seq<char>,
    id: Seq<u8>,
    other: Option<Seq<u8>>,
)
    requires
        id.len() == 4,
        other matches Some(o) ==> o.len() == 4,
    ensures
        ({
            let after = spec_commit(store, spec_rename_writes(old_name, new_name, id, other));
            &&& spec_table_id_of(spec_get(after, spec_name_key(new_name))) == Ok::<
                Option<Seq<u8>>,
                Error,
            >(Some(id))
            &&& spec_table_name_of(spec_get(after, spec_id_key(id))) == Ok::<
                Option<Seq<char>>,
                Error,
            >(Some(new_name))
            &&& old_name != new_name ==> spec_get(after, spec_name_key(old_name)) is None
            &&& forall|key: Seq<u8>|
                key.len() >= 4 && spec_extract_table_id(key) != NAME_TO_ID_TABLE_ID@
                    && spec_extract_table_id(key) != ID_TO_NAME_TABLE_ID@ ==> #[trigger] spec_get(
                    after,
                    key,
                ) == spec_get(store, key)
        }),
{
    lemma_rename_commit(store, old_name, new_name, id, other);
    vstd::utf8::encode_utf8_valid_utf8(new_name);
    vstd::utf8::encode_utf8_decode_utf8(new_name);
    assert(spec_name_key(new_name)[3] != spec_id_key(id)[3]);
    if old_name != new_name && spec_name_key(old_name) == spec_name_key(new_name) {
        lemma_name_key_injective(old_name, new_name);
    }
    assert(spec_name_key(old_name)[3] != spec_id_key(id)[3]);
    let after = spec_commit(store, spec_rename_writes(old_name, new_name, id, other));
    assert forall|key: Seq<u8>|
        key.len() >= 4 && spec_extract_table_id(key) != NAME_TO_ID_TABLE_ID@
            && spec_extract_table_id(key) != ID_TO_NAME_TABLE_ID@ implies #[trigger] spec_get(
        after,
        key,
    ) == spec_get(store, key) by {
        assert(spec_name_key(old_name).subrange(0, 4) =~= NAME_TO_ID_TABLE_ID@);
        assert(spec_name_key(new_name).subrange(0, 4) =~= NAME_TO_ID_TABLE_ID@);
        assert(spec_id_key(id).subrange(0, 4) =~= ID_TO_NAME_TABLE_ID@);
        if other is Some {
            assert(spec_id_key(other.unwrap()).subrange(0, 4) =~= ID_TO_NAME_TABLE_ID@);
        }
    }
}

/// Destroying a table removes its two registry records and every key of
/// the table that lies below its anchor; a user key of no more than the
/// agreed length has such a key.
pub proof fn lemma_destroy_removes_data(
    store: Store,
    name: Seq<char>,
    id: Seq<u8>,
    key: Seq<u8>,
)
    requires
        id.len() == 4,
    ensures
        ({
            let after = spec_commit(store, spec_destroy_writes(name, id));
            &&& spec_get(after, spec_name_key(name)) is None
            &&& spec_get(after, spec_id_key(id)) is None
            &&& lex_lt(spec_inner_key(id, key), spec_table_anchor(id)) ==> spec_get(
                after,
                spec_inner_key(id, key),
            ) is None
            &&& key.len() <= MAX_USERLAND_KEY_LEN ==> spec_get(after, spec_inner_key(id, key))
                is None
        }),
{
    let writes = spec_destroy_writes(name, id);
    let w2 = writes.drop_last();
    let w1 = w2.drop_last();
    assert(w1.drop_last() =~= Seq::<UpdateView>::empty());
    reveal_with_fuel(spec_commit, 4);
    assert(spec_name_key(name)[3] != spec_id_key(id)[3]);
    lemma_lex_le_extension(id, key);
    if key.len() <= MAX_USERLAND_KEY_LEN {
        lemma_anchor_above_keys(id, key, MAX_USERLAND_KEY_LEN as nat);
    }
}

/// Where the cursor gave its entries in the order of their keys, the
/// listing is in the order of the ids.
pub proof fn lemma_listing_ascends(rows: Seq<(Vec<u8>, Vec<u8>)>, tables: Seq<(String, u32)>)
    requires
        forall|i: int, j: int|
            0 <= i < j < rows.len() ==> lex_lt((#[trigger] rows[i]).0@, (#[trigger] rows[j]).0@),
        tables.len() <= rows.len(),
        forall|i: int|
            0 <= i < tables.len() ==> spec_is_table_row(rows[i].0@) && spec_table_row(
                rows[i].0@,
                rows[i].1@,
            ) == Ok::<(Seq<char>, u32), Error>(((#[trigger] tables[i]).0@, tables[i].1)),
    ensures
        forall|i: int, j: int|
            0 <= i < j < tables.len() ==> (#[trigger] tables[i]).1 < (#[trigger] tables[j]).1,
{
    assert forall|i: int, j: int| 0 <= i < j < tables.len() implies (#[trigger] tables[i]).1 < (
    #[trigger] tables[j]).1 by {
        let ki = rows[i].0@;
        let kj = rows[j].0@;
        assert(lex_lt(ki, kj));
        assert(spec_is_table_row(ki) && spec_table_row(ki, rows[i].1@) is Ok) by {
            let _ = tables[i];
        }
        assert(spec_is_table_row(kj) && spec_table_row(kj, rows[j].1@) is Ok) by {
            let _ = tables[j];
        }
        let a = spec_extract_key(ki);
        let b = spec_extract_key(kj);
        assert(ki =~= ID_TO_NAME_TABLE_ID@ + a);
        assert(kj =~= ID_TO_NAME_TABLE_ID@ + b);
        lemma_lex_lt_common_prefix(ID_TO_NAME_TABLE_ID@, a, b);
        lemma_be_bytes_round_trip(a);
        lemma_be_bytes_round_trip(b);
        lemma_be_order(spec_be_to_u32(a), spec_be_to_u32(b));
    }
}

/// The keyspace after a destruction was committed.
pub proof fn lemma_destroy_commit(store: Store, name: Seq<char>, id: Seq<u8>)
    ensures
        spec_commit(store, spec_destroy_writes(name, id)) == spec_apply(
            store.remove(spec_name_key(name)).remove(spec_id_key(id)),
            UpdateView::DeleteRange { from_key: id, to_key: spec_table_anchor(id) },
        ),
{
    let writes = spec_destroy_writes(name, id);
    let w2 = writes.drop_last();
    let w1 = w2.drop_last();
    assert(w1.drop_last() =~= Seq::<UpdateView>::empty());
    reveal_with_fuel(spec_commit, 4);
}

/// The keyspace after a creation was committed.
pub proof fn lemma_create_commit(store: Store, name: Seq<char>, id: Seq<u8>)
    ensures
        spec_commit(store, spec_create_writes(name, id)) == store.insert(
            spec_seed_key(),
            id,
        ).insert(spec_name_key(name), id).insert(spec_id_key(id), encode_utf8(name)).insert(
            spec_table_anchor(id),
            spec_table_anchor(id),
        ),
{
    let writes = spec_create_writes(name, id);
    let w3 = writes.drop_last();
    let w2 = w3.drop_last();
    let w1 = w2.drop_last();
    assert(w1.drop_last() =~= Seq::<UpdateView>::empty());
    reveal_with_fuel(spec_commit, 5);
}

} // verus!
