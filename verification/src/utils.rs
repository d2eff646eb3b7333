use vstd::prelude::*;
use vstd::utf8::encode_utf8;
use byteorder::{BigEndian, ByteOrder};
use bytes::Bytes;
use crate::buffer::{bytes_as_slice, bytes_from_slice, bytes_from_vec, bytes_view};
use crate::consts::{
    DELETE_RANGE_HINT_TABLE_ID, ID_TO_NAME_TABLE_ID, INFO_TABLE_ID, NAME_TO_ID_ANCHOR_LEN,
    NAME_TO_ID_TABLE_ID,
};
use crate::order::{lemma_be_round_trip, lemma_lex_lt_common_prefix, lemma_lex_lt_ones, lex_lt};

verus! {

////////////////////////////////////////////////////////////////////////////////
// conversions
////////////////////////////////////////////////////////////////////////////////

/// The four bytes of `n`, most significant first.
pub open spec fn spec_u32_to_be(n: u32) -> Seq<u8> {
    seq![
        (n / 0x100_0000) as u8,
        ((n / 0x1_0000) % 0x100) as u8,
        ((n / 0x100) % 0x100) as u8,
        (n % 0x100) as u8,
    ]
}

/// The number whose big-endian bytes are the first four of `b`.
pub open spec fn spec_be_to_u32(b: Seq<u8>) -> u32
    recommends
        b.len() >= 4,
{
    (b[0] as int * 0x100_0000 + b[1] as int * 0x1_0000 + b[2] as int * 0x100 + b[3] as int) as u32
}

/// `byteorder::BigEndian::write_u32`: fills the buffer with the big-endian
/// bytes of `n`.
#[verifier::external_body]
fn be_write_u32(buf: &mut [u8; 4], n: u32)
    ensures
        final(buf)@ == spec_u32_to_be(n),
{
    BigEndian::write_u32(buf, n)
}

/// `byteorder::BigEndian::read_u32`: reads the first four bytes of `buf` as a
/// big-endian number. The outside function panics on a shorter buffer.
#[verifier::external_body]
fn be_read_u32(buf: &[u8]) -> (n: u32)
    requires
        buf@.len() >= 4,
    ensures
        n == spec_be_to_u32(buf@),
{
    BigEndian::read_u32(buf)
}

/// The big-endian bytes of a number.
pub fn u32_to_u8x4(n: u32) -> (r: [u8; 4])
    ensures
        r@ == spec_u32_to_be(n),
{
    let mut buf = [0u8; 4];
    be_write_u32(&mut buf, n);
    buf
}

/// The number that four big-endian bytes stand for.
pub fn u8x4_to_u32(u8x4: [u8; 4]) -> (n: u32)
    ensures
        n == spec_be_to_u32(u8x4@),
{
    be_read_u32(&u8x4)
}

/// The number that the first four bytes of a slice stand for.
pub fn u8s_to_u32(u8s: &[u8]) -> (n: u32)
    requires
        u8s@.len() >= 4,
    ensures
        n == spec_be_to_u32(u8s@),
{
    be_read_u32(u8s)
}

////////////////////////////////////////////////////////////////////////////////
// keys
////////////////////////////////////////////////////////////////////////////////

/// A stored key: the table id, then the user key.
pub open spec fn spec_inner_key(table_id: Seq<u8>, key: Seq<u8>) -> Seq<u8> {
    table_id + key
}

/// `n` bytes, each `0xFF`.
pub open spec fn spec_ones(n: nat) -> Seq<u8> {
    Seq::new(n, |i: int| 0xFFu8)
}

/// The anchor of a table: its id, then one more `0xFF` byte than the longest
/// user key has.
pub open spec fn spec_anchor(table_id: Seq<u8>, key_len: nat) -> Seq<u8> {
    spec_inner_key(table_id, spec_ones(key_len + 1))
}

/// The table id at the front of a stored key.
pub open spec fn spec_extract_table_id(buf: Seq<u8>) -> Seq<u8>
    recommends
        buf.len() >= 4,
{
    buf.subrange(0, 4)
}

/// The user key behind the table id of a stored key.
pub open spec fn spec_extract_key(buf: Seq<u8>) -> Seq<u8>
    recommends
        buf.len() >= 4,
{
    buf.subrange(4, buf.len() as int)
}

/// Encodes a user key for the table `table_id`.
pub fn build_inner_key(table_id: [u8; 4], key: &[u8]) -> (buf: Bytes)
    requires
        4 + key@.len() <= isize::MAX,
    ensures
        bytes_view(buf) == spec_inner_key(table_id@, key@),
{
    let mut buf = Bytes::with_capacity(4 + key.len());
    buf.extend_from_slice(&table_id);
    buf.extend_from_slice(key);
    buf
}

/// The key under which the name-to-id table holds `name`.
pub fn build_name_to_id_table_inner_key(name: &str) -> (buf: Bytes)
    requires
        4 + encode_utf8(name@).len() <= isize::MAX,
    ensures
        bytes_view(buf) == spec_inner_key(NAME_TO_ID_TABLE_ID@, encode_utf8(name@)),
{
    build_inner_key(NAME_TO_ID_TABLE_ID, name.as_bytes())
}

/// The key under which the id-to-name table holds `table_id`.
pub fn build_id_to_name_table_inner_key(table_id: [u8; 4]) -> (buf: Bytes)
    ensures
        bytes_view(buf) == spec_inner_key(ID_TO_NAME_TABLE_ID@, table_id@),
{
    build_inner_key(ID_TO_NAME_TABLE_ID, &table_id)
}

/// The key under which the metadata table holds the scalar `item_id`.
pub fn build_info_table_inner_key(item_id: [u8; 2]) -> (buf: Bytes)
    ensures
        bytes_view(buf) == spec_inner_key(INFO_TABLE_ID@, item_id@),
{
    build_inner_key(INFO_TABLE_ID, &item_id)
}

/// The anchor of the id-to-name table.
pub fn build_id_to_name_table_anchor() -> (buf: Bytes)
    ensures
        bytes_view(buf) == spec_anchor(ID_TO_NAME_TABLE_ID@, 3),
{
    let key: [u8; 4] = [255, 255, 255, 255];
    assert(key@ =~= spec_ones(4));
    build_inner_key(ID_TO_NAME_TABLE_ID, &key)
}

/// The anchor of the name-to-id table.
pub fn build_name_to_id_table_anchor() -> (buf: Bytes)
    ensures
        bytes_view(buf) == spec_anchor(NAME_TO_ID_TABLE_ID@, 1024),
{
    let ones = set_every_bit_to_one(NAME_TO_ID_ANCHOR_LEN);
    build_inner_key(NAME_TO_ID_TABLE_ID, bytes_as_slice(&ones))
}

/// The anchor of a userland table whose user keys have at most `key_len`
/// bytes.
pub fn build_userland_table_anchor(table_id: [u8; 4], key_len: u8) -> (buf: Bytes)
    ensures
        bytes_view(buf) == spec_anchor(table_id@, key_len as nat),
{
    let n: u16 = key_len as u16 + 1;
    let ones = set_every_bit_to_one(n);
    build_inner_key(table_id, bytes_as_slice(&ones))
}

/// The table id at the front of a stored key.
pub fn extract_table_id(buf: &[u8]) -> (table_id: [u8; 4])
    requires
        buf@.len() >= 4,
    ensures
        table_id@ == spec_extract_table_id(buf@),
{
    let array: [u8; 4] = [buf[0], buf[1], buf[2], buf[3]];
    assert(array@ =~= buf@.subrange(0, 4));
    array
}

/// The user key behind the table id of a stored key.
pub fn extract_key(buf: &[u8]) -> (key: &[u8])
    requires
        buf@.len() >= 4,
    ensures
        key@ == spec_extract_key(buf@),
{
    &buf[4..buf.len()]
}

/// Whether two byte strings hold the same bytes.
pub fn same_bytes(a: &[u8], b: &[u8]) -> (same: bool)
    ensures
        same == (a@ == b@),
{
    if a.len() != b.len() {
        return false;
    }
    let mut i: usize = 0;
    while i < a.len()
        invariant
            i <= a@.len(),
            a@.len() == b@.len(),
            forall|k: int| 0 <= k < i ==> a@[k] == b@[k],
        decreases a@.len() - i,
    {
        if a[i] != b[i] {
            return false;
        }
        i += 1;
    }
    assert(a@ =~= b@);
    true
}

/// A buffer of `key_len` bytes, each `0xFF`.
fn set_every_bit_to_one(key_len: u16) -> (buf: Bytes)
    ensures
        bytes_view(buf) == spec_ones(key_len as nat),
{
    let v: Vec<u8> = vec![255u8; key_len as usize];
    assert(v@ =~= spec_ones(key_len as nat));
    bytes_from_vec(v)
}


////////////////////////////////////////////////////////////////////////////////
// range deletes in the log
////////////////////////////////////////////////////////////////////////////////

/// Whether two stored keys can travel in the key of one logged delete: each
/// carries a table id, and the lengths fit.
pub open spec fn spec_hint_keys_fit(from_key: Seq<u8>, to_key: Seq<u8>) -> bool {
    &&& 4 <= from_key.len() <= u32::MAX
    &&& 4 <= to_key.len()
    &&& 8 + from_key.len() + to_key.len() <= isize::MAX
}

/// The key of the logged delete that stands for the range delete from
/// `from_key` to `to_key`: the reserved table id, the length of `from_key`
/// as four big-endian bytes, then the two keys.
pub open spec fn spec_delete_range_hint(from_key: Seq<u8>, to_key: Seq<u8>) -> Seq<u8> {
    DELETE_RANGE_HINT_TABLE_ID@ + spec_u32_to_be(from_key.len() as u32) + from_key + to_key
}

/// The two keys that the key of such a logged delete carries, or nothing
/// where it is too short for what it announces.
pub open spec fn spec_split_delete_range_hint(key: Seq<u8>) -> Option<(Seq<u8>, Seq<u8>)> {
    if key.len() < 8 {
        None
    } else {
        let n = spec_be_to_u32(key.subrange(4, 8)) as int;
        if n < 4 || key.len() < 8 + n + 4 {
            None
        } else {
            Some((key.subrange(8, 8 + n), key.subrange(8 + n, key.len() as int)))
        }
    }
}

/// Builds the key of the logged delete that stands for a range delete.
pub fn build_delete_range_hint(from_key: &[u8], to_key: &[u8]) -> (r: Option<Bytes>)
    ensures
        spec_hint_keys_fit(from_key@, to_key@) ==> (r matches Some(buf) && bytes_view(buf)
            == spec_delete_range_hint(from_key@, to_key@)),
        !spec_hint_keys_fit(from_key@, to_key@) ==> r is None,
{
    let limit: usize = isize::MAX as usize;
    if from_key.len() < 4 || from_key.len() > u32::MAX as usize || to_key.len() < 4 {
        return None;
    }
    if from_key.len() > limit - 8 || to_key.len() > limit - 8 - from_key.len() {
        return None;
    }
    let mut buf = Bytes::with_capacity(8 + from_key.len() + to_key.len());
    buf.extend_from_slice(&DELETE_RANGE_HINT_TABLE_ID);
    buf.extend_from_slice(&u32_to_u8x4(from_key.len() as u32));
    buf.extend_from_slice(from_key);
    buf.extend_from_slice(to_key);
    Some(buf)
}

/// Splits the key of a logged range delete into the two keys it carries.
pub fn extract_delete_range_hint(key: &[u8]) -> (r: Option<(Bytes, Bytes)>)
    ensures
        match spec_split_delete_range_hint(key@) {
            Some((from_key, to_key)) => r matches Some((f, t)) && bytes_view(f) == from_key
                && bytes_view(t) == to_key,
            None => r is None,
        },
{
    if key.len() < 8 {
        return None;
    }
    let n = u8s_to_u32(&key[4..8]) as usize;
    if n < 4 || key.len() - 8 < n || key.len() - 8 - n < 4 {
        return None;
    }
    let from_key = bytes_from_slice(&key[8..8 + n]);
    let to_key = bytes_from_slice(&key[8 + n..key.len()]);
    Some((from_key, to_key))
}

////////////////////////////////////////////////////////////////////////////////
// what holds of the encoding
////////////////////////////////////////////////////////////////////////////////

/// A stored key gives back the table id and the user key it was made of.
pub proof fn lemma_inner_key_round_trip(table_id: Seq<u8>, key: Seq<u8>)
    requires
        table_id.len() == 4,
    ensures
        spec_extract_table_id(spec_inner_key(table_id, key)) == table_id,
        spec_extract_key(spec_inner_key(table_id, key)) == key,
{
    assert(spec_inner_key(table_id, key).subrange(0, 4) =~= table_id);
    assert(spec_inner_key(table_id, key).subrange(4, 4 + key.len() as int) =~= key);
}

/// Two stored keys are the same only where table and user key are the same.
pub proof fn lemma_inner_key_injective(t1: Seq<u8>, k1: Seq<u8>, t2: Seq<u8>, k2: Seq<u8>)
    requires
        t1.len() == 4,
        t2.len() == 4,
        spec_inner_key(t1, k1) == spec_inner_key(t2, k2),
    ensures
        t1 == t2,
        k1 == k2,
{
    lemma_inner_key_round_trip(t1, k1);
    lemma_inner_key_round_trip(t2, k2);
}

/// Within one table, stored keys order as their user keys do.
pub proof fn lemma_inner_key_order(table_id: Seq<u8>, k1: Seq<u8>, k2: Seq<u8>)
    ensures
        lex_lt(spec_inner_key(table_id, k1), spec_inner_key(table_id, k2)) == lex_lt(k1, k2),
{
    lemma_lex_lt_common_prefix(table_id, k1, k2);
}

/// The anchor of a table lies above every key of the table whose user key
/// has at most `key_len` bytes.
pub proof fn lemma_anchor_above_keys(table_id: Seq<u8>, key: Seq<u8>, key_len: nat)
    requires
        key.len() <= key_len,
    ensures
        lex_lt(spec_inner_key(table_id, key), spec_anchor(table_id, key_len)),
{
    lemma_lex_lt_ones(key, key_len);
    lemma_lex_lt_common_prefix(table_id, key, spec_ones(key_len + 1));
}

/// The key of a logged range delete carries the reserved table id and gives
/// back the two keys it was built from.
pub proof fn lemma_delete_range_hint_round_trip(from_key: Seq<u8>, to_key: Seq<u8>)
    requires
        spec_hint_keys_fit(from_key, to_key),
    ensures
        spec_extract_table_id(spec_delete_range_hint(from_key, to_key))
            == DELETE_RANGE_HINT_TABLE_ID@,
        spec_split_delete_range_hint(spec_delete_range_hint(from_key, to_key)) == Some(
            (from_key, to_key),
        ),
{
    let hint = spec_delete_range_hint(from_key, to_key);
    let n = from_key.len() as u32;
    lemma_be_round_trip(n);
    assert(hint.subrange(0, 4) =~= DELETE_RANGE_HINT_TABLE_ID@);
    assert(hint.subrange(4, 8) =~= spec_u32_to_be(n));
    assert(hint.subrange(8, 8 + n) =~= from_key);
    assert(hint.subrange(8 + n, hint.len() as int) =~= to_key);
}

} // verus!
