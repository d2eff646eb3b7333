use vstd::prelude::*;
use bytes::Bytes;
use crate::buffer::{bytes_as_slice, bytes_from_slice, bytes_view};
use crate::utils::{build_inner_key, extract_key, same_bytes, spec_extract_key, spec_inner_key};

verus! {

/// The bounds of a walk over one table: the walk goes over the flat
/// keyspace with the engine's cursor, and this decides where the cursor is
/// sent and what of its position counts as an entry of the table.
pub struct Iterator<'a> {
    table_id: [u8; 4],
    anchor: &'a Bytes,
}

impl<'a> Iterator<'a> {
    /// The id of the table walked over.
    pub closed spec fn spec_table_id(&self) -> Seq<u8> {
        self.table_id@
    }

    /// The key at which the walk ends.
    pub closed spec fn spec_anchor(&self) -> Seq<u8> {
        bytes_view(*self.anchor)
    }

    pub fn new(table_id: [u8; 4], anchor: &'a Bytes) -> (iter: Iterator<'a>)
        ensures
            iter.spec_table_id() == table_id@,
            iter.spec_anchor() == bytes_view(*anchor),
    {
        Iterator { table_id, anchor }
    }

    /// Whether the cursor stands on an entry of the table. `raw_key` is the
    /// stored key under the cursor, or nothing where the cursor stands on
    /// no entry.
    pub fn is_valid(&self, raw_key: Option<&[u8]>) -> (valid: bool)
        ensures
            valid == (raw_key matches Some(k) && k@ != self.spec_anchor()),
    {
        match raw_key {
            Some(k) => !same_bytes(k, bytes_as_slice(self.anchor)),
            None => false,
        }
    }

    /// Where the cursor seeks for the first entry: the bare table id.
    pub fn seek_to_first(&self) -> (target: Bytes)
        ensures
            bytes_view(target) == self.spec_table_id(),
    {
        bytes_from_slice(&self.table_id)
    }

    /// Where the cursor seeks for the last entry: the anchor. The last
    /// entry is the one before it.
    pub fn seek_to_last(&self) -> (target: &Bytes)
        ensures
            bytes_view(*target) == self.spec_anchor(),
    {
        self.anchor
    }

    /// After the seek for the last entry: whether the cursor has to step
    /// back once. It has to where it stands on an entry.
    pub fn seek_to_last_steps_back(&self, raw_key: Option<&[u8]>) -> (back: bool)
        ensures
            back == raw_key is Some,
    {
        raw_key.is_some()
    }

    /// Where the cursor seeks for the first entry at or after `key`.
    pub fn seek(&self, key: &[u8]) -> (target: Bytes)
        requires
            4 + key@.len() <= isize::MAX,
        ensures
            bytes_view(target) == spec_inner_key(self.spec_table_id(), key@),
    {
        build_inner_key(self.table_id, key)
    }

    /// Where the cursor seeks for the last entry at or before `key`.
    pub fn seek_for_prev(&self, key: &[u8]) -> (target: Bytes)
        requires
            4 + key@.len() <= isize::MAX,
        ensures
            bytes_view(target) == spec_inner_key(self.spec_table_id(), key@),
    {
        build_inner_key(self.table_id, key)
    }

    /// The user key of the entry under the cursor: the stored key without
    /// its table id. Nothing where the cursor stands on no entry, or on one
    /// too short to carry a table id.
    pub fn key<'b>(&self, raw_key: Option<&'b [u8]>) -> (key: Option<&'b [u8]>)
        ensures
            match raw_key {
                Some(k) if k@.len() >= 4 => key matches Some(u) && u@ == spec_extract_key(k@),
                _ => key is None,
            },
    {
        match raw_key {
            Some(v) => if v.len() >= 4 {
                Some(extract_key(v))
            } else {
                None
            },
            None => None,
        }
    }
}

} // verus!
