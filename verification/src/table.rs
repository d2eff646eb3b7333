use vstd::prelude::*;
use bytes::Bytes;
use crate::batch::Batch;
use crate::buffer::{bytes_from_slice, bytes_view};
use crate::iterator::Iterator;
use crate::registry::spec_is_table_write;
use crate::update::{Update, UpdateView};
use crate::consts::MAX_USERLAND_KEY_LEN;
use crate::utils::{
    build_inner_key, build_userland_table_anchor, lemma_inner_key_round_trip, spec_anchor,
    spec_inner_key,
};

verus! {

/// A handle on one table: its id and the anchor that bounds its keys.
pub struct Table {
    id: [u8; 4],
    anchor: Bytes,
}

impl Table {
    /// The id of the table, as a byte sequence.
    pub closed spec fn spec_id(&self) -> Seq<u8> {
        self.id@
    }

    #[verifier::type_invariant]
    spec fn anchored(&self) -> bool {
        bytes_view(self.anchor) == spec_anchor(self.id@, MAX_USERLAND_KEY_LEN as nat)
    }

    /// A table id has four bytes.
    pub proof fn lemma_id_len(&self)
        ensures
            self.spec_id().len() == 4,
    {
    }

    /// A handle on the table `id`.
    pub fn new(id: [u8; 4]) -> (table: Table)
        ensures
            table.spec_id() == id@,
    {
        Table { id, anchor: build_userland_table_anchor(id, MAX_USERLAND_KEY_LEN) }
    }

    /// The id of the table.
    pub fn id(&self) -> (id: [u8; 4])
        ensures
            id@ == self.spec_id(),
    {
        self.id
    }

    /// The anchor of the table: the key above every key the table may hold.
    pub fn anchor(&self) -> (anchor: &Bytes)
        ensures
            bytes_view(*anchor) == spec_anchor(self.spec_id(), MAX_USERLAND_KEY_LEN as nat),
    {
        proof {
            use_type_invariant(self);
        }
        &self.anchor
    }
    /// The write that stores `value` under `key` in this table.
    pub fn put(&self, key: &[u8], value: &[u8]) -> (write: Update)
        requires
            4 + key@.len() <= isize::MAX,
        ensures
            write@ == (UpdateView::Put {
                key: spec_inner_key(self.spec_id(), key@),
                value: value@,
            }),
            spec_is_table_write(self.spec_id(), write@),
    {
        proof {
            lemma_inner_key_round_trip(self.id@, key@);
        }
        Update::Put { key: build_inner_key(self.id, key), value: bytes_from_slice(value) }
    }

    /// The write that removes `key` from this table.
    pub fn delete(&self, key: &[u8]) -> (write: Update)
        requires
            4 + key@.len() <= isize::MAX,
        ensures
            write@ == (UpdateView::Delete { key: spec_inner_key(self.spec_id(), key@) }),
            spec_is_table_write(self.spec_id(), write@),
    {
        proof {
            lemma_inner_key_round_trip(self.id@, key@);
        }
        Update::Delete { key: build_inner_key(self.id, key) }
    }

    /// The stored key under which this table holds `key`.
    pub fn get(&self, key: &[u8]) -> (inner_key: Bytes)
        requires
            4 + key@.len() <= isize::MAX,
        ensures
            bytes_view(inner_key) == spec_inner_key(self.spec_id(), key@),
    {
        build_inner_key(self.id, key)
    }

    /// An empty batch bound to this table.
    pub fn batch(&self) -> (batch: Batch)
        ensures
            batch.spec_table_id() == self.spec_id(),
            batch.spec_ops() == Seq::<UpdateView>::empty(),
    {
        Batch::new(self.id)
    }

    /// What a committed batch writes: its writes, oldest first, each to the
    /// table the batch is bound to.
    pub fn write(&self, b: Batch) -> (writes: Vec<Update>)
        ensures
            writes.deep_view() == b.spec_ops(),
            forall|i: int|
                0 <= i < writes.deep_view().len() ==> spec_is_table_write(
                    b.spec_table_id(),
                    #[trigger] writes.deep_view()[i],
                ),
    {
        b.into_ops()
    }

    /// The bounds of a walk over this table.
    pub fn iter(&self) -> (iter: Iterator<'_>)
        ensures
            iter.spec_table_id() == self.spec_id(),
            iter.spec_anchor() == spec_anchor(self.spec_id(), MAX_USERLAND_KEY_LEN as nat),
    {
        proof {
            use_type_invariant(self);
        }
        Iterator::new(self.id, &self.anchor)
    }
}

} // verus!
