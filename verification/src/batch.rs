use vstd::prelude::*;
use crate::buffer::bytes_from_slice;
use crate::registry::spec_is_table_write;
use crate::update::{Update, UpdateView};
use crate::utils::{build_inner_key, lemma_inner_key_round_trip, spec_inner_key};

verus! {

/// Writes to one table, gathered in order, to be committed as a whole. Every
/// key that goes in is encoded for the table the batch is bound to.
pub struct Batch {
    ops: Vec<Update>,
    table_id: [u8; 4],
}

impl Batch {
    /// The id of the table the batch is bound to.
    pub closed spec fn spec_table_id(&self) -> Seq<u8> {
        self.table_id@
    }

    /// The writes gathered so far, oldest first.
    pub closed spec fn spec_ops(&self) -> Seq<UpdateView> {
        self.ops.deep_view()
    }

    /// Every write of the batch goes to the table the batch is bound to.
    #[verifier::type_invariant]
    spec fn bound(&self) -> bool {
        forall|i: int|
            0 <= i < self.ops.deep_view().len() ==> spec_is_table_write(
                self.table_id@,
                #[trigger] self.ops.deep_view()[i],
            )
    }

    /// An empty batch bound to the table `table_id`.
    pub fn new(table_id: [u8; 4]) -> (batch: Batch)
        ensures
            batch.spec_table_id() == table_id@,
            batch.spec_ops() == Seq::<UpdateView>::empty(),
    {
        let batch = Batch { ops: Vec::new(), table_id };
        assert(batch.ops.deep_view() =~= Seq::<UpdateView>::empty());
        batch
    }

    /// Adds the write of `value` under `key`.
    pub fn put(&mut self, key: &[u8], value: &[u8])
        requires
            4 + key@.len() <= isize::MAX,
        ensures
            final(self).spec_table_id() == old(self).spec_table_id(),
            final(self).spec_ops() == old(self).spec_ops().push(
                UpdateView::Put {
                    key: spec_inner_key(old(self).spec_table_id(), key@),
                    value: value@,
                },
            ),
    {
        let op = Update::Put {
            key: build_inner_key(self.table_id, key),
            value: bytes_from_slice(value),
        };
        proof {
            use_type_invariant(&*self);
            lemma_inner_key_round_trip(self.table_id@, key@);
        }
        let mut ops: Vec<Update> = Vec::new();
        std::mem::swap(&mut self.ops, &mut ops);
        ops.push(op);
        assert(ops.deep_view() =~= old(self).ops.deep_view().push(op@));
        std::mem::swap(&mut self.ops, &mut ops);
    }

    /// Adds the removal of `key`.
    pub fn delete(&mut self, key: &[u8])
        requires
            4 + key@.len() <= isize::MAX,
        ensures
            final(self).spec_table_id() == old(self).spec_table_id(),
            final(self).spec_ops() == old(self).spec_ops().push(
                UpdateView::Delete { key: spec_inner_key(old(self).spec_table_id(), key@) },
            ),
    {
        let op = Update::Delete { key: build_inner_key(self.table_id, key) };
        proof {
            use_type_invariant(&*self);
            lemma_inner_key_round_trip(self.table_id@, key@);
        }
        let mut ops: Vec<Update> = Vec::new();
        std::mem::swap(&mut self.ops, &mut ops);
        ops.push(op);
        assert(ops.deep_view() =~= old(self).ops.deep_view().push(op@));
        std::mem::swap(&mut self.ops, &mut ops);
    }

    /// Adds the removal of every key from `from_key` on that lies below
    /// `to_key`.
    pub fn delete_range(&mut self, from_key: &[u8], to_key: &[u8])
        requires
            4 + from_key@.len() <= isize::MAX,
            4 + to_key@.len() <= isize::MAX,
        ensures
            final(self).spec_table_id() == old(self).spec_table_id(),
            final(self).spec_ops() == old(self).spec_ops().push(
                UpdateView::DeleteRange {
                    from_key: spec_inner_key(old(self).spec_table_id(), from_key@),
                    to_key: spec_inner_key(old(self).spec_table_id(), to_key@),
                },
            ),
    {
        let op = Update::DeleteRange {
            from_key: build_inner_key(self.table_id, from_key),
            to_key: build_inner_key(self.table_id, to_key),
        };
        proof {
            use_type_invariant(&*self);
            lemma_inner_key_round_trip(self.table_id@, from_key@);
        }
        let mut ops: Vec<Update> = Vec::new();
        std::mem::swap(&mut self.ops, &mut ops);
        ops.push(op);
        assert(ops.deep_view() =~= old(self).ops.deep_view().push(op@));
        std::mem::swap(&mut self.ops, &mut ops);
    }

    /// The writes gathered, oldest first. Each goes to the table the batch
    /// is bound to.
    pub fn ops(&self) -> (ops: &Vec<Update>)
        ensures
            ops.deep_view() == self.spec_ops(),
            forall|i: int|
                0 <= i < ops.deep_view().len() ==> spec_is_table_write(
                    self.spec_table_id(),
                    #[trigger] ops.deep_view()[i],
                ),
    {
        proof {
            use_type_invariant(self);
        }
        &self.ops
    }

    /// Hands the gathered writes over for the commit.
    pub(crate) fn into_ops(self) -> (ops: Vec<Update>)
        ensures
            ops.deep_view() == self.spec_ops(),
            forall|i: int|
                0 <= i < ops.deep_view().len() ==> spec_is_table_write(
                    self.spec_table_id(),
                    #[trigger] ops.deep_view()[i],
                ),
    {
        proof {
            use_type_invariant(&self);
        }
        self.ops
    }
}

} // verus!
