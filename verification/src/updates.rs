use vstd::prelude::*;
use crate::buffer::{bytes_as_slice, bytes_from_slice};
use crate::consts::DELETE_RANGE_HINT_TABLE_ID;
use crate::error::Error;
use crate::update::{Update, UpdateView};
use crate::utils::{
    extract_delete_range_hint, extract_table_id, lemma_delete_range_hint_round_trip,
    lemma_inner_key_round_trip, same_bytes, spec_delete_range_hint, spec_extract_table_id,
    spec_hint_keys_fit, spec_inner_key, spec_split_delete_range_hint,
};

verus! {

/// One committed batch, decoded: its sequence number and its changes in the
/// order in which they were applied.
#[derive(Debug)]
pub struct Updates {
    pub sn: u64,
    pub vec: Vec<Update>,
}

/// Whether the key of a logged delete marks a range delete.
pub open spec fn spec_is_delete_range_hint(key: Seq<u8>) -> bool {
    key.len() >= 4 && spec_extract_table_id(key) == DELETE_RANGE_HINT_TABLE_ID@
}

/// The change that a logged delete of `key` stands for: a range delete
/// where the key carries the reserved table id, a delete of `key` as it is
/// otherwise.
pub open spec fn spec_decode_delete(key: Seq<u8>) -> Result<UpdateView, Error> {
    if spec_is_delete_range_hint(key) {
        match spec_split_delete_range_hint(key) {
            Some((from_key, to_key)) => Ok(UpdateView::DeleteRange { from_key, to_key }),
            None => Err(Error::MalformedDeleteRangeHint),
        }
    } else {
        Ok(UpdateView::Delete { key })
    }
}

impl Updates {
    pub fn new() -> (updates: Self)
        ensures
            updates.sn == 0,
            updates.vec@.len() == 0,
    {
        Updates { sn: 0, vec: Vec::new() }
    }

    /// Takes a logged put as it is.
    pub fn put(&mut self, key: Box<[u8]>, value: Box<[u8]>)
        ensures
            final(self).sn == old(self).sn,
            final(self).vec.deep_view() == old(self).vec.deep_view().push(
                UpdateView::Put { key: key@, value: value@ },
            ),
    {
        let update = Update::Put { key: bytes_from_slice(&*key), value: bytes_from_slice(&*value) };
        self.vec.push(update);
        assert(self.vec.deep_view() =~= old(self).vec.deep_view().push(update@));
    }

    /// Takes a logged delete: a range delete where its key carries the
    /// reserved table id, a delete of the key as it is otherwise. A range
    /// delete that cannot be split leaves the record as it was.
    pub fn delete(&mut self, key: Box<[u8]>) -> (r: Result<(), Error>)
        ensures
            final(self).sn == old(self).sn,
            match spec_decode_delete(key@) {
                Ok(update) => r is Ok && final(self).vec.deep_view() == old(
                    self,
                ).vec.deep_view().push(update),
                Err(e) => r == Err::<(), Error>(e) && final(self).vec == old(self).vec,
            },
    {
        let update = match decode_delete(&*key) {
            Ok(update) => update,
            Err(e) => {
                return Err(e);
            },
        };
        self.vec.push(update);
        assert(self.vec.deep_view() =~= old(self).vec.deep_view().push(update@));
        Ok(())
    }

    /// Decodes one committed batch: `sn` is its sequence number, `batch`
    /// its low-level operations in the order in which they were applied.
    /// Each comes out at the place at which it went in: a put and a range
    /// delete as they are, a delete as `delete` reads it.
    pub fn replay(sn: u64, batch: &Vec<Update>) -> (r: Result<Updates, Error>)
        ensures
            match r {
                Ok(updates) => {
                    &&& updates.sn == sn
                    &&& updates.vec@.len() == batch@.len()
                    &&& forall|i: int|
                        0 <= i < batch@.len() ==> spec_decode(#[trigger] batch@[i]@) == Ok::<
                            UpdateView,
                            Error,
                        >(updates.vec@[i]@)
                },
                Err(e) => exists|j: int|
                    {
                        &&& 0 <= j < batch@.len()
                        &&& forall|i: int| 0 <= i < j ==> spec_decode(#[trigger] batch@[i]@) is Ok
                        &&& spec_decode(#[trigger] batch@[j]@) == Err::<UpdateView, Error>(e)
                    },
            },
    {
        let mut updates = Updates::new();
        updates.sn = sn;
        let mut i: usize = 0;
        while i < batch.len()
            invariant
                i <= batch@.len(),
                updates.sn == sn,
                updates.vec@.len() == i,
                forall|k: int|
                    0 <= k < i ==> spec_decode(#[trigger] batch@[k]@) == Ok::<UpdateView, Error>(
                        updates.vec@[k]@,
                    ),
            decreases batch@.len() - i,
        {
            let ghost before = updates.vec@;
            let decoded = match &batch[i] {
                Update::Put { key, value } => Update::Put {
                    key: key.clone(),
                    value: value.clone(),
                },
                Update::Delete { key } => match decode_delete(bytes_as_slice(key)) {
                    Ok(update) => update,
                    Err(e) => {
                        assert(spec_decode(batch@[i as int]@) == Err::<UpdateView, Error>(e));
                        return Err(e);
                    },
                },
                Update::DeleteRange { from_key, to_key } => Update::DeleteRange {
                    from_key: from_key.clone(),
                    to_key: to_key.clone(),
                },
            };
            assert(spec_decode(batch@[i as int]@) == Ok::<UpdateView, Error>(decoded@));
            updates.vec.push(decoded);
            assert(forall|k: int| 0 <= k < i ==> updates.vec@[k] == before[k]);
            i += 1;
        }
        Ok(updates)
    }
}

/// The change that one low-level operation of a committed batch stands for.
pub open spec fn spec_decode(op: UpdateView) -> Result<UpdateView, Error> {
    match op {
        UpdateView::Delete { key } => spec_decode_delete(key),
        _ => Ok(op),
    }
}

fn decode_delete(key: &[u8]) -> (r: Result<Update, Error>)
    ensures
        match spec_decode_delete(key@) {
            Ok(update) => r matches Ok(u) && u@ == update,
            Err(e) => r matches Err(f) && f == e,
        },
{
    if key.len() >= 4 && same_bytes(&extract_table_id(key), &DELETE_RANGE_HINT_TABLE_ID) {
        match extract_delete_range_hint(key) {
            Some((from_key, to_key)) => Ok(Update::DeleteRange { from_key, to_key }),
            None => Err(Error::MalformedDeleteRangeHint),
        }
    } else {
        Ok(Update::Delete { key: bytes_from_slice(key) })
    }
}

/// A logged delete of a key of any table but the reserved one is reported
/// as the delete of that key.
pub proof fn lemma_decode_table_delete(table_id: Seq<u8>, key: Seq<u8>)
    requires
        table_id.len() == 4,
        table_id != DELETE_RANGE_HINT_TABLE_ID@,
    ensures
        spec_decode_delete(spec_inner_key(table_id, key)) == Ok::<UpdateView, Error>(
            UpdateView::Delete { key: spec_inner_key(table_id, key) },
        ),
{
    lemma_inner_key_round_trip(table_id, key);
}

/// A logged delete whose key was built for the range from `from_key` to
/// `to_key` is reported as that range delete.
pub proof fn lemma_decode_delete_range_hint(from_key: Seq<u8>, to_key: Seq<u8>)
    requires
        spec_hint_keys_fit(from_key, to_key),
    ensures
        spec_decode_delete(spec_delete_range_hint(from_key, to_key)) == Ok::<UpdateView, Error>(
            UpdateView::DeleteRange { from_key, to_key },
        ),
{
    lemma_delete_range_hint_round_trip(from_key, to_key);
}

} // verus!
