use vstd::prelude::*;
use crate::order::{lex_le, lex_lt};
use crate::update::UpdateView;

verus! {

/// What the storage engine holds, as far as this layer relies on it: one
/// flat keyspace with at most one value under each key.
pub type Store = Map<Seq<u8>, Seq<u8>>;

/// A point lookup.
pub open spec fn spec_get(store: Store, key: Seq<u8>) -> Option<Seq<u8>> {
    if store.contains_key(key) {
        Some(store[key])
    } else {
        None
    }
}

/// Whether a range delete from `from_key` to `to_key` takes `key` away: the
/// lower end belongs to the range, the upper end does not.
pub open spec fn spec_in_range(from_key: Seq<u8>, to_key: Seq<u8>, key: Seq<u8>) -> bool {
    lex_le(from_key, key) && lex_lt(key, to_key)
}

/// The keyspace after one write.
pub open spec fn spec_apply(store: Store, write: UpdateView) -> Store {
    match write {
        UpdateView::Put { key, value } => store.insert(key, value),
        UpdateView::Delete { key } => store.remove(key),
        UpdateView::DeleteRange { from_key, to_key } => Map::new(
            |k: Seq<u8>| store.contains_key(k) && !spec_in_range(from_key, to_key, k),
            |k: Seq<u8>| store[k],
        ),
    }
}

/// The keyspace after a batch was committed: its writes applied in order,
/// all of them or none.
pub open spec fn spec_commit(store: Store, writes: Seq<UpdateView>) -> Store
    decreases writes.len(),
{
    if writes.len() == 0 {
        store
    } else {
        spec_apply(spec_commit(store, writes.drop_last()), writes.last())
    }
}

} // verus!
