use vstd::prelude::*;
use vstd::utf8::encode_utf8;
use crate::consts::{
    ID_TO_NAME_TABLE_ID, INFO_TABLE_ID, MAX_USERLAND_TABLE_ID, MIN_USERLAND_TABLE_ID,
    NAME_TO_ID_TABLE_ID,
};
use crate::db::{
    lemma_create_commit, lemma_destroy_commit, lemma_name_key_injective, lemma_rename_commit,
    spec_create_writes, spec_destroy_writes, spec_id_key, spec_name_key, spec_next_table_id,
    spec_registry_anchor_writes, spec_rename_writes, spec_seed_key, spec_table_anchor,
    spec_table_id_of, spec_table_ids_exhausted,
};
use crate::engine::{spec_apply, spec_commit, spec_get, Store};
use crate::error::Error;
use crate::order::{lemma_be_round_trip, lemma_tables_in_order};
use crate::update::UpdateView;
use crate::utils::{
    lemma_inner_key_injective, lemma_inner_key_round_trip, spec_anchor, spec_be_to_u32,
    spec_extract_table_id, spec_inner_key, spec_ones, spec_u32_to_be,
};

verus! {

/// The two records of every table go together: a name leads to an id
/// exactly where that id leads to the name.
pub open spec fn spec_paired(store: Store) -> bool {
    forall|name: Seq<char>, id: Seq<u8>|
        #![trigger spec_name_key(name), spec_id_key(id)]
        id.len() == 4 ==> (spec_get(store, spec_name_key(name)) == Some(id) <==> spec_get(
            store,
            spec_id_key(id),
        ) == Some(encode_utf8(name)))
}

/// Whether `id` has been handed out: it is a userland id no greater than
/// the stored counter.
pub open spec fn spec_allocated(store: Store, id: Seq<u8>) -> bool {
    &&& id.len() == 4
    &&& spec_get(store, spec_seed_key()) matches Some(seed)
    &&& spec_be_to_u32(MIN_USERLAND_TABLE_ID@) <= spec_be_to_u32(id) <= spec_be_to_u32(seed)
}

/// The stored counter, where there is one, is a userland id below the top
/// of the range.
pub open spec fn spec_counter_sound(store: Store) -> bool {
    spec_get(store, spec_seed_key()) matches Some(seed) ==> {
        &&& seed.len() == 4
        &&& spec_be_to_u32(MIN_USERLAND_TABLE_ID@) <= spec_be_to_u32(seed) < spec_be_to_u32(
            MAX_USERLAND_TABLE_ID@,
        )
    }
}

/// Every name leads to an id that has been handed out.
pub open spec fn spec_names_allocated(store: Store) -> bool {
    forall|name: Seq<char>|
        store.contains_key(#[trigger] spec_name_key(name)) ==> spec_allocated(
            store,
            store[spec_name_key(name)],
        )
}

/// Whether a stored key lies in the userland range of the keyspace.
pub open spec fn spec_is_userland_key(key: Seq<u8>) -> bool {
    key.len() >= 4 && spec_be_to_u32(spec_extract_table_id(key)) >= spec_be_to_u32(
        MIN_USERLAND_TABLE_ID@,
    )
}

/// Nothing is stored under a userland id that has not been handed out.
pub open spec fn spec_data_allocated(store: Store) -> bool {
    forall|key: Seq<u8>|
        #[trigger] store.contains_key(key) && spec_is_userland_key(key) ==> spec_allocated(
            store,
            spec_extract_table_id(key),
        )
}

/// What the registry keeps true of the keyspace, from the empty keyspace
/// on, through every creation, rename and destruction and every write to a
/// table that exists.
pub open spec fn spec_registry_sound(store: Store) -> bool {
    &&& spec_paired(store)
    &&& spec_counter_sound(store)
    &&& spec_names_allocated(store)
    &&& spec_data_allocated(store)
}

/// The empty keyspace is sound.
pub proof fn lemma_empty_registry_sound()
    ensures
        spec_registry_sound(Map::<Seq<u8>, Seq<u8>>::empty()),
{
}

/// The keys of the registry's own records lie below the userland range.
pub proof fn lemma_registry_keys_reserved(name: Seq<char>, id: Seq<u8>)
    ensures
        !spec_is_userland_key(spec_name_key(name)),
        !spec_is_userland_key(spec_id_key(id)),
        !spec_is_userland_key(spec_seed_key()),
        spec_name_key(name) != spec_seed_key(),
        spec_id_key(id) != spec_seed_key(),
{
    assert(spec_name_key(name).subrange(0, 4) =~= NAME_TO_ID_TABLE_ID@);
    assert(spec_id_key(id).subrange(0, 4) =~= ID_TO_NAME_TABLE_ID@);
    assert(spec_seed_key().subrange(0, 4) =~= INFO_TABLE_ID@);
    assert(spec_name_key(name)[3] != spec_seed_key()[3]);
    assert(spec_id_key(id)[3] != spec_seed_key()[3]);
}

/// Creating a table whose name is not registered keeps the keyspace sound.
/// The id of the new table lies in the userland range, above every id
/// handed out before, and becomes the stored counter.
pub proof fn lemma_create_keeps_registry(store: Store, name: Seq<char>, n: u32)
    requires
        spec_registry_sound(store),
        spec_get(store, spec_name_key(name)) is None,
        !spec_table_ids_exhausted(spec_get(store, spec_seed_key())),
        spec_next_table_id(spec_get(store, spec_seed_key())) == Ok::<u32, Error>(n),
    ensures
        spec_registry_sound(spec_commit(store, spec_create_writes(name, spec_u32_to_be(n)))),
        spec_get(
            spec_commit(store, spec_create_writes(name, spec_u32_to_be(n))),
            spec_seed_key(),
        ) == Some(spec_u32_to_be(n)),
        spec_be_to_u32(MIN_USERLAND_TABLE_ID@) <= n < spec_be_to_u32(MAX_USERLAND_TABLE_ID@),
        forall|id: Seq<u8>| #[trigger] spec_allocated(store, id) ==> spec_be_to_u32(id) < n,
        !spec_allocated(store, spec_u32_to_be(n)),
{
    let id = spec_u32_to_be(n);
    let after = spec_commit(store, spec_create_writes(name, id));
    let anchor = spec_table_anchor(id);
    lemma_create_commit(store, name, id);
    lemma_be_round_trip(n);
    lemma_registry_keys_reserved(name, id);
    lemma_registry_tables_apart(name, id);
    lemma_inner_key_round_trip(id, anchor.subrange(4, 9));
    assert(anchor.subrange(0, 4) =~= id);
    assert(spec_is_userland_key(anchor));
    assert(spec_get(after, spec_seed_key()) == Some(id));
    assert(spec_counter_sound(after));
    assert(!spec_allocated(store, id));
    lemma_create_keeps_pairing(store, name, id);
    assert(spec_names_allocated(after)) by {
        assert forall|m: Seq<char>|
            after.contains_key(#[trigger] spec_name_key(m)) implies spec_allocated(
            after,
            after[spec_name_key(m)],
        ) by {
            lemma_registry_keys_reserved(m, id);
            lemma_registry_tables_apart(m, id);
            if spec_name_key(m) != spec_name_key(name) {
                assert(store.contains_key(spec_name_key(m)));
                assert(spec_allocated(store, store[spec_name_key(m)]));
            }
        }
    }
    assert(spec_data_allocated(after)) by {
        assert forall|key: Seq<u8>| #[trigger]
            after.contains_key(key) && spec_is_userland_key(key) implies spec_allocated(
            after,
            spec_extract_table_id(key),
        ) by {
            if key != anchor {
                assert(store.contains_key(key));
                assert(spec_allocated(store, spec_extract_table_id(key)));
            }
        }
    }
}

/// Creating a table under an id that was not handed out before keeps the
/// records paired.
proof fn lemma_create_keeps_pairing(store: Store, name: Seq<char>, id: Seq<u8>)
    requires
        spec_paired(store),
        spec_names_allocated(store),
        id.len() == 4,
        !spec_allocated(store, id),
        spec_is_userland_key(spec_table_anchor(id)),
        spec_get(store, spec_name_key(name)) is None,
    ensures
        spec_paired(spec_commit(store, spec_create_writes(name, id))),
{
    let after = spec_commit(store, spec_create_writes(name, id));
    lemma_create_commit(store, name, id);
    assert forall|m: Seq<char>, i: Seq<u8>|
        #![trigger spec_name_key(m), spec_id_key(i)]
        i.len() == 4 implies (spec_get(after, spec_name_key(m)) == Some(i) <==> spec_get(
        after,
        spec_id_key(i),
    ) == Some(encode_utf8(m))) by {
        lemma_registry_keys_reserved(m, i);
        lemma_registry_tables_apart(m, i);
        lemma_registry_tables_apart(m, id);
        lemma_registry_tables_apart(name, i);
        if spec_name_key(m) == spec_name_key(name) {
            lemma_name_key_injective(m, name);
        }
        if spec_id_key(i) == spec_id_key(id) {
            lemma_id_key_injective(i, id);
        }
        if encode_utf8(m) == encode_utf8(name) {
            lemma_name_bytes_injective(m, name);
        }
        let _ = spec_name_key(name);
        let _ = spec_id_key(id);
        if store.contains_key(spec_name_key(m)) {
            assert(spec_allocated(store, store[spec_name_key(m)]));
        }
    }
}

/// Two ids have the same key in the id-to-name table only where they are
/// the same id.
pub proof fn lemma_id_key_injective(a: Seq<u8>, b: Seq<u8>)
    requires
        spec_id_key(a) == spec_id_key(b),
    ensures
        a == b,
{
    lemma_inner_key_injective(ID_TO_NAME_TABLE_ID@, a, ID_TO_NAME_TABLE_ID@, b);
}

/// Two names are stored as the same bytes only where they are the same
/// name.
pub proof fn lemma_name_bytes_injective(a: Seq<char>, b: Seq<char>)
    requires
        encode_utf8(a) == encode_utf8(b),
    ensures
        a == b,
{
    vstd::utf8::encode_utf8_decode_utf8(a);
    vstd::utf8::encode_utf8_decode_utf8(b);
}

/// No key of the name-to-id table is a key of the id-to-name table.
pub proof fn lemma_registry_tables_apart(name: Seq<char>, id: Seq<u8>)
    ensures
        spec_name_key(name) != spec_id_key(id),
{
    assert(spec_name_key(name)[3] == NAME_TO_ID_TABLE_ID@[3]);
    assert(spec_id_key(id)[3] == ID_TO_NAME_TABLE_ID@[3]);
}

/// A rename keeps the records paired, also where the new name was the name
/// of another table.
pub proof fn lemma_rename_keeps_pairing(
    store: Store,
    old_name: Seq<char>,
    new_name: Seq<char>,
    id: Seq<u8>,
    other: Option<Seq<u8>>,
)
    requires
        spec_paired(store),
        id.len() == 4,
        spec_get(store, spec_name_key(old_name)) == Some(id),
        spec_table_id_of(spec_get(store, spec_name_key(new_name))) == Ok::<
            Option<Seq<u8>>,
            Error,
        >(other),
    ensures
        spec_paired(spec_commit(store, spec_rename_writes(old_name, new_name, id, other))),
{
    let after = spec_commit(store, spec_rename_writes(old_name, new_name, id, other));
    lemma_rename_commit(store, old_name, new_name, id, other);
    assert forall|name: Seq<char>, i: Seq<u8>|
        #![trigger spec_name_key(name), spec_id_key(i)]
        i.len() == 4 implies (spec_get(after, spec_name_key(name)) == Some(i) <==> spec_get(
        after,
        spec_id_key(i),
    ) == Some(encode_utf8(name))) by {
        let nk = spec_name_key(name);
        let ik = spec_id_key(i);
        lemma_registry_tables_apart(name, i);
        lemma_registry_tables_apart(name, id);
        lemma_registry_tables_apart(old_name, i);
        lemma_registry_tables_apart(new_name, i);
        if nk == spec_name_key(old_name) {
            lemma_name_key_injective(name, old_name);
        }
        if nk == spec_name_key(new_name) {
            lemma_name_key_injective(name, new_name);
        }
        if ik == spec_id_key(id) {
            lemma_id_key_injective(i, id);
        }
        if encode_utf8(name) == encode_utf8(new_name) {
            lemma_name_bytes_injective(name, new_name);
        }
        if encode_utf8(name) == encode_utf8(old_name) {
            lemma_name_bytes_injective(name, old_name);
        }
        // what the store held of the names and ids involved
        let _ = spec_name_key(old_name);
        let _ = spec_name_key(new_name);
        let _ = spec_id_key(id);
        if other is Some {
            let o = other.unwrap();
            lemma_registry_tables_apart(name, o);
            if ik == spec_id_key(o) {
                lemma_id_key_injective(i, o);
            }
            let _ = spec_id_key(o);
        }
    }
}

/// A rename keeps the keyspace sound and leaves every userland key as it
/// was: the table keeps its id, and under that id its data.
pub proof fn lemma_rename_keeps_registry(
    store: Store,
    old_name: Seq<char>,
    new_name: Seq<char>,
    id: Seq<u8>,
    other: Option<Seq<u8>>,
)
    requires
        spec_registry_sound(store),
        spec_get(store, spec_name_key(old_name)) == Some(id),
        spec_table_id_of(spec_get(store, spec_name_key(new_name))) == Ok::<
            Option<Seq<u8>>,
            Error,
        >(other),
    ensures
        spec_registry_sound(spec_commit(store, spec_rename_writes(old_name, new_name, id, other))),
        spec_table_id_of(
            spec_get(
                spec_commit(store, spec_rename_writes(old_name, new_name, id, other)),
                spec_name_key(new_name),
            ),
        ) == Ok::<Option<Seq<u8>>, Error>(Some(id)),
        forall|key: Seq<u8>|
            spec_is_userland_key(key) ==> #[trigger] spec_get(
                spec_commit(store, spec_rename_writes(old_name, new_name, id, other)),
                key,
            ) == spec_get(store, key),
        forall|key: Seq<u8>|
            #![trigger spec_inner_key(id, key)]
            spec_get(
                spec_commit(store, spec_rename_writes(old_name, new_name, id, other)),
                spec_inner_key(id, key),
            ) == spec_get(store, spec_inner_key(id, key)),
{
    let after = spec_commit(store, spec_rename_writes(old_name, new_name, id, other));
    assert(spec_allocated(store, id)) by {
        let _ = spec_name_key(old_name);
    }
    lemma_rename_commit(store, old_name, new_name, id, other);
    lemma_rename_keeps_pairing(store, old_name, new_name, id, other);
    lemma_registry_keys_reserved(old_name, id);
    lemma_registry_keys_reserved(new_name, id);
    lemma_registry_tables_apart(new_name, id);
    if other is Some {
        lemma_registry_keys_reserved(new_name, other.unwrap());
    }
    assert(spec_get(after, spec_seed_key()) == spec_get(store, spec_seed_key()));
    assert forall|key: Seq<u8>| spec_is_userland_key(key) implies #[trigger] spec_get(after, key)
        == spec_get(store, key) by {}
    assert forall|key: Seq<u8>|
        #![trigger spec_inner_key(id, key)]
        spec_get(after, spec_inner_key(id, key)) == spec_get(store, spec_inner_key(id, key)) by {
        lemma_inner_key_round_trip(id, key);
        assert(spec_is_userland_key(spec_inner_key(id, key)));
    }
    assert(spec_names_allocated(after)) by {
        assert forall|m: Seq<char>|
            after.contains_key(#[trigger] spec_name_key(m)) implies spec_allocated(
            after,
            after[spec_name_key(m)],
        ) by {
            lemma_registry_tables_apart(m, id);
            if other is Some {
                lemma_registry_tables_apart(m, other.unwrap());
            }
            if spec_name_key(m) != spec_name_key(new_name) {
                assert(store.contains_key(spec_name_key(m)));
                assert(spec_allocated(store, store[spec_name_key(m)]));
            }
        }
    }
    assert(spec_data_allocated(after)) by {
        assert forall|key: Seq<u8>| #[trigger]
            after.contains_key(key) && spec_is_userland_key(key) implies spec_allocated(
            after,
            spec_extract_table_id(key),
        ) by {
            assert(store.contains_key(key));
            assert(spec_allocated(store, spec_extract_table_id(key)));
        }
    }
}

/// Destroying a table keeps the keyspace sound. Its records are gone, and
/// so is every key of the table below its anchor; nothing of another table
/// is touched.
pub proof fn lemma_destroy_keeps_registry(store: Store, name: Seq<char>, id: Seq<u8>)
    requires
        spec_registry_sound(store),
        spec_get(store, spec_name_key(name)) == Some(id),
    ensures
        spec_registry_sound(spec_commit(store, spec_destroy_writes(name, id))),
        spec_get(spec_commit(store, spec_destroy_writes(name, id)), spec_seed_key()) == spec_get(
            store,
            spec_seed_key(),
        ),
        spec_get(spec_commit(store, spec_destroy_writes(name, id)), spec_name_key(name)) is None,
        forall|key: Seq<u8>|
            spec_is_userland_key(key) && spec_extract_table_id(key) != id ==> #[trigger] spec_get(
                spec_commit(store, spec_destroy_writes(name, id)),
                key,
            ) == spec_get(store, key),
{
    let after = spec_commit(store, spec_destroy_writes(name, id));
    let anchor = spec_table_anchor(id);
    assert(spec_allocated(store, id)) by {
        let _ = spec_name_key(name);
    }
    lemma_destroy_commit(store, name, id);
    lemma_registry_keys_reserved(name, id);
    lemma_registry_tables_apart(name, id);
    assert(id.subrange(0, 4) =~= id);
    // the range starts at the bare id, above every reserved table
    assert forall|key: Seq<u8>|
        key.len() >= 4 && !spec_is_userland_key(key) implies #[trigger] spec_get(after, key)
        == spec_get(store.remove(spec_name_key(name)).remove(spec_id_key(id)), key) by {
        lemma_tables_in_order(key, id);
    }
    assert(spec_get(after, spec_seed_key()) == spec_get(store, spec_seed_key()));
    assert forall|key: Seq<u8>|
        spec_is_userland_key(key) && spec_extract_table_id(key) != id implies #[trigger] spec_get(
        after,
        key,
    ) == spec_get(store, key) by {
        lemma_registry_keys_reserved(name, id);
        let t = spec_extract_table_id(key);
        if spec_be_to_u32(t) < spec_be_to_u32(id) {
            lemma_tables_in_order(key, id);
        } else {
            crate::order::lemma_be_bytes_round_trip(t);
            crate::order::lemma_be_bytes_round_trip(id);
            assert(anchor.subrange(0, 4) =~= id);
            lemma_tables_in_order(anchor, key);
            crate::order::lemma_lex_lt_asymmetric(anchor, key);
        }
    }
    assert(spec_paired(after)) by {
        assert forall|m: Seq<char>, i: Seq<u8>|
            #![trigger spec_name_key(m), spec_id_key(i)]
            i.len() == 4 implies (spec_get(after, spec_name_key(m)) == Some(i) <==> spec_get(
            after,
            spec_id_key(i),
        ) == Some(encode_utf8(m))) by {
            lemma_registry_keys_reserved(m, i);
            lemma_registry_tables_apart(m, i);
            lemma_registry_tables_apart(m, id);
            lemma_registry_tables_apart(name, i);
            if spec_name_key(m) == spec_name_key(name) {
                lemma_name_key_injective(m, name);
            }
            if spec_id_key(i) == spec_id_key(id) {
                lemma_id_key_injective(i, id);
            }
            if encode_utf8(m) == encode_utf8(name) {
                lemma_name_bytes_injective(m, name);
            }
            let _ = spec_name_key(name);
            let _ = spec_id_key(id);
        }
    }
    assert(spec_names_allocated(after)) by {
        assert forall|m: Seq<char>|
            after.contains_key(#[trigger] spec_name_key(m)) implies spec_allocated(
            after,
            after[spec_name_key(m)],
        ) by {
            lemma_registry_keys_reserved(m, id);
            lemma_registry_tables_apart(m, id);
            assert(spec_get(after, spec_name_key(m)) == spec_get(
                store.remove(spec_name_key(name)).remove(spec_id_key(id)),
                spec_name_key(m),
            ));
            assert(store.contains_key(spec_name_key(m)));
            assert(spec_allocated(store, store[spec_name_key(m)]));
        }
    }
    assert(spec_data_allocated(after)) by {
        assert forall|key: Seq<u8>| #[trigger]
            after.contains_key(key) && spec_is_userland_key(key) implies spec_allocated(
            after,
            spec_extract_table_id(key),
        ) by {
            assert(store.contains_key(key));
            assert(spec_allocated(store, spec_extract_table_id(key)));
        }
    }
}

/// Whether a write goes to the table `id`: it puts or removes a key of that
/// table, or removes a range that starts in it.
pub open spec fn spec_is_table_write(id: Seq<u8>, write: UpdateView) -> bool {
    match write {
        UpdateView::Put { key, value } => key.len() >= 4 && spec_extract_table_id(key) == id,
        UpdateView::Delete { key } => key.len() >= 4 && spec_extract_table_id(key) == id,
        UpdateView::DeleteRange { from_key, to_key } => from_key.len() >= 4
            && spec_extract_table_id(from_key) == id,
    }
}

/// A write to a table that exists keeps the keyspace sound and leaves the
/// registry's records and the counter as they were.
pub proof fn lemma_table_write_keeps_registry(store: Store, id: Seq<u8>, write: UpdateView)
    requires
        spec_registry_sound(store),
        spec_allocated(store, id),
        spec_is_table_write(id, write),
    ensures
        spec_registry_sound(spec_apply(store, write)),
        spec_allocated(spec_apply(store, write), id),
        forall|key: Seq<u8>|
            key.len() >= 4 && !spec_is_userland_key(key) ==> #[trigger] spec_get(
                spec_apply(store, write),
                key,
            ) == spec_get(store, key),
{
    let after = spec_apply(store, write);
    assert forall|key: Seq<u8>|
        key.len() >= 4 && !spec_is_userland_key(key) implies #[trigger] spec_get(after, key)
        == spec_get(store, key) by {
        match write {
            UpdateView::DeleteRange { from_key, to_key } => {
                lemma_tables_in_order(key, from_key);
            },
            _ => {},
        }
    }
    lemma_registry_keys_reserved(Seq::<char>::empty(), id);
    assert(spec_get(after, spec_seed_key()) == spec_get(store, spec_seed_key()));
    assert(spec_paired(after)) by {
        assert forall|m: Seq<char>, i: Seq<u8>|
            #![trigger spec_name_key(m), spec_id_key(i)]
            i.len() == 4 implies (spec_get(after, spec_name_key(m)) == Some(i) <==> spec_get(
            after,
            spec_id_key(i),
        ) == Some(encode_utf8(m))) by {
            lemma_registry_keys_reserved(m, i);
        }
    }
    assert(spec_names_allocated(after)) by {
        assert forall|m: Seq<char>|
            after.contains_key(#[trigger] spec_name_key(m)) implies spec_allocated(
            after,
            after[spec_name_key(m)],
        ) by {
            lemma_registry_keys_reserved(m, id);
            assert(spec_get(after, spec_name_key(m)) == spec_get(store, spec_name_key(m)));
            assert(spec_allocated(store, store[spec_name_key(m)]));
        }
    }
    assert(spec_data_allocated(after)) by {
        assert forall|key: Seq<u8>| #[trigger]
            after.contains_key(key) && spec_is_userland_key(key) implies spec_allocated(
            after,
            spec_extract_table_id(key),
        ) by {
            if store.contains_key(key) {
                assert(spec_allocated(store, spec_extract_table_id(key)));
            }
        }
    }
}

/// A committed batch of writes to a table that exists keeps the keyspace
/// sound and leaves the registry's records and the counter as they were.
pub proof fn lemma_table_batch_keeps_registry(store: Store, id: Seq<u8>, writes: Seq<UpdateView>)
    requires
        spec_registry_sound(store),
        spec_allocated(store, id),
        forall|i: int| 0 <= i < writes.len() ==> spec_is_table_write(id, #[trigger] writes[i]),
    ensures
        spec_registry_sound(spec_commit(store, writes)),
        spec_allocated(spec_commit(store, writes), id),
        forall|key: Seq<u8>|
            key.len() >= 4 && !spec_is_userland_key(key) ==> #[trigger] spec_get(
                spec_commit(store, writes),
                key,
            ) == spec_get(store, key),
    decreases writes.len(),
{
    if writes.len() > 0 {
        let before = spec_commit(store, writes.drop_last());
        assert forall|i: int| 0 <= i < writes.drop_last().len() implies spec_is_table_write(
            id,
            #[trigger] writes.drop_last()[i],
        ) by {
            assert(writes.drop_last()[i] == writes[i]);
        }
        lemma_table_batch_keeps_registry(store, id, writes.drop_last());
        lemma_table_write_keeps_registry(before, id, writes.last());
    }
}

/// Two tables created one after the other: the second gets the id after
/// that of the first, and both ids are userland ids.
pub proof fn lemma_successive_tables(
    store: Store,
    first: Seq<char>,
    second: Seq<char>,
    n1: u32,
    n2: u32,
)
    requires
        spec_registry_sound(store),
        first != second,
        spec_get(store, spec_name_key(first)) is None,
        spec_get(store, spec_name_key(second)) is None,
        !spec_table_ids_exhausted(spec_get(store, spec_seed_key())),
        spec_next_table_id(spec_get(store, spec_seed_key())) == Ok::<u32, Error>(n1),
        ({
            let after = spec_commit(store, spec_create_writes(first, spec_u32_to_be(n1)));
            &&& !spec_table_ids_exhausted(spec_get(after, spec_seed_key()))
            &&& spec_next_table_id(spec_get(after, spec_seed_key())) == Ok::<u32, Error>(n2)
        }),
    ensures
        n2 == n1 + 1,
        spec_be_to_u32(MIN_USERLAND_TABLE_ID@) <= n1 < n2 < spec_be_to_u32(MAX_USERLAND_TABLE_ID@),
        spec_get(
            spec_commit(store, spec_create_writes(first, spec_u32_to_be(n1))),
            spec_name_key(second),
        ) is None,
        spec_registry_sound(
            spec_commit(
                spec_commit(store, spec_create_writes(first, spec_u32_to_be(n1))),
                spec_create_writes(second, spec_u32_to_be(n2)),
            ),
        ),
{
    let after = spec_commit(store, spec_create_writes(first, spec_u32_to_be(n1)));
    lemma_create_keeps_registry(store, first, n1);
    lemma_be_round_trip(n1);
    lemma_create_commit(store, first, spec_u32_to_be(n1));
    lemma_registry_keys_reserved(second, spec_u32_to_be(n1));
    lemma_registry_tables_apart(second, spec_u32_to_be(n1));
    if spec_name_key(first) == spec_name_key(second) {
        lemma_name_key_injective(first, second);
    }
    assert(spec_table_anchor(spec_u32_to_be(n1)).subrange(0, 4) =~= spec_u32_to_be(n1));
    assert(spec_get(after, spec_name_key(second)) is None);
    lemma_create_keeps_registry(after, second, n2);
}

/// In a sound keyspace a registered name leads to an id that leads back to
/// the name: whoever opens a table by its name finds that name under the
/// table's id.
pub proof fn lemma_registered_name_leads_back(store: Store, name: Seq<char>, id: Seq<u8>)
    requires
        spec_registry_sound(store),
        spec_get(store, spec_name_key(name)) == Some(id),
    ensures
        spec_table_id_of(spec_get(store, spec_name_key(name))) == Ok::<Option<Seq<u8>>, Error>(
            Some(id),
        ),
        crate::db::spec_table_name_of(spec_get(store, spec_id_key(id))) == Ok::<
            Option<Seq<char>>,
            Error,
        >(Some(name)),
        spec_allocated(store, id),
{
    let _ = spec_name_key(name);
    let _ = spec_id_key(id);
    assert(spec_allocated(store, id));
    vstd::utf8::encode_utf8_valid_utf8(name);
    vstd::utf8::encode_utf8_decode_utf8(name);
}

/// A table that was just created holds nothing but its anchor: whatever
/// lay under the id of a destroyed table does not show under the new id,
/// which was never handed out before.
pub proof fn lemma_new_table_is_empty(store: Store, name: Seq<char>, n: u32, key: Seq<u8>)
    requires
        spec_registry_sound(store),
        !spec_table_ids_exhausted(spec_get(store, spec_seed_key())),
        spec_next_table_id(spec_get(store, spec_seed_key())) == Ok::<u32, Error>(n),
        spec_inner_key(spec_u32_to_be(n), key) != spec_table_anchor(spec_u32_to_be(n)),
    ensures
        spec_get(
            spec_commit(store, spec_create_writes(name, spec_u32_to_be(n))),
            spec_inner_key(spec_u32_to_be(n), key),
        ) is None,
{
    let id = spec_u32_to_be(n);
    let inner = spec_inner_key(id, key);
    lemma_create_commit(store, name, id);
    lemma_be_round_trip(n);
    lemma_inner_key_round_trip(id, key);
    lemma_registry_keys_reserved(name, id);
    assert(spec_is_userland_key(inner));
    if store.contains_key(inner) {
        assert(spec_allocated(store, spec_extract_table_id(inner)));
    }
}

/// A table that is destroyed and created again gets a greater id, and under
/// neither id does a key of the agreed length lead to anything.
pub proof fn lemma_recreated_table_is_empty(
    store: Store,
    name: Seq<char>,
    id: Seq<u8>,
    n: u32,
    key: Seq<u8>,
)
    requires
        spec_registry_sound(store),
        spec_get(store, spec_name_key(name)) == Some(id),
        key.len() <= crate::consts::MAX_USERLAND_KEY_LEN,
        ({
            let destroyed = spec_commit(store, spec_destroy_writes(name, id));
            &&& !spec_table_ids_exhausted(spec_get(destroyed, spec_seed_key()))
            &&& spec_next_table_id(spec_get(destroyed, spec_seed_key())) == Ok::<u32, Error>(n)
        }),
    ensures
        spec_be_to_u32(id) < n,
        ({
            let destroyed = spec_commit(store, spec_destroy_writes(name, id));
            let created = spec_commit(destroyed, spec_create_writes(name, spec_u32_to_be(n)));
            &&& spec_registry_sound(created)
            &&& spec_get(created, spec_inner_key(spec_u32_to_be(n), key)) is None
            &&& spec_get(created, spec_inner_key(id, key)) is None
        }),
{
    let destroyed = spec_commit(store, spec_destroy_writes(name, id));
    let new_id = spec_u32_to_be(n);
    let created = spec_commit(destroyed, spec_create_writes(name, new_id));
    assert(spec_allocated(store, id)) by {
        let _ = spec_name_key(name);
    }
    lemma_destroy_keeps_registry(store, name, id);
    crate::db::lemma_destroy_removes_data(store, name, id, key);
    lemma_create_keeps_registry(destroyed, name, n);
    assert(spec_allocated(destroyed, id));
    lemma_be_round_trip(n);
    // the new anchor is one byte longer than any key of the agreed length
    assert(spec_inner_key(new_id, key).len() != spec_table_anchor(new_id).len());
    lemma_new_table_is_empty(destroyed, name, n, key);
    // creating the new table writes nothing under the old id
    lemma_create_commit(destroyed, name, new_id);
    lemma_inner_key_round_trip(id, key);
    lemma_registry_keys_reserved(name, new_id);
    assert(spec_is_userland_key(spec_inner_key(id, key)));
    assert(spec_table_anchor(new_id).subrange(0, 4) =~= new_id);
}

/// No name is stored with a byte `0xFF` in it.
pub proof fn lemma_name_bytes_below_ones(name: Seq<char>, index: int)
    requires
        0 <= index < encode_utf8(name).len(),
    ensures
        encode_utf8(name)[index] != 0xFFu8,
{
    let bytes = encode_utf8(name);
    vstd::utf8::encode_utf8_valid_utf8(name);
    vstd::utf8::is_char_boundary_iff_not_is_continuation_byte(bytes, index);
    vstd::utf8::is_char_boundary_iff_is_leading_byte(bytes, index);
}

/// Opening a database keeps the keyspace sound: the anchors of the two
/// registry tables are no record of any table, and neither the counter nor
/// any userland key changes.
pub proof fn lemma_open_keeps_registry(store: Store)
    requires
        spec_registry_sound(store),
    ensures
        spec_registry_sound(spec_commit(store, spec_registry_anchor_writes())),
        forall|name: Seq<char>| #[trigger]
            spec_get(spec_commit(store, spec_registry_anchor_writes()), spec_name_key(name))
                == spec_get(store, spec_name_key(name)),
        spec_get(spec_commit(store, spec_registry_anchor_writes()), spec_seed_key()) == spec_get(
            store,
            spec_seed_key(),
        ),
        forall|key: Seq<u8>|
            spec_is_userland_key(key) ==> #[trigger] spec_get(
                spec_commit(store, spec_registry_anchor_writes()),
                key,
            ) == spec_get(store, key),
{
    let writes = spec_registry_anchor_writes();
    let after = spec_commit(store, writes);
    let names_anchor = spec_anchor(NAME_TO_ID_TABLE_ID@, 1024);
    let ids_anchor = spec_anchor(ID_TO_NAME_TABLE_ID@, 3);
    let top = spec_ones(4);
    assert(after == store.insert(names_anchor, names_anchor).insert(ids_anchor, ids_anchor)) by {
        let w1 = writes.drop_last();
        assert(w1.drop_last() =~= Seq::<UpdateView>::empty());
        reveal_with_fuel(spec_commit, 3);
    }
    assert(names_anchor.subrange(0, 4) =~= NAME_TO_ID_TABLE_ID@);
    assert(ids_anchor.subrange(0, 4) =~= ID_TO_NAME_TABLE_ID@);
    assert(ids_anchor =~= spec_id_key(top));
    lemma_registry_keys_reserved(Seq::<char>::empty(), top);
    assert(names_anchor[3] != spec_seed_key()[3]);
    assert(spec_get(after, spec_seed_key()) == spec_get(store, spec_seed_key()));
    assert forall|name: Seq<char>| #[trigger]
        spec_get(after, spec_name_key(name)) == spec_get(store, spec_name_key(name)) by {
        lemma_registry_tables_apart(name, top);
        if spec_name_key(name) == names_anchor {
            lemma_inner_key_injective(
                NAME_TO_ID_TABLE_ID@,
                encode_utf8(name),
                NAME_TO_ID_TABLE_ID@,
                spec_ones(1025),
            );
            lemma_name_bytes_below_ones(name, 0);
        }
    }
    assert(spec_be_to_u32(top) == 0xFFFF_FFFFu32);
    assert(spec_paired(after)) by {
        assert forall|m: Seq<char>, i: Seq<u8>|
            #![trigger spec_name_key(m), spec_id_key(i)]
            i.len() == 4 implies (spec_get(after, spec_name_key(m)) == Some(i) <==> spec_get(
            after,
            spec_id_key(i),
        ) == Some(encode_utf8(m))) by {
            lemma_registry_tables_apart(m, i);
            assert(spec_get(after, spec_name_key(m)) == spec_get(store, spec_name_key(m)));
            assert(spec_id_key(i)[3] != names_anchor[3]);
            if spec_id_key(i) == ids_anchor {
                lemma_id_key_injective(i, top);
                if store.contains_key(spec_name_key(m)) {
                    assert(spec_allocated(store, store[spec_name_key(m)]));
                }
                if encode_utf8(m) == ids_anchor {
                    lemma_name_bytes_below_ones(m, 4);
                }
            }
        }
    }
    assert(spec_names_allocated(after)) by {
        assert forall|m: Seq<char>|
            after.contains_key(#[trigger] spec_name_key(m)) implies spec_allocated(
            after,
            after[spec_name_key(m)],
        ) by {
            assert(spec_get(after, spec_name_key(m)) == spec_get(store, spec_name_key(m)));
            assert(spec_allocated(store, store[spec_name_key(m)]));
        }
    }
    assert(spec_data_allocated(after)) by {
        assert forall|key: Seq<u8>| #[trigger]
            after.contains_key(key) && spec_is_userland_key(key) implies spec_allocated(
            after,
            spec_extract_table_id(key),
        ) by {
            assert(store.contains_key(key));
            assert(spec_allocated(store, spec_extract_table_id(key)));
        }
    }
}

/// What was put into a table is still there after the table was renamed,
/// under the same id, which the new name now leads to.
pub proof fn lemma_data_follows_rename(
    store: Store,
    old_name: Seq<char>,
    new_name: Seq<char>,
    id: Seq<u8>,
    other: Option<Seq<u8>>,
    key: Seq<u8>,
    value: Seq<u8>,
)
    requires
        spec_registry_sound(store),
        spec_get(store, spec_name_key(old_name)) == Some(id),
        spec_table_id_of(spec_get(store, spec_name_key(new_name))) == Ok::<
            Option<Seq<u8>>,
            Error,
        >(other),
    ensures
        ({
            let put = UpdateView::Put { key: spec_inner_key(id, key), value };
            let renamed = spec_commit(
                spec_apply(store, put),
                spec_rename_writes(old_name, new_name, id, other),
            );
            &&& spec_registry_sound(renamed)
            &&& spec_table_id_of(spec_get(renamed, spec_name_key(new_name))) == Ok::<
                Option<Seq<u8>>,
                Error,
            >(Some(id))
            &&& spec_get(renamed, spec_inner_key(id, key)) == Some(value)
        }),
{
    let put = UpdateView::Put { key: spec_inner_key(id, key), value };
    let written = spec_apply(store, put);
    assert(spec_allocated(store, id)) by {
        let _ = spec_name_key(old_name);
    }
    lemma_inner_key_round_trip(id, key);
    lemma_table_write_keeps_registry(store, id, put);
    lemma_registry_keys_reserved(old_name, id);
    lemma_registry_keys_reserved(new_name, id);
    assert(spec_get(written, spec_name_key(old_name)) == spec_get(store, spec_name_key(old_name)));
    assert(spec_get(written, spec_name_key(new_name)) == spec_get(store, spec_name_key(new_name)));
    lemma_rename_keeps_registry(written, old_name, new_name, id, other);
    let _ = spec_inner_key(id, key);
}

/// What was put into a table under a key of the agreed length is gone once
/// the table was destroyed, and stays gone when a table of the same name is
/// created again: that table has a greater id and starts empty.
pub proof fn lemma_destroyed_data_stays_gone(
    store: Store,
    name: Seq<char>,
    id: Seq<u8>,
    key: Seq<u8>,
    value: Seq<u8>,
    n: u32,
)
    requires
        spec_registry_sound(store),
        spec_get(store, spec_name_key(name)) == Some(id),
        key.len() <= crate::consts::MAX_USERLAND_KEY_LEN,
        ({
            let put = UpdateView::Put { key: spec_inner_key(id, key), value };
            let destroyed = spec_commit(spec_apply(store, put), spec_destroy_writes(name, id));
            &&& !spec_table_ids_exhausted(spec_get(destroyed, spec_seed_key()))
            &&& spec_next_table_id(spec_get(destroyed, spec_seed_key())) == Ok::<u32, Error>(n)
        }),
    ensures
        spec_be_to_u32(id) < n,
        ({
            let put = UpdateView::Put { key: spec_inner_key(id, key), value };
            let destroyed = spec_commit(spec_apply(store, put), spec_destroy_writes(name, id));
            let created = spec_commit(destroyed, spec_create_writes(name, spec_u32_to_be(n)));
            &&& spec_get(destroyed, spec_inner_key(id, key)) is None
            &&& spec_registry_sound(created)
            &&& spec_get(created, spec_inner_key(id, key)) is None
            &&& spec_get(created, spec_inner_key(spec_u32_to_be(n), key)) is None
        }),
{
    let put = UpdateView::Put { key: spec_inner_key(id, key), value };
    let written = spec_apply(store, put);
    assert(spec_allocated(store, id)) by {
        let _ = spec_name_key(name);
    }
    lemma_inner_key_round_trip(id, key);
    lemma_table_write_keeps_registry(store, id, put);
    lemma_registry_keys_reserved(name, id);
    assert(spec_get(written, spec_name_key(name)) == spec_get(store, spec_name_key(name)));
    crate::db::lemma_destroy_removes_data(written, name, id, key);
    lemma_recreated_table_is_empty(written, name, id, n, key);
}

} // verus!
