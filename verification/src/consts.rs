use vstd::prelude::*;

verus! {

/// A table id: four bytes, read as a big-endian number.
pub type TableId = [u8; 4];

/// The id of one scalar inside the metadata table.
pub type ItemId = [u8; 2];

/// Number of bytes a table id occupies at the front of every stored key.
pub const TABLE_ID_LEN: usize = 4;

/// Longest user key a userland table is expected to hold.
pub const MAX_USERLAND_KEY_LEN: u8 = 4;

/// Number of `0xFF` bytes behind the table id in the anchor of the
/// name-to-id table.
pub const NAME_TO_ID_ANCHOR_LEN: u16 = 1025;

/// First id handed to a userland table (1024, big-endian).
pub const MIN_USERLAND_TABLE_ID: [u8; 4] = [0, 0, 4, 0];

/// Upper limit of the userland id range (4294967294, big-endian).
pub const MAX_USERLAND_TABLE_ID: [u8; 4] = [255, 255, 255, 254];

/// Id of the table that maps a table name to its id.
pub const NAME_TO_ID_TABLE_ID: [u8; 4] = [0, 0, 0, 0];

/// Id of the table that maps a table id to its name.
pub const ID_TO_NAME_TABLE_ID: [u8; 4] = [0, 0, 0, 1];

/// Id of the metadata table, which holds the id counter.
pub const INFO_TABLE_ID: [u8; 4] = [0, 0, 0, 2];

/// The item of the metadata table that holds the last id handed out.
pub const SEED_ITEM_ID: [u8; 2] = [0, 0];

/// Table id that marks a logged delete as a range delete. It lies above the
/// userland range, so no table ever gets it.
pub const DELETE_RANGE_HINT_TABLE_ID: [u8; 4] = [255, 255, 255, 255];

} // verus!
