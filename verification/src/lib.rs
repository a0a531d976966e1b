//! Read-only parser and navigator for the binary journal file format:
//! a fixed header followed by an arena of 8-byte-aligned, variable-sized
//! objects (data, field, entry, hash table, entry array, tag). Contracts
//! state, byte for byte, what every decoded value was read from; the
//! payload hash is verified against a pure model of the algorithm.

pub mod primitives;
pub mod hash;
pub mod traits;
pub mod journal;
pub mod iter;

pub use crate::primitives::{is_valid64, align64};
pub use crate::hash::{rhash64, hashlittle, hashlittle2, hashword, hashword2, hash_size, hash_mask};
pub use crate::traits::{SizedObject, HashableObject};
pub use crate::journal::{
    JournalState, ObjectType, Object, ObjectHeader, DataObject, FieldObject, EntryItem,
    EntryObject, EntryArrayObject, HashItem, HashTableObject, TagObject, JournalHeader,
    JournalError, ObjectOffset, get_obj_at_offset, get_obj_header_at_offset, OBJECT_HEADER_SZ,
    DATA_OBJECT_HEADER_SZ, FIELD_OBJECT_HEADER_SZ, OBJECT_COMPRESSED_XZ, OBJECT_COMPRESSED_LZ4,
    OBJECT_COMPRESSED_MASK, TAG_LENGTH,
};
pub use crate::iter::{Journal, ObjectHeaderIter, ObjectIter, EntryArrayIter, EntryIter};
