//! The journal data model: the file header, the common object header and
//! the six object variants, together with the specification predicates
//! that say exactly which bytes each decoded value was read from.

use vstd::prelude::*;
use crate::primitives::{spec_is_aligned8, le32_at, le64_at, le128_at, be128_at};
use crate::hash::{spec_rhash64, rhash64};
use crate::traits::{SizedObject, HashableObject};
use vstd::string::StringSliceAdditionalSpecFns;

verus! {

pub const OBJECT_HEADER_SZ: u64 = 16;
pub const DATA_OBJECT_HEADER_SZ: u64 = 48;
pub const FIELD_OBJECT_HEADER_SZ: u64 = 24;

pub const OBJECT_COMPRESSED_XZ: u8 = 1;
pub const OBJECT_COMPRESSED_LZ4: u8 = 2;
pub const OBJECT_COMPRESSED_MASK: u8 = 3;

pub const TAG_LENGTH: usize = 32;

pub type ObjectOffset = u64;

/// The state byte kept in the journal header. Any value outside the three
/// known states is coerced to the distinguished maximum tag.
#[derive(Debug, PartialEq, Eq, Structural)]
pub enum JournalState {
    Offline,
    Online,
    Archived,
    StateMax,
}

/// The object type tag stored in the first byte of every object header.
#[derive(Debug, PartialEq, Eq, Structural)]
pub enum ObjectType {
    ObjectUnused,
    ObjectData,
    ObjectField,
    ObjectEntry,
    ObjectDataHashTable,
    ObjectFieldHashTable,
    ObjectEntryArray,
    ObjectTag,
    ObjectTypeMax,
}

/// Why a decode failed.
#[derive(Debug, PartialEq, Eq, Structural, Clone, Copy)]
pub enum JournalError {
    /// Signature mismatch, header size below minimum, or truncated header.
    InvalidHeader,
    /// Offset is zero, not 8-aligned, or points past the buffer.
    InvalidOffset,
    /// Type tag 0 encountered at a valid offset.
    UnusedObject,
    /// Type tag above the highest known variant.
    UnknownObject,
    /// A read would run past the buffer.
    Truncated,
    /// Declared size smaller than the variant's fixed prefix.
    InvalidSize,
}

/// The common object header for any object.
#[derive(Debug)]
pub struct ObjectHeader {
    pub type_: ObjectType,
    pub flags: u8,
    pub reserved: [u8; 6],
    pub size: u64,
}

/// Data objects have the actual data in the payload field.
#[derive(Debug)]
pub struct DataObject {
    /// The object header
    pub object: ObjectHeader,
    /// A hash of the payload
    pub hash: u64,
    /// Used in cases of hash collisions
    pub next_hash_offset: u64,
    /// Links data objects with the same field
    pub next_field_offset: u64,
    /// An offset to the first entry object referencing this data
    pub entry_offset: u64,
    /// An offset to an array object with offsets to other entries that point to this data
    pub entry_array_offset: u64,
    /// Count of entry objects that point to this object
    pub n_entries: u64,
    /// The field and data. Possibly compressed if object header indicates.
    pub payload: Vec<u8>,
}

/// Holds the field name data, such as a unit name.
#[derive(Debug)]
pub struct FieldObject {
    pub object: ObjectHeader,
    pub hash: u64,
    pub next_hash_offset: u64,
    pub head_data_offset: u64,
    pub payload: Vec<u8>,
}

/// One item of an entry: an offset to a data object and that object's hash.
#[derive(Debug)]
pub struct EntryItem {
    pub object_offset: u64,
    pub hash: u64,
}

/// Represents one log entry.
#[derive(Debug)]
pub struct EntryObject {
    pub object: ObjectHeader,
    /// Sequence number of the entry
    pub seqnum: u64,
    /// Realtime timestamp
    pub realtime: u64,
    /// Timestamp for the boot
    pub monotonic: u64,
    /// Boot id the monotonic timestamp refers to
    pub boot_id: u128,
    /// Binary XOR of the hashes of the payload of all data objects in the entry
    pub xor_hash: u64,
    pub items: Vec<EntryItem>,
}

/// A node of the linked list whose items are offsets to entries.
#[derive(Debug)]
pub struct EntryArrayObject {
    pub object: ObjectHeader,
    pub next_entry_array_offset: u64,
    pub items: Vec<ObjectOffset>,
}

/// One bucket of a hash table object.
#[derive(Debug)]
pub struct HashItem {
    pub hash_head_offset: u64,
    pub tail_hash_offset: u64,
}

/// An open-addressed bucket array keyed by payload hash.
#[derive(Debug)]
pub struct HashTableObject {
    pub object: ObjectHeader,
    pub items: Vec<HashItem>,
}

/// A sealing record; its tag is detected but never verified here.
#[derive(Debug)]
pub struct TagObject {
    pub object: ObjectHeader,
    pub seqnum: u64,
    pub epoch: u64,
    pub tag: [u8; TAG_LENGTH],
}

/// Represents all the possible types of objects in a journal file.
#[derive(Debug)]
pub enum Object {
    /// Holds data in the payload field
    Data(DataObject),
    /// Holds the field name data
    Field(FieldObject),
    /// Represents a log entry
    Entry(EntryObject),
    /// A hash table with offsets to data and field objects
    HashTable(HashTableObject),
    /// A linked-list node of entry offsets
    EntryArray(EntryArrayObject),
    /// An object used to seal the journal from modification
    Tag(TagObject),
}

/// The decoded fixed-size journal file header.
#[derive(Debug)]
pub struct JournalHeader {
    pub signature: [u8; 8],
    pub compatible_flags: u32,
    pub incompatible_flags: u32,
    pub state: JournalState,
    pub reserved: [u8; 7],
    pub file_id: u128,
    pub machine_id: u128,
    pub boot_id: u128,
    pub seqnum_id: u128,
    pub header_size: u64,
    pub arena_size: u64,
    pub data_hash_table_offset: u64,
    pub data_hash_table_size: u64,
    pub field_hash_table_offset: u64,
    pub field_hash_table_size: u64,
    pub tail_object_offset: u64,
    pub n_objects: u64,
    pub n_entries: u64,
    pub tail_entry_seqnum: u64,
    pub head_entry_seqnum: u64,
    pub entry_array_offset: u64,
    pub head_entry_realtime: u64,
    pub tail_entry_realtime: u64,
    pub tail_entry_monotonic: u64,
    pub n_data: u64,
    pub n_fields: u64,
    pub n_tags: u64,
    pub n_entry_arrays: u64,
}

/// The object type a tag byte names.
pub open spec fn spec_object_type(t: u8) -> ObjectType {
    if t == 0 {
        ObjectType::ObjectUnused
    } else if t == 1 {
        ObjectType::ObjectData
    } else if t == 2 {
        ObjectType::ObjectField
    } else if t == 3 {
        ObjectType::ObjectEntry
    } else if t == 4 {
        ObjectType::ObjectDataHashTable
    } else if t == 5 {
        ObjectType::ObjectFieldHashTable
    } else if t == 6 {
        ObjectType::ObjectEntryArray
    } else if t == 7 {
        ObjectType::ObjectTag
    } else {
        ObjectType::ObjectTypeMax
    }
}

/// The journal state a state byte names.
pub open spec fn spec_journal_state(b: u8) -> JournalState {
    if b == 0 {
        JournalState::Offline
    } else if b == 1 {
        JournalState::Online
    } else if b == 2 {
        JournalState::Archived
    } else {
        JournalState::StateMax
    }
}

/// The fixed prefix length of a variant, common header included: the
/// smallest size a well-formed object of that type may declare.
pub open spec fn spec_min_size(t: u8) -> int {
    if t == 1 {
        64
    } else if t == 2 {
        40
    } else if t == 3 {
        64
    } else if t == 4 || t == 5 {
        48
    } else if t == 6 {
        20
    } else if t == 7 {
        64
    } else {
        16
    }
}

/// How many items an entry of the given declared size carries.
pub open spec fn entry_item_count(size: int) -> int {
    (size - 48) / 16 - 1
}

/// How many buckets a hash table of the given declared size carries.
pub open spec fn hash_item_count(size: int) -> int {
    (size - 48) / 16
}

/// How many offset slots an entry array of the given declared size carries.
pub open spec fn ea_slot_count(size: int) -> int {
    (size - 20) / 8
}

/// How many bytes a decode of the given variant consumes from its offset.
pub open spec fn spec_needed(t: u8, size: int) -> int {
    if t == 1 || t == 2 {
        size
    } else if t == 3 {
        64 + 16 * entry_item_count(size)
    } else if t == 4 || t == 5 {
        16 + 16 * hash_item_count(size)
    } else if t == 6 {
        24 + 8 * ea_slot_count(size)
    } else {
        64
    }
}

/// Why a full decode at `off` fails, or `None` when it succeeds.
pub open spec fn spec_decode_err(buf: Seq<u8>, off: int) -> Option<JournalError> {
    if off == 0 {
        Some(JournalError::InvalidOffset)
    } else if !spec_is_aligned8(off) {
        Some(JournalError::InvalidOffset)
    } else if off >= buf.len() {
        Some(JournalError::InvalidOffset)
    } else if off + 16 > buf.len() {
        Some(JournalError::Truncated)
    } else {
        let t = buf[off];
        let size = le64_at(buf, off + 8);
        if t == 0 {
            Some(JournalError::UnusedObject)
        } else if t > 7 {
            Some(JournalError::UnknownObject)
        } else if size < spec_min_size(t) {
            Some(JournalError::InvalidSize)
        } else if off + spec_needed(t, size) > buf.len() {
            Some(JournalError::Truncated)
        } else {
            None
        }
    }
}

/// Why a header-only decode at `off` fails, or `None` when it succeeds.
/// Unknown tags are tolerated here; the walk only needs the size.
pub open spec fn spec_header_err(buf: Seq<u8>, off: int) -> Option<JournalError> {
    if off == 0 {
        Some(JournalError::InvalidOffset)
    } else if !spec_is_aligned8(off) {
        Some(JournalError::InvalidOffset)
    } else if off >= buf.len() {
        Some(JournalError::InvalidOffset)
    } else if off + 16 > buf.len() {
        Some(JournalError::Truncated)
    } else if buf[off] == 0 {
        Some(JournalError::UnusedObject)
    } else if le64_at(buf, off + 8) < 16 {
        Some(JournalError::InvalidSize)
    } else {
        None
    }
}

/// The common header fields were read from the sixteen bytes at `off`.
pub open spec fn header_decodes_at(h: ObjectHeader, buf: Seq<u8>, off: int) -> bool {
    &&& 0 < off
    &&& spec_is_aligned8(off)
    &&& off + 16 <= buf.len()
    &&& h.type_ == spec_object_type(buf[off])
    &&& h.flags == buf[off + 1]
    &&& h.reserved@ == buf.subrange(off + 2, off + 8)
    &&& h.size == le64_at(buf, off + 8)
}

/// A data object was decoded from the bytes at `off`.
pub open spec fn data_decodes_at(d: DataObject, buf: Seq<u8>, off: int) -> bool {
    let size = le64_at(buf, off + 8);
    &&& header_decodes_at(d.object, buf, off)
    &&& buf[off] == 1
    &&& 64 <= size
    &&& off + size <= buf.len()
    &&& d.hash == le64_at(buf, off + 16)
    &&& d.next_hash_offset == le64_at(buf, off + 24)
    &&& d.next_field_offset == le64_at(buf, off + 32)
    &&& d.entry_offset == le64_at(buf, off + 40)
    &&& d.entry_array_offset == le64_at(buf, off + 48)
    &&& d.n_entries == le64_at(buf, off + 56)
    &&& d.payload@ == buf.subrange(off + 64, off + size)
}

/// A field object was decoded from the bytes at `off`.
pub open spec fn field_decodes_at(f: FieldObject, buf: Seq<u8>, off: int) -> bool {
    let size = le64_at(buf, off + 8);
    &&& header_decodes_at(f.object, buf, off)
    &&& buf[off] == 2
    &&& 40 <= size
    &&& off + size <= buf.len()
    &&& f.hash == le64_at(buf, off + 16)
    &&& f.next_hash_offset == le64_at(buf, off + 24)
    &&& f.head_data_offset == le64_at(buf, off + 32)
    &&& f.payload@ == buf.subrange(off + 40, off + size)
}

/// An entry object was decoded from the bytes at `off`.
pub open spec fn entry_decodes_at(e: EntryObject, buf: Seq<u8>, off: int) -> bool {
    let size = le64_at(buf, off + 8);
    let n = entry_item_count(size);
    &&& header_decodes_at(e.object, buf, off)
    &&& buf[off] == 3
    &&& 64 <= size
    &&& off + 64 + 16 * n <= buf.len()
    &&& e.seqnum == le64_at(buf, off + 16)
    &&& e.realtime == le64_at(buf, off + 24)
    &&& e.monotonic == le64_at(buf, off + 32)
    &&& e.boot_id == le128_at(buf, off + 40)
    &&& e.xor_hash == le64_at(buf, off + 56)
    &&& e.items@.len() == n
    &&& forall|j: int|
        0 <= j < n ==> {
            &&& (#[trigger] e.items@[j]).object_offset == le64_at(buf, off + 64 + 16 * j)
            &&& e.items@[j].hash == le64_at(buf, off + 64 + 16 * j + 8)
        }
}

/// A hash table object was decoded from the bytes at `off`.
pub open spec fn hash_table_decodes_at(h: HashTableObject, buf: Seq<u8>, off: int) -> bool {
    let size = le64_at(buf, off + 8);
    let n = hash_item_count(size);
    &&& header_decodes_at(h.object, buf, off)
    &&& (buf[off] == 4 || buf[off] == 5)
    &&& 48 <= size
    &&& off + 16 + 16 * n <= buf.len()
    &&& h.items@.len() == n
    &&& forall|j: int|
        0 <= j < n ==> {
            &&& (#[trigger] h.items@[j]).hash_head_offset == le64_at(buf, off + 16 + 16 * j)
            &&& h.items@[j].tail_hash_offset == le64_at(buf, off + 16 + 16 * j + 8)
        }
}

/// The offsets held in `n` entry-array slots starting at `base`, in slot
/// order, with zero (null) slots skipped.
pub open spec fn ea_items(buf: Seq<u8>, base: int, n: nat) -> Seq<u64>
    decreases n,
{
    if n == 0 {
        Seq::empty()
    } else {
        let prev = ea_items(buf, base, (n - 1) as nat);
        let v = le64_at(buf, base + 8 * (n - 1));
        if v == 0 {
            prev
        } else {
            prev.push(v as u64)
        }
    }
}

/// Every offset an entry array carries is non-null.
pub proof fn lemma_ea_items_nonzero(buf: Seq<u8>, base: int, n: nat)
    ensures
        forall|j: int| 0 <= j < ea_items(buf, base, n).len() ==> ea_items(buf, base, n)[j] != 0,
    decreases n,
{
    if n > 0 {
        lemma_ea_items_nonzero(buf, base, (n - 1) as nat);
        let prev = ea_items(buf, base, (n - 1) as nat);
        let cur = ea_items(buf, base, n);
        let v = le64_at(buf, base + 8 * (n - 1));
        if v != 0 {
            assert forall|j: int| 0 <= j < cur.len() implies cur[j] != 0 by {
                if j < prev.len() {
                    assert(cur[j] == prev[j]);
                }
            }
        }
    }
}

/// An entry array object was decoded from the bytes at `off`.
pub open spec fn entry_array_decodes_at(ea: EntryArrayObject, buf: Seq<u8>, off: int) -> bool {
    let size = le64_at(buf, off + 8);
    let n = ea_slot_count(size);
    &&& header_decodes_at(ea.object, buf, off)
    &&& buf[off] == 6
    &&& 20 <= size
    &&& off + 24 + 8 * n <= buf.len()
    &&& ea.next_entry_array_offset == le64_at(buf, off + 16)
    &&& ea.items@ == ea_items(buf, off + 24, n as nat)
}

/// A tag object was decoded from the bytes at `off`.
pub open spec fn tag_decodes_at(t: TagObject, buf: Seq<u8>, off: int) -> bool {
    let size = le64_at(buf, off + 8);
    &&& header_decodes_at(t.object, buf, off)
    &&& buf[off] == 7
    &&& 64 <= size
    &&& off + 64 <= buf.len()
    &&& t.seqnum == le64_at(buf, off + 16)
    &&& t.epoch == le64_at(buf, off + 24)
    &&& t.tag@ == buf.subrange(off + 32, off + 64)
}

/// The object was decoded from the bytes at `off`, whichever variant the
/// tag byte names.
pub open spec fn object_decodes_at(o: Object, buf: Seq<u8>, off: int) -> bool {
    match o {
        Object::Data(d) => data_decodes_at(d, buf, off),
        Object::Field(f) => field_decodes_at(f, buf, off),
        Object::Entry(e) => entry_decodes_at(e, buf, off),
        Object::HashTable(h) => hash_table_decodes_at(h, buf, off),
        Object::EntryArray(ea) => entry_array_decodes_at(ea, buf, off),
        Object::Tag(t) => tag_decodes_at(t, buf, off),
    }
}

/// Every decoded object sits at an 8-aligned, non-null offset.
pub proof fn lemma_decoded_offset_aligned(o: Object, buf: Seq<u8>, off: int)
    requires
        object_decodes_at(o, buf, off),
    ensures
        spec_is_aligned8(off),
        off > 0,
{
}

/// Every decoded object declares a size of at least its variant's fixed
/// prefix, and so at least the sixteen common header bytes.
pub proof fn lemma_decoded_size_bounds(o: Object, buf: Seq<u8>, off: int)
    requires
        object_decodes_at(o, buf, off),
    ensures
        o.spec_size() >= spec_min_size(buf[off]),
        o.spec_size() >= 16,
{
}

fn read_common_header(buf: &[u8], o: usize, t: ObjectType, size: u64) -> (r: ObjectHeader)
    requires
        0 < o,
        spec_is_aligned8(o as int),
        o + 16 <= buf.len(),
        t == spec_object_type(buf@[o as int]),
        size == le64_at(buf@, o as int + 8),
    ensures
        header_decodes_at(r, buf@, o as int),
{
    let flags = buf[o + 1];
    let reserved: [u8; 6] = [
        buf[o + 2],
        buf[o + 3],
        buf[o + 4],
        buf[o + 5],
        buf[o + 6],
        buf[o + 7],
    ];
    proof {
        assert(reserved@ =~= buf@.subrange(o as int + 2, o as int + 8));
    }
    ObjectHeader { type_: t, flags, reserved, size }
}

fn decode_data(buf: &[u8], o: usize, size: u64) -> (r: DataObject)
    requires
        0 < o,
        spec_is_aligned8(o as int),
        buf@[o as int] == 1,
        size == le64_at(buf@, o as int + 8),
        64 <= size,
        o + size <= buf.len(),
    ensures
        data_decodes_at(r, buf@, o as int),
{
    let object = read_common_header(buf, o, ObjectType::ObjectData, size);
    let hash = crate::primitives::read_u64_le(buf, o + 16);
    let next_hash_offset = crate::primitives::read_u64_le(buf, o + 24);
    let next_field_offset = crate::primitives::read_u64_le(buf, o + 32);
    let entry_offset = crate::primitives::read_u64_le(buf, o + 40);
    let entry_array_offset = crate::primitives::read_u64_le(buf, o + 48);
    let n_entries = crate::primitives::read_u64_le(buf, o + 56);
    let payload = crate::primitives::read_bytes(buf, o + 64, (size - 64) as usize);
    DataObject {
        object,
        hash,
        next_hash_offset,
        next_field_offset,
        entry_offset,
        entry_array_offset,
        n_entries,
        payload,
    }
}

fn decode_field(buf: &[u8], o: usize, size: u64) -> (r: FieldObject)
    requires
        0 < o,
        spec_is_aligned8(o as int),
        buf@[o as int] == 2,
        size == le64_at(buf@, o as int + 8),
        40 <= size,
        o + size <= buf.len(),
    ensures
        field_decodes_at(r, buf@, o as int),
{
    let object = read_common_header(buf, o, ObjectType::ObjectField, size);
    let hash = crate::primitives::read_u64_le(buf, o + 16);
    let next_hash_offset = crate::primitives::read_u64_le(buf, o + 24);
    let head_data_offset = crate::primitives::read_u64_le(buf, o + 32);
    let payload = crate::primitives::read_bytes(buf, o + 40, (size - 40) as usize);
    FieldObject { object, hash, next_hash_offset, head_data_offset, payload }
}

fn decode_entry(buf: &[u8], o: usize, size: u64) -> (r: EntryObject)
    requires
        0 < o,
        spec_is_aligned8(o as int),
        buf@[o as int] == 3,
        size == le64_at(buf@, o as int + 8),
        64 <= size,
        o + 64 + 16 * entry_item_count(size as int) <= buf.len(),
    ensures
        entry_decodes_at(r, buf@, o as int),
{
    let object = read_common_header(buf, o, ObjectType::ObjectEntry, size);
    let seqnum = crate::primitives::read_u64_le(buf, o + 16);
    let realtime = crate::primitives::read_u64_le(buf, o + 24);
    let monotonic = crate::primitives::read_u64_le(buf, o + 32);
    let boot_id = crate::primitives::read_u128_le(buf, o + 40);
    let xor_hash = crate::primitives::read_u64_le(buf, o + 56);

    let cnt: u64 = (size - 48) / 16;
    let n_items: u64 = cnt - 1;
    proof {
        assert(n_items == entry_item_count(size as int));
    }
    let n: usize = n_items as usize;
    let mut items: Vec<EntryItem> = Vec::new();
    let mut j: usize = 0;
    while j < n
        invariant
            j <= n,
            n == entry_item_count(le64_at(buf@, o as int + 8)),
            o + 64 + 16 * n <= buf.len(),
            items@.len() == j,
            forall|q: int|
                0 <= q < j ==> {
                    &&& (#[trigger] items@[q]).object_offset == le64_at(
                        buf@,
                        o as int + 64 + 16 * q,
                    )
                    &&& items@[q].hash == le64_at(buf@, o as int + 64 + 16 * q + 8)
                },
        decreases n - j,
    {
        let pos: usize = o + 64 + 16 * j;
        let object_offset = crate::primitives::read_u64_le(buf, pos);
        let hash = crate::primitives::read_u64_le(buf, pos + 8);
        items.push(EntryItem { object_offset, hash });
        j = j + 1;
    }
    EntryObject { object, seqnum, realtime, monotonic, boot_id, xor_hash, items }
}

fn decode_hash_table(buf: &[u8], o: usize, size: u64) -> (r: HashTableObject)
    requires
        0 < o,
        spec_is_aligned8(o as int),
        buf@[o as int] == 4 || buf@[o as int] == 5,
        size == le64_at(buf@, o as int + 8),
        48 <= size,
        o + 16 + 16 * hash_item_count(size as int) <= buf.len(),
    ensures
        hash_table_decodes_at(r, buf@, o as int),
{
    let t = if buf[o] == 4 {
        ObjectType::ObjectDataHashTable
    } else {
        ObjectType::ObjectFieldHashTable
    };
    let object = read_common_header(buf, o, t, size);
    let cnt: u64 = (size - 48) / 16;
    proof {
        assert(cnt == hash_item_count(size as int));
    }
    let n: usize = cnt as usize;
    let mut items: Vec<HashItem> = Vec::new();
    let mut j: usize = 0;
    while j < n
        invariant
            j <= n,
            n == hash_item_count(le64_at(buf@, o as int + 8)),
            o + 16 + 16 * n <= buf.len(),
            items@.len() == j,
            forall|q: int|
                0 <= q < j ==> {
                    &&& (#[trigger] items@[q]).hash_head_offset == le64_at(
                        buf@,
                        o as int + 16 + 16 * q,
                    )
                    &&& items@[q].tail_hash_offset == le64_at(buf@, o as int + 16 + 16 * q + 8)
                },
        decreases n - j,
    {
        let pos: usize = o + 16 + 16 * j;
        let hash_head_offset = crate::primitives::read_u64_le(buf, pos);
        let tail_hash_offset = crate::primitives::read_u64_le(buf, pos + 8);
        items.push(HashItem { hash_head_offset, tail_hash_offset });
        j = j + 1;
    }
    HashTableObject { object, items }
}

fn decode_entry_array(buf: &[u8], o: usize, size: u64) -> (r: EntryArrayObject)
    requires
        0 < o,
        spec_is_aligned8(o as int),
        buf@[o as int] == 6,
        size == le64_at(buf@, o as int + 8),
        20 <= size,
        o + 24 + 8 * ea_slot_count(size as int) <= buf.len(),
    ensures
        entry_array_decodes_at(r, buf@, o as int),
{
    let object = read_common_header(buf, o, ObjectType::ObjectEntryArray, size);
    let next_entry_array_offset = crate::primitives::read_u64_le(buf, o + 16);
    let cnt: u64 = (size - 20) / 8;
    proof {
        assert(cnt == ea_slot_count(size as int));
    }
    let n: usize = cnt as usize;
    let mut items: Vec<u64> = Vec::new();
    let mut j: usize = 0;
    while j < n
        invariant
            j <= n,
            n == ea_slot_count(le64_at(buf@, o as int + 8)),
            o + 24 + 8 * n <= buf.len(),
            items@ == ea_items(buf@, o as int + 24, j as nat),
        decreases n - j,
    {
        let item = crate::primitives::read_u64_le(buf, o + 24 + 8 * j);
        if item != 0 {
            items.push(item);
        }
        j = j + 1;
    }
    EntryArrayObject { object, next_entry_array_offset, items }
}

fn decode_tag(buf: &[u8], o: usize, size: u64) -> (r: TagObject)
    requires
        0 < o,
        spec_is_aligned8(o as int),
        buf@[o as int] == 7,
        size == le64_at(buf@, o as int + 8),
        64 <= size,
        o + 64 <= buf.len(),
    ensures
        tag_decodes_at(r, buf@, o as int),
{
    let object = read_common_header(buf, o, ObjectType::ObjectTag, size);
    let seqnum = crate::primitives::read_u64_le(buf, o + 16);
    let epoch = crate::primitives::read_u64_le(buf, o + 24);
    let tag: [u8; TAG_LENGTH] = [
        buf[o + 32],
        buf[o + 33],
        buf[o + 34],
        buf[o + 35],
        buf[o + 36],
        buf[o + 37],
        buf[o + 38],
        buf[o + 39],
        buf[o + 40],
        buf[o + 41],
        buf[o + 42],
        buf[o + 43],
        buf[o + 44],
        buf[o + 45],
        buf[o + 46],
        buf[o + 47],
        buf[o + 48],
        buf[o + 49],
        buf[o + 50],
        buf[o + 51],
        buf[o + 52],
        buf[o + 53],
        buf[o + 54],
        buf[o + 55],
        buf[o + 56],
        buf[o + 57],
        buf[o + 58],
        buf[o + 59],
        buf[o + 60],
        buf[o + 61],
        buf[o + 62],
        buf[o + 63],
    ];
    proof {
        assert(tag@ =~= buf@.subrange(o as int + 32, o as int + 64));
    }
    TagObject { object, seqnum, epoch, tag }
}

/// Decodes the object whose header begins at `offset`, or says exactly
/// why no object can be decoded there.
pub fn get_obj_at_offset(buf: &[u8], offset: u64) -> (r: Result<Object, JournalError>)
    ensures
        r is Ok <==> spec_decode_err(buf@, offset as int) is None,
        r matches Err(e) ==> spec_decode_err(buf@, offset as int) == Some(e),
        r matches Ok(o) ==> object_decodes_at(o, buf@, offset as int),
{
    if offset == 0 {
        return Err(JournalError::InvalidOffset);
    }
    if offset % 8 != 0 {
        return Err(JournalError::InvalidOffset);
    }
    let len: u64 = buf.len() as u64;
    if offset >= len {
        return Err(JournalError::InvalidOffset);
    }
    if len - offset < 16 {
        return Err(JournalError::Truncated);
    }
    let o: usize = offset as usize;
    let t: u8 = buf[o];
    let size: u64 = crate::primitives::read_u64_le(buf, o + 8);
    let avail: u64 = len - offset;
    match t {
        0 => Err(JournalError::UnusedObject),
        1 => {
            if size < 64 {
                return Err(JournalError::InvalidSize);
            }
            if avail < size {
                return Err(JournalError::Truncated);
            }
            Ok(Object::Data(decode_data(buf, o, size)))
        },
        2 => {
            if size < 40 {
                return Err(JournalError::InvalidSize);
            }
            if avail < size {
                return Err(JournalError::Truncated);
            }
            Ok(Object::Field(decode_field(buf, o, size)))
        },
        3 => {
            if size < 64 {
                return Err(JournalError::InvalidSize);
            }
            let cnt: u64 = (size - 48) / 16;
            let needed: u128 = 48 + 16 * (cnt as u128);
            if needed > avail as u128 {
                return Err(JournalError::Truncated);
            }
            proof {
                assert(needed == 64 + 16 * entry_item_count(size as int));
            }
            Ok(Object::Entry(decode_entry(buf, o, size)))
        },
        4 | 5 => {
            if size < 48 {
                return Err(JournalError::InvalidSize);
            }
            let cnt: u64 = (size - 48) / 16;
            let needed: u128 = 16 + 16 * (cnt as u128);
            if needed > avail as u128 {
                return Err(JournalError::Truncated);
            }
            Ok(Object::HashTable(decode_hash_table(buf, o, size)))
        },
        6 => {
            if size < 20 {
                return Err(JournalError::InvalidSize);
            }
            let cnt: u64 = (size - 20) / 8;
            let needed: u128 = 24 + 8 * (cnt as u128);
            if needed > avail as u128 {
                return Err(JournalError::Truncated);
            }
            Ok(Object::EntryArray(decode_entry_array(buf, o, size)))
        },
        7 => {
            if size < 64 {
                return Err(JournalError::InvalidSize);
            }
            if avail < 64 {
                return Err(JournalError::Truncated);
            }
            Ok(Object::Tag(decode_tag(buf, o, size)))
        },
        _ => Err(JournalError::UnknownObject),
    }
}

/// Decodes only the sixteen common header bytes at `offset`. Unknown
/// type tags are tolerated and mapped to the maximum tag.
pub fn get_obj_header_at_offset(buf: &[u8], offset: u64) -> (r: Result<
    ObjectHeader,
    JournalError,
>)
    ensures
        r is Ok <==> spec_header_err(buf@, offset as int) is None,
        r matches Err(e) ==> spec_header_err(buf@, offset as int) == Some(e),
        r matches Ok(h) ==> header_decodes_at(h, buf@, offset as int) && h.size >= 16,
{
    if offset == 0 {
        return Err(JournalError::InvalidOffset);
    }
    if offset % 8 != 0 {
        return Err(JournalError::InvalidOffset);
    }
    let len: u64 = buf.len() as u64;
    if offset >= len {
        return Err(JournalError::InvalidOffset);
    }
    if len - offset < 16 {
        return Err(JournalError::Truncated);
    }
    let o: usize = offset as usize;
    let tb: u8 = buf[o];
    if tb == 0 {
        return Err(JournalError::UnusedObject);
    }
    let size: u64 = crate::primitives::read_u64_le(buf, o + 8);
    if size < 16 {
        return Err(JournalError::InvalidSize);
    }
    let t = match tb {
        1 => ObjectType::ObjectData,
        2 => ObjectType::ObjectField,
        3 => ObjectType::ObjectEntry,
        4 => ObjectType::ObjectDataHashTable,
        5 => ObjectType::ObjectFieldHashTable,
        6 => ObjectType::ObjectEntryArray,
        7 => ObjectType::ObjectTag,
        _ => ObjectType::ObjectTypeMax,
    };
    Ok(read_common_header(buf, o, t, size))
}

impl ObjectHeader {
    /// True when either compression flag bit is set.
    pub fn is_compressed(&self) -> (r: bool)
        ensures
            r == ((self.flags & OBJECT_COMPRESSED_MASK) != 0),
    {
        self.flags & OBJECT_COMPRESSED_MASK != 0
    }
}

impl SizedObject for ObjectHeader {
    open spec fn spec_size(&self) -> u64 {
        self.size
    }

    fn size(&self) -> (r: u64) {
        self.size
    }
}

impl SizedObject for Object {
    open spec fn spec_size(&self) -> u64 {
        match self {
            Object::Data(d) => d.object.size,
            Object::Field(f) => f.object.size,
            Object::Entry(e) => e.object.size,
            Object::HashTable(ht) => ht.object.size,
            Object::EntryArray(ea) => ea.object.size,
            Object::Tag(t) => t.object.size,
        }
    }

    fn size(&self) -> (r: u64) {
        match self {
            Object::Data(d) => d.object.size,
            Object::Field(f) => f.object.size,
            Object::Entry(e) => e.object.size,
            Object::HashTable(ht) => ht.object.size,
            Object::EntryArray(ea) => ea.object.size,
            Object::Tag(t) => t.object.size,
        }
    }
}

impl DataObject {
    /// Returns true if the data object payload was added by the journal
    /// daemon and cannot be altered by client code.
    pub fn payload_is_trusted(&self) -> (r: bool)
        requires
            self.payload@.len() >= 1,
        ensures
            r == (self.payload@[0] == 0x5f),
    {
        0x5f == self.payload[0]
    }
}

impl HashableObject for DataObject {
    open spec fn spec_hash(&self) -> u64 {
        spec_rhash64(self.payload@)
    }

    fn hash(&self) -> (r: u64) {
        rhash64(self.payload.as_slice())
    }
}

impl HashableObject for FieldObject {
    open spec fn spec_hash(&self) -> u64 {
        spec_rhash64(self.payload@)
    }

    fn hash(&self) -> (r: u64) {
        rhash64(self.payload.as_slice())
    }
}

/// The eight ASCII signature bytes every journal file starts with.
pub open spec fn spec_signature() -> Seq<u8> {
    seq![0x4cu8, 0x50u8, 0x4bu8, 0x53u8, 0x48u8, 0x48u8, 0x52u8, 0x48u8]
}

/// The conditions under which the opener accepts a file header: enough
/// bytes for the fixed prefix, the right signature, and a declared
/// header size of at least the fixed prefix.
pub open spec fn spec_header_ok(buf: Seq<u8>) -> bool {
    &&& buf.len() >= 240
    &&& buf.subrange(0, 8) == spec_signature()
    &&& le64_at(buf, 88) >= 240
}

/// The journal header fields were read from the first 240 bytes: the
/// identifiers big-endian, every counter and offset little-endian.
pub open spec fn journal_header_decodes(h: JournalHeader, buf: Seq<u8>) -> bool {
    &&& buf.len() >= 240
    &&& h.signature@ == buf.subrange(0, 8)
    &&& h.compatible_flags == le32_at(buf, 8)
    &&& h.incompatible_flags == le32_at(buf, 12)
    &&& h.state == spec_journal_state(buf[16])
    &&& h.reserved@ == buf.subrange(17, 24)
    &&& h.file_id == be128_at(buf, 24)
    &&& h.machine_id == be128_at(buf, 40)
    &&& h.boot_id == be128_at(buf, 56)
    &&& h.seqnum_id == be128_at(buf, 72)
    &&& h.header_size == le64_at(buf, 88)
    &&& h.arena_size == le64_at(buf, 96)
    &&& h.data_hash_table_offset == le64_at(buf, 104)
    &&& h.data_hash_table_size == le64_at(buf, 112)
    &&& h.field_hash_table_offset == le64_at(buf, 120)
    &&& h.field_hash_table_size == le64_at(buf, 128)
    &&& h.tail_object_offset == le64_at(buf, 136)
    &&& h.n_objects == le64_at(buf, 144)
    &&& h.n_entries == le64_at(buf, 152)
    &&& h.tail_entry_seqnum == le64_at(buf, 160)
    &&& h.head_entry_seqnum == le64_at(buf, 168)
    &&& h.entry_array_offset == le64_at(buf, 176)
    &&& h.head_entry_realtime == le64_at(buf, 184)
    &&& h.tail_entry_realtime == le64_at(buf, 192)
    &&& h.tail_entry_monotonic == le64_at(buf, 200)
    &&& h.n_data == le64_at(buf, 208)
    &&& h.n_fields == le64_at(buf, 216)
    &&& h.n_tags == le64_at(buf, 224)
    &&& h.n_entry_arrays == le64_at(buf, 232)
}

impl JournalHeader {
    /// Decodes and validates the fixed journal file header: the buffer
    /// must hold the 240-byte prefix, carry the signature, and declare a
    /// header size of at least that prefix.
    pub fn new(buf: &[u8]) -> (r: Result<JournalHeader, JournalError>)
        ensures
            r is Ok <==> spec_header_ok(buf@),
            r matches Err(e) ==> e == JournalError::InvalidHeader,
            r matches Ok(h) ==> journal_header_decodes(h, buf@),
    {
        if buf.len() < 240 {
            return Err(JournalError::InvalidHeader);
        }
        let signature: [u8; 8] = [
            buf[0],
            buf[1],
            buf[2],
            buf[3],
            buf[4],
            buf[5],
            buf[6],
            buf[7],
        ];
        proof {
            assert(signature@ =~= buf@.subrange(0, 8));
        }
        if !(buf[0] == 0x4c && buf[1] == 0x50 && buf[2] == 0x4b && buf[3] == 0x53 && buf[4]
            == 0x48 && buf[5] == 0x48 && buf[6] == 0x52 && buf[7] == 0x48) {
            proof {
                assert(buf@.subrange(0, 8) != spec_signature()) by {
                    if buf@.subrange(0, 8) == spec_signature() {
                        assert(buf@[0] == spec_signature()[0]);
                        assert(buf@[1] == spec_signature()[1]);
                        assert(buf@[2] == spec_signature()[2]);
                        assert(buf@[3] == spec_signature()[3]);
                        assert(buf@[4] == spec_signature()[4]);
                        assert(buf@[5] == spec_signature()[5]);
                        assert(buf@[6] == spec_signature()[6]);
                        assert(buf@[7] == spec_signature()[7]);
                    }
                }
            }
            return Err(JournalError::InvalidHeader);
        }
        proof {
            assert(buf@.subrange(0, 8) =~= spec_signature());
        }
        let header_size = crate::primitives::read_u64_le(buf, 88);
        if header_size < 240 {
            return Err(JournalError::InvalidHeader);
        }
        let compatible_flags = crate::primitives::read_u32_le(buf, 8);
        let incompatible_flags = crate::primitives::read_u32_le(buf, 12);
        let state_byte = buf[16];
        let state = match state_byte {
            0 => JournalState::Offline,
            1 => JournalState::Online,
            2 => JournalState::Archived,
            _ => JournalState::StateMax,
        };
        let reserved: [u8; 7] = [buf[17], buf[18], buf[19], buf[20], buf[21], buf[22], buf[23]];
        proof {
            assert(reserved@ =~= buf@.subrange(17, 24));
        }
        let file_id = crate::primitives::read_u128_be(buf, 24);
        let machine_id = crate::primitives::read_u128_be(buf, 40);
        let boot_id = crate::primitives::read_u128_be(buf, 56);
        let seqnum_id = crate::primitives::read_u128_be(buf, 72);
        let arena_size = crate::primitives::read_u64_le(buf, 96);
        let data_hash_table_offset = crate::primitives::read_u64_le(buf, 104);
        let data_hash_table_size = crate::primitives::read_u64_le(buf, 112);
        let field_hash_table_offset = crate::primitives::read_u64_le(buf, 120);
        let field_hash_table_size = crate::primitives::read_u64_le(buf, 128);
        let tail_object_offset = crate::primitives::read_u64_le(buf, 136);
        let n_objects = crate::primitives::read_u64_le(buf, 144);
        let n_entries = crate::primitives::read_u64_le(buf, 152);
        let tail_entry_seqnum = crate::primitives::read_u64_le(buf, 160);
        let head_entry_seqnum = crate::primitives::read_u64_le(buf, 168);
        let entry_array_offset = crate::primitives::read_u64_le(buf, 176);
        let head_entry_realtime = crate::primitives::read_u64_le(buf, 184);
        let tail_entry_realtime = crate::primitives::read_u64_le(buf, 192);
        let tail_entry_monotonic = crate::primitives::read_u64_le(buf, 200);
        let n_data = crate::primitives::read_u64_le(buf, 208);
        let n_fields = crate::primitives::read_u64_le(buf, 216);
        let n_tags = crate::primitives::read_u64_le(buf, 224);
        let n_entry_arrays = crate::primitives::read_u64_le(buf, 232);

        Ok(JournalHeader {
            signature,
            compatible_flags,
            incompatible_flags,
            state,
            reserved,
            file_id,
            machine_id,
            boot_id,
            seqnum_id,
            header_size,
            arena_size,
            data_hash_table_offset,
            data_hash_table_size,
            field_hash_table_offset,
            field_hash_table_size,
            tail_object_offset,
            n_objects,
            n_entries,
            tail_entry_seqnum,
            head_entry_seqnum,
            entry_array_offset,
            head_entry_realtime,
            tail_entry_realtime,
            tail_entry_monotonic,
            n_data,
            n_fields,
            n_tags,
            n_entry_arrays,
        })
    }
}

/// The exclusive-or of the hashes of the first `n` items.
pub open spec fn xor_items_upto(items: Seq<EntryItem>, n: int) -> u64
    decreases n,
{
    if n <= 0 {
        0u64
    } else {
        xor_items_upto(items, n - 1) ^ items[n - 1].hash
    }
}

/// The payload bytes of the data object decoded at `off`.
pub open spec fn data_payload_at(buf: Seq<u8>, off: int) -> Seq<u8> {
    buf.subrange(off + 64, off + le64_at(buf, off + 8))
}

/// The data object decoded at `off` carries a payload beginning with `kb`.
pub open spec fn data_payload_matches(buf: Seq<u8>, off: int, kb: Seq<u8>) -> bool {
    &&& data_payload_at(buf, off).len() >= kb.len()
    &&& data_payload_at(buf, off).take(kb.len() as int) == kb
}

/// What a scan of an entry's items for a key finds: the payload bytes
/// after the key of the first data object whose payload begins with the
/// key. The scan gives up at the first item that does not decode.
pub open spec fn scan_items_for_key(buf: Seq<u8>, items: Seq<EntryItem>, kb: Seq<u8>) -> Option<
    Seq<u8>,
>
    decreases items.len(),
{
    if items.len() == 0 {
        None
    } else {
        let off = items[0].object_offset as int;
        if spec_decode_err(buf, off) is Some {
            None
        } else if buf[off] == 1 && data_payload_matches(buf, off, kb) {
            Some(data_payload_at(buf, off).skip(kb.len() as int))
        } else {
            scan_items_for_key(buf, items.drop_first(), kb)
        }
    }
}

/// Relies on String::from_utf8: succeeds exactly on valid UTF-8 and
/// returns the string whose characters decode those bytes.
#[verifier::external_body]
fn bytes_to_string(v: Vec<u8>) -> (r: Option<String>)
    ensures
        r matches Some(s) ==> vstd::utf8::valid_utf8(v@) && s@ == vstd::utf8::decode_utf8(v@),
        r is None ==> !vstd::utf8::valid_utf8(v@),
{
    match String::from_utf8(v) {
        Ok(s) => Some(s),
        Err(_) => None,
    }
}

/// True when `v` begins with the bytes of `p`.
fn starts_with_bytes(v: &Vec<u8>, p: &[u8]) -> (r: bool)
    ensures
        r == (v@.len() >= p@.len() && v@.take(p@.len() as int) == p@),
{
    if v.len() < p.len() {
        return false;
    }
    let n = p.len();
    let mut i: usize = 0;
    while i < n
        invariant
            i <= n,
            n == p@.len(),
            v@.len() >= n,
            forall|q: int| 0 <= q < i ==> v@[q] == p@[q],
        decreases n - i,
    {
        if v[i] != p[i] {
            proof {
                assert(v@.take(n as int)[i as int] != p@[i as int]);
            }
            return false;
        }
        i = i + 1;
    }
    proof {
        assert(v@.take(n as int) =~= p@);
    }
    true
}

impl EntryObject {
    /// Scans the entry's items in order; returns the rest of the payload
    /// (after the key) of the first data object whose payload begins
    /// with `key`, as a string. Returns nothing when no item matches,
    /// an item fails to decode, or the rest is not valid UTF-8.
    pub fn get_data(&self, key: &str, buf: &[u8]) -> (r: Option<String>)
        ensures
            ({
                let sc = scan_items_for_key(buf@, self.items@, key.spec_bytes());
                &&& (sc is None ==> r is None)
                &&& (sc matches Some(sfx) ==> {
                    if vstd::utf8::valid_utf8(sfx) {
                        r matches Some(s) && s@ == vstd::utf8::decode_utf8(sfx)
                    } else {
                        r is None
                    }
                })
            }),
    {
        let kb: &[u8] = key.as_bytes();
        let klen = kb.len();
        let n = self.items.len();
        let mut i: usize = 0;
        proof {
            assert(self.items@.skip(0) =~= self.items@);
        }
        while i < n
            invariant
                i <= n,
                n == self.items@.len(),
                kb@ == key.spec_bytes(),
                klen == kb@.len(),
                scan_items_for_key(buf@, self.items@, kb@) == scan_items_for_key(
                    buf@,
                    self.items@.skip(i as int),
                    kb@,
                ),
            decreases n - i,
        {
            let ghost pending = self.items@.skip(i as int);
            proof {
                assert(pending[0] == self.items@[i as int]);
                assert(pending.drop_first() =~= self.items@.skip(i + 1));
            }
            let off = self.items[i].object_offset;
            match get_obj_at_offset(buf, off) {
                Err(_) => {
                    return None;
                },
                Ok(Object::Data(d)) => {
                    if starts_with_bytes(&d.payload, kb) {
                        let sfx = crate::primitives::read_bytes(
                            d.payload.as_slice(),
                            klen,
                            d.payload.len() - klen,
                        );
                        proof {
                            assert(sfx@ =~= d.payload@.skip(klen as int));
                        }
                        return bytes_to_string(sfx);
                    }
                },
                Ok(_) => {},
            }
            i = i + 1;
        }
        None
    }
}

impl HashableObject for EntryObject {
    open spec fn spec_hash(&self) -> u64 {
        xor_items_upto(self.items@, self.items@.len() as int)
    }

    fn hash(&self) -> (r: u64) {
        let mut xor_hash: u64 = 0;
        let mut i: usize = 0;
        let n = self.items.len();
        while i < n
            invariant
                i <= n,
                n == self.items@.len(),
                xor_hash == xor_items_upto(self.items@, i as int),
            decreases n - i,
        {
            xor_hash = xor_hash ^ self.items[i].hash;
            i = i + 1;
        }
        xor_hash
    }
}

} // verus!
