//! The navigator: the `Journal` built over a borrowed byte buffer, and
//! the iterator family walking it — common headers in arena order, whole
//! objects in arena order, the entry-array chain, and the entries it
//! names. Each walk is specified by a pure model of the offsets it
//! visits, so counting and integrity checks have exact contracts.

use vstd::prelude::*;
use crate::primitives::{spec_is_aligned8, spec_align8, lemma_align8_bounds, align64, le64_at};
use crate::journal::{
    spec_decode_err, spec_header_err, object_decodes_at,
    header_decodes_at, entry_decodes_at, entry_array_decodes_at, ea_items, ea_slot_count,
    entry_item_count, journal_header_decodes, spec_header_ok, xor_items_upto,
    get_obj_at_offset, get_obj_header_at_offset, Object, ObjectHeader, EntryObject,
    EntryArrayObject, EntryItem, JournalHeader, JournalError,
};
use crate::hash::{spec_rhash64, rhash64};
use crate::traits::{SizedObject, HashableObject};

verus! {

/// The offset following the object at `off`: the declared size past the
/// object's start, rounded up to the alignment boundary.
pub open spec fn walk_next(buf: Seq<u8>, off: int) -> int {
    spec_align8(off + le64_at(buf, off + 8))
}

/// The offsets of the objects an arena walk visits when every step fully
/// decodes: start at `off`, advance by the declared size, stop at the
/// first offset where decoding fails.
pub open spec fn spec_walk(buf: Seq<u8>, off: int) -> Seq<int>
    decreases buf.len() - off,
{
    if spec_decode_err(buf, off) is None {
        let next = walk_next(buf, off);
        if off < next <= buf.len() {
            seq![off] + spec_walk(buf, next)
        } else {
            seq![off]
        }
    } else {
        Seq::empty()
    }
}

/// The offsets a header-only walk visits: as `spec_walk`, but a step
/// needs only a readable common header with a plausible size.
pub open spec fn spec_header_walk(buf: Seq<u8>, off: int) -> Seq<int>
    decreases buf.len() - off,
{
    if spec_header_err(buf, off) is None {
        let next = walk_next(buf, off);
        if off < next <= buf.len() {
            seq![off] + spec_header_walk(buf, next)
        } else {
            seq![off]
        }
    } else {
        Seq::empty()
    }
}

/// The entry offsets collected by following the entry-array chain from
/// `off` for at most `fuel` nodes: each node contributes its non-null
/// slots in order, and the chain ends at a null link, a node that fails
/// to decode, or an object of another type.
pub open spec fn spec_ea_chain(buf: Seq<u8>, off: int, fuel: nat) -> Seq<u64>
    decreases fuel,
{
    if fuel == 0 || off == 0 {
        Seq::empty()
    } else if spec_decode_err(buf, off) is Some {
        Seq::empty()
    } else if buf[off] != 6 {
        Seq::empty()
    } else {
        ea_items(buf, off + 24, ea_slot_count(le64_at(buf, off + 8)) as nat) + spec_ea_chain(
            buf,
            le64_at(buf, off + 16),
            (fuel - 1) as nat,
        )
    }
}

/// The exclusive-or of the stored hashes of `n` entry items laid out at
/// `base`.
pub open spec fn xor_entry_hashes(buf: Seq<u8>, base: int, n: int) -> u64
    decreases n,
{
    if n <= 0 {
        0u64
    } else {
        xor_entry_hashes(buf, base, n - 1) ^ (le64_at(buf, base + 16 * (n - 1) + 8) as u64)
    }
}

/// An entry's recomputed item-hash fold equals the fold over the raw
/// bytes its items were decoded from.
proof fn lemma_xor_items_match(items: Seq<EntryItem>, buf: Seq<u8>, base: int, n: int)
    requires
        0 <= n,
        forall|j: int| 0 <= j < n ==> (#[trigger] items[j]).hash == le64_at(buf, base + 16 * j + 8),
    ensures
        xor_items_upto(items, n) == xor_entry_hashes(buf, base, n),
    decreases n,
{
    if n > 0 {
        lemma_xor_items_match(items, buf, base, n - 1);
    }
}

/// The integrity condition `verify` holds the object at `off` to:
/// a data object's stored hash must match its payload's hash; in a deep
/// verification a field object's hash must match too, and an entry's
/// stored xor-hash must equal the fold of its items' hashes.
pub open spec fn check_ok(buf: Seq<u8>, off: int, deep: bool) -> bool {
    let t = buf[off];
    let size = le64_at(buf, off + 8);
    &&& (t == 1 ==> spec_rhash64(buf.subrange(off + 64, off + size)) == le64_at(buf, off + 16))
    &&& ((deep && t == 2) ==> spec_rhash64(buf.subrange(off + 40, off + size)) == le64_at(
        buf,
        off + 16,
    ))
    &&& ((deep && t == 3) ==> xor_entry_hashes(buf, off + 64, entry_item_count(size)) == le64_at(
        buf,
        off + 56,
    ))
}

/// Every object the arena walk from `start` visits passes its check.
pub open spec fn spec_verify_ok(buf: Seq<u8>, start: int, deep: bool) -> bool {
    forall|i: int|
        0 <= i < spec_walk(buf, start).len() ==> check_ok(
            buf,
            #[trigger] spec_walk(buf, start)[i],
            deep,
        )
}

/// If verification succeeds, the stored hash of every data object on the
/// walk equals the recomputed hash of its payload bytes; deep
/// verification extends this to field objects and entry xor-hashes.
pub proof fn lemma_verify_covers_walk(buf: Seq<u8>, start: int, deep: bool, i: int)
    requires
        spec_verify_ok(buf, start, deep),
        0 <= i < spec_walk(buf, start).len(),
    ensures
        check_ok(buf, spec_walk(buf, start)[i], deep),
{
}

/// When verification succeeds, every data object decoded anywhere on the
/// walk stores exactly the hash of its payload.
pub proof fn lemma_verified_data_hash(
    buf: Seq<u8>,
    start: int,
    deep: bool,
    i: int,
    d: crate::journal::DataObject,
)
    requires
        spec_verify_ok(buf, start, deep),
        0 <= i < spec_walk(buf, start).len(),
        crate::journal::data_decodes_at(d, buf, spec_walk(buf, start)[i]),
    ensures
        spec_rhash64(d.payload@) == d.hash,
{
    lemma_verify_covers_walk(buf, start, deep, i);
}

/// When deep verification succeeds, every field object decoded anywhere
/// on the walk stores exactly the hash of its payload.
pub proof fn lemma_verified_field_hash(
    buf: Seq<u8>,
    start: int,
    i: int,
    f: crate::journal::FieldObject,
)
    requires
        spec_verify_ok(buf, start, true),
        0 <= i < spec_walk(buf, start).len(),
        crate::journal::field_decodes_at(f, buf, spec_walk(buf, start)[i]),
    ensures
        spec_rhash64(f.payload@) == f.hash,
{
    lemma_verify_covers_walk(buf, start, true, i);
}

/// When deep verification succeeds, every entry decoded anywhere on the
/// walk stores as its xor-hash exactly the exclusive-or of the hashes of
/// the items it carries.
pub proof fn lemma_verified_entry_xor_hash(buf: Seq<u8>, start: int, i: int, e: EntryObject)
    requires
        spec_verify_ok(buf, start, true),
        0 <= i < spec_walk(buf, start).len(),
        entry_decodes_at(e, buf, spec_walk(buf, start)[i]),
    ensures
        xor_items_upto(e.items@, e.items@.len() as int) == e.xor_hash,
{
    let off = spec_walk(buf, start)[i];
    lemma_verify_covers_walk(buf, start, true, i);
    lemma_xor_items_match(e.items@, buf, off + 64, entry_item_count(le64_at(buf, off + 8)));
}

proof fn lemma_verify_done(buf: Seq<u8>, start: int, deep: bool, done: Seq<int>)
    requires
        spec_walk(buf, start) == done,
        forall|k: int| 0 <= k < done.len() ==> check_ok(buf, #[trigger] done[k], deep),
    ensures
        spec_verify_ok(buf, start, deep),
{
    assert forall|i: int| 0 <= i < spec_walk(buf, start).len() implies check_ok(
        buf,
        spec_walk(buf, start)[i],
        deep,
    ) by {
        assert(spec_walk(buf, start)[i] == done[i]);
    }
}

proof fn lemma_verify_witness(buf: Seq<u8>, start: int, deep: bool, done: Seq<int>, off: int, rest: Seq<int>)
    requires
        spec_walk(buf, start) == done + (seq![off] + rest),
        !check_ok(buf, off, deep),
    ensures
        !spec_verify_ok(buf, start, deep),
{
    let walk = spec_walk(buf, start);
    assert(walk.len() == done.len() + 1 + rest.len());
    assert((seq![off] + rest)[0] == off);
    assert(walk[done.len() as int] == off);
    assert(!check_ok(buf, spec_walk(buf, start)[done.len() as int], deep));
}

proof fn lemma_verify_step(buf: Seq<u8>, start: int, deep: bool, done: Seq<int>, off: int, rest: Seq<int>)
    requires
        spec_walk(buf, start) == done + (seq![off] + rest),
        forall|k: int| 0 <= k < done.len() ==> check_ok(buf, #[trigger] done[k], deep),
        check_ok(buf, off, deep),
    ensures
        spec_walk(buf, start) == done.push(off) + rest,
        forall|k: int|
            0 <= k < done.push(off).len() ==> check_ok(buf, #[trigger] done.push(off)[k], deep),
{
    assert(done.push(off) + rest =~= done + (seq![off] + rest));
    assert forall|k: int| 0 <= k < done.push(off).len() implies check_ok(
        buf,
        done.push(off)[k],
        deep,
    ) by {
        if k < done.len() {
            assert(done.push(off)[k] == done[k]);
        } else {
            assert(done.push(off)[k] == off);
        }
    }
}

/// A lazy walk over the common object headers, in arena order.
pub struct ObjectHeaderIter<'a> {
    pub buf: &'a [u8],
    pub next_offset: u64,
}

impl<'a> ObjectHeaderIter<'a> {
    fn new(buf: &'a [u8], start: u64) -> (r: ObjectHeaderIter<'a>)
        ensures
            r.buf@ == buf@,
            r.next_offset == start,
    {
        ObjectHeaderIter { buf, next_offset: start }
    }

    /// The offset at which the object after `obj` would begin, were
    /// `obj` the object just loaded at the iterator's position.
    pub fn next_obj_header_offset<R: SizedObject>(&self, obj: &R) -> (r: Option<u64>)
        ensures
            r matches Some(v) ==> v == spec_align8(self.next_offset + obj.spec_size()),
            r is None ==> self.next_offset + obj.spec_size() + 7 > u64::MAX,
    {
        let size = obj.size();
        match self.next_offset.checked_add(size) {
            Some(s) => {
                if s <= u64::MAX - 7 {
                    Some(align64(s))
                } else {
                    None
                }
            },
            None => None,
        }
    }

    /// Loads the sixteen common header bytes at `offset`.
    pub fn load_obj_header_at_offset(&self, offset: u64) -> (r: Result<ObjectHeader, JournalError>)
        ensures
            r is Ok <==> spec_header_err(self.buf@, offset as int) is None,
            r matches Err(e) ==> spec_header_err(self.buf@, offset as int) == Some(e),
            r matches Ok(h) ==> header_decodes_at(h, self.buf@, offset as int) && h.size >= 16,
    {
        get_obj_header_at_offset(self.buf, offset)
    }

    /// Loads the header at the cursor and advances past its object;
    /// yields nothing once a header cannot be read.
    pub fn next(&mut self) -> (r: Option<ObjectHeader>)
        ensures
            final(self).buf@ == old(self).buf@,
            match r {
                Option::Some(h) => {
                    &&& spec_header_err(old(self).buf@, old(self).next_offset as int) is None
                    &&& header_decodes_at(h, old(self).buf@, old(self).next_offset as int)
                    &&& h.size >= 16
                    &&& spec_is_aligned8(old(self).next_offset as int)
                    &&& final(self).next_offset > old(self).next_offset
                    &&& spec_header_walk(old(self).buf@, old(self).next_offset as int) == seq![
                        old(self).next_offset as int,
                    ] + spec_header_walk(old(self).buf@, final(self).next_offset as int)
                },
                Option::None => {
                    &&& spec_header_err(old(self).buf@, old(self).next_offset as int) is Some
                    &&& final(self).next_offset == old(self).next_offset
                    &&& spec_header_walk(old(self).buf@, old(self).next_offset as int)
                        == Seq::<int>::empty()
                },
            },
    {
        let off = self.next_offset;
        let blen = self.buf.len();
        match get_obj_header_at_offset(self.buf, off) {
            Ok(h) => {
                proof {
                    lemma_align8_bounds(off + h.size);
                }
                let next_val: u64 = match off.checked_add(h.size) {
                    Some(s) => if s <= u64::MAX - 7 {
                        align64(s)
                    } else {
                        u64::MAX
                    },
                    None => u64::MAX,
                };
                proof {
                    let buf = self.buf@;
                    let spec_next = walk_next(buf, off as int);
                    assert(spec_next == spec_align8(off + h.size));
                    assert(spec_next >= off + 16);
                    if spec_next <= blen {
                        assert(next_val == spec_next);
                        assert(spec_header_walk(buf, off as int) == seq![off as int]
                            + spec_header_walk(buf, spec_next));
                    } else {
                        assert(spec_header_walk(buf, off as int) == seq![off as int]);
                        assert(next_val as int > blen || next_val == u64::MAX);
                        assert(spec_header_err(buf, next_val as int) is Some);
                        assert(spec_header_walk(buf, next_val as int) == Seq::<int>::empty());
                        assert(seq![off as int] =~= seq![off as int] + Seq::<int>::empty());
                    }
                }
                self.next_offset = next_val;
                Some(h)
            },
            Err(_) => None,
        }
    }
}

/// A lazy walk over whole decoded objects, in arena order.
pub struct ObjectIter<'a> {
    pub buf: &'a [u8],
    pub current_offset: u64,
    pub next_offset: u64,
}

impl<'a> ObjectIter<'a> {
    fn new(buf: &'a [u8], start: u64) -> (r: ObjectIter<'a>)
        ensures
            r.buf@ == buf@,
            r.current_offset == start,
            r.next_offset == start,
    {
        ObjectIter { buf, current_offset: start, next_offset: start }
    }

    /// Decodes the object at the cursor and advances past it; yields
    /// nothing once a decode fails.
    pub fn next(&mut self) -> (r: Option<Object>)
        ensures
            final(self).buf@ == old(self).buf@,
            match r {
                Option::Some(obj) => {
                    &&& spec_decode_err(old(self).buf@, old(self).next_offset as int) is None
                    &&& object_decodes_at(obj, old(self).buf@, old(self).next_offset as int)
                    &&& final(self).current_offset == old(self).next_offset
                    &&& spec_is_aligned8(final(self).current_offset as int)
                    &&& final(self).next_offset > old(self).next_offset
                    &&& spec_walk(old(self).buf@, old(self).next_offset as int) == seq![
                        old(self).next_offset as int,
                    ] + spec_walk(old(self).buf@, final(self).next_offset as int)
                },
                Option::None => {
                    &&& spec_decode_err(old(self).buf@, old(self).next_offset as int) is Some
                    &&& final(self).next_offset == old(self).next_offset
                    &&& spec_walk(old(self).buf@, old(self).next_offset as int)
                        == Seq::<int>::empty()
                },
            },
    {
        let off = self.next_offset;
        let blen = self.buf.len();
        let decoded = get_obj_at_offset(self.buf, off);
        self.current_offset = off;
        match decoded {
            Ok(o) => {
                let size = o.size();
                proof {
                    assert(o.spec_size() == le64_at(self.buf@, off as int + 8));
                    assert(o.spec_size() >= 16) by {
                        crate::journal::lemma_decoded_size_bounds(o, self.buf@, off as int);
                    }
                    lemma_align8_bounds(off + size);
                }
                let next_val: u64 = match off.checked_add(size) {
                    Some(s) => if s <= u64::MAX - 7 {
                        align64(s)
                    } else {
                        u64::MAX
                    },
                    None => u64::MAX,
                };
                proof {
                    let buf = self.buf@;
                    let spec_next = walk_next(buf, off as int);
                    assert(spec_next == spec_align8(off + size));
                    assert(spec_next >= off + 16);
                    if spec_next <= blen {
                        assert(next_val == spec_next);
                        assert(spec_walk(buf, off as int) == seq![off as int] + spec_walk(
                            buf,
                            spec_next,
                        ));
                    } else {
                        assert(spec_walk(buf, off as int) == seq![off as int]);
                        assert(next_val as int > blen || next_val == u64::MAX);
                        assert(spec_decode_err(buf, next_val as int) is Some);
                        assert(spec_walk(buf, next_val as int) == Seq::<int>::empty());
                        assert(seq![off as int] =~= seq![off as int] + Seq::<int>::empty());
                    }
                }
                self.next_offset = next_val;
                Some(o)
            },
            Err(_) => None,
        }
    }
}

/// A lazy walk along the linked list of entry arrays.
pub struct EntryArrayIter<'a> {
    pub buf: &'a [u8],
    pub current_offset: u64,
}

impl<'a> EntryArrayIter<'a> {
    fn new(buf: &'a [u8], start: u64) -> (r: EntryArrayIter<'a>)
        ensures
            r.buf@ == buf@,
            r.current_offset == start,
    {
        EntryArrayIter { buf, current_offset: start }
    }

    /// Decodes the entry array at the cursor and follows its link;
    /// yields nothing at a null link, a failed decode, or an object of
    /// another type.
    pub fn next(&mut self) -> (r: Option<EntryArrayObject>)
        ensures
            final(self).buf@ == old(self).buf@,
            ({
                let buf = old(self).buf@;
                let cur = old(self).current_offset as int;
                if old(self).current_offset != 0 && spec_decode_err(buf, cur) is None && buf[cur]
                    == 6 {
                    &&& r matches Some(ea)
                    &&& entry_array_decodes_at(ea, buf, cur)
                    &&& final(self).current_offset == ea.next_entry_array_offset
                } else {
                    &&& r is None
                    &&& final(self).current_offset == old(self).current_offset
                }
            }),
    {
        if self.current_offset == 0 {
            return None;
        }
        match get_obj_at_offset(self.buf, self.current_offset) {
            Ok(Object::EntryArray(ea)) => {
                self.current_offset = ea.next_entry_array_offset;
                Some(ea)
            },
            Ok(_) => None,
            Err(_) => None,
        }
    }
}

/// A walk over the entries named by the entry-array chain, in chain
/// order. The chain's entry offsets are collected up front, following
/// at most as many array nodes as the header counts objects, so the
/// walk stays finite even on a file whose chain loops; each step then
/// decodes one entry.
pub struct EntryIter<'a> {
    pub buf: &'a [u8],
    pub offsets: Vec<u64>,
    pub pos: usize,
}

impl<'a> EntryIter<'a> {
    fn new(buf: &'a [u8], start: u64, n_objects: u64) -> (r: EntryIter<'a>)
        ensures
            r.buf@ == buf@,
            r.pos == 0,
            r.offsets@ == spec_ea_chain(buf@, start as int, n_objects as nat),
    {
        let mut it = EntryArrayIter::new(buf, start);
        let mut offsets: Vec<u64> = Vec::new();
        let mut fuel: u64 = n_objects;
        while fuel > 0
            invariant
                it.buf@ == buf@,
                offsets@ + spec_ea_chain(buf@, it.current_offset as int, fuel as nat)
                    == spec_ea_chain(buf@, start as int, n_objects as nat),
            decreases fuel,
        {
            let ghost before = offsets@;
            let ghost cur = it.current_offset as int;
            match it.next() {
                Some(ea) => {
                    let mut k: usize = 0;
                    let n = ea.items.len();
                    while k < n
                        invariant
                            k <= n,
                            n == ea.items@.len(),
                            offsets@ == before + ea.items@.take(k as int),
                        decreases n - k,
                    {
                        offsets.push(ea.items[k]);
                        proof {
                            assert(before + ea.items@.take(k as int) + seq![ea.items@[k as int]]
                                =~= before + ea.items@.take(k + 1));
                        }
                        k = k + 1;
                    }
                    proof {
                        assert(ea.items@.take(n as int) =~= ea.items@);
                        assert(ea.items@ == ea_items(
                            buf@,
                            cur + 24,
                            ea_slot_count(le64_at(buf@, cur + 8)) as nat,
                        ));
                        assert(spec_ea_chain(buf@, cur, fuel as nat) == ea.items@ + spec_ea_chain(
                            buf@,
                            ea.next_entry_array_offset as int,
                            (fuel - 1) as nat,
                        ));
                        assert(before + (ea.items@ + spec_ea_chain(
                            buf@,
                            ea.next_entry_array_offset as int,
                            (fuel - 1) as nat,
                        )) =~= (before + ea.items@) + spec_ea_chain(
                            buf@,
                            ea.next_entry_array_offset as int,
                            (fuel - 1) as nat,
                        ));
                    }
                    fuel = fuel - 1;
                },
                None => {
                    proof {
                        assert(spec_ea_chain(buf@, cur, fuel as nat) =~= Seq::<u64>::empty());
                        assert(offsets@ + Seq::<u64>::empty() =~= offsets@);
                    }
                    return EntryIter { buf, offsets, pos: 0 };
                },
            }
        }
        proof {
            assert(offsets@ + spec_ea_chain(buf@, it.current_offset as int, 0) =~= offsets@);
        }
        EntryIter { buf, offsets, pos: 0 }
    }

    /// Decodes the entry at the next collected offset; yields nothing
    /// once the offsets are exhausted or a decode fails.
    pub fn next(&mut self) -> (r: Option<EntryObject>)
        ensures
            final(self).buf@ == old(self).buf@,
            final(self).offsets@ == old(self).offsets@,
            old(self).pos >= old(self).offsets@.len() ==> r is None && final(self).pos == old(
                self,
            ).pos,
            old(self).pos < old(self).offsets@.len() ==> {
                let buf = old(self).buf@;
                let off = old(self).offsets@[old(self).pos as int] as int;
                &&& final(self).pos == old(self).pos + 1
                &&& ((spec_decode_err(buf, off) is None && buf[off] == 3) ==> (r matches Some(e)
                    && entry_decodes_at(e, buf, off)))
                &&& (!(spec_decode_err(buf, off) is None && buf[off] == 3) ==> r is None)
            },
    {
        if self.pos >= self.offsets.len() {
            return None;
        }
        let off = self.offsets[self.pos];
        self.pos = self.pos + 1;
        match get_obj_at_offset(self.buf, off) {
            Ok(Object::Entry(e)) => Some(e),
            Ok(_) => None,
            Err(_) => None,
        }
    }
}

/// A read-only journal: the borrowed file bytes and the decoded header.
pub struct Journal<'a> {
    pub file: &'a [u8],
    pub header: JournalHeader,
}

impl<'a> Journal<'a> {
    /// Opens a journal over the given bytes, validating the header.
    pub fn new(bytes: &'a [u8]) -> (r: Result<Journal<'a>, JournalError>)
        ensures
            r is Ok <==> spec_header_ok(bytes@),
            r matches Err(e) ==> e == JournalError::InvalidHeader,
            r matches Ok(j) ==> j.file@ == bytes@ && journal_header_decodes(j.header, bytes@),
    {
        let header = match JournalHeader::new(bytes) {
            Ok(h) => h,
            Err(e) => {
                return Err(e);
            },
        };
        Ok(Journal { file: bytes, header })
    }

    /// Iterate over all objects in the journal.
    pub fn obj_iter(&self) -> (r: ObjectIter<'a>)
        requires
            self.header.field_hash_table_offset >= 16,
        ensures
            r.buf@ == self.file@,
            r.current_offset == self.header.field_hash_table_offset - 16,
            r.next_offset == self.header.field_hash_table_offset - 16,
    {
        let start = self.header.field_hash_table_offset - 16;
        ObjectIter::new(self.file, start)
    }

    /// Iterate over all header objects in the journal.
    pub fn iter_headers(&self) -> (r: ObjectHeaderIter<'a>)
        requires
            self.header.field_hash_table_offset >= 16,
        ensures
            r.buf@ == self.file@,
            r.next_offset == self.header.field_hash_table_offset - 16,
    {
        let start = self.header.field_hash_table_offset - 16;
        ObjectHeaderIter::new(self.file, start)
    }

    /// Iterate over all entry objects in the journal.
    pub fn iter_entries(&self) -> (r: EntryIter<'a>)
        ensures
            r.buf@ == self.file@,
            r.pos == 0,
            r.offsets@ == spec_ea_chain(
                self.file@,
                self.header.entry_array_offset as int,
                self.header.n_objects as nat,
            ),
    {
        let start = self.header.entry_array_offset;
        let n_objects = self.header.n_objects;
        EntryIter::new(self.file, start, n_objects)
    }

    /// Iterate over the entry-array chain.
    pub fn ea_iter(&self) -> (r: EntryArrayIter<'a>)
        ensures
            r.buf@ == self.file@,
            r.current_offset == self.header.entry_array_offset,
    {
        let start = self.header.entry_array_offset;
        EntryArrayIter::new(self.file, start)
    }

    /// Recomputes the stored integrity hashes along the arena walk:
    /// every data object's payload hash always, and with `deep` also
    /// every field object's payload hash and every entry's xor-hash.
    /// Returns true exactly when all checked hashes match.
    #[verifier::rlimit(100)]
    pub fn verify(&self, deep: bool) -> (r: bool)
        requires
            self.header.field_hash_table_offset >= 16,
        ensures
            r == spec_verify_ok(
                self.file@,
                self.header.field_hash_table_offset - 16,
                deep,
            ),
    {
        let ghost buf = self.file@;
        let ghost start: int = self.header.field_hash_table_offset - 16;
        let ghost walk = spec_walk(buf, start);
        let mut it = self.obj_iter();
        let ghost mut done: Seq<int> = Seq::empty();
        proof {
            assert(Seq::<int>::empty() + spec_walk(buf, start) =~= spec_walk(buf, start));
        }
        loop
            invariant
                buf == self.file@,
                start == self.header.field_hash_table_offset - 16,
                it.buf@ == buf,
                walk == spec_walk(buf, start),
                walk == done + spec_walk(buf, it.next_offset as int),
                forall|k: int| 0 <= k < done.len() ==> check_ok(buf, #[trigger] done[k], deep),
            decreases u64::MAX - it.next_offset,
        {
            let ghost off: int = it.next_offset as int;
            match it.next() {
                None => {
                    proof {
                        assert(walk =~= done);
                        lemma_verify_done(buf, start, deep, done);
                    }
                    return true;
                },
                Some(o) => {
                    let ok = check_object(&o, deep, Ghost(buf), Ghost(off));
                    if !ok {
                        proof {
                            lemma_verify_witness(
                                buf,
                                start,
                                deep,
                                done,
                                off,
                                spec_walk(buf, it.next_offset as int),
                            );
                        }
                        return false;
                    }
                    proof {
                        lemma_verify_step(
                            buf,
                            start,
                            deep,
                            done,
                            off,
                            spec_walk(buf, it.next_offset as int),
                        );
                        done = done.push(off);
                    }
                },
            }
        }
    }
}

/// Recomputes the integrity hashes of one decoded object and compares
/// them against what the object stores, per the verification depth.
fn check_object(o: &Object, deep: bool, Ghost(buf): Ghost<Seq<u8>>, Ghost(off): Ghost<int>) -> (r:
    bool)
    requires
        object_decodes_at(*o, buf, off),
    ensures
        r == check_ok(buf, off, deep),
{
    match o {
        Object::Data(d) => {
            let calc = rhash64(d.payload.as_slice());
            calc == d.hash
        },
        Object::Field(f) => {
            if deep {
                let calc = rhash64(f.payload.as_slice());
                calc == f.hash
            } else {
                true
            }
        },
        Object::Entry(e) => {
            if deep {
                let calc = e.hash();
                proof {
                    lemma_xor_items_match(
                        e.items@,
                        buf,
                        off + 64,
                        entry_item_count(le64_at(buf, off + 8)),
                    );
                }
                calc == e.xor_hash
            } else {
                true
            }
        },
        Object::HashTable(_) => true,
        Object::EntryArray(_) => true,
        Object::Tag(_) => true,
    }
}

} // verus!
