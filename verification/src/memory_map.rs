//! The memory-map tag and the table of memory regions inside it.
//!
//! Behind the tag header stand two fields, the entry size and the entry
//! version, and then the table: one record per region, `entry_size` bytes
//! apart. A record is 24 bytes; a loader may leave more room between records
//! than that, which is skipped. A record counts as an entry of the table when
//! all of its 24 bytes lie inside the tag; a tail too short for a record is
//! ignored. A table whose entry size is zero has no entries.

use vstd::prelude::*;
use crate::error::TagError;
use crate::tag::{frame, tag_at, tag_fits, TagHeader, TagModel, VerifyTag};
use crate::util::{in_bounds, le_u32, le_u64, read_u32, read_u64};

verus! {

/// Type code of the memory-map tag.
pub const MEMORY_MAP: u32 = 6;

/// Bytes taken by the entry size and the entry version, which stand between the
/// tag header and the table.
pub const TABLE_OFFSET: usize = 8;

/// Bytes taken by the fields of one record of the table.
pub const ENTRY_BYTES: usize = 24;

/// What a region of memory may be used for.
#[derive(Debug, Clone, Copy, PartialEq, Eq, Structural)]
pub enum MemoryType {
    /// Free for the kernel to use.
    Usable,
    /// Holds ACPI tables; usable once those have been read.
    UsableWithACPI,
    /// Anything else.
    Unusable,
}

/// One record of the table: a region of physical memory.
#[derive(Debug, Clone, Copy, PartialEq, Eq, Structural)]
pub struct MemoryMapEntry {
    /// The starting physical address.
    pub base_addr: u64,
    /// The size of the region, in bytes.
    pub length: u64,
    /// Code of what the region may be used for.
    pub entry_type: u32,
    /// Set to zero by the loader.
    pub reserved: u32,
}

/// The record spelled by the 24 bytes of `bytes` from `at` on.
pub open spec fn entry_at(bytes: Seq<u8>, at: int) -> MemoryMapEntry {
    MemoryMapEntry {
        base_addr: le_u64(bytes, at),
        length: le_u64(bytes, at + 8),
        entry_type: le_u32(bytes, at + 16),
        reserved: le_u32(bytes, at + 20),
    }
}

impl MemoryMapEntry {
    /// What the region may be used for.
    pub open spec fn spec_memory_type(self) -> MemoryType {
        if self.entry_type == 1 {
            MemoryType::Usable
        } else if self.entry_type == 3 {
            MemoryType::UsableWithACPI
        } else {
            MemoryType::Unusable
        }
    }

    /// Whether the region is free for the kernel to use. Regions that hold ACPI
    /// tables are not.
    pub open spec fn spec_is_usable(self) -> bool {
        self.spec_memory_type() == MemoryType::Usable
    }

    /// Whether the reserved field is zero, as the loader must leave it.
    pub open spec fn spec_is_valid(self) -> bool {
        self.reserved == 0
    }

    /// Decodes the record at `at`, or reports that its 24 bytes do not fit.
    pub fn read(bytes: &[u8], at: usize) -> (r: Result<MemoryMapEntry, TagError>)
        ensures
            r == (if in_bounds(bytes@.len(), at as int, 24) {
                Ok::<MemoryMapEntry, TagError>(entry_at(bytes@, at as int))
            } else {
                Err::<MemoryMapEntry, TagError>(TagError::OutOfBounds)
            }),
    {
        let len: usize = bytes.len();
        if at > len || len - at < ENTRY_BYTES {
            return Err(TagError::OutOfBounds);
        }
        let base_addr: u64 = match read_u64(bytes, at) {
            Ok(v) => v,
            Err(e) => return Err(e),
        };
        let length: u64 = match read_u64(bytes, at + 8) {
            Ok(v) => v,
            Err(e) => return Err(e),
        };
        let entry_type: u32 = match read_u32(bytes, at + 16) {
            Ok(v) => v,
            Err(e) => return Err(e),
        };
        let reserved: u32 = match read_u32(bytes, at + 20) {
            Ok(v) => v,
            Err(e) => return Err(e),
        };
        Ok(MemoryMapEntry { base_addr, length, entry_type, reserved })
    }

    /// The starting physical address, cut to the width of `usize`.
    pub fn base_address(&self) -> (addr: usize)
        ensures
            addr == self.base_addr as usize,
            self.base_addr <= usize::MAX ==> addr == self.base_addr,
    {
        #[verifier::truncate]
        (self.base_addr as usize)
    }

    /// The size of the region in bytes, cut to the width of `usize`.
    pub fn length(&self) -> (len: usize)
        ensures
            len == self.length as usize,
            self.length <= usize::MAX ==> len == self.length,
    {
        #[verifier::truncate]
        (self.length as usize)
    }

    /// What the region may be used for.
    pub fn memory_type(&self) -> (kind: MemoryType)
        ensures
            kind == self.spec_memory_type(),
    {
        match self.entry_type {
            1 => MemoryType::Usable,
            3 => MemoryType::UsableWithACPI,
            _ => MemoryType::Unusable,
        }
    }

    /// Whether the region is free for the kernel to use.
    pub fn is_usable_region(&self) -> (usable: bool)
        ensures
            usable == self.spec_is_usable(),
    {
        self.memory_type() == MemoryType::Usable
    }

    /// Whether the reserved field is zero.
    pub fn is_valid(&self) -> (ok: bool)
        ensures
            ok == self.spec_is_valid(),
    {
        self.reserved == 0
    }
}

/// How many records a table of `len` bytes holds when records stand `stride`
/// bytes apart.
pub open spec fn entry_count(len: nat, stride: nat) -> nat {
    if stride == 0 || len < 24 {
        0
    } else {
        ((len - 24) / (stride as int) + 1) as nat
    }
}

/// The entries of a table, in the order of the table: entry `k` is the record
/// at byte `k * stride`.
pub open spec fn entries(table: Seq<u8>, stride: nat) -> Seq<MemoryMapEntry> {
    Seq::new(entry_count(table.len(), stride), |k: int| entry_at(table, k * stride))
}

/// The test that the filtering traversal applies to an entry.
pub open spec fn usable() -> spec_fn(MemoryMapEntry) -> bool {
    |entry: MemoryMapEntry| entry.spec_is_usable()
}

/// The entry size that a memory-map payload declares.
pub open spec fn entry_size_of(payload: Seq<u8>) -> u32
    recommends
        payload.len() >= 8,
{
    le_u32(payload, 0)
}

/// The entry version that a memory-map payload declares.
pub open spec fn entry_version_of(payload: Seq<u8>) -> u32
    recommends
        payload.len() >= 8,
{
    le_u32(payload, 4)
}

/// All entries of a memory-map payload. A payload too short to hold the entry
/// size and version has none.
pub open spec fn regions(payload: Seq<u8>) -> Seq<MemoryMapEntry> {
    if payload.len() < 8 {
        Seq::empty()
    } else {
        entries(payload.skip(8), entry_size_of(payload) as nat)
    }
}

/// The usable entries of a memory-map payload, in the order of the table.
pub open spec fn usable_regions(payload: Seq<u8>) -> Seq<MemoryMapEntry> {
    regions(payload).filter(usable())
}

/// Whether a tag is a sound memory-map tag: it has the code of one, the entry
/// size and version are there to read, the entry size is a multiple of 8, the
/// version is 0, and the reserved field of every entry is zero.
pub open spec fn is_memory_map(model: TagModel) -> bool {
    &&& model.type_code == MEMORY_MAP
    &&& model.payload.len() >= 8
    &&& entry_size_of(model.payload) % 8 == 0
    &&& entry_version_of(model.payload) == 0
    &&& forall|i: int|
        0 <= i < regions(model.payload).len() ==> (#[trigger] regions(
            model.payload,
        )[i]).spec_is_valid()
}

/// How many of the first `n` entries of `all` are usable.
pub open spec fn usable_among(all: Seq<MemoryMapEntry>, n: int) -> int
    decreases n,
{
    if n <= 0 {
        0
    } else {
        usable_among(all, n - 1) + if all[n - 1].spec_is_usable() {
            1int
        } else {
            0int
        }
    }
}

/// Every entry of a table lies inside the table with all of its 24 bytes.
pub proof fn lemma_entry_in_table(len: nat, stride: nat, k: int)
    requires
        0 <= k < entry_count(len, stride),
    ensures
        stride > 0,
        0 <= k * stride,
        k * stride + 24 <= len,
{
    let room: int = len - 24;
    let s: int = stride as int;
    assert(0 <= k * s && k * s <= room) by (nonlinear_arith)
        requires
            0 <= k <= room / s,
            s > 0,
            room >= 0,
    ;
}

/// Entry `k` of a memory map is the record that stands `k` entry sizes behind
/// the start of the table, and it lies inside the payload with all of its 24
/// bytes.
pub proof fn lemma_region_place(payload: Seq<u8>, k: int)
    requires
        0 <= k < regions(payload).len(),
    ensures
        payload.len() >= 8,
        entry_size_of(payload) > 0,
        8 + k * entry_size_of(payload) + 24 <= payload.len(),
        regions(payload)[k] == entry_at(payload, 8 + k * entry_size_of(payload)),
{
    let stride = entry_size_of(payload) as nat;
    lemma_entry_in_table(payload.skip(8).len(), stride, k);
}

/// A table that holds a record starts with it, and goes on with the entries of
/// what lies one stride further.
proof fn lemma_entries_step(table: Seq<u8>, stride: nat)
    requires
        stride > 0,
        table.len() >= 24,
    ensures
        entries(table, stride) == seq![entry_at(table, 0)] + entries(
            table.skip(if stride <= table.len() { stride as int } else { table.len() as int }),
            stride,
        ),
{
    let len: int = table.len() as int;
    let s: int = stride as int;
    let step: int = if s <= len { s } else { len };
    let rest = table.skip(step);
    let whole = entries(table, stride);
    let tail = entries(rest, stride);
    if s <= len - 24 {
        assert((len - 24) / s == (len - s - 24) / s + 1) by (nonlinear_arith)
            requires
                s > 0,
                len - 24 >= s,
        ;
    } else {
        assert((len - 24) / s == 0) by (nonlinear_arith)
            requires
                s > 0,
                0 <= len - 24 < s,
        ;
    }
    assert(whole.len() == 1 + tail.len());
    assert(0 * s == 0);
    assert forall|k: int| 0 <= k < tail.len() implies #[trigger] tail[k] == whole[k + 1] by {
        lemma_entry_in_table(rest.len(), stride, k);
        assert((k + 1) * s == k * s + s) by (nonlinear_arith);
    }
    assert(whole =~= seq![entry_at(table, 0)] + tail);
}

/// Filtering a sequence that is not empty: the first entry is kept or dropped,
/// and the rest is filtered.
proof fn lemma_filter_first(all: Seq<MemoryMapEntry>)
    requires
        all.len() > 0,
    ensures
        all.filter(usable()) == (if all[0].spec_is_usable() {
            seq![all[0]]
        } else {
            Seq::<MemoryMapEntry>::empty()
        }) + all.skip(1).filter(usable()),
{
    let head = seq![all[0]];
    assert(all =~= head + all.skip(1));
    Seq::filter_distributes_over_add(head, all.skip(1), usable());
    reveal_with_fuel(Seq::filter, 2);
    assert(head.drop_last() =~= Seq::<MemoryMapEntry>::empty());
    assert(head.filter(usable()) =~= (if all[0].spec_is_usable() {
        head
    } else {
        Seq::<MemoryMapEntry>::empty()
    }));
}

/// Walks every entry of a table, whatever its type. This is the one traversal
/// of the table; `MemoryMapIter` filters what it yields.
#[derive(Debug, Clone)]
pub struct VerifyMemoryMapIter<'a> {
    /// The table from the next record on.
    rest: &'a [u8],
    /// Distance in bytes from one record to the next.
    entry_size: u32,
}

impl<'a> VerifyMemoryMapIter<'a> {
    /// The entries still to come, in order.
    pub closed spec fn remaining(&self) -> Seq<MemoryMapEntry> {
        entries(self.rest@, self.entry_size as nat)
    }

    /// Starts at the first record of `table`.
    pub fn new(table: &'a [u8], entry_size: u32) -> (iter: Self)
        ensures
            iter.remaining() == entries(table@, entry_size as nat),
    {
        VerifyMemoryMapIter { rest: table, entry_size }
    }

    /// Yields the next entry, if there is one.
    pub fn next(&mut self) -> (r: Option<MemoryMapEntry>)
        ensures
            r == (if old(self).remaining().len() > 0 {
                Some(old(self).remaining()[0])
            } else {
                None::<MemoryMapEntry>
            }),
            final(self).remaining() == (if r is Some {
                old(self).remaining().skip(1)
            } else {
                old(self).remaining()
            }),
    {
        let len: usize = self.rest.len();
        if self.entry_size == 0 || len < ENTRY_BYTES {
            return None;
        }
        let entry: MemoryMapEntry = match MemoryMapEntry::read(self.rest, 0) {
            Ok(entry) => entry,
            Err(_) => return None,
        };
        let stride: usize = self.entry_size as usize;
        let step: usize = if stride <= len { stride } else { len };
        proof {
            lemma_entries_step(self.rest@, self.entry_size as nat);
            assert((seq![entry] + entries(self.rest@.skip(step as int), self.entry_size as nat)).skip(1)
                =~= entries(self.rest@.skip(step as int), self.entry_size as nat));
        }
        self.rest = &self.rest[step..len];
        Some(entry)
    }
}

/// Walks the usable entries of a table and passes over all others, those that
/// hold ACPI tables included.
#[derive(Debug, Clone)]
pub struct MemoryMapIter<'a> {
    all: VerifyMemoryMapIter<'a>,
}

impl<'a> MemoryMapIter<'a> {
    /// The usable entries still to come, in order.
    pub closed spec fn remaining(&self) -> Seq<MemoryMapEntry> {
        self.all.remaining().filter(usable())
    }

    /// Starts at the first record of `table`.
    pub fn new(table: &'a [u8], entry_size: u32) -> (iter: Self)
        ensures
            iter.remaining() == entries(table@, entry_size as nat).filter(usable()),
    {
        MemoryMapIter { all: VerifyMemoryMapIter::new(table, entry_size) }
    }

    /// Yields the next usable entry, if there is one.
    pub fn next(&mut self) -> (r: Option<MemoryMapEntry>)
        ensures
            r == (if old(self).remaining().len() > 0 {
                Some(old(self).remaining()[0])
            } else {
                None::<MemoryMapEntry>
            }),
            final(self).remaining() == (if r is Some {
                old(self).remaining().skip(1)
            } else {
                old(self).remaining()
            }),
    {
        let ghost start = self.remaining();
        loop
            invariant
                self.remaining() == start,
                start == old(self).remaining(),
            decreases self.all.remaining().len(),
        {
            let ghost before = self.all.remaining();
            match self.all.next() {
                None => {
                    assert(before.filter(usable()).len() == 0) by {
                        reveal_with_fuel(Seq::filter, 1);
                    }
                    return None;
                },
                Some(entry) => {
                    proof {
                        lemma_filter_first(before);
                    }
                    if entry.is_usable_region() {
                        assert((seq![entry] + before.skip(1).filter(usable())).skip(1)
                            =~= before.skip(1).filter(usable()));
                        return Some(entry);
                    }
                    assert(Seq::<MemoryMapEntry>::empty() + before.skip(1).filter(usable())
                        =~= before.skip(1).filter(usable()));
                },
            }
        }
    }
}

/// View over a memory-map tag: the header fields and the bytes that follow
/// them.
#[derive(Debug, Clone, Copy)]
pub struct MemoryMapTag<'a> {
    tag_type: u32,
    size: u32,
    /// Entry size, entry version and the table.
    body: &'a [u8],
}

impl<'a> View for MemoryMapTag<'a> {
    type V = TagModel;

    closed spec fn view(&self) -> TagModel {
        TagModel { type_code: self.tag_type, size: self.size, payload: self.body@ }
    }
}

impl<'a> MemoryMapTag<'a> {
    /// The declared size covers the header and the payload, and no more.
    #[verifier::type_invariant]
    spec fn sized(self) -> bool {
        self.size == self.body@.len() + 8
    }

    /// Wraps a header and the payload that it declares.
    pub(crate) fn from_parts(header: TagHeader, payload: &'a [u8]) -> (tag: Self)
        requires
            header.total_size == payload@.len() + 8,
        ensures
            tag@ == (TagModel {
                type_code: header.type_code,
                size: header.total_size,
                payload: payload@,
            }),
    {
        MemoryMapTag { tag_type: header.type_code, size: header.total_size, body: payload }
    }

    /// Reads the tag that starts at the first byte of `bytes`. Only bounds are
    /// checked; call `is_valid` before trusting the tag.
    pub fn parse(bytes: &'a [u8]) -> (r: Result<Self, TagError>)
        ensures
            r is Ok <==> tag_fits(bytes@, 0),
            r matches Ok(tag) ==> tag@ == tag_at(bytes@, 0),
            r matches Err(e) ==> e == TagError::OutOfBounds,
    {
        match frame(bytes, 0) {
            Ok((header, payload)) => Ok(Self::from_parts(header, payload)),
            Err(e) => Err(e),
        }
    }

    /// Declared size of the tag in bytes, header included.
    pub fn size(&self) -> (n: usize)
        ensures
            n == self@.size,
            n == self@.payload.len() + 8,
    {
        proof {
            use_type_invariant(self);
        }
        self.size as usize
    }

    /// Walks the usable regions, in the order of the table.
    pub fn memory_regions(&self) -> (iter: MemoryMapIter<'a>)
        ensures
            iter.remaining() == usable_regions(self@.payload),
    {
        let body: &'a [u8] = self.body;
        match read_u32(body, 0) {
            Ok(entry_size) if body.len() >= TABLE_OFFSET => {
                let table: &'a [u8] = &body[TABLE_OFFSET..body.len()];
                assert(table@ == body@.skip(8));
                MemoryMapIter::new(table, entry_size)
            },
            _ => {
                let none: &'a [u8] = &body[0..0];
                let iter = MemoryMapIter::new(none, 0);
                assert(entries(none@, 0) =~= Seq::<MemoryMapEntry>::empty());
                assert(Seq::<MemoryMapEntry>::empty().filter(usable()) =~= Seq::<
                    MemoryMapEntry,
                >::empty()) by {
                    reveal_with_fuel(Seq::filter, 1);
                }
                iter
            },
        }
    }

    /// Walks all regions, in the order of the table.
    pub fn all_memory_regions(&self) -> (iter: VerifyMemoryMapIter<'a>)
        ensures
            iter.remaining() == regions(self@.payload),
    {
        let body: &'a [u8] = self.body;
        match read_u32(body, 0) {
            Ok(entry_size) if body.len() >= TABLE_OFFSET => {
                let table: &'a [u8] = &body[TABLE_OFFSET..body.len()];
                assert(table@ == body@.skip(8));
                VerifyMemoryMapIter::new(table, entry_size)
            },
            _ => {
                let none: &'a [u8] = &body[0..0];
                assert(entries(none@, 0) =~= Seq::<MemoryMapEntry>::empty());
                VerifyMemoryMapIter::new(none, 0)
            },
        }
    }
}

impl<'a> VerifyTag for MemoryMapTag<'a> {
    open spec fn valid(&self) -> bool {
        is_memory_map(self@)
    }

    fn is_valid(&self) -> (ok: bool) {
        if self.tag_type != MEMORY_MAP || self.body.len() < TABLE_OFFSET {
            return false;
        }
        let entry_size: u32 = match read_u32(self.body, 0) {
            Ok(v) => v,
            Err(_) => return false,
        };
        let entry_version: u32 = match read_u32(self.body, 4) {
            Ok(v) => v,
            Err(_) => return false,
        };
        if entry_size % 8 != 0 || entry_version != 0 {
            return false;
        }
        let mut entries = self.all_memory_regions();
        let ghost all = regions(self@.payload);
        let ghost mut seen: int = 0;
        loop
            invariant
                0 <= seen <= all.len(),
                entries.remaining() == all.skip(seen),
                forall|i: int| 0 <= i < seen ==> (#[trigger] all[i]).spec_is_valid(),
                all == regions(self@.payload),
                self@.type_code == MEMORY_MAP,
                self@.payload.len() >= 8,
                entry_size_of(self@.payload) % 8 == 0,
                entry_version_of(self@.payload) == 0,
            decreases all.len() - seen,
        {
            match entries.next() {
                None => {
                    return true;
                },
                Some(entry) => {
                    assert(entry == all[seen]);
                    if !entry.is_valid() {
                        return false;
                    }
                    proof {
                        assert(all.skip(seen).skip(1) =~= all.skip(seen + 1));
                        seen = seen + 1;
                    }
                },
            }
        }
    }
}

/// The filter counts as the table does: the usable entries among the first
/// `n` of `all` are the ones that filtering those `n` entries keeps.
proof fn lemma_filter_counts(all: Seq<MemoryMapEntry>, n: int)
    requires
        0 <= n <= all.len(),
    ensures
        all.take(n).filter(usable()).len() == usable_among(all, n),
    decreases n,
{
    reveal_with_fuel(Seq::filter, 1);
    if n > 0 {
        lemma_filter_counts(all, n - 1);
        assert(all.take(n).drop_last() =~= all.take(n - 1));
    }
}

/// Where all entries are usable, the filtering traversal yields every entry of
/// the table, each one as it stands there and in the order of the table.
pub proof fn lemma_all_usable_all_yielded(payload: Seq<u8>)
    requires
        forall|i: int|
            0 <= i < regions(payload).len() ==> (#[trigger] regions(payload)[i]).spec_is_usable(),
    ensures
        usable_regions(payload) == regions(payload),
{
    lemma_filter_keeps_all(regions(payload));
}

proof fn lemma_filter_keeps_all(all: Seq<MemoryMapEntry>)
    requires
        forall|i: int| 0 <= i < all.len() ==> (#[trigger] all[i]).spec_is_usable(),
    ensures
        all.filter(usable()) == all,
    decreases all.len(),
{
    reveal_with_fuel(Seq::filter, 1);
    if all.len() > 0 {
        lemma_filter_keeps_all(all.drop_last());
        assert(all.drop_last().push(all.last()) =~= all);
    }
}

/// The filtering traversal yields the usable entries of the table and no
/// others, in the order of the table: every entry that comes out is usable, and
/// a usable entry of the table comes out behind as many entries as there are
/// usable ones before it in the table.
pub proof fn lemma_usable_regions_in_order(payload: Seq<u8>)
    ensures
        usable_regions(payload).len() == usable_among(
            regions(payload),
            regions(payload).len() as int,
        ),
        forall|k: int|
            0 <= k < usable_regions(payload).len() ==> (#[trigger] usable_regions(
                payload,
            )[k]).spec_is_usable(),
        forall|i: int|
            0 <= i < regions(payload).len() && (#[trigger] regions(payload)[i]).spec_is_usable()
                ==> {
                &&& 0 <= usable_among(regions(payload), i) < usable_regions(payload).len()
                &&& usable_regions(payload)[usable_among(regions(payload), i)] == regions(
                    payload,
                )[i]
            },
{
    let all = regions(payload);
    let kept = usable_regions(payload);
    assert(all.take(all.len() as int) =~= all);
    lemma_filter_counts(all, all.len() as int);
    assert forall|k: int| 0 <= k < kept.len() implies (#[trigger] kept[k]).spec_is_usable() by {
        all.lemma_filter_pred(usable(), k);
    }
    assert forall|i: int| 0 <= i < all.len() && (#[trigger] all[i]).spec_is_usable() implies {
        &&& 0 <= usable_among(all, i) < kept.len()
        &&& kept[usable_among(all, i)] == all[i]
    } by {
        let front = all.take(i + 1);
        let back = all.skip(i + 1);
        assert(all =~= front + back);
        Seq::filter_distributes_over_add(front, back, usable());
        lemma_filter_counts(all, i);
        lemma_filter_counts(all, i + 1);
        reveal_with_fuel(Seq::filter, 1);
        assert(front.drop_last() =~= all.take(i));
        assert(front.last() == all[i]);
    }
}

/// A memory map whose entry size is not a multiple of 8 is not valid, whatever
/// its entries hold.
pub proof fn lemma_odd_entry_size_is_invalid(model: TagModel)
    requires
        entry_size_of(model.payload) % 8 != 0,
    ensures
        !is_memory_map(model),
{
}

/// A memory map is not valid if any one of its entries, the first or a later
/// one, has a reserved field that is not zero.
pub proof fn lemma_reserved_set_is_invalid(model: TagModel, i: int)
    requires
        0 <= i < regions(model.payload).len(),
        regions(model.payload)[i].reserved != 0,
    ensures
        !is_memory_map(model),
{
    assert(!regions(model.payload)[i].spec_is_valid());
}

/// A memory map whose table is too short for one record has no regions, in
/// either traversal. That holds in particular of a tag that ends right behind
/// its entry size and version.
pub proof fn lemma_short_table_has_no_regions(payload: Seq<u8>)
    requires
        payload.len() < 8 + 24,
    ensures
        regions(payload) == Seq::<MemoryMapEntry>::empty(),
        usable_regions(payload) == Seq::<MemoryMapEntry>::empty(),
{
    reveal_with_fuel(Seq::filter, 1);
    assert(regions(payload) =~= Seq::<MemoryMapEntry>::empty());
}

} // verus!
