//! The walk over the tags of a boot information structure.
//!
//! A structure opens with eight bytes, its total size and a reserved field.
//! Tags follow, each starting on a multiple of 8 bytes, up to a tag of kind
//! `End` or to the total size, whichever comes first.

use vstd::prelude::*;
use crate::boot_command_line::{is_command_line, BootCommandLineTag};
use crate::boot_loader_name::{is_boot_loader_name, BootLoaderNameTag};
use crate::error::TagError;
use crate::memory_map::{is_memory_map, MemoryMapTag};
use crate::tag::{frame, header_at, tag_at, tag_fits, Tag, VerifyTag, HEADER_SIZE};
use crate::util::{in_bounds, le_u32, read_u32};

verus! {

/// Bytes taken by the total size and the reserved field that open a structure.
pub const PROLOGUE_SIZE: usize = 8;

/// `size` rounded up to the next multiple of 8: the distance from the start of
/// a tag of that size to the start of the tag behind it.
pub open spec fn padded(size: int) -> int {
    (size + 7) / 8 * 8
}

/// What the walk over `bytes` meets from byte `at` on, in order: `Ok(p)` for a
/// tag that starts at byte `p` and fits, `Err(OutOfBounds)` for a header whose
/// declared size does not.
///
/// The walk is over when fewer than eight bytes are left, after a tag with the
/// code of `End`, whatever size that tag declares, and after a header whose
/// size does not fit. The end of `bytes` is the bound: a tag counts as fitting
/// only if it ends at or before it.
pub open spec fn walk(bytes: Seq<u8>, at: int) -> Seq<Result<int, TagError>>
    decreases bytes.len() - at,
{
    if !in_bounds(bytes.len(), at, 8) {
        Seq::empty()
    } else if !tag_fits(bytes, at) {
        seq![Err(TagError::OutOfBounds)]
    } else if header_at(bytes, at).type_code == 0 || at + padded(
        header_at(bytes, at).total_size as int,
    ) > bytes.len() {
        seq![Ok(at)]
    } else {
        seq![Ok(at)] + walk(bytes, at + padded(header_at(bytes, at).total_size as int))
    }
}

/// Whether `item` is what the walk over `bytes` hands out for `step`: the typed
/// view of the tag at that place, or the same error.
pub open spec fn hands_out(
    bytes: Seq<u8>,
    step: Result<int, TagError>,
    item: Result<Tag<'_>, TagError>,
) -> bool {
    match step {
        Ok(at) => item matches Ok(tag) && tag.shows(tag_at(bytes, at)),
        Err(e) => item == Err::<Tag<'_>, TagError>(e),
    }
}

/// Walks the tags of a structure, once, front to back.
#[derive(Debug, Clone)]
pub struct TagIter<'a> {
    /// The structure, prologue included, cut at its total size.
    bytes: &'a [u8],
    /// Where the next header is read.
    at: usize,
}

impl<'a> TagIter<'a> {
    /// The bytes that are walked.
    pub closed spec fn structure(&self) -> Seq<u8> {
        self.bytes@
    }

    /// What is still to come, in order.
    pub closed spec fn pending(&self) -> Seq<Result<int, TagError>> {
        walk(self.bytes@, self.at as int)
    }

    /// Starts behind the prologue of `structure`. The end of the slice is the
    /// bound of the walk.
    pub fn new(structure: &'a [u8]) -> (iter: Self)
        ensures
            iter.structure() == structure@,
            iter.pending() == walk(structure@, 8),
    {
        TagIter { bytes: structure, at: PROLOGUE_SIZE }
    }

    /// Hands out the next tag, or the error that ends the walk, or `None` when
    /// the walk is over.
    pub fn next(&mut self) -> (r: Option<Result<Tag<'a>, TagError>>)
        ensures
            final(self).structure() == old(self).structure(),
            match r {
                Some(item) => {
                    &&& old(self).pending().len() > 0
                    &&& hands_out(old(self).structure(), old(self).pending()[0], item)
                    &&& final(self).pending() == old(self).pending().skip(1)
                },
                None => old(self).pending().len() == 0 && final(self).pending().len() == 0,
            },
    {
        let len: usize = self.bytes.len();
        if self.at > len || len - self.at < HEADER_SIZE {
            return None;
        }
        let ghost before = self.pending();
        match frame(self.bytes, self.at) {
            Err(e) => {
                self.at = len;
                assert(before.skip(1) =~= Seq::<Result<int, TagError>>::empty());
                Some(Err(e))
            },
            Ok((header, payload)) => {
                let tag = Tag::from_parts(header, payload);
                let room: u64 = (len - self.at) as u64;
                let stride: u64 = (header.total_size as u64 + 7) / 8 * 8;
                if header.type_code == 0 || stride > room {
                    assert(before.skip(1) =~= Seq::<Result<int, TagError>>::empty());
                    self.at = len;
                } else {
                    assert(before.skip(1) =~= walk(self.bytes@, self.at + stride));
                    self.at = self.at + stride as usize;
                }
                Some(Ok(tag))
            },
        }
    }
}

/// Every tag that the walk hands out lies inside the bytes walked, at or behind
/// the place where the walk started; and on an 8-byte boundary, if the walk
/// started on one.
pub proof fn lemma_walk_in_bounds(bytes: Seq<u8>, at: int, i: int)
    requires
        0 <= i < walk(bytes, at).len(),
    ensures
        walk(bytes, at)[i] matches Ok(p) ==> {
            &&& at <= p
            &&& tag_fits(bytes, p)
            &&& p + header_at(bytes, p).total_size <= bytes.len()
            &&& (at % 8 == 0 ==> p % 8 == 0)
        },
    decreases bytes.len() - at,
{
    if i > 0 {
        let next = at + padded(header_at(bytes, at).total_size as int);
        lemma_walk_in_bounds(bytes, next, i - 1);
    }
}

/// The walk stops at the first tag with the code of `End`, and at the first
/// header whose size does not fit: either can only be the last thing handed
/// out.
pub proof fn lemma_walk_stops(bytes: Seq<u8>, at: int, i: int)
    requires
        0 <= i < walk(bytes, at).len(),
    ensures
        walk(bytes, at)[i] is Err ==> i == walk(bytes, at).len() - 1,
        walk(bytes, at)[i] matches Ok(p) && header_at(bytes, p).type_code == 0 ==> i == walk(
            bytes,
            at,
        ).len() - 1,
    decreases bytes.len() - at,
{
    if i > 0 {
        let next = at + padded(header_at(bytes, at).total_size as int);
        lemma_walk_stops(bytes, next, i - 1);
    }
}

/// Tags come out front to back and do not overlap: a later tag starts at or
/// behind the padded end of an earlier one.
pub proof fn lemma_walk_advances(bytes: Seq<u8>, at: int, i: int, j: int)
    requires
        0 <= i < j < walk(bytes, at).len(),
    ensures
        walk(bytes, at)[i] is Ok,
        walk(bytes, at)[j] matches Ok(q) ==> walk(bytes, at)[i]->Ok_0 + padded(
            header_at(bytes, walk(bytes, at)[i]->Ok_0).total_size as int,
        ) <= q,
    decreases bytes.len() - at,
{
    let next = at + padded(header_at(bytes, at).total_size as int);
    if i > 0 {
        lemma_walk_advances(bytes, next, i - 1, j - 1);
    } else {
        lemma_walk_in_bounds(bytes, next, j - 1);
    }
}

/// The total size that the prologue of a structure declares.
pub open spec fn declared_size(buf: Seq<u8>) -> u32 {
    le_u32(buf, 0)
}

/// Whether `buf` holds a whole structure: the prologue is there to read, and
/// the total size it declares covers the prologue and stays inside `buf`.
pub open spec fn structure_fits(buf: Seq<u8>) -> bool {
    &&& buf.len() >= 8
    &&& 8 <= declared_size(buf) <= buf.len()
}

/// The structure at the start of `buf`: the bytes up to its declared total
/// size.
pub open spec fn structure_of(buf: Seq<u8>) -> Seq<u8>
    recommends
        structure_fits(buf),
{
    buf.take(declared_size(buf) as int)
}

/// What stands in memory behind the declared total size plays no part: the
/// structure is the same whatever bytes follow it, and so is the walk over it.
pub proof fn lemma_bytes_behind_are_ignored(buf: Seq<u8>, more: Seq<u8>)
    requires
        structure_fits(buf),
    ensures
        structure_fits(buf + more),
        structure_of(buf + more) == structure_of(buf),
        walk(structure_of(buf + more), 8) == walk(structure_of(buf), 8),
{
    assert(structure_of(buf + more) =~= structure_of(buf));
}

/// The walk over a structure never leaves it: every tag handed out starts
/// behind the prologue and ends at or before the declared total size, and it
/// is the tag that stands at that place of the buffer the structure was taken
/// from.
pub proof fn lemma_walk_stays_in_structure(buf: Seq<u8>, i: int)
    requires
        structure_fits(buf),
        0 <= i < walk(structure_of(buf), 8).len(),
    ensures
        structure_of(buf).len() == declared_size(buf),
        walk(structure_of(buf), 8)[i] matches Ok(p) ==> {
            &&& 8 <= p
            &&& p % 8 == 0
            &&& p + header_at(buf, p).total_size <= declared_size(buf)
            &&& tag_fits(buf, p)
            &&& tag_at(structure_of(buf), p) == tag_at(buf, p)
        },
{
    let structure = structure_of(buf);
    lemma_walk_in_bounds(structure, 8, i);
    if let Ok(p) = walk(structure, 8)[i] {
        assert(header_at(structure, p) == header_at(buf, p));
        assert(tag_at(structure, p).payload =~= tag_at(buf, p).payload);
    }
}

/// The first place in `steps` that `wanted` holds of, if there is one.
pub open spec fn first_where(steps: Seq<Result<int, TagError>>, wanted: spec_fn(int) -> bool)
    -> Option<int>
    decreases steps.len(),
{
    if steps.len() == 0 {
        None
    } else if steps[0] is Ok && wanted(steps[0]->Ok_0) {
        Some(steps[0]->Ok_0)
    } else {
        first_where(steps.skip(1), wanted)
    }
}

/// `first_where` gives a place of `steps` that `wanted` holds of and before
/// which it holds of none; it gives `None` only where `wanted` holds of no
/// place of `steps`.
pub proof fn lemma_first_where(steps: Seq<Result<int, TagError>>, wanted: spec_fn(int) -> bool)
    ensures
        match first_where(steps, wanted) {
            Some(at) => exists|i: int|
                {
                    &&& 0 <= i < steps.len()
                    &&& #[trigger] steps[i] == Ok::<int, TagError>(at)
                    &&& wanted(at)
                    &&& forall|j: int|
                        0 <= j < i ==> !(#[trigger] steps[j] matches Ok(p) && wanted(p))
                },
            None => forall|j: int|
                0 <= j < steps.len() ==> !(#[trigger] steps[j] matches Ok(p) && wanted(p)),
        },
    decreases steps.len(),
{
    if steps.len() == 0 {
    } else if steps[0] is Ok && wanted(steps[0]->Ok_0) {
        assert(steps[0] == Ok::<int, TagError>(steps[0]->Ok_0));
    } else {
        let rest = steps.skip(1);
        lemma_first_where(rest, wanted);
        match first_where(rest, wanted) {
            Some(at) => {
                let i = choose|i: int|
                    {
                        &&& 0 <= i < rest.len()
                        &&& #[trigger] rest[i] == Ok::<int, TagError>(at)
                        &&& wanted(at)
                        &&& forall|j: int|
                            0 <= j < i ==> !(#[trigger] rest[j] matches Ok(p) && wanted(p))
                    };
                assert(steps[i + 1] == Ok::<int, TagError>(at));
                assert forall|j: int| 0 <= j < i + 1 implies !(#[trigger] steps[j] matches Ok(p)
                    && wanted(p)) by {
                    if j > 0 {
                        assert(steps[j] == rest[j - 1]);
                    }
                }
            },
            None => {
                assert forall|j: int| 0 <= j < steps.len() implies !(#[trigger] steps[j] matches Ok(
                    p,
                ) && wanted(p)) by {
                    if j > 0 {
                        assert(steps[j] == rest[j - 1]);
                    }
                }
            },
        }
    }
}

/// The test for a sound command-line tag at a place of `structure`.
pub open spec fn command_line_at(structure: Seq<u8>) -> spec_fn(int) -> bool {
    |at: int| is_command_line(tag_at(structure, at))
}

/// The test for a sound boot-loader-name tag at a place of `structure`.
pub open spec fn boot_loader_name_at(structure: Seq<u8>) -> spec_fn(int) -> bool {
    |at: int| is_boot_loader_name(tag_at(structure, at))
}

/// The test for a sound memory-map tag at a place of `structure`.
pub open spec fn memory_map_at(structure: Seq<u8>) -> spec_fn(int) -> bool {
    |at: int| is_memory_map(tag_at(structure, at))
}

/// A boot information structure: the bytes from its first byte to its declared
/// total size.
#[derive(Debug, Clone, Copy)]
pub struct BootInformation<'a> {
    bytes: &'a [u8],
}

impl<'a> View for BootInformation<'a> {
    type V = Seq<u8>;

    closed spec fn view(&self) -> Seq<u8> {
        self.bytes@
    }
}

impl<'a> BootInformation<'a> {
    /// The bytes held are the whole structure and nothing behind it.
    #[verifier::type_invariant]
    spec fn whole(self) -> bool {
        self.bytes@.len() >= 8 && declared_size(self.bytes@) == self.bytes@.len()
    }

    /// Takes the structure that starts at the first byte of `buf`. The reserved
    /// field of the prologue is not looked at.
    pub fn new(buf: &'a [u8]) -> (r: Result<Self, TagError>)
        ensures
            r is Ok <==> structure_fits(buf@),
            r matches Ok(info) ==> info@ == structure_of(buf@),
            r matches Err(e) ==> e == TagError::OutOfBounds,
    {
        let total_size: usize = match read_u32(buf, 0) {
            Ok(v) => v as usize,
            Err(e) => return Err(e),
        };
        if buf.len() < PROLOGUE_SIZE || total_size < PROLOGUE_SIZE || total_size > buf.len() {
            return Err(TagError::OutOfBounds);
        }
        Ok(BootInformation { bytes: &buf[0..total_size] })
    }

    /// Size of the structure in bytes, prologue included.
    pub fn total_size(&self) -> (n: usize)
        ensures
            n == self@.len(),
            n == declared_size(self@),
            n >= 8,
    {
        proof {
            use_type_invariant(self);
        }
        self.bytes.len()
    }

    /// Walks the tags, from the one behind the prologue on.
    pub fn tags(&self) -> (iter: TagIter<'a>)
        ensures
            iter.structure() == self@,
            iter.pending() == walk(self@, 8),
    {
        TagIter::new(self.bytes)
    }

    /// The first command-line tag of the walk that is valid.
    pub fn command_line_tag(&self) -> (r: Option<BootCommandLineTag<'a>>)
        ensures
            match first_where(walk(self@, 8), command_line_at(self@)) {
                Some(at) => r matches Some(tag) && tag@ == tag_at(self@, at),
                None => r is None,
            },
            r matches Some(tag) ==> tag.valid(),
    {
        let mut tags = self.tags();
        loop
            invariant
                tags.structure() == self@,
                first_where(tags.pending(), command_line_at(self@)) == first_where(
                    walk(self@, 8),
                    command_line_at(self@),
                ),
            decreases tags.pending().len(),
        {
            match tags.next() {
                None => {
                    return None;
                },
                Some(Ok(Tag::BootCommandLine(tag))) => {
                    if tag.is_valid() {
                        return Some(tag);
                    }
                },
                Some(_) => {},
            }
        }
    }

    /// The first boot-loader-name tag of the walk that is valid.
    pub fn boot_loader_name_tag(&self) -> (r: Option<BootLoaderNameTag<'a>>)
        ensures
            match first_where(walk(self@, 8), boot_loader_name_at(self@)) {
                Some(at) => r matches Some(tag) && tag@ == tag_at(self@, at),
                None => r is None,
            },
            r matches Some(tag) ==> tag.valid(),
    {
        let mut tags = self.tags();
        loop
            invariant
                tags.structure() == self@,
                first_where(tags.pending(), boot_loader_name_at(self@)) == first_where(
                    walk(self@, 8),
                    boot_loader_name_at(self@),
                ),
            decreases tags.pending().len(),
        {
            match tags.next() {
                None => {
                    return None;
                },
                Some(Ok(Tag::BootLoaderName(tag))) => {
                    if tag.is_valid() {
                        return Some(tag);
                    }
                },
                Some(_) => {},
            }
        }
    }

    /// The first memory-map tag of the walk that is valid.
    pub fn memory_map_tag(&self) -> (r: Option<MemoryMapTag<'a>>)
        ensures
            match first_where(walk(self@, 8), memory_map_at(self@)) {
                Some(at) => r matches Some(tag) && tag@ == tag_at(self@, at),
                None => r is None,
            },
            r matches Some(tag) ==> tag.valid(),
    {
        let mut tags = self.tags();
        loop
            invariant
                tags.structure() == self@,
                first_where(tags.pending(), memory_map_at(self@)) == first_where(
                    walk(self@, 8),
                    memory_map_at(self@),
                ),
            decreases tags.pending().len(),
        {
            match tags.next() {
                None => {
                    return None;
                },
                Some(Ok(Tag::MemoryMap(tag))) => {
                    if tag.is_valid() {
                        return Some(tag);
                    }
                },
                Some(_) => {},
            }
        }
    }
}

} // verus!
