//! Tag headers, tag kinds and the typed view over one tag.

use vstd::prelude::*;
use vstd::utf8::valid_utf8;
use crate::boot_command_line::{is_command_line, BootCommandLineTag};
use crate::boot_loader_name::{is_boot_loader_name, BootLoaderNameTag};
use crate::error::TagError;
use crate::memory_map::{is_memory_map, MemoryMapTag};
use crate::util::{in_bounds, le_u32, lemma_bad_text_is_no_cstring, read_u32};

verus! {

/// Bytes taken by the two header fields that open every tag.
pub const HEADER_SIZE: usize = 8;

/// The two fields that open every tag.
#[derive(Debug, Clone, Copy, PartialEq, Eq, Structural)]
pub struct TagHeader {
    /// Numeric code of the tag's kind.
    pub type_code: u32,
    /// Bytes taken by the tag, header included, padding excluded.
    pub total_size: u32,
}

/// The header spelled by the eight bytes of `bytes` from `at` on.
pub open spec fn header_at(bytes: Seq<u8>, at: int) -> TagHeader {
    TagHeader { type_code: le_u32(bytes, at), total_size: le_u32(bytes, at + 4) }
}

impl TagHeader {
    /// Decodes the header at `at`. Nothing is checked but that eight bytes are
    /// there to read.
    pub fn read(bytes: &[u8], at: usize) -> (r: Result<TagHeader, TagError>)
        ensures
            r == (if in_bounds(bytes@.len(), at as int, 8) {
                Ok::<TagHeader, TagError>(header_at(bytes@, at as int))
            } else {
                Err::<TagHeader, TagError>(TagError::OutOfBounds)
            }),
    {
        let len: usize = bytes.len();
        if at > len || len - at < HEADER_SIZE {
            return Err(TagError::OutOfBounds);
        }
        let type_code: u32 = match read_u32(bytes, at) {
            Ok(v) => v,
            Err(e) => return Err(e),
        };
        let total_size: u32 = match read_u32(bytes, at + 4) {
            Ok(v) => v,
            Err(e) => return Err(e),
        };
        Ok(TagHeader { type_code, total_size })
    }
}

/// What a tag says, apart from where its bytes live.
pub struct TagModel {
    /// Numeric code of the tag's kind.
    pub type_code: u32,
    /// Declared size of the tag, header included.
    pub size: u32,
    /// The bytes between the header and the declared end of the tag.
    pub payload: Seq<u8>,
}

/// Whether a whole tag starts at `at`: its header lies inside `bytes`, and the
/// size it declares covers the header and stays inside `bytes`.
pub open spec fn tag_fits(bytes: Seq<u8>, at: int) -> bool {
    &&& in_bounds(bytes.len(), at, 8)
    &&& 8 <= header_at(bytes, at).total_size
    &&& at + header_at(bytes, at).total_size <= bytes.len()
}

/// The tag that starts at `at`.
pub open spec fn tag_at(bytes: Seq<u8>, at: int) -> TagModel
    recommends
        tag_fits(bytes, at),
{
    TagModel {
        type_code: header_at(bytes, at).type_code,
        size: header_at(bytes, at).total_size,
        payload: bytes.subrange(at + 8, at + header_at(bytes, at).total_size),
    }
}

/// The payload of a tag that fits is as long as the declared size less the
/// eight bytes of the header.
pub proof fn lemma_payload_length(bytes: Seq<u8>, at: int)
    requires
        tag_fits(bytes, at),
    ensures
        tag_at(bytes, at).payload.len() == tag_at(bytes, at).size - 8,
{
}

/// Decodes the header at `at` and borrows the payload that it declares.
pub fn frame<'a>(bytes: &'a [u8], at: usize) -> (r: Result<(TagHeader, &'a [u8]), TagError>)
    ensures
        r is Ok <==> tag_fits(bytes@, at as int),
        r matches Ok(parts) ==> parts.0 == header_at(bytes@, at as int) && parts.1@ == tag_at(
            bytes@,
            at as int,
        ).payload,
        r matches Err(e) ==> e == TagError::OutOfBounds,
{
    let header: TagHeader = match TagHeader::read(bytes, at) {
        Ok(h) => h,
        Err(e) => return Err(e),
    };
    let size: usize = header.total_size as usize;
    if size < HEADER_SIZE || size > bytes.len() - at {
        return Err(TagError::OutOfBounds);
    }
    Ok((header, &bytes[at + HEADER_SIZE..at + size]))
}

/// The kinds of tag, each with its reserved code.
#[derive(Debug, Clone, Copy, PartialEq, Eq, Structural)]
pub enum TagType {
    End,
    BootCommandLine,
    BootLoaderName,
    Module,
    BasicMemoryInfo,
    BiosBootDevice,
    MemoryMap,
    ElfSections,
    ApmTable,
    /// Any code without a reserved meaning; the code is kept.
    Unknown(u32),
}

/// The kind that a type code stands for.
pub open spec fn classify(code: u32) -> TagType {
    if code == 0 {
        TagType::End
    } else if code == 1 {
        TagType::BootCommandLine
    } else if code == 2 {
        TagType::BootLoaderName
    } else if code == 3 {
        TagType::Module
    } else if code == 4 {
        TagType::BasicMemoryInfo
    } else if code == 5 {
        TagType::BiosBootDevice
    } else if code == 6 {
        TagType::MemoryMap
    } else if code == 9 {
        TagType::ElfSections
    } else if code == 10 {
        TagType::ApmTable
    } else {
        TagType::Unknown(code)
    }
}

impl TagType {
    /// The code that stands for this kind.
    pub open spec fn spec_code(self) -> u32 {
        match self {
            TagType::End => 0,
            TagType::BootCommandLine => 1,
            TagType::BootLoaderName => 2,
            TagType::Module => 3,
            TagType::BasicMemoryInfo => 4,
            TagType::BiosBootDevice => 5,
            TagType::MemoryMap => 6,
            TagType::ElfSections => 9,
            TagType::ApmTable => 10,
            TagType::Unknown(code) => code,
        }
    }

    /// Classifies a type code. Codes without a reserved meaning are kept as
    /// `Unknown`, never refused.
    pub fn from_code(code: u32) -> (kind: TagType)
        ensures
            kind == classify(code),
    {
        match code {
            0 => TagType::End,
            1 => TagType::BootCommandLine,
            2 => TagType::BootLoaderName,
            3 => TagType::Module,
            4 => TagType::BasicMemoryInfo,
            5 => TagType::BiosBootDevice,
            6 => TagType::MemoryMap,
            9 => TagType::ElfSections,
            10 => TagType::ApmTable,
            _ => TagType::Unknown(code),
        }
    }

    /// The code that stands for this kind.
    pub fn code(&self) -> (code: u32)
        ensures
            code == self.spec_code(),
    {
        match self {
            TagType::End => 0,
            TagType::BootCommandLine => 1,
            TagType::BootLoaderName => 2,
            TagType::Module => 3,
            TagType::BasicMemoryInfo => 4,
            TagType::BiosBootDevice => 5,
            TagType::MemoryMap => 6,
            TagType::ElfSections => 9,
            TagType::ApmTable => 10,
            TagType::Unknown(code) => *code,
        }
    }
}

/// Classifying a code and asking for the kind's code gives the code back.
pub proof fn lemma_classify_keeps_code(code: u32)
    ensures
        classify(code).spec_code() == code,
{
}

/// A payload check that answers whether a tag can be trusted structurally. It
/// is never run unasked: building a view checks nothing but bounds.
pub trait VerifyTag {
    /// Whether the tag has the code of its kind and a payload that is
    /// well-formed for that kind.
    spec fn valid(&self) -> bool;

    /// Runs the check.
    fn is_valid(&self) -> (ok: bool)
        ensures
            ok == self.valid(),
    ;
}

/// Whether a tag passes the check of its kind. A string tag and a memory map
/// have a check on their payload; a tag of any other kind has none, and its
/// code alone decides what it is.
pub open spec fn is_sound(model: TagModel) -> bool {
    match classify(model.type_code) {
        TagType::BootCommandLine => is_command_line(model),
        TagType::BootLoaderName => is_boot_loader_name(model),
        TagType::MemoryMap => is_memory_map(model),
        _ => true,
    }
}

/// View over a tag whose payload this crate does not interpret.
#[derive(Debug, Clone, Copy)]
pub struct RawTag<'a> {
    tag_type: u32,
    size: u32,
    payload: &'a [u8],
}

impl<'a> View for RawTag<'a> {
    type V = TagModel;

    closed spec fn view(&self) -> TagModel {
        TagModel { type_code: self.tag_type, size: self.size, payload: self.payload@ }
    }
}

impl<'a> RawTag<'a> {
    /// The declared size covers the header and the payload, and no more.
    #[verifier::type_invariant]
    spec fn sized(self) -> bool {
        self.size == self.payload@.len() + 8
    }

    /// Wraps a header and the payload that it declares.
    pub(crate) fn from_parts(header: TagHeader, payload: &'a [u8]) -> (tag: Self)
        requires
            header.total_size == payload@.len() + 8,
        ensures
            tag@ == (TagModel {
                type_code: header.type_code,
                size: header.total_size,
                payload: payload@,
            }),
    {
        RawTag { tag_type: header.type_code, size: header.total_size, payload }
    }

    /// Reads the tag that starts at the first byte of `bytes`.
    pub fn parse(bytes: &'a [u8]) -> (r: Result<Self, TagError>)
        ensures
            r is Ok <==> tag_fits(bytes@, 0),
            r matches Ok(tag) ==> tag@ == tag_at(bytes@, 0),
            r matches Err(e) ==> e == TagError::OutOfBounds,
    {
        match frame(bytes, 0) {
            Ok((header, payload)) => Ok(Self::from_parts(header, payload)),
            Err(e) => Err(e),
        }
    }

    /// The tag's type code, as it stands in the header.
    pub fn type_code(&self) -> (code: u32)
        ensures
            code == self@.type_code,
    {
        self.tag_type
    }

    /// The kind that the tag's code stands for.
    pub fn tag_type(&self) -> (kind: TagType)
        ensures
            kind == classify(self@.type_code),
    {
        TagType::from_code(self.tag_type)
    }

    /// Declared size of the tag in bytes, header included.
    pub fn size(&self) -> (n: usize)
        ensures
            n == self@.size,
            n == self@.payload.len() + 8,
    {
        proof {
            use_type_invariant(self);
        }
        self.size as usize
    }

    /// The bytes between the header and the declared end of the tag.
    pub fn payload(&self) -> (p: &'a [u8])
        ensures
            p@ == self@.payload,
    {
        self.payload
    }
}

/// One tag of the structure, as the view that fits its kind.
#[derive(Debug, Clone, Copy)]
pub enum Tag<'a> {
    BasicMemoryInfo(RawTag<'a>),
    BootCommandLine(BootCommandLineTag<'a>),
    BootLoaderName(BootLoaderNameTag<'a>),
    BiosBootDevice(RawTag<'a>),
    Module(RawTag<'a>),
    MemoryMap(MemoryMapTag<'a>),
    ElfSections(RawTag<'a>),
    ApmTable(RawTag<'a>),
    /// The tag that closes the structure: any tag with the code 0. It has no
    /// payload to show.
    End,
    /// A tag of a kind without a reserved meaning, with its code.
    Unknown(u32),
}

impl<'a> Tag<'a> {
    /// The kind of the tag.
    pub open spec fn spec_kind(&self) -> TagType {
        match *self {
            Tag::BasicMemoryInfo(_) => TagType::BasicMemoryInfo,
            Tag::BootCommandLine(_) => TagType::BootCommandLine,
            Tag::BootLoaderName(_) => TagType::BootLoaderName,
            Tag::BiosBootDevice(_) => TagType::BiosBootDevice,
            Tag::Module(_) => TagType::Module,
            Tag::MemoryMap(_) => TagType::MemoryMap,
            Tag::ElfSections(_) => TagType::ElfSections,
            Tag::ApmTable(_) => TagType::ApmTable,
            Tag::End => TagType::End,
            Tag::Unknown(code) => TagType::Unknown(code),
        }
    }

    /// Whether this is the typed view of `model`: the variant is the kind of
    /// the model's code, and the view inside, where there is one, shows the
    /// model.
    pub open spec fn shows(&self, model: TagModel) -> bool {
        &&& self.spec_kind() == classify(model.type_code)
        &&& match *self {
            Tag::BasicMemoryInfo(t) => t@ == model,
            Tag::BootCommandLine(t) => t@ == model,
            Tag::BootLoaderName(t) => t@ == model,
            Tag::BiosBootDevice(t) => t@ == model,
            Tag::Module(t) => t@ == model,
            Tag::MemoryMap(t) => t@ == model,
            Tag::ElfSections(t) => t@ == model,
            Tag::ApmTable(t) => t@ == model,
            Tag::End => true,
            Tag::Unknown(_) => true,
        }
    }

    /// Builds the typed view for a header and the payload that it declares.
    pub(crate) fn from_parts(header: TagHeader, payload: &'a [u8]) -> (tag: Self)
        requires
            header.total_size == payload@.len() + 8,
        ensures
            tag.shows(
                TagModel {
                    type_code: header.type_code,
                    size: header.total_size,
                    payload: payload@,
                },
            ),
    {
        match TagType::from_code(header.type_code) {
            TagType::End => Tag::End,
            TagType::BootCommandLine => Tag::BootCommandLine(
                BootCommandLineTag::from_parts(header, payload),
            ),
            TagType::BootLoaderName => Tag::BootLoaderName(
                BootLoaderNameTag::from_parts(header, payload),
            ),
            TagType::Module => Tag::Module(RawTag::from_parts(header, payload)),
            TagType::BasicMemoryInfo => Tag::BasicMemoryInfo(RawTag::from_parts(header, payload)),
            TagType::BiosBootDevice => Tag::BiosBootDevice(RawTag::from_parts(header, payload)),
            TagType::MemoryMap => Tag::MemoryMap(MemoryMapTag::from_parts(header, payload)),
            TagType::ElfSections => Tag::ElfSections(RawTag::from_parts(header, payload)),
            TagType::ApmTable => Tag::ApmTable(RawTag::from_parts(header, payload)),
            TagType::Unknown(code) => Tag::Unknown(code),
        }
    }

    /// Reads the tag that starts at the first byte of `bytes` and gives the view
    /// that fits its kind.
    pub fn parse(bytes: &'a [u8]) -> (r: Result<Self, TagError>)
        ensures
            r is Ok <==> tag_fits(bytes@, 0),
            r matches Ok(tag) ==> tag.shows(tag_at(bytes@, 0)),
            r matches Err(e) ==> e == TagError::OutOfBounds,
    {
        match frame(bytes, 0) {
            Ok((header, payload)) => Ok(Self::from_parts(header, payload)),
            Err(e) => Err(e),
        }
    }

    /// The kind of the tag.
    pub fn kind(&self) -> (kind: TagType)
        ensures
            kind == self.spec_kind(),
    {
        match self {
            Tag::BasicMemoryInfo(_) => TagType::BasicMemoryInfo,
            Tag::BootCommandLine(_) => TagType::BootCommandLine,
            Tag::BootLoaderName(_) => TagType::BootLoaderName,
            Tag::BiosBootDevice(_) => TagType::BiosBootDevice,
            Tag::Module(_) => TagType::Module,
            Tag::MemoryMap(_) => TagType::MemoryMap,
            Tag::ElfSections(_) => TagType::ElfSections,
            Tag::ApmTable(_) => TagType::ApmTable,
            Tag::End => TagType::End,
            Tag::Unknown(code) => TagType::Unknown(*code),
        }
    }
}

/// A string tag whose payload is not well-formed UTF-8 is not valid, whether
/// the fault lies before the last byte or in it, and whether or not that byte is
/// the terminator.
pub proof fn lemma_bad_text_is_invalid(model: TagModel)
    requires
        !valid_utf8(model.payload) || !valid_utf8(model.payload.drop_last()),
    ensures
        !is_command_line(model),
        !is_boot_loader_name(model),
{
    lemma_bad_text_is_no_cstring(model.payload);
}

/// The typed view of a tag is valid exactly when the tag passes the check of
/// its kind.
pub proof fn lemma_shown_tag_is_valid_when_sound(tag: Tag<'_>, model: TagModel)
    requires
        tag.shows(model),
    ensures
        tag.valid() == is_sound(model),
{
}

impl<'a> VerifyTag for Tag<'a> {
    /// A string tag and a memory map are held to the check of their kind. A
    /// tag of another kind is held to its code alone: the code in its header
    /// is the one that stands for its variant.
    open spec fn valid(&self) -> bool {
        match *self {
            Tag::BasicMemoryInfo(t) => classify(t@.type_code) == TagType::BasicMemoryInfo,
            Tag::BootCommandLine(t) => is_command_line(t@),
            Tag::BootLoaderName(t) => is_boot_loader_name(t@),
            Tag::BiosBootDevice(t) => classify(t@.type_code) == TagType::BiosBootDevice,
            Tag::Module(t) => classify(t@.type_code) == TagType::Module,
            Tag::MemoryMap(t) => is_memory_map(t@),
            Tag::ElfSections(t) => classify(t@.type_code) == TagType::ElfSections,
            Tag::ApmTable(t) => classify(t@.type_code) == TagType::ApmTable,
            Tag::End => true,
            Tag::Unknown(code) => classify(code) == TagType::Unknown(code),
        }
    }

    fn is_valid(&self) -> (ok: bool) {
        match self {
            Tag::BasicMemoryInfo(t) => t.tag_type() == TagType::BasicMemoryInfo,
            Tag::BootCommandLine(t) => t.is_valid(),
            Tag::BootLoaderName(t) => t.is_valid(),
            Tag::BiosBootDevice(t) => t.tag_type() == TagType::BiosBootDevice,
            Tag::Module(t) => t.tag_type() == TagType::Module,
            Tag::MemoryMap(t) => t.is_valid(),
            Tag::ElfSections(t) => t.tag_type() == TagType::ElfSections,
            Tag::ApmTable(t) => t.tag_type() == TagType::ApmTable,
            Tag::End => true,
            Tag::Unknown(code) => TagType::from_code(*code) == TagType::Unknown(*code),
        }
    }
}

} // verus!
