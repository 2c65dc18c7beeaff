//! The tag that carries the kernel's command line.

use vstd::prelude::*;
use vstd::string::StringSliceAdditionalSpecFns;
use crate::error::TagError;
use crate::tag::{frame, tag_at, tag_fits, TagHeader, TagModel, VerifyTag};
use crate::util::{cstring_text, is_cstring, read_cstring, validate_cstring};

verus! {

/// Type code of the command-line tag.
pub const BOOT_COMMAND_LINE: u32 = 1;

/// Whether a tag is a sound command-line tag: it has the code of one, and its
/// payload is a terminated string.
pub open spec fn is_command_line(model: TagModel) -> bool {
    model.type_code == BOOT_COMMAND_LINE && is_cstring(model.payload)
}

/// View over a command-line tag: the header fields and the string bytes that
/// follow them.
#[derive(Debug, Clone, Copy)]
pub struct BootCommandLineTag<'a> {
    tag_type: u32,
    size: u32,
    string: &'a [u8],
}

impl<'a> View for BootCommandLineTag<'a> {
    type V = TagModel;

    closed spec fn view(&self) -> TagModel {
        TagModel { type_code: self.tag_type, size: self.size, payload: self.string@ }
    }
}

impl<'a> BootCommandLineTag<'a> {
    /// The declared size covers the header and the payload, and no more.
    #[verifier::type_invariant]
    spec fn sized(self) -> bool {
        self.size == self.string@.len() + 8
    }

    /// Wraps a header and the payload that it declares.
    pub(crate) fn from_parts(header: TagHeader, payload: &'a [u8]) -> (tag: Self)
        requires
            header.total_size == payload@.len() + 8,
        ensures
            tag@ == (TagModel {
                type_code: header.type_code,
                size: header.total_size,
                payload: payload@,
            }),
    {
        BootCommandLineTag { tag_type: header.type_code, size: header.total_size, string: payload }
    }

    /// Reads the tag that starts at the first byte of `bytes`. Only bounds are
    /// checked; call `is_valid` before trusting the tag.
    pub fn parse(bytes: &'a [u8]) -> (r: Result<Self, TagError>)
        ensures
            r is Ok <==> tag_fits(bytes@, 0),
            r matches Ok(tag) ==> tag@ == tag_at(bytes@, 0),
            r matches Err(e) ==> e == TagError::OutOfBounds,
    {
        match frame(bytes, 0) {
            Ok((header, payload)) => Ok(Self::from_parts(header, payload)),
            Err(e) => Err(e),
        }
    }

    /// The command line, without its terminator. A tag that is not valid has no
    /// command line to give.
    pub fn string(&self) -> (r: Result<&'a str, TagError>)
        ensures
            r is Ok <==> self.valid(),
            r matches Ok(text) ==> text.spec_bytes() == self@.payload.drop_last() && text@
                == cstring_text(self@.payload),
            r matches Err(e) ==> e == TagError::Malformed,
    {
        if self.tag_type != BOOT_COMMAND_LINE {
            return Err(TagError::Malformed);
        }
        match read_cstring(self.string) {
            Some(text) => Ok(text),
            None => Err(TagError::Malformed),
        }
    }

    /// Declared size of the tag in bytes, header included.
    pub fn size(&self) -> (n: usize)
        ensures
            n == self@.size,
            n == self@.payload.len() + 8,
    {
        proof {
            use_type_invariant(self);
        }
        self.size as usize
    }
}

impl<'a> VerifyTag for BootCommandLineTag<'a> {
    open spec fn valid(&self) -> bool {
        is_command_line(self@)
    }

    fn is_valid(&self) -> (ok: bool) {
        self.tag_type == BOOT_COMMAND_LINE && validate_cstring(self.string)
    }
}

} // verus!
