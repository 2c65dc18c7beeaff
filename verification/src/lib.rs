//! Reader for the boot information that a Multiboot2 loader leaves in memory.
//!
//! The structure is a run of typed, variable-length records ("tags") behind an
//! eight-byte prologue. Everything here works on a borrowed `&[u8]`: nothing is
//! copied out of it but single integers, nothing is allocated, and no read goes
//! past the end of the slice.

pub mod boot_command_line;
pub mod boot_loader_name;
pub mod error;
pub mod memory_map;
pub mod multiboot;
pub mod tag;
pub mod util;

pub use boot_command_line::BootCommandLineTag;
pub use boot_loader_name::BootLoaderNameTag;
pub use error::TagError;
pub use memory_map::{MemoryMapEntry, MemoryMapIter, MemoryMapTag, MemoryType, VerifyMemoryMapIter};
pub use multiboot::{BootInformation, TagIter};
pub use tag::{RawTag, Tag, TagHeader, TagType, VerifyTag};
