//! Readers for the ELF auxiliary vector (auxv): the table of key/value facts
//! that the OS loader hands a process at startup.
//!
//! The heart of the crate is a verified decoder for stored auxv images — the
//! flat binary format of the procfs auxv pseudo-file: native-word-width
//! key/value pairs, terminated by a pair whose key is the sentinel `0`
//! (`AT_NULL`). The decoder pulls bytes from a [`source::ByteSource`], yields
//! one [`AuxvPair`] per record, stops silently at the sentinel, and reports
//! truncated input as [`procfs::ProcfsAuxvError::InvalidFormat`] and a failing
//! source as [`procfs::ProcfsAuxvError::IoError`].
//!
//! The accessors that touch the live process — opening the procfs file,
//! walking the ELF stack from the environment block, or calling the native
//! `getauxval` — do I/O or raw memory reads and live outside this library; they
//! feed bytes in through [`source::ByteSource`] or implement
//! [`getauxval::Getauxval`].

use vstd::prelude::*;

pub mod getauxval;
pub mod procfs;
pub mod source;
pub mod words;

verus! {

/// The integer type of auxv keys and values.
///
/// In a stored image both halves of a record have the platform's native word
/// width, because auxv values may carry pointers. Words of a 32-bit image are
/// decoded into the low half of this type.
pub type AuxvType = u64;

/// Key of the hardware-capability bitmask entry (`AT_HWCAP`).
pub const AT_HWCAP: AuxvType = 16;

/// Key of the second hardware-capability bitmask entry (`AT_HWCAP2`).
pub const AT_HWCAP2: AuxvType = 26;

/// One auxv key/value record. Immutable once built; equality is by fields.
#[derive(Debug, Clone, Copy, PartialEq, Eq, Structural)]
pub struct AuxvPair {
    pub key: AuxvType,
    pub value: AuxvType,
}

/// The byte order in which each word of a stored auxv image is laid out.
///
/// The procfs file uses the byte order of the machine that wrote it; an
/// explicit choice here lets recorded images from foreign machines be decoded
/// as well.
#[derive(Debug, Clone, Copy, PartialEq, Eq, Structural)]
pub enum Endianness {
    /// Least significant byte first.
    Little,
    /// Most significant byte first.
    Big,
}

/// The width of one word of a stored auxv image: the pointer width of the
/// machine that wrote it, fixed for the whole image, never per record.
#[derive(Debug, Clone, Copy, PartialEq, Eq, Structural)]
pub enum WordWidth {
    /// Four-byte words, as written by 32-bit platforms.
    Width32,
    /// Eight-byte words, as written by 64-bit platforms.
    Width64,
}

impl WordWidth {
    /// The number of bytes in one word.
    pub open spec fn spec_word_bytes(self) -> nat {
        match self {
            WordWidth::Width32 => 4,
            WordWidth::Width64 => 8,
        }
    }

    /// The number of bytes in one record: a key word and a value word.
    pub open spec fn spec_record_bytes(self) -> nat {
        2 * self.spec_word_bytes()
    }

    /// The number of bytes in one word.
    pub fn word_bytes(self) -> (n: usize)
        ensures
            n == self.spec_word_bytes(),
    {
        match self {
            WordWidth::Width32 => 4,
            WordWidth::Width64 => 8,
        }
    }

    /// The number of bytes in one record: a key word and a value word.
    pub fn record_bytes(self) -> (n: usize)
        ensures
            n == self.spec_record_bytes(),
    {
        match self {
            WordWidth::Width32 => 8,
            WordWidth::Width64 => 16,
        }
    }
}

} // verus!
