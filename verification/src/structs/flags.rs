//! The 16-bit flags field of an index entry, kept as an explicit unsigned
//! integer because its width is part of the wire contract.

use vstd::prelude::*;

verus! {

/// Bits 0-11: a hint for the length of the path that follows the entry. The
/// actual path length is determined by its NUL terminator, never by this
/// field.
pub const PATH_LEN: u16 = 0x0fff;

/// Bits 12-13: the merge stage. Reserved; carried through with no behavior
/// attached.
pub const STAGE_MASK: u16 = 0x3000;

/// Bit 14: if set, extended flags follow the entry. The extended-record
/// format is unsupported; decoding refuses an entry with this bit.
pub const EXTENDED: u16 = 0x4000;

/// Bit 15: the entry may be assumed to match the working tree. Carried
/// through with no behavior attached.
pub const ASSUME_VALID: u16 = 0x8000;

/// Flags as they are serialized to a storage location.
#[derive(Clone, Copy, Debug, PartialEq, Eq, Structural)]
pub struct Flags {
    pub bits: u16,
}

impl Flags {
    /// No flag set.
    pub fn empty() -> (r: Flags)
        ensures
            r.bits == 0,
    {
        Flags { bits: 0 }
    }

    /// Keeps all sixteen bits as given.
    pub fn from_bits_retain(bits: u16) -> (r: Flags)
        ensures
            r.bits == bits,
    {
        Flags { bits }
    }

    /// The raw sixteen bits.
    pub fn as_u16(&self) -> (r: u16)
        ensures
            r == self.bits,
    {
        self.bits
    }

    /// A copy of the flags, bit for bit.
    pub fn to_memory(&self) -> (r: Flags)
        ensures
            r == *self,
    {
        Flags { bits: self.bits }
    }

    /// Whether the unsupported extended bit is set.
    pub fn is_extended(&self) -> (r: bool)
        ensures
            r == (self.bits & EXTENDED != 0),
    {
        self.bits & EXTENDED != 0
    }

    /// The reserved stage bits.
    pub fn stage(&self) -> (r: u16)
        ensures
            r == self.bits & STAGE_MASK,
    {
        self.bits & STAGE_MASK
    }

    /// The informational path-length hint.
    pub fn path_len_hint(&self) -> (r: u16)
        ensures
            r == self.bits & PATH_LEN,
    {
        self.bits & PATH_LEN
    }
}

} // verus!
