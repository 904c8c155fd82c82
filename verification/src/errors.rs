//! The ways in which reading a partition table can fail.

use vstd::prelude::*;

verus! {

/// An error of the operating system, carried through unread.
#[verifier::external_type_specification]
#[verifier::external_body]
pub struct ExIoError(std::io::Error);

/// A boot sector entry that cannot be understood.
#[derive(Debug, Clone, Copy, PartialEq, Eq)]
pub enum MbrError {
    /// The status byte of an entry is neither `0x00` nor `0x80`.
    InvalidStatusCode { entry_id: usize, status: u8 },
}

/// A rule that a GPT header or entry table breaks.
///
/// The decoder stops at the first rule that fails, in the order in which the
/// variants are listed here.
#[derive(Debug, Clone, Copy, PartialEq, Eq)]
pub enum GptError {
    /// The sector does not start with `"EFI PART"`.
    BadEFISignature,
    /// The revision is not 1.0.
    UnsupportedRevision,
    /// The header claims fewer than 92 bytes.
    HeaderTooShort,
    /// The header claims more bytes than its sector holds.
    HeaderLargerThanSector,
    /// The stored header checksum is not the checksum of the header.
    HeaderChecksumMismatch,
    /// The reserved field after the checksum is not zero.
    UnsupportedDataInReservedField,
    /// The header does not claim to live in sector 1.
    CurrentLbaMustBeOneInFirstHeader,
    /// The first usable sector comes after the last usable sector.
    BackwardLbas,
    /// The last usable sector lies beyond what 64 bits of byte offset can address.
    EverythingMustBeBelowSixtyFourToThePowerOfTwo,
    /// The entry table does not start in sector 2.
    StartingLbaMustBeTwo,
    /// The number of entries does not fit in 16 bits.
    EntryCountIsImplausible,
    /// The size of an entry does not fit in 16 bits.
    EntrySizeIsImplausiblyLarge,
    /// The size of an entry is below 128 bytes.
    EntrySizeIsImplausiblySmall,
    /// The entry table would reach into the usable sectors.
    FirstUsableLbaIsTooLow,
    /// A byte of the sector behind the header is not zero.
    ReservedHeaderTailIsNotAllEmpty,
    /// The stored table checksum is not the checksum of the table, whose
    /// length in bytes is given.
    InvalidTableCRC(usize),
    /// An entry starts after it ends, or leaves the usable sectors.
    PartitionEntryOutOfRange,
    /// The name of the entry with the given id is not valid UTF-16.
    InvalidData { entry_id: usize },
}

/// Everything that can go wrong while listing partitions.
#[derive(Debug)]
pub enum Error {
    /// The source failed to read or seek at the given position.
    Io { source: std::io::Error, pos: u64 },
    /// There is no boot sector, or no table of a kind that the options ask for.
    NotFound,
    /// A position in the source does not fit in 64 bits.
    Overflow,
    /// The source ended before the bytes that were asked for.
    UnexpectedEof,
    /// A sector does not fit in the memory that can be addressed.
    BiggerThanMemory,
    /// The boot sector is malformed.
    Mbr(MbrError),
    /// The GPT is malformed.
    Gpt(GptError),
}

impl Error {
    /// Whether the error tells of the source, not of the bytes that it holds.
    pub open spec fn is_source_failure(&self) -> bool {
        *self is Io || *self is UnexpectedEof || *self is Overflow
    }
}

} // verus!
