//! The GUID partition table: a checksummed header in sector 1, followed by a
//! checksummed table of entries.

use vstd::prelude::*;

use crate::checksum::{crc32, crc32_iso_hdlc};
use crate::errors::{Error, GptError};
use crate::io::ReadSeek;
use crate::le::{le_u16, le_u32, le_u64, lemma_le_u32_is_injective, read_u16, read_u32, read_u64};
use crate::utf16::{decode_utf16, string_from_utf16};
use crate::{views, Attributes, AttributesView, Partition, PartitionView};

verus! {

/// The largest sector size that a protective MBR is believed to announce.
pub const MAXIMUM_SECTOR_SIZE: u64 = 16384;

/// The MBR type code of the entry that stands in for a GPT.
pub const PROTECTIVE_TYPE: u8 = 0xee;

/// The smallest header that revision 1.0 knows.
pub const MINIMUM_HEADER_SIZE: u32 = 92;

/// The smallest entry that revision 1.0 knows.
pub const MINIMUM_ENTRY_SIZE: u16 = 128;

/// Whether an MBR partition is the single stand-in entry of a GPT disk.
pub open spec fn protective(partition: PartitionView) -> bool {
    &&& partition.attributes == (AttributesView::MBR { bootable: false, type_code: 0xee })
    &&& partition.id == 0
    &&& partition.first_byte <= 16384
}

/// Whether `partition` marks its disk as one that holds a GPT.
pub fn is_protective(partition: &Partition) -> (answer: bool)
    ensures
        answer == protective(partition@),
{
    match partition.attributes {
        Attributes::MBR { type_code, bootable } => {
            !bootable && type_code == PROTECTIVE_TYPE && partition.id == 0
                && partition.first_byte <= MAXIMUM_SECTOR_SIZE
        },
        _ => false,
    }
}

/// Every byte is zero.
pub open spec fn zeroes(bytes: Seq<u8>) -> bool {
    forall|i: int| 0 <= i < bytes.len() ==> bytes[i] == 0
}

/// Whether every byte of `val` is zero.
pub fn all_zero(val: &[u8]) -> (answer: bool)
    ensures
        answer == zeroes(val@),
{
    let mut i: usize = 0;
    while i < val.len()
        invariant
            i <= val@.len(),
            forall|j: int| 0 <= j < i ==> val@[j] == 0,
        decreases val@.len() - i,
    {
        if val[i] != 0 {
            return false;
        }
        i += 1;
    }
    true
}

/// The fields of a header that has passed every check.
#[derive(Debug, Clone, Copy, PartialEq, Eq)]
pub struct Header {
    /// The number of bytes of the sector that the header takes.
    pub header_size: u32,
    /// The first sector that a partition may use.
    pub first_usable_lba: u64,
    /// The last sector that a partition may use.
    pub last_usable_lba: u64,
    /// The GUID of the disk.
    pub disk_guid: [u8; 16],
    /// The number of slots in the entry table.
    pub entries: u16,
    /// The number of bytes that a slot takes.
    pub entry_size: u16,
    /// The checksum that the entry table must have.
    pub table_crc: u32,
}

/// What a `Header` stands for.
pub struct HeaderView {
    pub header_size: nat,
    pub first_usable_lba: nat,
    pub last_usable_lba: nat,
    pub disk_guid: Seq<u8>,
    pub entries: nat,
    pub entry_size: nat,
    pub table_crc: u32,
}

impl View for Header {
    type V = HeaderView;

    open spec fn view(&self) -> HeaderView {
        HeaderView {
            header_size: self.header_size as nat,
            first_usable_lba: self.first_usable_lba as nat,
            last_usable_lba: self.last_usable_lba as nat,
            disk_guid: self.disk_guid@,
            entries: self.entries as nat,
            entry_size: self.entry_size as nat,
            table_crc: self.table_crc,
        }
    }
}

impl HeaderView {
    /// The number of bytes that the entry table takes.
    pub open spec fn table_len(&self) -> nat {
        self.entry_size * self.entries
    }

    /// What holds of every header that the decoder accepts for a disk with
    /// sectors of `sector_size` bytes.
    pub open spec fn wf(&self, sector_size: nat) -> bool {
        &&& sector_size > 0
        &&& 92 <= self.header_size <= sector_size
        &&& self.first_usable_lba <= self.last_usable_lba
        &&& self.last_usable_lba <= u64::MAX as nat / sector_size
        &&& self.entries <= 0xffff
        &&& 128 <= self.entry_size <= 0xffff
        &&& self.first_usable_lba >= 2 + self.table_len() / sector_size
        &&& self.disk_guid.len() == 16
    }
}

/// `"EFI PART"`, the first eight bytes of a header.
pub open spec fn signature() -> Seq<u8> {
    seq![0x45u8, 0x46u8, 0x49u8, 0x20u8, 0x50u8, 0x41u8, 0x52u8, 0x54u8]
}

/// The four bytes that spell revision 1.0.
pub open spec fn revision_one() -> Seq<u8> {
    seq![0u8, 0u8, 1u8, 0u8]
}

/// The size that the header in `sector` claims, once signature, revision and
/// the size itself have been found acceptable.
pub open spec fn header_len(sector: Seq<u8>) -> Result<nat, GptError> {
    if sector.len() < 8 || sector.subrange(0, 8) != signature() {
        Err(GptError::BadEFISignature)
    } else if sector.len() < 12 || sector.subrange(8, 12) != revision_one() {
        Err(GptError::UnsupportedRevision)
    } else if sector.len() < 16 || le_u32(sector.skip(0x0c)) < 92 {
        Err(GptError::HeaderTooShort)
    } else if le_u32(sector.skip(0x0c)) > sector.len() {
        Err(GptError::HeaderLargerThanSector)
    } else {
        Ok(le_u32(sector.skip(0x0c)) as nat)
    }
}

/// The bytes that the header checksum is taken of: the first `len` bytes of
/// the sector, with the four bytes of the stored checksum read as zero.
pub open spec fn checksummed(sector: Seq<u8>, len: nat) -> Seq<u8> {
    Seq::new(len, |i: int| if 0x10 <= i < 0x14 { 0u8 } else { sector[i] })
}

/// The checksum that the header in `sector` stores of itself.
pub open spec fn stored_header_crc(sector: Seq<u8>) -> int {
    le_u32(sector.skip(0x10))
}

/// The checksum that the header in `sector` stores of the entry table.
pub open spec fn stored_table_crc(sector: Seq<u8>) -> int {
    le_u32(sector.skip(0x58))
}

/// What the header in `sector` decodes to, where `sector` is the whole of
/// sector 1 and `checksum` is the checksum of its `checksummed` bytes.
pub open spec fn header_fields(sector: Seq<u8>, checksum: u32) -> Result<HeaderView, GptError> {
    match header_len(sector) {
        Err(e) => Err(e),
        Ok(len) => {
            let first_usable_lba = le_u64(sector.skip(0x28));
            let last_usable_lba = le_u64(sector.skip(0x30));
            let entries = le_u32(sector.skip(0x50));
            let entry_size = le_u32(sector.skip(0x54));
            if stored_header_crc(sector) != checksum {
                Err(GptError::HeaderChecksumMismatch)
            } else if le_u32(sector.skip(0x14)) != 0 {
                Err(GptError::UnsupportedDataInReservedField)
            } else if le_u64(sector.skip(0x18)) != 1 {
                Err(GptError::CurrentLbaMustBeOneInFirstHeader)
            } else if first_usable_lba > last_usable_lba {
                Err(GptError::BackwardLbas)
            } else if last_usable_lba > u64::MAX as int / sector.len() as int {
                Err(GptError::EverythingMustBeBelowSixtyFourToThePowerOfTwo)
            } else if le_u64(sector.skip(0x48)) != 2 {
                Err(GptError::StartingLbaMustBeTwo)
            } else if entries > 0xffff {
                Err(GptError::EntryCountIsImplausible)
            } else if entry_size > 0xffff {
                Err(GptError::EntrySizeIsImplausiblyLarge)
            } else if entry_size < 128 {
                Err(GptError::EntrySizeIsImplausiblySmall)
            } else if first_usable_lba < 2 + (entry_size * entries) / sector.len() as int {
                Err(GptError::FirstUsableLbaIsTooLow)
            } else if !zeroes(sector.skip(len as int)) {
                Err(GptError::ReservedHeaderTailIsNotAllEmpty)
            } else {
                Ok(
                    HeaderView {
                        header_size: len,
                        first_usable_lba: first_usable_lba as nat,
                        last_usable_lba: last_usable_lba as nat,
                        disk_guid: sector.subrange(0x38, 0x48),
                        entries: entries as nat,
                        entry_size: entry_size as nat,
                        table_crc: stored_table_crc(sector) as u32,
                    },
                )
            }
        },
    }
}

/// What the header in `sector` decodes to, where `sector` is the whole of
/// sector 1.
pub open spec fn header(sector: Seq<u8>) -> Result<HeaderView, GptError> {
    match header_len(sector) {
        Err(e) => Err(e),
        Ok(len) => header_fields(sector, crc32_iso_hdlc(checksummed(sector, len))),
    }
}

/// The part of `bytes` from `at` on.
fn tail(bytes: &[u8], at: usize) -> (rest: &[u8])
    requires
        at <= bytes@.len(),
    ensures
        rest@ == bytes@.skip(at as int),
{
    vstd::slice::slice_subrange(bytes, at, bytes.len())
}

/// Checks signature and revision of the header in `sector`, and reads the
/// size that it claims.
pub fn parse_header_len(sector: &[u8]) -> (len: Result<usize, GptError>)
    ensures
        match len {
            Ok(n) => header_len(sector@) == Ok::<nat, GptError>(n as nat),
            Err(e) => header_len(sector@) == Err::<nat, GptError>(e),
        },
{
    if sector.len() < 8 || sector[0] != 0x45 || sector[1] != 0x46 || sector[2] != 0x49
        || sector[3] != 0x20 || sector[4] != 0x50 || sector[5] != 0x41 || sector[6] != 0x52
        || sector[7] != 0x54 {
        return Err(GptError::BadEFISignature);
    }
    assert(sector@.subrange(0, 8) =~= signature());
    if sector.len() < 12 || sector[8] != 0 || sector[9] != 0 || sector[10] != 1 || sector[11] != 0 {
        return Err(GptError::UnsupportedRevision);
    }
    assert(sector@.subrange(8, 12) =~= revision_one());
    if sector.len() < 16 {
        return Err(GptError::HeaderTooShort);
    }
    let header_size = read_u32(tail(sector, 0x0c));
    if header_size < MINIMUM_HEADER_SIZE {
        return Err(GptError::HeaderTooShort);
    }
    let header_size = header_size as usize;
    if header_size > sector.len() {
        return Err(GptError::HeaderLargerThanSector);
    }
    Ok(header_size)
}

/// The first sixteen bytes of `bytes`.
fn array16(bytes: &[u8]) -> (array: [u8; 16])
    requires
        bytes@.len() >= 16,
    ensures
        array@ == bytes@.subrange(0, 16),
{
    let mut array = [0u8; 16];
    let mut i: usize = 0;
    while i < 16
        invariant
            i <= 16,
            bytes@.len() >= 16,
            forall|j: int| 0 <= j < i ==> array@[j] == bytes@[j],
        decreases 16 - i,
    {
        array[i] = bytes[i];
        i += 1;
    }
    assert(array@ =~= bytes@.subrange(0, 16));
    array
}

/// The first eight bytes of `bytes`.
fn array8(bytes: &[u8]) -> (array: [u8; 8])
    requires
        bytes@.len() >= 8,
    ensures
        array@ == bytes@.subrange(0, 8),
{
    let mut array = [0u8; 8];
    let mut i: usize = 0;
    while i < 8
        invariant
            i <= 8,
            bytes@.len() >= 8,
            forall|j: int| 0 <= j < i ==> array@[j] == bytes@[j],
        decreases 8 - i,
    {
        array[i] = bytes[i];
        i += 1;
    }
    assert(array@ =~= bytes@.subrange(0, 8));
    array
}

/// Every header that is accepted is well formed.
pub proof fn lemma_accepted_header_wf(sector: Seq<u8>, checksum: u32)
    requires
        header_fields(sector, checksum) is Ok,
    ensures
        header_fields(sector, checksum)->Ok_0.wf(sector.len()),
{
}

/// Decodes the header in `sector`, the whole of sector 1, given the checksum
/// of its `checksummed` bytes.
pub fn check_header(sector: &[u8], checksum: u32) -> (decoded: Result<Header, GptError>)
    ensures
        match decoded {
            Ok(h) => header_fields(sector@, checksum) == Ok::<HeaderView, GptError>(h@)
                && h@.wf(sector@.len()),
            Err(e) => header_fields(sector@, checksum) == Err::<HeaderView, GptError>(e),
        },
{
    let header_size = match parse_header_len(sector) {
        Ok(n) => n,
        Err(e) => {
            return Err(e);
        },
    };
    let sector_size = sector.len() as u64;

    let header_crc = read_u32(tail(sector, 0x10));
    if header_crc != checksum {
        return Err(GptError::HeaderChecksumMismatch);
    }
    if 0 != read_u32(tail(sector, 0x14)) {
        return Err(GptError::UnsupportedDataInReservedField);
    }
    if 1 != read_u64(tail(sector, 0x18)) {
        return Err(GptError::CurrentLbaMustBeOneInFirstHeader);
    }
    let first_usable_lba = read_u64(tail(sector, 0x28));
    let last_usable_lba = read_u64(tail(sector, 0x30));
    if first_usable_lba > last_usable_lba {
        return Err(GptError::BackwardLbas);
    }
    if last_usable_lba > u64::MAX / sector_size {
        return Err(GptError::EverythingMustBeBelowSixtyFourToThePowerOfTwo);
    }
    let disk_guid = array16(tail(sector, 0x38));
    if 2 != read_u64(tail(sector, 0x48)) {
        return Err(GptError::StartingLbaMustBeTwo);
    }
    let entries = read_u32(tail(sector, 0x50));
    if entries > 0xffff {
        return Err(GptError::EntryCountIsImplausible);
    }
    let entries = entries as u16;
    let entry_size = read_u32(tail(sector, 0x54));
    if entry_size > 0xffff {
        return Err(GptError::EntrySizeIsImplausiblyLarge);
    }
    let entry_size = entry_size as u16;
    if entry_size < MINIMUM_ENTRY_SIZE {
        return Err(GptError::EntrySizeIsImplausiblySmall);
    }
    assert(entry_size * entries <= 0xffff * 0xffff) by (nonlinear_arith)
        requires
            entry_size <= 0xffff,
            entries <= 0xffff,
    ;
    if first_usable_lba < 2 + (entry_size as u64 * entries as u64) / sector_size {
        return Err(GptError::FirstUsableLbaIsTooLow);
    }
    let table_crc = read_u32(tail(sector, 0x58));
    if !all_zero(tail(sector, header_size)) {
        return Err(GptError::ReservedHeaderTailIsNotAllEmpty);
    }
    assert(sector@.skip(0x38).subrange(0, 16) =~= sector@.subrange(0x38, 0x48));
    Ok(
        Header {
            header_size: header_size as u32,
            first_usable_lba,
            last_usable_lba,
            disk_guid,
            entries,
            entry_size,
            table_crc,
        },
    )
}

/// Decodes the header in `sector`, the whole of sector 1.
pub fn parse_header(sector: &[u8]) -> (decoded: Result<Header, GptError>)
    ensures
        match decoded {
            Ok(h) => header(sector@) == Ok::<HeaderView, GptError>(h@) && h@.wf(sector@.len()),
            Err(e) => header(sector@) == Err::<HeaderView, GptError>(e),
        },
{
    let header_size = match parse_header_len(sector) {
        Ok(n) => n,
        Err(e) => {
            return Err(e);
        },
    };
    // The checksum is taken with its own field zeroed out.
    let mut scratch = vstd::slice::slice_to_vec(vstd::slice::slice_subrange(sector, 0, header_size));
    let mut at: usize = 0x10;
    while at < 0x14
        invariant
            0x10 <= at <= 0x14,
            scratch@.len() == header_size >= 92,
            header_size <= sector@.len(),
            forall|i: int|
                0 <= i < header_size ==> scratch@[i] == if 0x10 <= i < at {
                    0u8
                } else {
                    sector@[i]
                },
        decreases 0x14 - at,
    {
        scratch[at] = 0;
        at += 1;
    }
    assert(scratch@ =~= checksummed(sector@, header_size as nat));
    let checksum = crc32(scratch.as_slice());
    check_header(sector, checksum)
}

/// The slot with number `id` of an entry table.
pub open spec fn entry_at(table: Seq<u8>, entry_size: nat, id: int) -> Seq<u8> {
    table.subrange(id * entry_size, (id + 1) * entry_size)
}

/// A slot is in use unless its type UUID is all zero.
pub open spec fn in_use(entry: Seq<u8>) -> bool {
    !zeroes(entry.subrange(0x00, 0x10))
}

/// The 36 code units of the name field of an entry.
pub open spec fn name_field(entry: Seq<u8>) -> Seq<u16> {
    Seq::new(36, |k: int| le_u16(entry.skip(0x38 + 2 * k)) as u16)
}

/// The index of the first zero code unit at or behind `from`, or the length
/// of `units` where there is none.
pub open spec fn terminator(units: Seq<u16>, from: nat) -> nat
    decreases units.len() - from,
{
    if from >= units.len() || units[from as int] == 0 {
        from
    } else {
        terminator(units, from + 1)
    }
}

/// The code units of the name of an entry: those of its name field, up to
/// the first that is zero.
pub open spec fn name_units(entry: Seq<u8>) -> Seq<u16> {
    name_field(entry).take(terminator(name_field(entry), 0) as int)
}

/// The first sector of the partition of an entry.
pub open spec fn first_lba(entry: Seq<u8>) -> int {
    le_u64(entry.skip(0x20))
}

/// The last sector of the partition of an entry.
pub open spec fn last_lba(entry: Seq<u8>) -> int {
    le_u64(entry.skip(0x28))
}

/// The partition that the entry in slot `id` describes, for a slot in use.
pub open spec fn entry_partition(
    entry: Seq<u8>,
    id: nat,
    header: HeaderView,
    sector_size: nat,
) -> Result<PartitionView, GptError> {
    if first_lba(entry) > last_lba(entry) || first_lba(entry) < header.first_usable_lba
        || last_lba(entry) > header.last_usable_lba {
        Err(GptError::PartitionEntryOutOfRange)
    } else {
        match decode_utf16(name_units(entry)) {
            None => Err(GptError::InvalidData { entry_id: id as usize }),
            Some(name) => Ok(
                PartitionView {
                    id,
                    first_byte: (first_lba(entry) * sector_size) as nat,
                    len: ((last_lba(entry) - first_lba(entry) + 1) * sector_size) as nat,
                    attributes: AttributesView::GPT {
                        type_uuid: entry.subrange(0x00, 0x10),
                        partition_uuid: entry.subrange(0x10, 0x20),
                        attributes: entry.subrange(0x30, 0x38),
                        name,
                    },
                },
            ),
        }
    }
}

/// What the first `slots` slots of an entry table decode to: the partitions
/// of the slots in use, in slot order, or the error of the first slot in use
/// that breaks a rule.
pub open spec fn entries_partitions(
    table: Seq<u8>,
    header: HeaderView,
    sector_size: nat,
    slots: nat,
) -> Result<Seq<PartitionView>, GptError>
    decreases slots,
{
    if slots == 0 {
        Ok(Seq::empty())
    } else {
        let id = (slots - 1) as nat;
        let entry = entry_at(table, header.entry_size, id as int);
        match entries_partitions(table, header, sector_size, id) {
            Err(e) => Err(e),
            Ok(before) => if !in_use(entry) {
                Ok(before)
            } else {
                match entry_partition(entry, id, header, sector_size) {
                    Err(e) => Err(e),
                    Ok(partition) => Ok(before.push(partition)),
                }
            },
        }
    }
}

/// What an entry table decodes to, given its checksum.
pub open spec fn table_partitions(
    table: Seq<u8>,
    header: HeaderView,
    sector_size: nat,
    checksum: u32,
) -> Result<Seq<PartitionView>, GptError> {
    if header.table_crc != checksum {
        Err(GptError::InvalidTableCRC(table.len() as usize))
    } else {
        entries_partitions(table, header, sector_size, header.entries)
    }
}

/// What an entry table decodes to.
pub open spec fn table(table: Seq<u8>, header: HeaderView, sector_size: nat) -> Result<
    Seq<PartitionView>,
    GptError,
> {
    table_partitions(table, header, sector_size, crc32_iso_hdlc(table))
}

/// Once a slot has failed, the slots behind it do not change the outcome.
pub proof fn lemma_error_stays(
    table: Seq<u8>,
    header: HeaderView,
    sector_size: nat,
    failed: nat,
    slots: nat,
)
    requires
        failed <= slots,
        entries_partitions(table, header, sector_size, failed) is Err,
    ensures
        entries_partitions(table, header, sector_size, slots) == entries_partitions(
            table,
            header,
            sector_size,
            failed,
        ),
    decreases slots,
{
    if failed < slots {
        lemma_error_stays(table, header, sector_size, failed, (slots - 1) as nat);
    }
}

/// Reads the name of an entry: the code units of its name field up to the
/// first zero.
fn read_name_units(entry: &[u8]) -> (units: Vec<u16>)
    requires
        entry@.len() >= 128,
    ensures
        units@ == name_units(entry@),
{
    let ghost field = name_field(entry@);
    let mut units: Vec<u16> = Vec::new();
    let mut k: usize = 0;
    while k < 36
        invariant
            k <= 36,
            entry@.len() >= 128,
            field == name_field(entry@),
            units@ == field.take(k as int),
            terminator(field, 0) == terminator(field, k as nat),
        ensures
            k <= 36,
            units@ == field.take(k as int),
            terminator(field, 0) == k,
        decreases 36 - k,
    {
        let unit = read_u16(tail(entry, 0x38 + 2 * k));
        assert(unit == field[k as int]);
        if unit == 0 {
            break ;
        }
        units.push(unit);
        assert(units@ =~= field.take(k + 1));
        k += 1;
    }
    units
}

/// Decodes the entry in slot `id`, for a slot in use.
pub fn parse_entry(entry: &[u8], id: usize, header: &Header, sector_size: u64) -> (decoded: Result<
    Partition,
    GptError,
>)
    requires
        entry@.len() >= 128,
        header@.wf(sector_size as nat),
    ensures
        match decoded {
            Ok(p) => entry_partition(entry@, id as nat, header@, sector_size as nat) == Ok::<
                PartitionView,
                GptError,
            >(p@),
            Err(e) => entry_partition(entry@, id as nat, header@, sector_size as nat) == Err::<
                PartitionView,
                GptError,
            >(e),
        },
{
    let type_uuid = array16(entry);
    let partition_uuid = array16(tail(entry, 0x10));
    let first_lba = read_u64(tail(entry, 0x20));
    let last_lba = read_u64(tail(entry, 0x28));
    if first_lba > last_lba || first_lba < header.first_usable_lba || last_lba
        > header.last_usable_lba {
        return Err(GptError::PartitionEntryOutOfRange);
    }
    let attributes = array8(tail(entry, 0x30));
    let units = read_name_units(entry);
    let name = match string_from_utf16(units.as_slice()) {
        Some(name) => name,
        None => {
            return Err(GptError::InvalidData { entry_id: id });
        },
    };
    proof {
        let limit = u64::MAX as int;
        let size = sector_size as int;
        let last_usable = header.last_usable_lba as int;
        assert(last_usable * size <= limit) by (nonlinear_arith)
            requires
                size > 0,
                0 <= last_usable <= limit / size,
        ;
        assert(first_lba * size <= last_usable * size) by (nonlinear_arith)
            requires
                size > 0,
                0 <= first_lba <= last_usable,
        ;
        assert(0 <= (last_lba - first_lba + 1) * size <= last_usable * size) by (nonlinear_arith)
            requires
                size > 0,
                1 <= first_lba <= last_lba <= last_usable,
        ;
        assert(entry@.skip(0x10).subrange(0, 16) =~= entry@.subrange(0x10, 0x20));
        assert(entry@.skip(0x30).subrange(0, 8) =~= entry@.subrange(0x30, 0x38));
    }
    Ok(
        Partition {
            id,
            first_byte: first_lba * sector_size,
            len: (last_lba - first_lba + 1) * sector_size,
            attributes: Attributes::GPT { type_uuid, partition_uuid, attributes, name },
        },
    )
}

/// Decodes an entry table, given its checksum.
pub fn check_table(table: &[u8], header: &Header, sector_size: u64, checksum: u32) -> (decoded:
    Result<Vec<Partition>, GptError>)
    requires
        table@.len() == header@.table_len(),
        header@.wf(sector_size as nat),
    ensures
        match decoded {
            Ok(partitions) => table_partitions(table@, header@, sector_size as nat, checksum)
                == Ok::<Seq<PartitionView>, GptError>(views(partitions@)),
            Err(e) => table_partitions(table@, header@, sector_size as nat, checksum) == Err::<
                Seq<PartitionView>,
                GptError,
            >(e),
        },
{
    if header.table_crc != checksum {
        return Err(GptError::InvalidTableCRC(table.len()));
    }
    let entries = header.entries as usize;
    let entry_size = header.entry_size as usize;
    assert(table@.len() <= usize::MAX) by {
        let _ = table.len();
    }
    let mut partitions: Vec<Partition> = Vec::with_capacity(16);
    let mut id: usize = 0;
    assert(views(partitions@) =~= Seq::empty());
    while id < entries
        invariant
            id <= entries,
            header.table_crc == checksum,
            entries == header.entries,
            entry_size == header.entry_size,
            entry_size >= 128,
            table@.len() == entry_size * entries <= usize::MAX,
            header@.wf(sector_size as nat),
            entries_partitions(table@, header@, sector_size as nat, id as nat) == Ok::<
                Seq<PartitionView>,
                GptError,
            >(views(partitions@)),
        decreases entries - id,
    {
        assert(0 <= id * entry_size <= (id + 1) * entry_size <= entry_size * entries) by (nonlinear_arith)
            requires
                0 <= id < entries,
                0 <= entry_size,
        ;
        assert(id * entry_size + entry_size == (id + 1) * entry_size) by (nonlinear_arith);
        let entry = vstd::slice::slice_subrange(table, id * entry_size, (id + 1) * entry_size);
        assert(entry@ == entry_at(table@, header@.entry_size, id as int));
        if !all_zero(vstd::slice::slice_subrange(entry, 0x00, 0x10)) {
            match parse_entry(entry, id, header, sector_size) {
                Ok(partition) => {
                    assert(views(partitions@.push(partition)) =~= views(partitions@).push(
                        partition@,
                    ));
                    partitions.push(partition);
                },
                Err(e) => {
                    proof {
                        lemma_error_stays(
                            table@,
                            header@,
                            sector_size as nat,
                            (id + 1) as nat,
                            entries as nat,
                        );
                    }
                    return Err(e);
                },
            }
        }
        id += 1;
    }
    Ok(partitions)
}

/// Decodes an entry table of `header.entries` slots of `header.entry_size`
/// bytes each.
pub fn parse_table(table: &[u8], header: &Header, sector_size: u64) -> (decoded: Result<
    Vec<Partition>,
    GptError,
>)
    requires
        table@.len() == header@.table_len(),
        header@.wf(sector_size as nat),
    ensures
        match decoded {
            Ok(partitions) => self::table(table@, header@, sector_size as nat) == Ok::<
                Seq<PartitionView>,
                GptError,
            >(views(partitions@)),
            Err(e) => self::table(table@, header@, sector_size as nat) == Err::<
                Seq<PartitionView>,
                GptError,
            >(e),
        },
{
    let checksum = crc32(table);
    check_table(table, header, sector_size, checksum)
}

/// What the GPT of a disk decodes to, where `image` holds the bytes of the
/// disk and sectors are `sector_size` bytes long: the header is sector 1, and
/// the entry table follows it. A sector or a table that is larger than an
/// allocation can be is not read.
pub open spec fn partitions(image: Seq<u8>, sector_size: nat) -> Result<Seq<PartitionView>, Error> {
    if sector_size > isize::MAX {
        Err(Error::BiggerThanMemory)
    } else {
        let size = sector_size as int;
        match header(image.subrange(size, 2 * size)) {
            Err(e) => Err(Error::Gpt(e)),
            Ok(h) => if h.table_len() > isize::MAX {
                Err(Error::BiggerThanMemory)
            } else {
                match table(
                    image.subrange(2 * size, 2 * size + h.table_len()),
                    h,
                    sector_size,
                ) {
                    Err(e) => Err(Error::Gpt(e)),
                    Ok(partitions) => Ok(partitions),
                }
            },
        }
    }
}

/// Read a GPT partition table from a disk with sectors of `sector_size`
/// bytes.
///
/// Unless the source itself fails, the result is what the bytes of the source
/// decode to.
pub fn read<R>(reader: R, sector_size: u64) -> (listed: Result<Vec<Partition>, Error>) where
    R: ReadSeek,

    ensures
        match listed {
            Ok(found) => partitions(reader.contents(), sector_size as nat) == Ok::<
                Seq<PartitionView>,
                Error,
            >(views(found@)),
            Err(e) => e.is_source_failure() || partitions(reader.contents(), sector_size as nat)
                == Err::<Seq<PartitionView>, Error>(e),
        },
{
    let mut reader = reader;
    match reader.seek_abs(sector_size) {
        Ok(_) => {},
        Err(e) => {
            return Err(e);
        },
    }
    if sector_size > isize::MAX as u64 {
        return Err(Error::BiggerThanMemory);
    }
    let sector_size_mem = sector_size as usize;

    let mut lba1 = vec![0u8; sector_size_mem];
    match reader.read_exact(lba1.as_mut_slice()) {
        Ok(()) => {},
        Err(e) => {
            return Err(e);
        },
    }
    let ghost image = reader.contents();
    assert(lba1@ =~= image.subrange(sector_size as int, 2 * sector_size));
    let header = match parse_header(lba1.as_slice()) {
        Ok(header) => header,
        Err(e) => {
            return Err(Error::Gpt(e));
        },
    };

    assert(header.entry_size * header.entries <= 0xffff * 0xffff) by (nonlinear_arith)
        requires
            header.entry_size <= 0xffff,
            header.entries <= 0xffff,
    ;
    let table_len = header.entry_size as usize * header.entries as usize;
    if table_len > isize::MAX as usize {
        return Err(Error::BiggerThanMemory);
    }
    let mut table = vec![0u8; table_len];
    match reader.read_exact(table.as_mut_slice()) {
        Ok(()) => {},
        Err(e) => {
            return Err(e);
        },
    }
    assert(table@ =~= image.subrange(2 * sector_size, 2 * sector_size + header@.table_len()));
    match parse_table(table.as_slice(), &header, sector_size) {
        Ok(found) => Ok(found),
        Err(e) => Err(Error::Gpt(e)),
    }
}

/// A header whose stored checksum is not the checksum of its bytes is
/// refused for that, whatever else it holds behind its first sixteen bytes.
pub proof fn lemma_header_checksum_guards(sector: Seq<u8>)
    requires
        header_len(sector) is Ok,
        stored_header_crc(sector) != crc32_iso_hdlc(
            checksummed(sector, header_len(sector)->Ok_0),
        ),
    ensures
        header(sector) == Err::<HeaderView, GptError>(GptError::HeaderChecksumMismatch),
{
}

/// A header that is accepted is refused with `HeaderChecksumMismatch` once
/// any of the four bytes of its stored checksum is changed.
pub proof fn lemma_changed_header_crc_is_refused(sector: Seq<u8>, changed: Seq<u8>)
    requires
        header(sector) is Ok,
        changed.len() == sector.len(),
        forall|i: int| 0 <= i < sector.len() && !(0x10 <= i < 0x14) ==> changed[i] == sector[i],
        changed != sector,
    ensures
        header(changed) == Err::<HeaderView, GptError>(GptError::HeaderChecksumMismatch),
{
    let len = header_len(sector)->Ok_0;
    assert(header_len(changed) == header_len(sector)) by {
        assert(changed.subrange(0, 8) =~= sector.subrange(0, 8));
        assert(changed.subrange(8, 12) =~= sector.subrange(8, 12));
        assert(le_u32(changed.skip(0x0c)) == le_u32(sector.skip(0x0c)));
    }
    assert(checksummed(changed, len) =~= checksummed(sector, len));
    assert(stored_header_crc(changed) != stored_header_crc(sector)) by {
        if stored_header_crc(changed) == stored_header_crc(sector) {
            lemma_le_u32_is_injective(changed.skip(0x10), sector.skip(0x10));
            assert(changed =~= sector);
        }
    }
    lemma_header_checksum_guards(changed);
}

/// A header that is accepted is refused with `HeaderChecksumMismatch` once
/// bytes behind its stored checksum are changed in a way that the checksum
/// tells apart.
pub proof fn lemma_changed_header_is_refused(sector: Seq<u8>, changed: Seq<u8>)
    requires
        header(sector) is Ok,
        changed.len() == sector.len(),
        forall|i: int| 0 <= i < 0x14 ==> changed[i] == sector[i],
        crc32_iso_hdlc(checksummed(changed, header_len(sector)->Ok_0)) != crc32_iso_hdlc(
            checksummed(sector, header_len(sector)->Ok_0),
        ),
    ensures
        header(changed) == Err::<HeaderView, GptError>(GptError::HeaderChecksumMismatch),
{
    assert(header_len(changed) == header_len(sector)) by {
        assert(changed.subrange(0, 8) =~= sector.subrange(0, 8));
        assert(changed.subrange(8, 12) =~= sector.subrange(8, 12));
        assert(le_u32(changed.skip(0x0c)) == le_u32(sector.skip(0x0c)));
    }
    assert(stored_header_crc(changed) == stored_header_crc(sector));
    lemma_header_checksum_guards(changed);
}

/// An entry table whose checksum is not the one that the header stores is
/// refused for that, whatever its entries hold.
pub proof fn lemma_table_checksum_guards(table: Seq<u8>, header: HeaderView, sector_size: nat)
    requires
        header.table_crc != crc32_iso_hdlc(table),
    ensures
        self::table(table, header, sector_size) == Err::<Seq<PartitionView>, GptError>(
            GptError::InvalidTableCRC(table.len() as usize),
        ),
{
}

/// An entry table that is not refused for its checksum is refused with
/// `InvalidTableCRC` once the checksum that the header stores of it is
/// changed.
pub proof fn lemma_changed_table_crc_is_refused(
    table: Seq<u8>,
    header: HeaderView,
    changed: HeaderView,
    sector_size: nat,
)
    requires
        !(self::table(table, header, sector_size) matches Err(GptError::InvalidTableCRC(_))),
        changed.table_crc != header.table_crc,
    ensures
        self::table(table, changed, sector_size) == Err::<Seq<PartitionView>, GptError>(
            GptError::InvalidTableCRC(table.len() as usize),
        ),
{
}

/// Where the GPT of a disk is accepted, the two checksums that its header
/// stores are the checksums of the header and of the entry table as they
/// were decoded.
pub proof fn lemma_accepted_checksums_match(image: Seq<u8>, sector_size: nat)
    requires
        partitions(image, sector_size) is Ok,
    ensures
        ({
            let size = sector_size as int;
            let sector = image.subrange(size, 2 * size);
            &&& header(sector) matches Ok(h)
            &&& stored_header_crc(sector) == crc32_iso_hdlc(checksummed(sector, h.header_size))
            &&& stored_table_crc(sector) == crc32_iso_hdlc(
                image.subrange(2 * size, 2 * size + h.table_len()),
            )
        }),
{
}

/// Whether `partitions` holds, in slot order and numbered by their slots,
/// partitions of slots in use among the first `slots`, each as its entry
/// describes it.
pub open spec fn lists_entries_in_use(
    table: Seq<u8>,
    header: HeaderView,
    sector_size: nat,
    slots: nat,
    partitions: Seq<PartitionView>,
) -> bool {
    &&& partitions.len() <= slots
    &&& forall|j: int|
        #![trigger partitions[j]]
        0 <= j < partitions.len() ==> {
            let entry = entry_at(table, header.entry_size, partitions[j].id as int);
            &&& partitions[j].id < slots
            &&& in_use(entry)
            &&& entry_partition(entry, partitions[j].id, header, sector_size) == Ok::<
                PartitionView,
                GptError,
            >(partitions[j])
            &&& header.first_usable_lba * sector_size <= partitions[j].first_byte
            &&& partitions[j].end() <= (header.last_usable_lba + 1) * sector_size
        }
    &&& forall|j: int, k: int|
        #![trigger partitions[j], partitions[k]]
        0 <= j < k < partitions.len() ==> partitions[j].id < partitions[k].id
    &&& forall|slot: int|
        #![trigger entry_at(table, header.entry_size, slot)]
        0 <= slot < slots && in_use(entry_at(table, header.entry_size, slot)) ==> exists|j: int|
            0 <= j < partitions.len() && #[trigger] partitions[j].id == slot
}

/// An entry table that is accepted decodes to exactly one partition for each
/// slot in use, in slot order, each with its slot as its id, and each within
/// the sectors that the header calls usable.
pub proof fn lemma_one_partition_per_entry_in_use(
    table: Seq<u8>,
    header: HeaderView,
    sector_size: nat,
    slots: nat,
)
    requires
        entries_partitions(table, header, sector_size, slots) is Ok,
    ensures
        lists_entries_in_use(
            table,
            header,
            sector_size,
            slots,
            entries_partitions(table, header, sector_size, slots)->Ok_0,
        ),
    decreases slots,
{
    if slots > 0 {
        let slot = (slots - 1) as nat;
        lemma_one_partition_per_entry_in_use(table, header, sector_size, slot);
        let before = entries_partitions(table, header, sector_size, slot)->Ok_0;
        let after = entries_partitions(table, header, sector_size, slots)->Ok_0;
        let entry = entry_at(table, header.entry_size, slot as int);
        if in_use(entry) {
            let added = entry_partition(entry, slot, header, sector_size)->Ok_0;
            assert(after == before.push(added));
            assert(added == after[after.len() - 1]);
            assert(header.first_usable_lba * sector_size <= added.first_byte && added.end() <= (
            header.last_usable_lba + 1) * sector_size) by (nonlinear_arith)
                requires
                    header.first_usable_lba <= first_lba(entry) <= last_lba(entry)
                        <= header.last_usable_lba,
                    added.first_byte == first_lba(entry) * sector_size,
                    added.len == (last_lba(entry) - first_lba(entry) + 1) * sector_size,
                    added.end() == added.first_byte + added.len,
            ;
            assert forall|j: int| 0 <= j < after.len() implies {
                let e = entry_at(table, header.entry_size, (#[trigger] after[j]).id as int);
                &&& after[j].id < slots
                &&& in_use(e)
                &&& entry_partition(e, after[j].id, header, sector_size) == Ok::<
                    PartitionView,
                    GptError,
                >(after[j])
                &&& header.first_usable_lba * sector_size <= after[j].first_byte
                &&& after[j].end() <= (header.last_usable_lba + 1) * sector_size
            } by {
                if j < before.len() {
                    assert(after[j] == before[j]);
                }
            }
            assert forall|j: int, k: int| 0 <= j < k < after.len() implies (#[trigger] after[j]).id
                < (#[trigger] after[k]).id by {
                assert(after[j] == before[j]);
                if k < before.len() {
                    assert(after[k] == before[k]);
                }
            }
            assert forall|s: int|
                0 <= s < slots && in_use(
                    #[trigger] entry_at(table, header.entry_size, s),
                ) implies exists|j: int| 0 <= j < after.len() && #[trigger] after[j].id == s by {
                if s < slot {
                    let j = choose|j: int| 0 <= j < before.len() && #[trigger] before[j].id == s;
                    assert(after[j] == before[j]);
                } else {
                    assert(after[after.len() - 1].id == s);
                }
            }
        } else {
            assert(after == before);
            assert forall|s: int|
                0 <= s < slots && in_use(
                    #[trigger] entry_at(table, header.entry_size, s),
                ) implies exists|j: int| 0 <= j < after.len() && #[trigger] after[j].id == s by {
                let j = choose|j: int| 0 <= j < before.len() && #[trigger] before[j].id == s;
                assert(after[j].id == s);
            }
        }
    }
}

/// An entry whose name field starts with a zero code unit, as one that is all
/// zero does, has the empty name.
pub proof fn lemma_zero_name_field_is_empty_name(entry: Seq<u8>)
    requires
        name_field(entry)[0] == 0,
    ensures
        name_units(entry) == Seq::<u16>::empty(),
        decode_utf16(name_units(entry)) == Some(Seq::<char>::empty()),
{
    assert(name_units(entry) =~= Seq::<u16>::empty());
}

/// What makes an MBR partition protective: each of the four conditions is
/// needed, so a partition that differs from a protective one in its type
/// code, its bootable flag, its id or by starting too late is not protective.
pub proof fn lemma_protective_needs_every_condition(partition: PartitionView, other: PartitionView)
    requires
        protective(partition),
    ensures
        partition.attributes == (AttributesView::MBR { bootable: false, type_code: 0xee }),
        partition.id == 0,
        partition.first_byte <= 16384,
        other.attributes matches AttributesView::MBR { type_code, .. } && type_code != 0xee
            ==> !protective(other),
        other.attributes matches AttributesView::MBR { bootable, .. } && bootable ==> !protective(
            other,
        ),
        other.attributes is GPT ==> !protective(other),
        other.id != 0 ==> !protective(other),
        other.first_byte > 16384 ==> !protective(other),
{
}

} // verus!
