//! Read basic MBR and GPT partition tables from a reader.
//!
//! # Examples
//!
//! Load MBR or GPT partitions from the bytes of a disk:
//!
//! ```ignore
//! use bootsector::{list_partitions, open_partition, Attributes, Options};
//! use bootsector::io::Cursor;
//!
//! let partitions = list_partitions(&image[..], &Options::default())?;
//! let part = &partitions[0];
//!
//! // See what type of partition this is
//! match &part.attributes {
//!     Attributes::GPT { type_uuid, .. } => println!("gpt: {:?}", type_uuid),
//!     Attributes::MBR { type_code, .. } => println!("mbr: {:x}", type_code),
//! }
//!
//! let part_reader = open_partition(Cursor::new(image), part)?;
//! // part_reader.read_exact(...
//! ```
//!
//! What each function returns is stated over the bytes of the disk: see
//! [`partitions`], [`mbr::partition_table`] and [`gpt::partitions`].

use vstd::prelude::*;

pub mod checksum;
pub mod errors;
pub mod gpt;
pub mod io;
pub mod le;
pub mod mbr;
pub mod rangereader;
pub mod read;
pub mod utf16;

pub use crate::errors::{Error, GptError, MbrError};
use crate::rangereader::{opens, RangeError, RangeReader};
use crate::read::{Read, Seek};

verus! {

/// Table-specific information about a partition.
#[derive(Debug, Clone, Eq, PartialEq)]
pub enum Attributes {
    MBR { bootable: bool, type_code: u8 },
    GPT { type_uuid: [u8; 16], partition_uuid: [u8; 16], attributes: [u8; 8], name: String },
}

/// An entry in the partition table.
#[derive(Debug, Clone, Eq, PartialEq)]
pub struct Partition {
    /// The number of this partition, 0-indexed.
    pub id: usize,
    /// The first byte of the reader that this partition represents.
    pub first_byte: u64,
    /// The length of this partition, in bytes.
    pub len: u64,
    /// Table-specific attributes about this partition.
    pub attributes: Attributes,
}

/// What `Attributes` stands for.
pub enum AttributesView {
    MBR { bootable: bool, type_code: u8 },
    GPT { type_uuid: Seq<u8>, partition_uuid: Seq<u8>, attributes: Seq<u8>, name: Seq<char> },
}

/// What a `Partition` stands for.
pub struct PartitionView {
    pub id: nat,
    pub first_byte: nat,
    pub len: nat,
    pub attributes: AttributesView,
}

impl View for Attributes {
    type V = AttributesView;

    open spec fn view(&self) -> AttributesView {
        match *self {
            Attributes::MBR { bootable, type_code } => AttributesView::MBR { bootable, type_code },
            Attributes::GPT { type_uuid, partition_uuid, attributes, name } => AttributesView::GPT {
                type_uuid: type_uuid@,
                partition_uuid: partition_uuid@,
                attributes: attributes@,
                name: name@,
            },
        }
    }
}

impl View for Partition {
    type V = PartitionView;

    open spec fn view(&self) -> PartitionView {
        PartitionView {
            id: self.id as nat,
            first_byte: self.first_byte as nat,
            len: self.len as nat,
            attributes: self.attributes@,
        }
    }
}

impl PartitionView {
    /// The offset of the first byte behind the partition.
    pub open spec fn end(&self) -> nat {
        self.first_byte + self.len
    }

    /// The partition ends within what 64 bits can address.
    pub open spec fn wf(&self) -> bool {
        self.end() <= u64::MAX
    }
}

/// The views of the partitions of a list, in its order.
pub open spec fn views(parts: Seq<Partition>) -> Seq<PartitionView> {
    parts.map_values(|p: Partition| p@)
}

/// What type of MBR partition tables should we attempt to read?
pub enum ReadMBR {
    /// A compliant, modern MBR: CHS addressing is correctly set to the blind value.
    Modern,
    /// Require there to be a GPT partition present. The protective MBR is allowed, but ignored.
    Never,
}

/// What type of GPT partition tables should we attempt to read?
pub enum ReadGPT {
    /// A valid GPT partition table as of revision 1 (2010-2017 and counting)
    RevisionOne,
    /// Require that there be an MBR partition present. The protective MBR will be read literally.
    Never,
}

/// Settings for handling sector size
pub enum SectorSize {
    /// Attempt to identify a valid GPT partition table at various locations, and use this
    /// information to derive the sector size. For MBR, it's very likely that 512 is a safe
    /// assumption.
    GuessOrAssume,
    /// Use a specific known sector size.
    Known(u16),
}

/// Configuration for listing partitions.
pub struct Options {
    /// What type of MBR partitions should we read?
    pub mbr: ReadMBR,
    /// What type of GPT partitions should we read?
    pub gpt: ReadGPT,
    /// How should we handle sector sizes?
    pub sector_size: SectorSize,
}

impl Default for Options {
    /// The default options are to read any type of modern partition table,
    /// having guessed the sector size.
    fn default() -> (options: Self)
        ensures
            options.mbr is Modern,
            options.gpt is RevisionOne,
            options.sector_size is GuessOrAssume,
    {
        Options {
            mbr: ReadMBR::Modern,
            gpt: ReadGPT::RevisionOne,
            sector_size: SectorSize::GuessOrAssume,
        }
    }
}

/// Whether a boot sector ends in the boot signature `0x55, 0xAA`.
pub open spec fn has_boot_signature(sector: Seq<u8>) -> bool {
    sector[510] == 0x55 && sector[511] == 0xAA
}

/// The sector size that a GPT is read with: the one that the options know,
/// or else the offset at which the protective partition starts.
pub open spec fn gpt_sector_size(options: Options, protective: PartitionView) -> nat {
    match options.sector_size {
        SectorSize::Known(size) => size as nat,
        SectorSize::GuessOrAssume => protective.first_byte,
    }
}

/// What the partition tables of a disk decode to under `options`, where
/// `image` holds the bytes of the disk.
///
/// Without the boot signature there is nothing to find. A boot sector whose
/// only entry is protective stands in for a GPT, which is read unless the
/// options forbid it. Any other boot sector holds the partitions itself,
/// unless the options ask for a GPT.
pub open spec fn partitions(image: Seq<u8>, options: Options) -> Result<Seq<PartitionView>, Error> {
    let boot_sector = image.subrange(0, 512);
    if !has_boot_signature(boot_sector) {
        Err(Error::NotFound)
    } else {
        match mbr::partition_table(boot_sector, 4) {
            Err(e) => Err(Error::Mbr(e)),
            Ok(table) => if table.len() == 1 && gpt::protective(table[0]) {
                match options.gpt {
                    ReadGPT::Never => Ok(table),
                    ReadGPT::RevisionOne => gpt::partitions(
                        image,
                        gpt_sector_size(options, table[0]),
                    ),
                }
            } else {
                match options.mbr {
                    ReadMBR::Modern => Ok(table),
                    ReadMBR::Never => Err(Error::NotFound),
                }
            },
        }
    }
}

/// Read the list of partitions.
///
/// # Returns
///
/// * A possibly empty list of partitions.
/// * `Error::NotFound` if the boot magic is not found,
///        or you asked for partition types that are not there
/// * `Error::Mbr` or `Error::Gpt` if anything is not as we expect,
///       including it looking like there should be GPT but its magic is missing.
/// * Other errors directly from the underlying reader, including `UnexpectedEof`.
///
/// Unless the source itself fails, the result is what the bytes of the source
/// decode to.
pub fn list_partitions<R>(reader: R, options: &Options) -> (listed: Result<
    Vec<Partition>,
    Error,
>) where R: io::ReadAt
    ensures
        match listed {
            Ok(found) => partitions(reader.contents(), *options) == Ok::<
                Seq<PartitionView>,
                Error,
            >(views(found@)),
            Err(e) => e.is_source_failure() || partitions(reader.contents(), *options) == Err::<
                Seq<PartitionView>,
                Error,
            >(e),
        },
{
    let mut disc_header = [0u8; 512];
    match reader.read_exact_at(0, &mut disc_header) {
        Ok(()) => {},
        Err(e) => {
            return Err(e);
        },
    }
    if 0x55 != disc_header[510] || 0xAA != disc_header[511] {
        return Err(Error::NotFound);
    }
    let header_table = match mbr::parse_partition_table(&disc_header) {
        Ok(table) => table,
        Err(e) => {
            return Err(Error::Mbr(e));
        },
    };

    if header_table.len() != 1 || !gpt::is_protective(&header_table[0]) {
        return match options.mbr {
            ReadMBR::Modern => Ok(header_table),
            ReadMBR::Never => Err(Error::NotFound),
        };
    }
    match options.gpt {
        ReadGPT::Never => Ok(header_table),
        ReadGPT::RevisionOne => {
            let sector_size = match options.sector_size {
                SectorSize::Known(size) => size as u64,
                SectorSize::GuessOrAssume => header_table[0].first_byte,
            };
            gpt::read(io::Cursor::new(reader), sector_size)
        },
    }
}

/// A disk whose boot sector lacks the boot signature holds nothing to find,
/// whatever else it holds and whatever the options ask for.
pub proof fn lemma_without_boot_signature_nothing_is_found(image: Seq<u8>, options: Options)
    requires
        !has_boot_signature(image.subrange(0, 512)),
    ensures
        partitions(image, options) == Err::<Seq<PartitionView>, Error>(Error::NotFound),
{
}

/// In every list of partitions that is found, the ids rise from one partition
/// to the next: no id comes twice, and the partitions stand in the order of
/// their slots.
pub proof fn lemma_listed_ids_rise(image: Seq<u8>, options: Options)
    requires
        image.len() >= 512,
        partitions(image, options) is Ok,
    ensures
        ({
            let found = partitions(image, options)->Ok_0;
            forall|j: int, k: int|
                #![trigger found[j], found[k]]
                0 <= j < k < found.len() ==> found[j].id < found[k].id
        }),
{
    let boot_sector = image.subrange(0, 512);
    let table = mbr::partition_table(boot_sector, 4)->Ok_0;
    mbr::lemma_accepted_statuses_are_valid(boot_sector, 4);
    mbr::lemma_one_partition_per_slot_in_use(boot_sector, 4);
    if table.len() == 1 && gpt::protective(table[0]) && options.gpt is RevisionOne {
        let sector_size = gpt_sector_size(options, table[0]);
        let size = sector_size as int;
        let h = gpt::header(image.subrange(size, 2 * size))->Ok_0;
        gpt::lemma_one_partition_per_entry_in_use(
            image.subrange(2 * size, 2 * size + h.table_len()),
            h,
            sector_size,
            h.entries,
        );
    }
}

/// Open the contents of a partition for reading.
pub fn open_partition<R>(inner: R, part: &Partition) -> (opened: Result<
    RangeReader<R>,
    RangeError<R::Error>,
>) where R: Read + Seek
    ensures
        opens(inner, part.first_byte, part.len, opened),
{
    RangeReader::new(inner, part.first_byte, part.len)
}

} // verus!
