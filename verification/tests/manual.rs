use bootsector::{list_partitions, Attributes, Error, GptError, MbrError, Options, Partition};
use bootsector::io::ReadAt;
use bootsector::{ReadGPT, ReadMBR, SectorSize};

/// A source that breaks at an offset.
struct Breaking {
    bytes: Vec<u8>,
    broken_from: u64,
}

impl ReadAt for Breaking {
    fn read_exact_at(&self, pos: u64, buf: &mut [u8]) -> Result<(), Error> {
        if pos + buf.len() as u64 > self.broken_from {
            let source = std::io::Error::new(std::io::ErrorKind::Other, "broken");
            return Err(Error::Io { source, pos });
        }
        self.bytes.read_exact_at(pos, buf)
    }
}

fn crc32(bytes: &[u8]) -> u32 {
    crc::Crc::<u32>::new(&crc::CRC_32_ISO_HDLC).checksum(bytes)
}

fn put_u32(bytes: &mut [u8], at: usize, value: u32) {
    bytes[at..at + 4].copy_from_slice(&value.to_le_bytes());
}

fn put_u64(bytes: &mut [u8], at: usize, value: u64) {
    bytes[at..at + 8].copy_from_slice(&value.to_le_bytes());
}

/// A boot sector with the boot signature and the given entries:
/// slot, status, type code, first sector, number of sectors.
fn boot_sector(entries: &[(usize, u8, u8, u32, u32)]) -> [u8; 512] {
    let mut sector = [0u8; 512];
    for &(slot, status, type_code, first_lba, sectors) in entries {
        let at = 446 + 16 * slot;
        sector[at] = status;
        sector[at + 4] = type_code;
        put_u32(&mut sector, at + 8, first_lba);
        put_u32(&mut sector, at + 12, sectors);
    }
    sector[510] = 0x55;
    sector[511] = 0xAA;
    sector
}

/// The boot sector of a GPT disk: one protective entry that starts at sector 1.
fn protective_boot_sector() -> [u8; 512] {
    boot_sector(&[(0, 0x00, 0xEE, 1, 0xFFFF_FFFF)])
}

struct Entry {
    slot: usize,
    type_uuid: [u8; 16],
    partition_uuid: [u8; 16],
    first_lba: u64,
    last_lba: u64,
    attributes: [u8; 8],
    name: Vec<u16>,
}

fn entry(slot: usize, first_lba: u64, last_lba: u64, name: &str) -> Entry {
    Entry {
        slot,
        type_uuid: [0xA1; 16],
        partition_uuid: [slot as u8 + 1; 16],
        first_lba,
        last_lba,
        attributes: [0; 8],
        name: name.encode_utf16().collect(),
    }
}

struct Gpt {
    sector_size: usize,
    header_size: u32,
    first_usable_lba: u64,
    last_usable_lba: u64,
    slots: u32,
    entry_size: u32,
    entries: Vec<Entry>,
}

fn gpt(entries: Vec<Entry>) -> Gpt {
    Gpt {
        sector_size: 512,
        header_size: 92,
        first_usable_lba: 34,
        last_usable_lba: 7_814_037_134,
        slots: 128,
        entry_size: 128,
        entries,
    }
}

fn table_bytes(gpt: &Gpt) -> Vec<u8> {
    let size = gpt.entry_size as usize;
    let mut table = vec![0u8; size * gpt.slots as usize];
    for e in &gpt.entries {
        let at = e.slot * size;
        table[at..at + 16].copy_from_slice(&e.type_uuid);
        table[at + 0x10..at + 0x20].copy_from_slice(&e.partition_uuid);
        put_u64(&mut table, at + 0x20, e.first_lba);
        put_u64(&mut table, at + 0x28, e.last_lba);
        table[at + 0x30..at + 0x38].copy_from_slice(&e.attributes);
        for (k, unit) in e.name.iter().enumerate() {
            table[at + 0x38 + 2 * k..at + 0x3a + 2 * k].copy_from_slice(&unit.to_le_bytes());
        }
    }
    table
}

/// Stores in a header sector the checksum of its header.
fn seal(sector: &mut [u8]) {
    let header_size = u32::from_le_bytes([sector[12], sector[13], sector[14], sector[15]]) as usize;
    put_u32(sector, 0x10, 0);
    let sum = crc32(&sector[..header_size]);
    put_u32(sector, 0x10, sum);
}

fn header_sector(gpt: &Gpt) -> Vec<u8> {
    let mut sector = vec![0u8; gpt.sector_size];
    sector[..8].copy_from_slice(b"EFI PART");
    sector[8..12].copy_from_slice(&[0, 0, 1, 0]);
    put_u32(&mut sector, 0x0c, gpt.header_size);
    put_u64(&mut sector, 0x18, 1);
    put_u64(&mut sector, 0x20, gpt.last_usable_lba + 33);
    put_u64(&mut sector, 0x28, gpt.first_usable_lba);
    put_u64(&mut sector, 0x30, gpt.last_usable_lba);
    sector[0x38..0x48].copy_from_slice(&[0xD1; 16]);
    put_u64(&mut sector, 0x48, 2);
    put_u32(&mut sector, 0x50, gpt.slots);
    put_u32(&mut sector, 0x54, gpt.entry_size);
    put_u32(&mut sector, 0x58, crc32(&table_bytes(gpt)));
    seal(&mut sector);
    sector
}

/// The start of a GPT disk: boot sector, header and entry table.
fn gpt_image(gpt: &Gpt) -> Vec<u8> {
    let mut image = vec![0u8; gpt.sector_size];
    let boot = boot_sector(&[(0, 0x00, 0xEE, (gpt.sector_size / 512) as u32, 0xFFFF_FFFF)]);
    image[..512].copy_from_slice(&boot);
    image.extend_from_slice(&header_sector(gpt));
    image.extend_from_slice(&table_bytes(gpt));
    image
}

fn gpt_name(part: &Partition) -> &str {
    match &part.attributes {
        Attributes::GPT { name, .. } => name,
        _ => panic!("not a GPT partition"),
    }
}

fn four_tee() -> Vec<u8> {
    gpt_image(&gpt(vec![
        entry(0, 2048, 2048 + 5_861_326_848 - 1, ""),
        entry(1, 5_861_328_896, 5_861_328_896 + 1_952_708_239 - 1, ""),
    ]))
}

fn raspi() -> Vec<u8> {
    boot_sector(&[(0, 0x80, 12, 8192, 262_144), (1, 0x00, 131, 270_336, 7_540_736)]).to_vec()
}

#[test]
fn four_tee_gpt() {
    let parts = list_partitions(four_tee(), &Options::default()).expect("success");

    assert_eq!(2, parts.len());

    assert_eq!(0, parts[0].id);
    assert_eq!(1024 * 1024, parts[0].first_byte);
    assert_eq!(3_000_999_346_176, parts[0].len);
    assert_eq!("", gpt_name(&parts[0]));

    assert_eq!(1, parts[1].id);
    assert_eq!(3_001_000_394_752, parts[1].first_byte);
    assert_eq!(999_786_618_368, parts[1].len);
    assert_eq!("", gpt_name(&parts[1]));
}

#[test]
fn fdisk_1m_part() {
    let image = gpt_image(&gpt(vec![entry(0, 34, 34 + 2048 - 1, "")]));
    let parts = list_partitions(image, &Options::default()).expect("success");

    assert_eq!(1, parts.len());

    assert_eq!(0, parts[0].id);
    assert_eq!(34 * 512, parts[0].first_byte);
    assert_eq!(1024 * 1024, parts[0].len);
}

#[test]
fn fdisk_empty_gpt() {
    let parts = list_partitions(gpt_image(&gpt(vec![])), &Options::default()).expect("success");

    assert_eq!(0, parts.len());
}

#[test]
fn fdisk_empty_mbr() {
    let parts = list_partitions(boot_sector(&[]).to_vec(), &Options::default()).expect("success");

    assert_eq!(0, parts.len());
}

#[test]
fn ubu_raspi() {
    let parts = list_partitions(raspi(), &Options::default()).expect("success");

    assert_eq!(2, parts.len());

    assert_eq!(0, parts[0].id);
    match parts[0].attributes {
        Attributes::MBR {
            bootable,
            type_code,
        } => {
            assert_eq!(true, bootable);
            assert_eq!(12, type_code);
        }
        _ => panic!(),
    }
    assert_eq!(4194304, parts[0].first_byte);
    assert_eq!(134217728, parts[0].len);

    assert_eq!(1, parts[1].id);
    match parts[1].attributes {
        Attributes::MBR {
            bootable,
            type_code,
        } => {
            assert_eq!(false, bootable);
            assert_eq!(131, type_code);
        }
        _ => panic!(),
    }

    assert_eq!(138412032, parts[1].first_byte);
    assert_eq!(3860856832, parts[1].len);
}

#[test]
fn tiny() {
    let image = boot_sector(&[(0, 0x00, 0x83, 1, 7)]).to_vec();
    let parts = list_partitions(image, &Options::default()).expect("success");

    assert_eq!(1, parts.len());

    assert_eq!(512, parts[0].first_byte);
    assert_eq!(512 * 7, parts[0].len);
}

#[test]
fn require_mbr() {
    let mut options = Options::default();
    options.gpt = ReadGPT::Never;

    let parts = list_partitions(four_tee(), &options).unwrap();

    assert_eq!(1, parts.len());
    match parts[0].attributes {
        Attributes::MBR {
            type_code,
            bootable: _,
        } => assert_eq!(0xEE, type_code),
        _ => panic!("not a protective partition on a gpt volume"),
    }
}

#[test]
fn require_gpt() {
    let mut options = Options::default();
    options.mbr = ReadMBR::Never;

    assert!(matches!(
        list_partitions(raspi(), &options).unwrap_err(),
        Error::NotFound
    ));
}

#[test]
fn labels() {
    let mut options = Options::default();
    options.mbr = ReadMBR::Never;
    let names = [
        "first",
        "with spaces",
        "!\"$%^&*()_+*&$%/,",
        "£10, €20",
        "héllɵ",
        "東京都",
        "123456789012345678901234567890123456",
    ];
    let entries = names
        .iter()
        .enumerate()
        .map(|(slot, name)| entry(slot, 2048 * (slot as u64 + 1), 2048 * (slot as u64 + 2) - 1, name))
        .collect();
    let partitions = list_partitions(gpt_image(&gpt(entries)), &options).expect("success");

    assert_eq!(
        vec![
            "first".to_string(),
            "with spaces".to_string(),
            "!\"$%^&*()_+*&$%/,".to_string(),
            "£10, €20".to_string(),
            "héllɵ".to_string(),
            "東京都".to_string(),
            "123456789012345678901234567890123456".to_string(),
        ],
        partitions
            .into_iter()
            .map(|p| gpt_name(&p).to_string())
            .collect::<Vec<_>>()
    );
}

#[test]
fn find_short_gpt() {
    let entries = (0..70).map(|slot| entry(slot, 2048 + slot as u64, 2048 + slot as u64, "")).collect();
    let partitions = list_partitions(gpt_image(&gpt(entries)), &Options::default()).expect("success");
    let v = "??".to_string();
    for x in &partitions {
        println!(
            "{}",
            match &x.attributes {
                Attributes::GPT { name, .. } => name,
                _ => &v,
            }
        );
    }
    assert_eq!(70, partitions.len());
}

#[test]
fn missing_boot_signature_is_not_found() {
    let mut image = four_tee();
    image[510] = 0x54;
    assert!(matches!(list_partitions(image, &Options::default()), Err(Error::NotFound)));

    let mut image = raspi();
    image[511] = 0;
    assert!(matches!(list_partitions(image, &Options::default()), Err(Error::NotFound)));

    // Not even an entry that would be refused is looked at.
    let mut image = boot_sector(&[(0, 0x17, 0x83, 1, 7)]).to_vec();
    image[510] = 0;
    image[511] = 0;
    assert!(matches!(list_partitions(image, &Options::default()), Err(Error::NotFound)));
}

#[test]
fn boot_sector_errors_are_passed_on() {
    let image = boot_sector(&[(2, 0x17, 0x83, 1, 7)]).to_vec();
    match list_partitions(image, &Options::default()) {
        Err(Error::Mbr(e)) => assert_eq!(e, MbrError::InvalidStatusCode { entry_id: 2, status: 0x17 }),
        _ => panic!("the status byte was accepted"),
    }
}

#[test]
fn gpt_errors_are_passed_on() {
    let mut image = four_tee();
    image[512] = b'X';
    match list_partitions(image, &Options::default()) {
        Err(Error::Gpt(e)) => assert_eq!(e, GptError::BadEFISignature),
        _ => panic!("the signature was accepted"),
    }
}

#[test]
fn short_source_is_an_error_of_the_source() {
    // No boot sector.
    assert!(matches!(
        list_partitions(vec![0u8; 511], &Options::default()),
        Err(Error::UnexpectedEof)
    ));
    // No header sector.
    assert!(matches!(
        list_partitions(protective_boot_sector().to_vec(), &Options::default()),
        Err(Error::UnexpectedEof)
    ));
    // Half an entry table.
    let mut image = four_tee();
    image.truncate(1024 + 8192);
    assert!(matches!(list_partitions(image, &Options::default()), Err(Error::UnexpectedEof)));
}

#[test]
fn io_errors_are_passed_on_with_their_position() {
    let broken = |broken_from: u64| Breaking { bytes: four_tee(), broken_from };
    match list_partitions(broken(100), &Options::default()) {
        Err(Error::Io { source, pos }) => {
            assert_eq!(source.kind(), std::io::ErrorKind::Other);
            assert_eq!(pos, 0);
        }
        _ => panic!("the boot sector was read"),
    }
    assert!(matches!(
        list_partitions(broken(1000), &Options::default()),
        Err(Error::Io { pos: 512, .. })
    ));
    assert!(matches!(
        list_partitions(broken(2000), &Options::default()),
        Err(Error::Io { pos: 1024, .. })
    ));
    assert_eq!(list_partitions(broken(1024 + 16384), &Options::default()).expect("success").len(), 2);

    // What is not needed is not read.
    let mut options = Options::default();
    options.gpt = ReadGPT::Never;
    assert_eq!(list_partitions(broken(512), &options).expect("success").len(), 1);
}

#[test]
fn borrowed_bytes_are_a_source() {
    let image = four_tee();
    let parts = list_partitions(&image[..], &Options::default()).expect("success");
    assert_eq!(2, parts.len());
}

#[test]
fn protective_entry_beside_another_is_a_plain_table() {
    let image = boot_sector(&[(0, 0x00, 0xEE, 1, 100), (1, 0x00, 0x83, 200, 100)]).to_vec();
    let parts = list_partitions(image.clone(), &Options::default()).expect("success");
    assert_eq!(2, parts.len());

    let mut options = Options::default();
    options.mbr = ReadMBR::Never;
    assert!(matches!(list_partitions(image, &options), Err(Error::NotFound)));
}

#[test]
fn protective_entry_in_another_slot_is_a_plain_table() {
    let image = boot_sector(&[(1, 0x00, 0xEE, 1, 100)]).to_vec();
    let parts = list_partitions(image, &Options::default()).expect("success");
    assert_eq!(1, parts.len());
    assert_eq!(1, parts[0].id);
    assert!(matches!(parts[0].attributes, Attributes::MBR { type_code: 0xEE, bootable: false }));
}

#[test]
fn neither_table_wanted() {
    let mut options = Options::default();
    options.mbr = ReadMBR::Never;
    options.gpt = ReadGPT::Never;
    // The protective table is still handed out as it is.
    assert_eq!(1, list_partitions(four_tee(), &options).expect("success").len());
    assert!(matches!(list_partitions(raspi(), &options), Err(Error::NotFound)));
}

#[test]
fn known_sector_size_overrides_the_guess() {
    // Sectors of 4096 bytes, while the boot sector points at offset 512.
    let mut layout = gpt(vec![entry(3, 6, 9, "big")]);
    layout.sector_size = 4096;
    layout.first_usable_lba = 6;
    let mut image = gpt_image(&layout);
    let boot = protective_boot_sector();
    image[..512].copy_from_slice(&boot);

    let mut options = Options::default();
    options.sector_size = SectorSize::Known(4096);
    let parts = list_partitions(image.clone(), &options).expect("success");
    assert_eq!(1, parts.len());
    assert_eq!(3, parts[0].id);
    assert_eq!(6 * 4096, parts[0].first_byte);
    assert_eq!(4 * 4096, parts[0].len);
    assert_eq!("big", gpt_name(&parts[0]));

    // Guessed at 512, sector 1 holds no header.
    match list_partitions(image, &Options::default()) {
        Err(Error::Gpt(e)) => assert_eq!(e, GptError::BadEFISignature),
        _ => panic!("a header was found"),
    }
}

#[test]
fn guessed_sector_size_is_where_the_protective_partition_starts() {
    let mut layout = gpt(vec![entry(0, 6, 6, "")]);
    layout.sector_size = 4096;
    layout.first_usable_lba = 6;
    let parts = list_partitions(gpt_image(&layout), &Options::default()).expect("success");
    assert_eq!(1, parts.len());
    assert_eq!(6 * 4096, parts[0].first_byte);
    assert_eq!(4096, parts[0].len);
}

#[test]
fn sector_size_zero_finds_no_header() {
    let image = boot_sector(&[(0, 0x00, 0xEE, 0, 100)]).to_vec();
    match list_partitions(image, &Options::default()) {
        Err(Error::Gpt(e)) => assert_eq!(e, GptError::BadEFISignature),
        _ => panic!("a header was found"),
    }
}

#[test]
fn default_options() {
    let options = Options::default();
    assert!(matches!(options.mbr, ReadMBR::Modern));
    assert!(matches!(options.gpt, ReadGPT::RevisionOne));
    assert!(matches!(options.sector_size, SectorSize::GuessOrAssume));
}
