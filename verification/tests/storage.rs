//! The on-disk structures: directory entries, 8.3 names, timestamps,
//! and MBR partition records.

use ysos::direntry::{
    Attributes, Cluster, DirEntry, FsTime, ShortFileName, parse_datetime, ATTR_ARCHIVE,
    ATTR_DIRECTORY,
};
use ysos::block::FsError;
use ysos::mbr::MbrPartition;

#[test]
fn test_dir_entry() {
    let data: [u8; 32] = [
        0x4b, 0x45, 0x52, 0x4e, 0x45, 0x4c, 0x20, 0x20, 0x45, 0x4c, 0x46, 0x20, 0x00, 0x00, 0x0f,
        0xbe, 0xd0, 0x50, 0xd0, 0x50, 0x00, 0x00, 0x0f, 0xbe, 0xd0, 0x50, 0x02, 0x00, 0xf0, 0xe4,
        0x0e, 0x00,
    ];

    let res = DirEntry::parse(&data).unwrap();

    assert_eq!(&res.filename.name, b"KERNEL  ");
    assert_eq!(&res.filename.ext, b"ELF");
    assert_eq!(res.attributes, Attributes(ATTR_ARCHIVE));
    assert_eq!(res.cluster, Cluster(2));
    assert_eq!(res.size, 0xee4f0);
    assert_eq!(res.created_time, FsTime::new(2020, 6, 16, 23, 48, 30));
    assert_eq!(res.modified_time, FsTime::new(2020, 6, 16, 23, 48, 30));
    assert_eq!(res.accessed_time, FsTime::new(2020, 6, 16, 0, 0, 0));

    println!("{:?}", res.cluster);
}

#[test]
fn partition_test() {
    let data: [u8; 16] = [
        0x80, 0x01, 0x01, 0x00, 0x0b, 0xfe, 0xbf, 0xfc, 0x3f, 0x00, 0x00, 0x00, 0x7e, 0x86, 0xbb,
        0x00,
    ];

    let meta = MbrPartition::parse(&data);

    assert!(meta.is_active());
    assert_eq!(meta.begin_head(), 1);
    assert_eq!(meta.begin_sector(), 1);
    assert_eq!(meta.begin_cylinder(), 0);
    assert_eq!(meta.partition_type(), 0x0b);
    assert_eq!(meta.end_head(), 254);
    assert_eq!(meta.end_sector(), 63);
    assert_eq!(meta.end_cylinder(), 764);
    assert_eq!(meta.begin_lba(), 63);
    assert_eq!(meta.total_lba(), 12289662);
}

#[test]
fn short_name_parses_and_pads() {
    let f = ShortFileName::parse(b"kernel.elf").unwrap();
    assert_eq!(&f.name, b"KERNEL  ");
    assert_eq!(&f.ext, b"ELF");

    let plain = ShortFileName::parse(b"app").unwrap();
    assert_eq!(&plain.name, b"APP     ");
    assert_eq!(&plain.ext, b"   ");
}

#[test]
fn short_name_rejects_bad_components() {
    assert_eq!(ShortFileName::parse(b""), Err(FsError::FilenameEmpty));
    assert_eq!(ShortFileName::parse(b"a b"), Err(FsError::MisplacedPeriod));
    assert_eq!(
        ShortFileName::parse(b"averylongname.txt"),
        Err(FsError::NameTooLong)
    );
    assert_eq!(ShortFileName::parse(b"name.long"), Err(FsError::NameTooLong));
    assert_eq!(ShortFileName::parse(b"na:me"), Err(FsError::InvalidCharacter));
}

#[test]
fn datetime_decodes_and_falls_back() {
    // 2020-06-16 23:48:30 as FAT packs it.
    let date: u32 = ((2020 - 1980) << 9) | (6 << 5) | 16;
    let time: u32 = (23 << 11) | (48 << 5) | (30 / 2);
    let packed = (date << 16) | time;
    assert_eq!(parse_datetime(packed), FsTime::new(2020, 6, 16, 23, 48, 30));

    // A month of zero names no real moment: the epoch comes back.
    let bad_date: u32 = ((2020 - 1980) << 9) | (0 << 5) | 16;
    let bad = (bad_date << 16) | time;
    assert_eq!(parse_datetime(bad), FsTime::new(1970, 1, 1, 0, 0, 0));

    // February 29 exists exactly in leap years.
    let leap_date: u32 = ((2020 - 1980) << 9) | (2 << 5) | 29;
    let leap = (leap_date << 16) | time;
    assert_eq!(parse_datetime(leap), FsTime::new(2020, 2, 29, 23, 48, 30));
    let noleap_date: u32 = ((2021 - 1980) << 9) | (2 << 5) | 29;
    let noleap = (noleap_date << 16) | time;
    assert_eq!(parse_datetime(noleap), FsTime::new(1970, 1, 1, 0, 0, 0));
}

#[test]
fn entry_kind_bits() {
    let mut data = [0u8; 32];
    data[0] = 0x44;
    data[11] = ATTR_DIRECTORY;
    let e = DirEntry::parse(&data).unwrap();
    assert!(e.is_directory());
    assert!(e.is_valid());
    assert!(!e.is_long_name());
}
