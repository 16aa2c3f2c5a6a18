use ysos_core::fat16::{
    parse_datetime, Attributes, Cluster, DirEntry, Fat16Impl, FileType, FilenameError, FsError, FsTime,
    ShortFileName, ATTR_ARCHIVE,
};

#[test]
fn test_dir_entry() {
    let data: [u8; 32] = [
        0x4b, 0x45, 0x52, 0x4e, 0x45, 0x4c, 0x20, 0x20, 0x45, 0x4c, 0x46, 0x20, 0x00, 0x00, 0x0f, 0xbe,
        0xd0, 0x50, 0xd0, 0x50, 0x00, 0x00, 0x0f, 0xbe, 0xd0, 0x50, 0x02, 0x00, 0xf0, 0xe4, 0x0e, 0x00,
    ];

    let res = DirEntry::parse(&data).unwrap();

    assert_eq!(&res.filename.name, b"KERNEL  ");
    assert_eq!(&res.filename.ext, b"ELF");
    assert_eq!(res.attributes, Attributes(ATTR_ARCHIVE));
    assert_eq!(res.cluster, Cluster(2));
    assert_eq!(res.size, 0xee4f0);
    assert_eq!(
        res.created_time,
        FsTime { year: 2020, month: 6, day: 16, hour: 23, min: 48, sec: 30 }
    );
    assert_eq!(
        res.moditified_time,
        FsTime { year: 2020, month: 6, day: 16, hour: 23, min: 48, sec: 30 }
    );
    assert_eq!(
        res.accessed_time,
        FsTime { year: 2020, month: 6, day: 16, hour: 0, min: 0, sec: 0 }
    );

    println!("{:#?}", res);
}

#[test]
fn dir_entry_name_and_meta() {
    let data: [u8; 32] = [
        0x4b, 0x45, 0x52, 0x4e, 0x45, 0x4c, 0x20, 0x20, 0x45, 0x4c, 0x46, 0x20, 0x00, 0x00, 0x0f, 0xbe,
        0xd0, 0x50, 0xd0, 0x50, 0x00, 0x00, 0x0f, 0xbe, 0xd0, 0x50, 0x02, 0x00, 0xf0, 0xe4, 0x0e, 0x00,
    ];
    let e = DirEntry::parse(&data).unwrap();
    assert_eq!(e.filename(), "KERNEL.ELF");
    assert!(e.is_valid());
    assert!(!e.is_eod());
    assert!(!e.is_long_name());
    assert!(!e.is_directory());
    let meta = e.as_meta();
    assert_eq!(meta.entry_type, FileType::File);
    assert_eq!(meta.name, "KERNEL.ELF");
    assert_eq!(meta.len, 0xee4f0);
}

#[test]
fn dir_entry_deleted_is_unknown() {
    let mut data = [0x20u8; 32];
    data[0] = 0xE5;
    let e = DirEntry::parse(&data).unwrap();
    assert!(!e.is_valid());
    assert!(e.filename.is_unused());
    assert_eq!(e.filename(), "unknown");
}

#[test]
fn invalid_datetime_reads_as_epoch() {
    // month 0 is not a month
    let t = parse_datetime(0);
    assert_eq!(t, FsTime { year: 1970, month: 1, day: 1, hour: 0, min: 0, sec: 0 });
    // 2021-02-29 does not exist; 2020-02-29 does
    let feb29 = |y: u32| ((y - 1980) << 25) | (2 << 21) | (29 << 16);
    assert_eq!(parse_datetime(feb29(2021)).year, 1970);
    assert_eq!(parse_datetime(feb29(2020)), FsTime { year: 2020, month: 2, day: 29, hour: 0, min: 0, sec: 0 });
}

#[test]
fn short_name_parse() {
    let n = ShortFileName::parse("kernel.elf").unwrap();
    assert_eq!(&n.name, b"kernel  ");
    assert_eq!(&n.ext, b"elf");
    let n = ShortFileName::parse("abc").unwrap();
    assert_eq!(&n.name, b"abc     ");
    assert_eq!(&n.ext, b"   ");
    assert_eq!(n.basename(), b"abc     ");
    assert_eq!(n.extension(), b"   ");
    assert!(n.matches(&ShortFileName::new(b"abc        ")));
    assert!(!n.matches(&ShortFileName::new(b"abd        ")));
}

#[test]
fn short_name_errors() {
    assert_eq!(ShortFileName::parse(""), Err(FsError::FileNameError(FilenameError::FilenameEmpty)));
    assert_eq!(ShortFileName::parse("a.b.c"), Err(FsError::FileNameError(FilenameError::MisplacedPeriod)));
    assert_eq!(ShortFileName::parse("toolongname.txt"), Err(FsError::FileNameError(FilenameError::NameTooLong)));
    assert_eq!(ShortFileName::parse("a.text"), Err(FsError::FileNameError(FilenameError::NameTooLong)));
    assert_eq!(ShortFileName::parse("a*b"), Err(FsError::FileNameError(FilenameError::InvalidCharacter)));
    assert_eq!(ShortFileName::parse("a b.c"), Err(FsError::FileNameError(FilenameError::InvalidCharacter)));
}

#[test]
fn fat16_layout_and_clusters() {
    let mut boot = [0u8; 512];
    boot[13] = 4; // sectors per cluster
    boot[14] = 1; // reserved sectors
    boot[16] = 2; // FATs
    boot[17] = 0x00; // root entries: 512
    boot[18] = 0x02;
    boot[22] = 0x20; // sectors per FAT: 32
    let fs = Fat16Impl::new(&boot);
    assert_eq!(fs.fat_start, 1);
    assert_eq!(fs.first_root_dir_sector, 65);
    assert_eq!(fs.first_data_sector, 97);
    assert_eq!(fs.cluster_to_sector(&Cluster(ysos_core::fat16::ROOT_DIR_CLUSTER)), 65);
    assert_eq!(fs.cluster_to_sector(&Cluster(2)), 97);
    assert_eq!(fs.cluster_to_sector(&Cluster(5)), 109);
    assert_eq!(fs.fat_sector_of(&Cluster(300)), 2);

    let mut fat = [0u8; 512];
    fat[6] = 0x04; // cluster 3 -> 4
    fat[8] = 0xF7; // cluster 4 is bad
    fat[9] = 0xFF;
    fat[10] = 0xFF; // cluster 5 ends its chain
    fat[11] = 0xFF;
    assert_eq!(fs.next_cluster(&Cluster(3), &fat), Ok(Cluster(4)));
    assert_eq!(fs.next_cluster(&Cluster(4), &fat), Err(FsError::BadCluster));
    assert_eq!(fs.next_cluster(&Cluster(5), &fat), Err(FsError::EndOfFile));
}

#[test]
fn find_entry_in_directory_sector() {
    let fs = Fat16Impl::new(&[0u8; 512]);
    let mut sector = [0u8; 512];
    sector[..11].copy_from_slice(b"HELLO   TXT");
    sector[32..43].copy_from_slice(b"WORLD   TXT");
    sector[32 + 28] = 7;
    let world = ShortFileName::parse("WORLD.TXT").unwrap();
    let found = fs.find_entry_in_sector(&world, &sector).unwrap();
    assert_eq!(found.size, 7);
    let missing = ShortFileName::parse("NONE.TXT").unwrap();
    assert_eq!(fs.find_entry_in_sector(&missing, &sector), Err(FsError::FileNotFound));
    let full = [0x41u8; 512];
    assert_eq!(fs.find_entry_in_sector(&missing, &full), Err(FsError::NotInSector));
}

#[test]
fn attributes_truncate_unknown_bits() {
    let a = Attributes::from_bits_truncate(0xFF);
    assert_eq!(a, Attributes(0x3F));
    assert!(a.contains(Attributes(ATTR_ARCHIVE)));
}

#[test]
fn list_directory_sector() {
    let fs = Fat16Impl::new(&[0u8; 512]);
    let mut sector = [0u8; 512];
    sector[..11].copy_from_slice(b"HELLO   TXT");
    sector[32..43].copy_from_slice(b"\xE5ONE    TXT");
    sector[64..75].copy_from_slice(b"LONGNAMEXYZ");
    sector[64 + 11] = 0x0F;
    sector[96..107].copy_from_slice(b"DOCS       ");
    sector[96 + 11] = 0x10;
    let (entries, ended) = fs.list_sector(&sector);
    assert!(ended);
    assert_eq!(entries.len(), 2);
    assert_eq!(entries[0].filename(), "HELLO.TXT");
    assert_eq!(entries[1].filename(), "DOCS");
    assert!(entries[1].is_directory());
    let full = [0x41u8; 512];
    let (entries, ended) = fs.list_sector(&full);
    assert!(!ended);
    assert_eq!(entries.len(), 16);
}

#[test]
fn non_ascii_name_is_shown_lossily() {
    let mut data = [0x20u8; 32];
    data[0] = b'A';
    data[1] = 0xFF;
    data[11] = 0x20;
    let e = DirEntry::parse(&data).unwrap();
    assert_eq!(e.filename(), "A\u{FFFD}");
    assert_eq!(e.as_meta().name, "A\u{FFFD}");
}
