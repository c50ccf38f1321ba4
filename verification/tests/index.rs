use nintendo_formats::endian::Endian;
use nintendo_formats::jsystem::rarc::RarcArchive;
use nintendo_formats::rarc::archive::IndexEntry;
use nintendo_formats::rarc::header::RarcHeader;
use nintendo_formats::rarc::node::{read_directory_nodes, read_file_nodes, FileAttributes, FILE, PRELOAD_TO_MRAM, YAZ0_COMPRESSED};
use nintendo_formats::rarc::string_table::StringTable;
use nintendo_formats::rarc::{Archive, RarcError};

fn image() -> Vec<u8> {
    let mut a = RarcArchive::default();
    a.create_file("m/x", vec![1, 2]);
    a.create_file("n/y", vec![3]);
    a.create_file("top", vec![4, 5, 6]);
    a.encode(Endian::Big).unwrap()
}

#[test]
fn index_of_an_archive() {
    let mut archive = Archive::read(Endian::Big, &image()).unwrap();
    assert_eq!(archive.len(), 5);
    assert_eq!(archive.entry("m"), Some(IndexEntry::Directory { files: 3 }));
    assert_eq!(archive.entry("n"), Some(IndexEntry::Directory { files: 3 }));
    let file = IndexEntry::File { offset: 0, size: 2, attributes: FileAttributes { bits: 0x11 } };
    assert_eq!(archive.entry("m/x"), Some(file));
    assert_eq!(
        archive.entry("top"),
        Some(IndexEntry::File { offset: 3, size: 3, attributes: FileAttributes { bits: 0x11 } })
    );
    assert_eq!(archive.entry("missing"), None);
    assert!(archive.open_file("m").is_none());
    assert!(archive.open_file("missing").is_none());
    {
        let mut f = archive.open_file("n/y").unwrap();
        assert_eq!(f.attributes(), FileAttributes { bits: FILE | PRELOAD_TO_MRAM });
        assert!(f.attributes().contains(FILE));
        assert!(!f.attributes().contains(YAZ0_COMPRESSED));
        f.set_attributes(FileAttributes::from_bits_truncate(0xFF));
        assert_eq!(f.attributes().bits(), 0xF7);
    }
    assert_eq!(
        archive.entry("n/y"),
        Some(IndexEntry::File { offset: 2, size: 1, attributes: FileAttributes { bits: 0xF7 } })
    );
}

#[test]
fn index_errors() {
    let bytes = image();
    assert_eq!(Archive::read(Endian::Big, &bytes[..2]).err(), Some(RarcError::BadOffset));
    let mut bad = bytes.clone();
    bad[0] = b'X';
    assert_eq!(Archive::read(Endian::Big, &bad).err(), Some(RarcError::InvaildMagic));
    let mut bad = bytes.clone();
    bad[0x40] = b'X';
    assert_eq!(Archive::read(Endian::Big, &bad).err(), Some(RarcError::FirstDirectoryNotRoot));
    assert_eq!(Archive::read(Endian::Big, &bytes[..0x60]).err(), Some(RarcError::BadOffset));
    // the root's run of entries is said to be longer than the table
    let mut bad = bytes.clone();
    bad[0x40 + 10] = 0;
    bad[0x40 + 11] = 200;
    assert_eq!(Archive::read(Endian::Big, &bad).err(), Some(RarcError::MissingFile { index: 11 }));
    // read in the other byte order, the counts are far too large
    assert_eq!(Archive::read(Endian::Little, &bytes).err(), Some(RarcError::BadOffset));
    // an archive without directories has an empty index
    let mut none = bytes.clone();
    none[0x20..0x24].copy_from_slice(&[0, 0, 0, 0]);
    assert_eq!(Archive::read(Endian::Big, &none).unwrap().len(), 0);
}

#[test]
fn index_header_in_both_byte_orders() {
    let h = RarcHeader {
        size: 0x01020304,
        data_offset: 0x200,
        data_length: 5,
        mram: 6,
        aram: 7,
        dvd: 8,
        directory_nodes: 2,
        directory_offset: 0x20,
        file_nodes: 3,
        file_offset: 0x40,
        string_size: 9,
        string_offset: 0x80,
        next_file: 0x0A0B,
        keep_synced: true,
    };
    for endian in [Endian::Big, Endian::Little] {
        let mut out = Vec::new();
        h.write(endian, &mut out);
        assert_eq!(out.len(), 64);
        assert_eq!(&out[..4], b"RARC");
        assert_eq!(RarcHeader::read(endian, &out), Ok(h));
    }
    let mut out = Vec::new();
    h.write(Endian::Little, &mut out);
    assert_eq!(&out[4..8], &[4, 3, 2, 1]);
    assert_eq!(&out[56..58], &[0x0B, 0x0A]);
    assert_eq!(out[58], 1);
}

#[test]
fn index_tables() {
    let bytes = image();
    let h = RarcHeader::read(Endian::Big, &bytes).unwrap();
    let dirs = read_directory_nodes(Endian::Big, &bytes, &h).unwrap();
    assert_eq!(dirs.len(), 3);
    assert_eq!(dirs[0].tag, *b"ROOT");
    assert_eq!(dirs[0].file_count, 5);
    assert_eq!(dirs[1].file_offset, 5);
    let files = read_file_nodes(Endian::Big, &bytes, &h).unwrap();
    assert_eq!(files.len(), 11);
    assert_eq!(files[2].index, 0xFFFF);
    assert_eq!(files[2].attributes, 0x02);
    assert_eq!(files[4].index, 2);
    assert_eq!(files[4].size, 3);
    let table = StringTable::read(&bytes, &h).unwrap();
    assert_eq!(table.string_at(0), Some("."));
    assert_eq!(table.string_at(5), Some("ROOT"));
    assert_eq!(files[4].name(&table), Some("top"));
    assert_eq!(table.string_at(table.buffer.len()), Some(""));
    assert_eq!(table.string_at(table.buffer.len() + 1), None);
    let odd = StringTable { buffer: vec![b'a', 0xE9, 0, b'b'] };
    assert_eq!(odd.string_at(0), None);
    assert_eq!(odd.string_at(3), Some("b"));
}
