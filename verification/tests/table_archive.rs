use nintendo_formats::endian::Endian;
use nintendo_formats::jsystem::rarc::entry::{read_entry_table, RarcEntry};
use nintendo_formats::jsystem::rarc::header::RarcHeader;
use nintendo_formats::jsystem::rarc::node::{read_node_table, RarcNode};
use nintendo_formats::jsystem::rarc::utils::{create_tag, hash_str, join_path, DataWriter, StringTableWriter};
use nintendo_formats::jsystem::rarc::{RarcArchive, RarcError};
use std::io::Cursor;

fn sample() -> RarcArchive {
    let mut a = RarcArchive::default();
    a.create_file("a/b/c.txt", vec![1, 2, 3]);
    a.create_file("a/d.bin", vec![9; 40]);
    a.create_directory("e/f");
    a.create_file("top", vec![]);
    a
}

fn entries(a: &RarcArchive) -> Vec<(String, Option<Vec<u8>>)> {
    a.iter().into_iter().map(|(p, d)| (p.to_string(), d.map(|x| x.to_vec()))).collect()
}

#[test]
fn rarc_round_trip_keeps_every_entry() {
    let a = sample();
    let bytes = a.encode(Endian::Big).unwrap();
    let b = RarcArchive::read(Endian::Big, &bytes).unwrap();
    assert_eq!(entries(&a), entries(&b));
    assert_eq!(entries(&b).len(), 7);
}

#[test]
fn rarc_round_trip_through_the_compressor() {
    let a = sample();
    for quality in [1usize, 5, 10] {
        let packed = a.save(Endian::Big, quality).unwrap();
        assert_eq!(&packed[..4], b"Yaz0");
        let mut reader = yaz0::Yaz0Archive::new(Cursor::new(&packed)).unwrap();
        let plain = reader.decompress().unwrap();
        assert_eq!(plain, a.encode(Endian::Big).unwrap());
        let b = RarcArchive::read(Endian::Big, &plain).unwrap();
        assert_eq!(entries(&a), entries(&b));
    }
}

#[test]
fn rarc_save_is_deterministic() {
    let a = sample();
    assert_eq!(a.save(Endian::Big, 7).unwrap(), a.save(Endian::Big, 7).unwrap());
    assert_eq!(a.encode(Endian::Big).unwrap(), a.encode(Endian::Big).unwrap());
}

#[test]
fn rarc_quality_outside_the_range_is_refused() {
    let a = sample();
    assert!(matches!(a.save(Endian::Big, 0), Err(RarcError::UnsupportedCompression)));
    assert!(matches!(a.save(Endian::Big, 11), Err(RarcError::UnsupportedCompression)));
}

#[test]
fn rarc_empty_archive_round_trip() {
    let a = RarcArchive::default();
    let bytes = a.encode(Endian::Big).unwrap();
    let b = RarcArchive::read(Endian::Big, &bytes).unwrap();
    assert_eq!(b.iter().len(), 0);
    assert_eq!(b.files().len(), 0);
    assert_eq!(b.directories().len(), 0);
    let h = RarcHeader::read(Endian::Big, &bytes).unwrap();
    assert_eq!(h.node_count, 1);
    assert_eq!(h.entry_count, 2);
    assert_eq!(h.string_table_size, 10);
    assert_eq!(h.data_length, 0);
    assert_eq!(h.file_size as usize, bytes.len());
}

#[test]
fn rarc_sibling_directories_layout() {
    let mut a = RarcArchive::default();
    a.create_file("m/x", vec![1, 2]);
    a.create_file("n/y", vec![3]);
    let bytes = a.encode(Endian::Big).unwrap();
    let h = RarcHeader::read(Endian::Big, &bytes).unwrap();
    assert_eq!(h.node_count, 3);
    assert_eq!(h.node_table_offset, 0x40);
    assert_eq!(h.entry_count, 10);
    assert_eq!(h.entry_table_offset, 0x40 + 3 * 16);
    assert_eq!(h.string_table_offset, 312);
    // ".\0..\0ROOT\0m\0x\0n\0y\0"
    assert_eq!(h.string_table_size, 18);
    assert_eq!(h.data_offset, 352);
    assert_eq!(h.data_length, 3);
    assert_eq!(h.file_size, 384);
    assert_eq!(bytes.len(), 384);
    assert_eq!(h.next_free_file_id, 2);
    let nodes = read_node_table(Endian::Big, 3, &bytes[0x40..]).unwrap();
    assert_eq!(
        nodes,
        vec![
            RarcNode { tag: *b"ROOT", name_offset: 5, name_hash: hash_str("ROOT"), entry_count: 4, entry_offset: 0 },
            RarcNode { tag: *b"m   ", name_offset: 10, name_hash: 109, entry_count: 3, entry_offset: 4 },
            RarcNode { tag: *b"n   ", name_offset: 14, name_hash: 110, entry_count: 3, entry_offset: 7 },
        ]
    );
    let table = read_entry_table(Endian::Big, 10, &bytes[0x40 + 48..]).unwrap();
    let dir = |name_hash: u16, name_offset: u16, node: u32| RarcEntry {
        id: 0xFFFF,
        name_hash,
        ty: 0x0200,
        name_offset,
        data_offset: node,
        length: 0,
    };
    assert_eq!(
        table,
        vec![
            dir(46, 0, 0),
            dir(184, 2, 0),
            dir(109, 10, 1),
            dir(110, 14, 2),
            dir(46, 0, 1),
            dir(184, 2, 0),
            RarcEntry { id: 0, name_hash: 120, ty: 0x1100, name_offset: 12, data_offset: 0, length: 2 },
            dir(46, 0, 2),
            dir(184, 2, 0),
            RarcEntry { id: 1, name_hash: 121, ty: 0x1100, name_offset: 16, data_offset: 2, length: 1 },
        ]
    );
    assert_eq!(&bytes[312..330], b".\0..\0ROOT\0m\0x\0n\0y\0");
    assert_eq!(&bytes[330..352], &[0u8; 22]);
    assert_eq!(&bytes[352..355], &[1, 2, 3]);
}

#[test]
fn rarc_wrong_magic_is_refused() {
    let mut bytes = sample().encode(Endian::Big).unwrap();
    for b in bytes.iter_mut().take(4) {
        *b = !*b;
    }
    assert!(matches!(RarcArchive::read(Endian::Big, &bytes), Err(RarcError::InvalidMagic(0xADBEADBC))));
}

#[test]
fn rarc_too_many_entries() {
    let mut a = RarcArchive::default();
    for i in 0..65536u32 {
        a.create_file(&format!("d{}/f{}", i % 300, i), vec![]);
    }
    assert!(a.iter().len() > 65535);
    assert!(matches!(a.encode(Endian::Big), Err(RarcError::TooManyEntries)));
    assert!(matches!(a.save(Endian::Big, 1), Err(RarcError::TooManyEntries)));
}

#[test]
fn rarc_string_table_holds_at_most_65536_bytes() {
    // 65535 entries can be counted, but their names do not fit the table
    let mut a = RarcArchive::default();
    for i in 0..65535u32 - 256 {
        a.create_file(&format!("d{}/f{}", i % 256, i), vec![(i % 251) as u8]);
    }
    assert_eq!(a.iter().len(), 65535);
    assert!(matches!(a.encode(Endian::Big), Err(RarcError::BadOffset)));
    // 10 fixed bytes and 13105 names of four letters and a zero: 65535 bytes
    let mut b = RarcArchive::default();
    for i in 0..13105u32 {
        b.create_file(&format!("{:04x}", i), vec![(i % 251) as u8]);
    }
    let bytes = b.encode(Endian::Big).unwrap();
    let c = RarcArchive::read(Endian::Big, &bytes).unwrap();
    assert_eq!(c.iter().len(), 13105);
    assert_eq!(c.get_file("0007"), Some(&[7u8][..]));
    b.create_file("x", vec![]);
    assert!(matches!(b.encode(Endian::Big), Err(RarcError::BadOffset)));
}

#[test]
fn rarc_a_directory_holds_at_most_65533_children() {
    let mut a = RarcArchive::default();
    for i in 0..65534u32 {
        a.create_file(&format!("f{}", i), vec![]);
    }
    assert!(matches!(a.encode(Endian::Big), Err(RarcError::TooManyEntries)));
    // with one child less the entries can be counted; their names do not fit
    assert_eq!(a.remove("f0"), Some(Some(vec![])));
    assert!(matches!(a.encode(Endian::Big), Err(RarcError::BadOffset)));
}

#[test]
fn rarc_truncated_and_corrupt_input_is_refused() {
    let bytes = sample().encode(Endian::Big).unwrap();
    assert!(matches!(RarcArchive::read(Endian::Big, &bytes[..3]), Err(RarcError::BadOffset)));
    assert!(matches!(RarcArchive::read(Endian::Big, &bytes[..0x3F]), Err(RarcError::BadOffset)));
    assert!(matches!(RarcArchive::read(Endian::Big, &bytes[..0x80]), Err(RarcError::BadOffset)));
    let mut bad = bytes.clone();
    bad[0x40] = b'X';
    assert!(matches!(RarcArchive::read(Endian::Big, &bad), Err(RarcError::FirstDirectoryNotRoot)));
    // the root's first child points back at the root
    let h = RarcHeader::read(Endian::Big, &bytes).unwrap();
    let at = h.entry_table_offset as usize + 2 * 20 + 8;
    let mut bad = bytes.clone();
    bad[at..at + 4].copy_from_slice(&[0, 0, 0, 0]);
    assert!(matches!(RarcArchive::read(Endian::Big, &bad), Err(RarcError::BadOffset)));
    // a file that ends behind the data region
    let mut bad = bytes.clone();
    let file = h.entry_table_offset as usize + 4 * 20 + 12;
    bad[file..file + 4].copy_from_slice(&[0, 0, 1, 0]);
    assert!(matches!(RarcArchive::read(Endian::Big, &bad), Err(RarcError::BadOffset)));
}

#[test]
fn rarc_names_outside_the_character_set_are_refused() {
    let mut a = RarcArchive::default();
    a.create_file("smile\u{1F600}", vec![1]);
    assert!(matches!(a.encode(Endian::Big), Err(RarcError::NonRepresentableName)));
    let mut b = RarcArchive::default();
    b.create_file("\u{65E5}\u{672C}/\u{30D5}\u{30A1}\u{30A4}\u{30EB}", vec![1, 2]);
    let bytes = b.encode(Endian::Big).unwrap();
    let c = RarcArchive::read(Endian::Big, &bytes).unwrap();
    assert_eq!(entries(&b), entries(&c));
}

#[test]
fn rarc_missing_directory_is_refused() {
    let mut a = RarcArchive::default();
    a.create_file("x", vec![1]);
    a.create_file("x/y", vec![2]);
    assert!(matches!(a.encode(Endian::Big), Err(RarcError::MissingDirectory)));
}

#[test]
fn rarc_name_helpers() {
    assert_eq!(hash_str(""), 0);
    assert_eq!(hash_str("."), 46);
    assert_eq!(hash_str(".."), 184);
    assert_eq!(hash_str("ROOT"), ((82 * 3 + 79) * 3 + 79) * 3 + 84);
    assert_eq!(hash_str("abcdefghijklmnop"), {
        let mut h: u16 = 0;
        for c in "abcdefghijklmnop".chars() {
            h = h.wrapping_mul(3).wrapping_add(c as u16);
        }
        h
    });
    assert_eq!(create_tag("stage"), *b"stag");
    assert_eq!(create_tag("ab"), *b"ab  ");
    assert_eq!(create_tag(""), *b"    ");
    assert_eq!(join_path("", "a"), "a");
    assert_eq!(join_path("a/b", "c"), "a/b/c");
}

#[test]
fn rarc_writers() {
    let mut s = StringTableWriter::new();
    assert_eq!(s.write_bytes(b"ab"), 0);
    assert_eq!(s.write_str("cd"), 3);
    assert_eq!(s.write_str("\u{30A2}"), 6);
    assert_eq!(s.0, vec![b'a', b'b', 0, b'c', b'd', 0, 0x83, 0x41, 0]);
    let mut d = DataWriter::new();
    assert_eq!(d.append(&[1, 2, 3]), 0);
    assert_eq!(d.append(&[]), 3);
    assert_eq!(d.append(&[4]), 3);
    assert_eq!(d.finish(), vec![1, 2, 3, 4]);
}

#[test]
fn rarc_header_round_trip() {
    let h = RarcHeader {
        file_size: 1000,
        data_header_offset: 0x20,
        data_offset: 0x200,
        data_length: 77,
        mram_size: 77,
        aram_size: 1,
        dvd_size: 2,
        node_count: 3,
        node_table_offset: 0x40,
        entry_count: 9,
        entry_table_offset: 0x70,
        string_table_size: 50,
        string_table_offset: 0x124,
        next_free_file_id: 6,
        keep_file_ids_sync: true,
    };
    let mut out = Vec::new();
    h.write(Endian::Big, &mut out);
    assert_eq!(out.len(), 0x40);
    assert_eq!(&out[..4], b"RARC");
    assert_eq!(&out[12..16], &[0, 0, 0x01, 0xE0]);
    assert_eq!(RarcHeader::read(Endian::Big, &out).unwrap(), h);
    let d = RarcHeader::default();
    assert_eq!(d.data_header_offset, 0x20);
    assert_eq!(d.string_table_offset, 0x40);
}

#[test]
fn rarc_round_trip_in_little_endian() {
    let a = sample();
    let little = a.encode(Endian::Little).unwrap();
    let big = a.encode(Endian::Big).unwrap();
    assert_ne!(little, big);
    assert_eq!(little.len(), big.len());
    assert_eq!(&little[..4], b"CRAR");
    let b = RarcArchive::read(Endian::Little, &little).unwrap();
    assert_eq!(entries(&a), entries(&b));
    assert!(matches!(RarcArchive::read(Endian::Big, &little), Err(RarcError::InvalidMagic(0x43524152))));
    let h = RarcHeader::read(Endian::Little, &little).unwrap();
    assert_eq!(h.node_count, 5);
    assert_eq!(h.file_size as usize, little.len());
}
