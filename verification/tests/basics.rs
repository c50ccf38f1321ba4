use nintendo_formats::bcsv::definition::ColumnDefinition;
use nintendo_formats::bcsv::header::BcsvHeader;
use nintendo_formats::bcsv::{jgadget_hash, old_hash, BcsvError, DataType};
use nintendo_formats::endian::{copy_range, get_u16, get_u24, get_u32, put_u16, put_u24, put_u32, put_zeros, Endian};
use nintendo_formats::jsystem::bcsv::field::BcsvFieldDefinition;
use nintendo_formats::jsystem::bcsv::row::StringWriter;
use nintendo_formats::jsystem::bcsv::{create_name_hash, BcsvError as JBcsvError, DataType as JDataType};
use nintendo_formats::path::{inside, join_path, normalize_path, same_text, split_parent, valid_name};
use nintendo_formats::wii::brlyt::font::FontSection;
use nintendo_formats::wii::brlyt::material::{AlphaComparisonCondition, AlphaComparisonOperation};
use nintendo_formats::wii::error::WiiError;
use nintendo_formats::wii::u8_archive::utils::{plain_name, StringTableWriter};
use nintendo_formats::wii::utils::{read_string, read_string_exact, DataBufferWriter};

#[test]
fn integers_in_both_byte_orders() {
    let bytes = [0x12, 0x34, 0x56, 0x78, 0x9A];
    assert_eq!(get_u16(Endian::Big, &bytes, 1), 0x3456);
    assert_eq!(get_u16(Endian::Little, &bytes, 1), 0x5634);
    assert_eq!(get_u32(Endian::Big, &bytes, 0), 0x12345678);
    assert_eq!(get_u32(Endian::Little, &bytes, 1), 0x9A785634);
    assert_eq!(get_u24(Endian::Big, &bytes, 2), 0x56789A);
    assert_eq!(get_u24(Endian::Little, &bytes, 2), 0x9A7856);
    let mut out = Vec::new();
    put_u16(Endian::Big, &mut out, 0xABCD);
    put_u16(Endian::Little, &mut out, 0xABCD);
    put_u32(Endian::Big, &mut out, 0x01020304);
    put_u32(Endian::Little, &mut out, 0x01020304);
    put_u24(Endian::Big, &mut out, 0x0A0B0C);
    put_zeros(&mut out, 2);
    assert_eq!(out, vec![0xAB, 0xCD, 0xCD, 0xAB, 1, 2, 3, 4, 4, 3, 2, 1, 0x0A, 0x0B, 0x0C, 0, 0]);
    assert_eq!(copy_range(&out, 4, 8), vec![1, 2, 3, 4]);
    for x in [0u32, 1, 0xFF, 0x100, 0xDEADBEEF, u32::MAX] {
        for e in [Endian::Big, Endian::Little] {
            let mut b = Vec::new();
            put_u32(e, &mut b, x);
            assert_eq!(get_u32(e, &b, 0), x);
        }
        let mut b = Vec::new();
        put_u32(Endian::Big, &mut b, x);
        assert_eq!(b, x.to_be_bytes());
    }
}

#[test]
fn paths() {
    assert_eq!(normalize_path("/a//b/"), "a/b");
    assert_eq!(normalize_path("a/b/c.txt"), "a/b/c.txt");
    assert_eq!(normalize_path("///"), "");
    assert_eq!(normalize_path(""), "");
    assert_eq!(normalize_path("x"), "x");
    assert_eq!(split_parent("a/b/c"), ("a/b", "c"));
    assert_eq!(split_parent("c"), ("", "c"));
    assert_eq!(split_parent("a/"), ("a", ""));
    assert_eq!(join_path("", "n"), "n");
    assert_eq!(join_path("p/q", "n"), "p/q/n");
    assert!(inside("a/b", "a"));
    assert!(inside("a/b", ""));
    assert!(!inside("ab", "a"));
    assert!(!inside("a", "a"));
    assert!(!inside("a", "a/b"));
    assert!(same_text("abc", "abc"));
    assert!(!same_text("abc", "abd"));
    assert!(!same_text("abc", "ab"));
    assert!(valid_name("file.txt"));
    assert!(!valid_name(""));
    assert!(!valid_name("a/b"));
}

#[test]
fn strings_in_buffers() {
    let buffer = b"ab\0cd\xC3\xA9\0tail";
    assert_eq!(read_string(buffer, 0).unwrap(), "ab");
    assert_eq!(read_string(buffer, 3).unwrap(), "cd\u{e9}");
    assert_eq!(read_string(buffer, 2).unwrap(), "");
    assert_eq!(read_string(buffer, 8), Err(WiiError::BadOffset));
    assert_eq!(read_string(buffer, 100), Err(WiiError::BadOffset));
    assert_eq!(read_string(buffer, 6), Err(WiiError::Utf8Error));
    assert_eq!(read_string_exact(buffer, 3, 4).unwrap(), "cd\u{e9}");
    assert_eq!(read_string_exact(buffer, 3, 3), Err(WiiError::Utf8Error));
    assert_eq!(read_string_exact(buffer, 8, 4).unwrap(), "tail");
    assert_eq!(read_string_exact(buffer, 8, 5), Err(WiiError::BadOffset));
    assert_eq!(read_string_exact(buffer, 0, 0).unwrap(), "");
}

#[test]
fn data_buffer_writer() {
    let mut w = DataBufferWriter::with_capacity(16);
    assert_eq!(w.write_bytes(&[1, 2]), 0);
    assert_eq!(w.write_str_null("h\u{e9}"), 2);
    assert_eq!(w.write_i32_slice(Endian::Big, &[1, -1, i32::MIN]), 6);
    assert_eq!(w.write_i32_slice(Endian::Little, &[-2]), 18);
    assert_eq!(w.len(), 22);
    assert_eq!(
        w.finish(),
        vec![1, 2, b'h', 0xC3, 0xA9, 0, 0, 0, 0, 1, 0xFF, 0xFF, 0xFF, 0xFF, 0x80, 0, 0, 0, 0xFE, 0xFF, 0xFF, 0xFF]
    );
    assert_eq!(DataBufferWriter::new().finish(), Vec::<u8>::new());
}

#[test]
fn u8_string_pool() {
    let mut s = StringTableWriter::new();
    assert_eq!(s.len(), 1);
    assert_eq!(s.write_str(""), 0);
    assert_eq!(s.write_str("ab"), 1);
    assert_eq!(s.write_str("c\u{e9}d\0e"), 4);
    assert_eq!(s.write_str("\u{e9}"), 8);
    assert_eq!(s.finish(), vec![0, b'a', b'b', 0, b'c', b'd', b'e', 0, 0]);
    assert!(plain_name("abc.txt"));
    assert!(!plain_name("ab\u{e9}"));
    assert!(!plain_name("a\0b"));
    assert!(plain_name(""));
}

#[test]
fn hashes() {
    assert_eq!(old_hash(b""), 0);
    assert_eq!(old_hash(b"a"), 97);
    assert_eq!(old_hash(b"ab"), (97 * 256 + 98) % 33554393);
    let mut h: u32 = 0;
    for c in b"ScenarioNo" {
        h = ((h << 8).wrapping_add(*c as u32)) % 33554393;
    }
    assert_eq!(old_hash(b"ScenarioNo"), h);
    assert_eq!(jgadget_hash(b""), 0);
    assert_eq!(jgadget_hash(b"ab"), 97 * 31 + 98);
    let mut h: u32 = 0;
    for c in b"PowerStarId_long_name" {
        h = h.wrapping_mul(0x1F).wrapping_add(*c as u32);
    }
    assert_eq!(jgadget_hash(b"PowerStarId_long_name"), h);
    assert_eq!(create_name_hash("ab"), 97 * 31 + 98);
    let mut h: u32 = 0;
    for c in "\u{65E5}\u{672C}name_name_name".chars() {
        h = h.wrapping_mul(0x1F).wrapping_add(c as u32);
    }
    assert_eq!(create_name_hash("\u{65E5}\u{672C}name_name_name"), h);
}

#[test]
fn data_types() {
    let all = [
        (DataType::Int32, 0u8, 4usize, "Int32"),
        (DataType::InlineString, 1, 32, "InlineString"),
        (DataType::Float, 2, 4, "Float"),
        (DataType::UInt32, 3, 4, "UInt32"),
        (DataType::Int16, 4, 2, "Int16"),
        (DataType::Int8, 5, 1, "Int8"),
        (DataType::OffsetString, 6, 4, "OffsetString"),
        (DataType::Null, 7, 0, "Null"),
    ];
    for (ty, tag, size, name) in all {
        assert_eq!(ty.tag(), tag);
        assert_eq!(ty.size(), size);
        assert_eq!(ty.name(), name);
        assert_eq!(DataType::from_tag(tag), Ok(ty));
        assert_eq!(DataType::from_name(name), Some(ty));
    }
    assert_eq!(DataType::from_tag(8), Err(BcsvError::InvaildDataType(8)));
    assert_eq!(DataType::from_name("int32"), None);
    assert_eq!(JDataType::Byte.size(), 1);
    assert_eq!(JDataType::String.size(), 4);
    assert_eq!(JDataType::InlineString.size(), 32);
    assert_eq!(JDataType::from_tag(5), Ok(JDataType::Byte));
    assert_eq!(JDataType::from_tag(6), Ok(JDataType::String));
    assert_eq!(JDataType::from_tag(200), Err(JBcsvError::InvalidDataType(200)));
    assert_eq!(JDataType::Null.tag(), 7);
}

#[test]
fn table_headers_and_definitions() {
    let h = BcsvHeader { row_count: 1, column_count: 2, data_offset: 0x28, row_size: 8 };
    let mut out = Vec::new();
    h.write(Endian::Big, &mut out);
    assert_eq!(out, vec![0, 0, 0, 1, 0, 0, 0, 2, 0, 0, 0, 0x28, 0, 0, 0, 8]);
    assert_eq!(BcsvHeader::read(Endian::Big, &out), Ok(h));
    assert_eq!(BcsvHeader::read(Endian::Big, &out[..15]), Err(BcsvError::UnexpectedEnd));
    let mut le = Vec::new();
    h.write(Endian::Little, &mut le);
    assert_eq!(&le[..4], &[1, 0, 0, 0]);
    assert_eq!(BcsvHeader::read(Endian::Little, &le), Ok(h));
    let d = ColumnDefinition { name: 0xAABBCCDD, bitmask: 0xFFFF, offset: 4, shift: 2, ty: DataType::Int16 };
    let mut out = vec![9];
    d.write(Endian::Big, &mut out);
    assert_eq!(out, vec![9, 0xAA, 0xBB, 0xCC, 0xDD, 0, 0, 0xFF, 0xFF, 0, 4, 2, 4]);
    assert_eq!(ColumnDefinition::read(Endian::Big, &out, 1), Ok(d));
    assert_eq!(ColumnDefinition::read(Endian::Big, &out, 2), Err(BcsvError::UnexpectedEnd));
    out[12] = 9;
    assert_eq!(ColumnDefinition::read(Endian::Big, &out, 1), Err(BcsvError::InvaildDataType(9)));
    let jh = nintendo_formats::jsystem::bcsv::header::BcsvHeader {
        entry_count: 3,
        field_count: 1,
        data_offset: 0x1C,
        entry_size: 4,
    };
    let mut out = Vec::new();
    jh.write(&mut out);
    assert_eq!(out, vec![0, 0, 0, 3, 0, 0, 0, 1, 0, 0, 0, 0x1C, 0, 0, 0, 4]);
    assert_eq!(nintendo_formats::jsystem::bcsv::header::BcsvHeader::read(&out), Ok(jh));
    let f = BcsvFieldDefinition {
        name_hash: 1,
        bitmask: u32::MAX,
        entry_offset: 0,
        shift_amount: 0,
        data_type: JDataType::String,
    };
    let mut out = Vec::new();
    f.write(&mut out);
    assert_eq!(out, vec![0, 0, 0, 1, 0xFF, 0xFF, 0xFF, 0xFF, 0, 0, 0, 6]);
    assert_eq!(BcsvFieldDefinition::read(&out, 0), Ok(f));
    assert_eq!(BcsvFieldDefinition::read(&out[..11], 0), Err(JBcsvError::UnexpectedEnd));
    let mut w = StringWriter::new();
    assert_eq!(w.write_str("ab"), 0);
    assert_eq!(w.write_str("\u{30A2}"), 3);
    assert_eq!(w.finish(), vec![b'a', b'b', 0, 0x83, 0x41, 0]);
}

#[test]
fn font_section() {
    let fonts = FontSection(vec!["a.brfnt".to_string(), "bc".to_string()]);
    let mut out = Vec::new();
    fonts.write(Endian::Big, &mut out).unwrap();
    let mut expected = vec![0x74, 0x78, 0x6C, 0x31, 0, 0, 0, 39, 0, 2, 0, 0];
    expected.extend_from_slice(&[0, 0, 0, 28, 0, 0, 0, 0, 0, 0, 0, 36, 0, 0, 0, 0]);
    expected.extend_from_slice(b"a.brfnt\0bc\0");
    assert_eq!(out, expected);
    let back = FontSection::read(Endian::Big, &out, 8).unwrap();
    assert_eq!(back.0, fonts.0);
    assert!(matches!(FontSection::read(Endian::Big, &out, 4), Err(WiiError::BadOffset)));
    assert!(matches!(FontSection::read(Endian::Big, &out[..20], 8), Err(WiiError::BadOffset)));
    assert!(matches!(FontSection::read(Endian::Big, &out[..38], 8), Err(WiiError::BadOffset)));
    let mut le = Vec::new();
    fonts.write(Endian::Little, &mut le).unwrap();
    assert_eq!(FontSection::read(Endian::Little, &le, 8).unwrap().0, fonts.0);
    let many = FontSection(vec![String::new(); 0x10000]);
    assert_eq!(many.write(Endian::Big, &mut out), Err(WiiError::TooManyEntries));
    assert_eq!(AlphaComparisonCondition::GratherThan.number(), 6);
    assert_eq!(AlphaComparisonOperation::NOR.number(), 3);
}

#[test]
fn error_messages() {
    assert_eq!(WiiError::InvalidMagic.message(), "Magic number didn't match.");
    assert_eq!(WiiError::HashMismatch.message(), "The read and calculated hashes didn't match.");
    assert_eq!(WiiError::InvalidType.message(), "Invalid or unknown type supplied.");
}
