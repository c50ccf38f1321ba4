use nintendo_formats::bcsv::definition::ColumnDefinition;
use nintendo_formats::bcsv::{jgadget_hash, DataType, DataValue};
use nintendo_formats::cli::columns::{parse_decimal, parse_hex};
use nintendo_formats::cli::convert::{
    column_header, crack, hex_text, map_cell, map_row, parse_i16, parse_i32, parse_i8, CellNote,
};
use nintendo_formats::cli::listing::{decimal, simple_lines, size_string, verbose_lines};
use nintendo_formats::cli::merge::add_entries;
use nintendo_formats::jsystem::rarc::RarcArchive;

#[test]
fn list_lines() {
    assert_eq!(decimal(0), "0");
    assert_eq!(decimal(7), "7");
    assert_eq!(decimal(1234567890), "1234567890");
    assert_eq!(size_string(12, false), "12");
    assert_eq!(size_string(12, true), "12B ");
    assert_eq!(size_string(2048, true), "2KB");
    assert_eq!(size_string(1536, true), "1.50KB");
    assert_eq!(size_string(0, true), "0B ");
    let entries = vec![("dir", None), ("dir/a.bin", Some(5usize)), ("dir/long", Some(123456))];
    assert_eq!(
        verbose_lines(&entries, false),
        vec!["d      0 dir".to_string(), "-      5 dir/a.bin".to_string(), "- 123456 dir/long".to_string()]
    );
    assert_eq!(
        verbose_lines(&entries, true),
        vec!["d      0B  dir".to_string(), "-      5B  dir/a.bin".to_string(), "- 120.56KB dir/long".to_string()]
    );
    assert_eq!(simple_lines(&entries), vec!["dir".to_string(), "dir/a.bin".to_string(), "dir/long".to_string()]);
    assert!(verbose_lines(&Vec::new(), true).is_empty());
}

#[test]
fn merge_with_exclusions() {
    let mut source = RarcArchive::default();
    source.create_file("a/one", vec![1]);
    source.create_file("a/two", vec![2]);
    source.create_directory("b/empty");
    let mut output = RarcArchive::default();
    output.create_file("a/one", vec![9]);
    let entries = source.iter();
    let paths: Vec<&str> = entries.iter().map(|(p, _)| *p).collect();
    assert_eq!(paths, vec!["a", "a/one", "a/two", "b", "b/empty"]);
    add_entries(&mut output, &entries, &vec![false, false, true, false, false]);
    assert_eq!(output.get_file("a/one"), Some(&[1u8][..]));
    assert_eq!(output.get_file("a/two"), None);
    assert!(output.is_directory("b/empty"));
    assert_eq!(output.iter().len(), 4);
}

#[test]
fn cells_from_text() {
    assert_eq!(map_cell(DataType::Int32, "-12", None), (DataValue::Int32(-12), CellNote::Taken));
    assert_eq!(map_cell(DataType::Int32, "x", None), (DataValue::Int32(0), CellNote::NotANumber));
    assert_eq!(map_cell(DataType::Int32, "2147483648", None), (DataValue::Int32(0), CellNote::NotANumber));
    assert_eq!(map_cell(DataType::UInt32, "4294967295", None), (DataValue::UInt32(u32::MAX), CellNote::Taken));
    assert_eq!(map_cell(DataType::UInt32, "-1", None), (DataValue::UInt32(0), CellNote::NotANumber));
    assert_eq!(map_cell(DataType::Int16, "-32768", None), (DataValue::Int16(i16::MIN), CellNote::Taken));
    assert_eq!(map_cell(DataType::Int16, "40000", None), (DataValue::Int16(0), CellNote::NotANumber));
    assert_eq!(map_cell(DataType::Int8, "127", None), (DataValue::Int8(127), CellNote::Taken));
    assert_eq!(map_cell(DataType::Int8, "128", None), (DataValue::Int8(0), CellNote::NotANumber));
    assert_eq!(
        map_cell(DataType::Float, "1.0", Some(1.0f32.to_bits())),
        (DataValue::Float(0x3F80_0000), CellNote::Taken)
    );
    assert_eq!(map_cell(DataType::Float, "one", None), (DataValue::Float(0), CellNote::NotANumber));
    assert_eq!(
        map_cell(DataType::InlineString, "text", None),
        (DataValue::OffsetString("text".into()), CellNote::InlineConverted)
    );
    assert_eq!(map_cell(DataType::OffsetString, "t", None), (DataValue::OffsetString("t".into()), CellNote::Taken));
    assert_eq!(map_cell(DataType::Null, "anything", None), (DataValue::Null, CellNote::Taken));
    let column = |ty| ColumnDefinition { name: 0, bitmask: u32::MAX, offset: 0, shift: 0, ty };
    let (values, notes) = map_row(
        &[column(DataType::Int8), column(DataType::OffsetString), column(DataType::Int16)],
        &vec!["5", "five", "?"],
        &vec![None, None, None],
    );
    assert_eq!(values, vec![DataValue::Int8(5), DataValue::OffsetString("five".into()), DataValue::Int16(0)]);
    assert_eq!(notes, vec![CellNote::Taken, CellNote::Taken, CellNote::NotANumber]);
}

#[test]
fn headers_and_cracked_names() {
    assert_eq!(column_header(255, DataType::Int32, None), "0xFF(Int32)");
    assert_eq!(column_header(0, DataType::Null, None), "0x0(Null)");
    assert_eq!(column_header(0xDEADBEEF, DataType::OffsetString, None), "0xDEADBEEF(OffsetString)");
    assert_eq!(column_header(1, DataType::Float, Some("Speed")), "Speed(Float)");
    let lines = vec!["Name".to_string(), "#Name".to_string(), "Other".to_string(), "".to_string()];
    assert_eq!(crack(&lines, jgadget_hash(b"Name")), Some("Name"));
    assert_eq!(crack(&lines, jgadget_hash(b"Other")), Some("Other"));
    assert_eq!(crack(&lines, jgadget_hash(b"#Name")), None);
    assert_eq!(crack(&lines, 0), Some(""));
    assert_eq!(crack(&lines, 12345), None);
    assert_eq!(crack(&Vec::new(), 0), None);
}

#[test]
fn settings_choose_the_byte_order() {
    let mut settings = nintendo_formats::cli::options::AppSettings {
        input: None,
        output: Some("out.csv".to_string()),
        crack: None,
        decode: true,
        little_endian: false,
    };
    assert_eq!(settings.endian(), nintendo_formats::endian::Endian::Big);
    settings.little_endian = true;
    assert_eq!(settings.endian(), nintendo_formats::endian::Endian::Little);
}

fn number_texts() -> Vec<&'static str> {
    vec![
        "", "+", "-", "0", "+0", "-0", "7", "+7", "-7", "007", "42", "127", "128", "-128", "-129", "255", "256",
        "32767", "32768", "-32768", "-32769", "65535", "2147483647", "2147483648", "-2147483648", "-2147483649",
        "4294967295", "4294967296", "+4294967295", "00000000000000000000000000000000000012",
        "99999999999999999999999999", "-99999999999999999999999999", " 1", "1 ", "1_0", "1.5", "++1", "+-1",
        "--1", "1-", "a", "ff", "FF", "fF", "g", "0x10", "DEADBEEF", "deadbeef", "+ff", "-ff", "100000000",
        "ffffffff", "\u{663}", "1\u{663}", "\u{ff11}",
    ]
}

#[test]
fn numbers_are_read_as_the_standard_library_reads_them() {
    for text in number_texts() {
        assert_eq!(parse_decimal(text), text.parse::<u32>().ok(), "u32 {:?}", text);
        assert_eq!(parse_hex(text), u32::from_str_radix(text, 16).ok(), "hex {:?}", text);
        assert_eq!(parse_i32(text), text.parse::<i32>().ok(), "i32 {:?}", text);
        assert_eq!(parse_i16(text), text.parse::<i16>().ok(), "i16 {:?}", text);
        assert_eq!(parse_i8(text), text.parse::<i8>().ok(), "i8 {:?}", text);
    }
    assert_eq!(parse_decimal("+12"), Some(12));
    assert_eq!(parse_decimal("-12"), None);
    assert_eq!(parse_hex("1f"), Some(31));
    assert_eq!(parse_i8("-128"), Some(-128));
    assert_eq!(parse_i8("128"), None);
    assert_eq!(parse_i32("-2147483648"), Some(i32::MIN));
}

#[test]
fn numbers_are_written_in_capital_hexadecimal() {
    for x in [0u32, 1, 9, 10, 15, 16, 255, 256, 0xABCDEF, 0x1000_0000, 0xDEADBEEF, u32::MAX] {
        assert_eq!(hex_text(x), format!("{:#X}", x));
    }
    assert_eq!(hex_text(0), "0x0");
    assert_eq!(hex_text(0xDEADBEEF), "0xDEADBEEF");
}
