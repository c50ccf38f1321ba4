use nintendo_formats::endian::Endian;
use md5::{Digest, Md5};
use nintendo_formats::cli::columns::{find_data_type, parse_number_or_hash, type_for_name};
use nintendo_formats::cli::options::{clamp, quality_for, BaseOptions, FileInput, Stream};
use nintendo_formats::bcsv::{jgadget_hash, DataType};
use nintendo_formats::wii::error::WiiError;
use nintendo_formats::wii::format::FileFormat;
use nintendo_formats::wii::imd5::IMD5;
use nintendo_formats::wii::u8_archive::encode::NamePolicy;
use nintendo_formats::wii::u8_archive::U8Archive;

fn archive() -> U8Archive {
    let mut a = U8Archive::default();
    a.create_file("dir/file", vec![1, 2, 3]);
    a
}

#[test]
fn imd5_wraps_and_checks() {
    let wrapped = IMD5::from_inner(archive());
    let mut out = Vec::new();
    wrapped.write(&mut out).unwrap();
    let payload = archive().encode(Endian::Big, NamePolicy::Reject).unwrap();
    assert_eq!(&out[..4], &[0x42, 0x4E, 0x53, 0x20]);
    assert_eq!(&out[4..8], &(payload.len() as u32).to_be_bytes());
    assert_eq!(&out[8..16], &[0u8; 8]);
    assert_eq!(&out[16..32], &Md5::digest(&payload)[..]);
    assert_eq!(&out[32..], &payload[..]);
    let back = IMD5::<U8Archive>::read(&out).unwrap();
    assert_eq!(back.inner().get_file("dir/file"), Some(&[1u8, 2, 3][..]));
    let mut back = back;
    back.inner_mut().create_file("more", vec![9]);
    assert_eq!(back.into_inner().iter().len(), 3);
}

#[test]
fn imd5_errors() {
    let mut out = Vec::new();
    IMD5::from_inner(archive()).write(&mut out).unwrap();
    assert!(matches!(IMD5::<U8Archive>::read(&out[..3]), Err(WiiError::BadOffset)));
    assert!(matches!(IMD5::<U8Archive>::read(&out[..20]), Err(WiiError::BadOffset)));
    assert!(matches!(IMD5::<U8Archive>::read(&out[..out.len() - 1]), Err(WiiError::BadOffset)));
    let mut bad = out.clone();
    bad[0] = 0;
    assert!(matches!(IMD5::<U8Archive>::read(&bad), Err(WiiError::InvalidMagic)));
    let mut bad = out.clone();
    bad[20] ^= 1;
    assert!(matches!(IMD5::<U8Archive>::read(&bad), Err(WiiError::HashMismatch)));
    let mut bad = out.clone();
    let last = bad.len() - 1;
    bad[last] ^= 1;
    assert!(matches!(IMD5::<U8Archive>::read(&bad), Err(WiiError::HashMismatch)));
    // a payload with the right hash that is no archive
    let mut other = Vec::new();
    other.extend_from_slice(&[0x42, 0x4E, 0x53, 0x20, 0, 0, 0, 2]);
    other.extend_from_slice(&[0u8; 8]);
    other.extend_from_slice(&Md5::digest([7u8, 7]));
    other.extend_from_slice(&[7, 7]);
    assert!(matches!(IMD5::<U8Archive>::read(&other), Err(WiiError::BadOffset)));
}

#[test]
fn clamp_and_quality() {
    assert_eq!(clamp(0, 1, 10), 1);
    assert_eq!(clamp(1, 1, 10), 1);
    assert_eq!(clamp(5, 1, 10), 5);
    assert_eq!(clamp(10, 1, 10), 10);
    assert_eq!(clamp(11, 1, 10), 10);
    assert_eq!(quality_for(None), 10);
    assert_eq!(quality_for(Some(0)), 1);
    assert_eq!(quality_for(Some(3)), 3);
    assert_eq!(quality_for(Some(99)), 10);
}

#[test]
fn file_input_and_report_stream() {
    assert_eq!(FileInput::from_arg(None), FileInput::Stdin);
    assert_eq!(FileInput::from_arg(Some("-")), FileInput::Stdin);
    assert_eq!(FileInput::from_arg(Some("a.arc")), FileInput::Path("a.arc".to_string()));
    assert_eq!(FileInput::from_arg(Some("--")), FileInput::Path("--".to_string()));
    assert_eq!(FileInput::Stdin.name(), "-");
    assert_eq!(FileInput::Path("x".to_string()).name(), "x");
    assert!(FileInput::Stdin.is_stdin());
    assert_eq!(BaseOptions::new(None, false).report_stream(), None);
    assert_eq!(BaseOptions::new(None, true).report_stream(), Some(Stream::Stderr));
    assert_eq!(BaseOptions::new(Some("f"), true).report_stream(), Some(Stream::Stdout));
    assert_eq!(BaseOptions::new(Some("f"), false).report_stream(), None);
}

#[test]
fn column_headers() {
    assert_eq!(parse_number_or_hash("123"), 123);
    assert_eq!(parse_number_or_hash("0x1F"), 31);
    assert_eq!(parse_number_or_hash("0XfF"), 255);
    assert_eq!(parse_number_or_hash("name"), jgadget_hash(b"name"));
    assert_eq!(parse_number_or_hash("0xZZ"), jgadget_hash(b"0xZZ"));
    assert_eq!(parse_number_or_hash("4294967296"), jgadget_hash(b"4294967296"));
    assert_eq!(parse_number_or_hash("7"), 7);
    assert_eq!(parse_number_or_hash(""), 0);
    assert_eq!(find_data_type("Score(Long)"), (jgadget_hash(b"Score"), DataType::Int32));
    assert_eq!(find_data_type("0x10(Float)"), (16, DataType::Float));
    assert_eq!(find_data_type("12(Long2)"), (12, DataType::UInt32));
    assert_eq!(find_data_type("a(Short)"), (jgadget_hash(b"a"), DataType::Int16));
    assert_eq!(find_data_type("a(Char)"), (jgadget_hash(b"a"), DataType::Int8));
    assert_eq!(find_data_type("a(Null)"), (jgadget_hash(b"a"), DataType::Null));
    assert_eq!(find_data_type("a(Other)"), (jgadget_hash(b"a"), DataType::OffsetString));
    assert_eq!(find_data_type("a(b)(Long)"), (jgadget_hash(b"a(b)"), DataType::Int32));
    assert_eq!(find_data_type("plain"), (jgadget_hash(b"plain"), DataType::OffsetString));
    assert_eq!(find_data_type("odd)"), (jgadget_hash(b"odd)"), DataType::OffsetString));
    assert_eq!(find_data_type(""), (0, DataType::OffsetString));
    assert_eq!(type_for_name("Long"), DataType::Int32);
    assert_eq!(type_for_name("long"), DataType::OffsetString);
}
