use nintendo_formats::endian::Endian;
use nintendo_formats::wii::brlyt::{UserDataEntry, UserDataSection};
use nintendo_formats::wii::error::WiiError;

fn sample() -> UserDataSection {
    UserDataSection(vec![
        UserDataEntry::String { name: "title".to_string(), value: "Main menu".to_string() },
        UserDataEntry::Int { name: "ids".to_string(), value: vec![1, -2, i32::MIN, i32::MAX] },
        UserDataEntry::Float { name: "scale".to_string(), value: vec![1.5f32.to_bits(), (-0.25f32).to_bits()] },
    ])
}

fn same(a: &UserDataEntry, b: &UserDataEntry) -> bool {
    match (a, b) {
        (UserDataEntry::String { name: n, value: v }, UserDataEntry::String { name: m, value: w }) => n == m && v == w,
        (UserDataEntry::Int { name: n, value: v }, UserDataEntry::Int { name: m, value: w }) => n == m && v == w,
        (UserDataEntry::Float { name: n, value: v }, UserDataEntry::Float { name: m, value: w }) => n == m && v == w,
        _ => false,
    }
}

#[test]
fn user_data_layout() {
    let section = UserDataSection(vec![UserDataEntry::Int { name: "n".to_string(), value: vec![-1, 2] }]);
    let mut out = vec![0xAA];
    section.write(Endian::Big, &mut out).unwrap();
    assert_eq!(
        &out[1..],
        &[
            0x75, 0x73, 0x64, 0x31, // signature
            0, 0, 0, 34, // length of the whole
            0, 1, 0, 0, // one entry
            0, 0, 0, 12, // the name, counted from the record
            0, 0, 0, 14, // the values
            0, 2, 1, 0, // two values, whole numbers
            b'n', 0, // the name
            0xFF, 0xFF, 0xFF, 0xFF, 0, 0, 0, 2,
        ][..]
    );
    let mut little = Vec::new();
    section.write(Endian::Little, &mut little).unwrap();
    assert_eq!(&little[4..8], &[34, 0, 0, 0]);
    assert_eq!(&little[26..], &[0xFF, 0xFF, 0xFF, 0xFF, 2, 0, 0, 0]);
    assert_eq!(section.0[0].size(), 12 + 2 + 8);
    assert_eq!(section.0[0].name(), "n");
}

#[test]
fn user_data_round_trip() {
    for endian in [Endian::Big, Endian::Little] {
        let section = sample();
        let mut out = Vec::new();
        section.write(endian, &mut out).unwrap();
        let total: usize = section.0.iter().map(|x| x.size()).sum();
        assert_eq!(out.len(), 12 + total);
        let back = UserDataSection::read(endian, &out, 8).unwrap();
        assert_eq!(back.0.len(), 3);
        for (a, b) in section.0.iter().zip(back.0.iter()) {
            assert!(same(a, b));
        }
    }
    let mut empty = Vec::new();
    UserDataSection(Vec::new()).write(Endian::Big, &mut empty).unwrap();
    assert_eq!(empty, vec![0x75, 0x73, 0x64, 0x31, 0, 0, 0, 12, 0, 0, 0, 0]);
    assert!(UserDataSection::read(Endian::Big, &empty, 8).unwrap().0.is_empty());
}

#[test]
fn user_data_that_cannot_be_read() {
    let mut out = Vec::new();
    sample().write(Endian::Big, &mut out).unwrap();
    assert!(matches!(UserDataSection::read(Endian::Big, &out, out.len() - 2), Err(WiiError::BadOffset)));
    assert!(matches!(UserDataSection::read(Endian::Big, &out[..30], 8), Err(WiiError::BadOffset)));
    let mut wrong_type = out.clone();
    wrong_type[12 + 10] = 3;
    assert!(matches!(UserDataSection::read(Endian::Big, &wrong_type, 8), Err(WiiError::InvalidType)));
    let mut no_end = out.clone();
    no_end[12..16].copy_from_slice(&0xFFFF_FFFFu32.to_be_bytes());
    assert!(matches!(UserDataSection::read(Endian::Big, &no_end, 8), Err(WiiError::BadOffset)));
    let mut far_values = out.clone();
    far_values[12 + 12 + 4..12 + 12 + 8].copy_from_slice(&0x00FF_FFFFu32.to_be_bytes());
    assert!(matches!(UserDataSection::read(Endian::Big, &far_values, 8), Err(WiiError::BadOffset)));
    let mut bad_text = out.clone();
    let name_at = 12 + 36;
    bad_text[name_at] = 0xFF;
    assert!(matches!(UserDataSection::read(Endian::Big, &bad_text, 8), Err(WiiError::Utf8Error)));
    assert!(matches!(UserDataEntry::read(Endian::Big, &out, out.len() - 11), Err(WiiError::BadOffset)));
}

#[test]
fn user_data_that_cannot_be_written() {
    let long = UserDataEntry::Int { name: "x".to_string(), value: vec![0; 0x10000] };
    let mut out = vec![1, 2, 3];
    let mut data = vec![4];
    assert_eq!(long.write(Endian::Big, &mut out, &mut data, 12), Err(WiiError::BadOffset));
    assert_eq!((out.clone(), data.clone()), (vec![1, 2, 3], vec![4]));
    assert_eq!(UserDataSection(vec![long]).write(Endian::Big, &mut out), Err(WiiError::BadOffset));
    assert_eq!(out, vec![1, 2, 3]);
    let mut entry = UserDataEntry::String { name: "old".to_string(), value: "v".to_string() };
    entry.name_mut().push_str("er");
    assert_eq!(entry.name(), "older");
    assert_eq!(entry.write(Endian::Big, &mut out, &mut data, 0xFFFF_FFFF), Err(WiiError::BadOffset));
    assert_eq!(entry.write(Endian::Big, &mut out, &mut data, 12), Ok(()));
    assert_eq!(&out[3..], &[0, 0, 0, 13, 0, 0, 0, 19, 0, 1, 0, 0][..]);
    assert_eq!(&data[1..], b"older\0v");
}

#[test]
fn layout_section_bytes() {
    let section = nintendo_formats::wii::brlyt::LayoutSection {
        centered: true,
        width: 608.0f32.to_bits(),
        height: 456.0f32.to_bits(),
    };
    let mut out = vec![9];
    section.write(Endian::Big, &mut out);
    assert_eq!(
        &out[1..],
        &[0x6C, 0x79, 0x74, 0x31, 0, 0, 0, 0x14, 1, 0, 0, 0, 0x44, 0x18, 0, 0, 0x43, 0xE4, 0, 0][..]
    );
    assert_eq!(nintendo_formats::wii::brlyt::LayoutSection::read(Endian::Big, &out, 9), Ok(section));
    assert_eq!(
        nintendo_formats::wii::brlyt::LayoutSection::read(Endian::Big, &out, 10),
        Err(WiiError::BadOffset)
    );
    let mut little = Vec::new();
    section.write(Endian::Little, &mut little);
    assert_eq!(&little[12..16], &[0, 0, 0x18, 0x44]);
    assert_eq!(nintendo_formats::wii::brlyt::LayoutSection::read(Endian::Little, &little, 8), Ok(section));
    out[9] = 0;
    assert!(!nintendo_formats::wii::brlyt::LayoutSection::read(Endian::Big, &out, 9).unwrap().centered);
}
