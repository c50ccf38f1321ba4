use nintendo_formats::endian::Endian;
use md5::{Digest, Md5};
use nintendo_formats::wii::error::WiiError;
use nintendo_formats::wii::format::FileFormat;
use nintendo_formats::wii::imet::{read_string, trim_zeros, write_string, IMET};
use nintendo_formats::wii::u8_archive::encode::NamePolicy;
use nintendo_formats::wii::u8_archive::U8Archive;

fn banner() -> IMET<U8Archive> {
    let mut inner = U8Archive::default();
    inner.create_file("meta/icon.bin", vec![1, 2, 3]);
    IMET {
        icon_bin_size: 10,
        banner_bin_size: 20,
        sound_bin_size: 30,
        name_jp: "\u{30BF}".to_string(),
        name_en: "Title".to_string(),
        name_de: "Titel".to_string(),
        name_fr: "Titre".to_string(),
        name_es: String::new(),
        name_it: String::new(),
        name_nl: String::new(),
        name_unk1: String::new(),
        name_unk2: String::new(),
        name_kr: "\u{1F600}".to_string(),
        inner,
    }
}

#[test]
fn banner_hashable_data() {
    let data = banner().write_hashable_data().unwrap();
    assert_eq!(data.len(), 0x600);
    assert_eq!(&data[..4], b"IMET");
    assert_eq!(&data[4..12], &[0, 0, 6, 0, 0, 0, 0, 3]);
    assert_eq!(&data[12..28], &[0, 0, 0, 10, 0, 0, 0, 20, 0, 0, 0, 30, 0, 0, 0, 0]);
    assert_eq!(&data[28..30], &[0x30, 0xBF]);
    assert_eq!(&data[30..40], &[0, b'T', 0, b'i', 0, b't', 0, b'l', 0, b'e']);
    assert_eq!(&data[60..64], &[0xD8, 0x3D, 0xDE, 0x00]);
    assert!(data[64..].iter().all(|b| *b == 0));
    let mut long = banner();
    long.name_en = "x".repeat(800);
    assert_eq!(long.write_hashable_data(), Err(WiiError::BadOffset));
}

#[test]
fn banner_write() {
    let b = banner();
    let mut out = vec![7];
    b.write(&mut out).unwrap();
    let data = b.write_hashable_data().unwrap();
    let inner = b.inner.encode(Endian::Big, NamePolicy::Reject).unwrap();
    assert_eq!(out.len(), 1 + 64 + 0x600 + inner.len());
    assert_eq!(&out[1..65], &[0u8; 64]);
    assert_eq!(&out[65..65 + 0x5F0], &data[..0x5F0]);
    assert_eq!(&out[65 + 0x5F0..65 + 0x600], &Md5::digest(&data)[..]);
    assert_eq!(&out[65 + 0x600..], &inner[..]);
}

#[test]
fn banner_read() {
    let inner = banner().inner.encode(Endian::Big, NamePolicy::Reject).unwrap();
    let mut bytes = vec![0u8; 64];
    bytes.extend_from_slice(b"IMET");
    bytes.extend_from_slice(&[0, 0, 6, 0, 0, 0, 0, 3]);
    bytes.extend_from_slice(&[0, 0, 0, 10, 0, 0, 0, 20, 0, 0, 0, 30, 0, 0, 0, 0]);
    let names = ["\u{30BF}", "Title", "Titel", "Titre", "", "", "", "", "", "\u{1F600}"];
    for name in names {
        let mut field = [0u8; 84];
        for (i, unit) in name.encode_utf16().enumerate() {
            field[2 * i..2 * i + 2].copy_from_slice(&unit.to_be_bytes());
        }
        bytes.extend_from_slice(&field);
    }
    bytes.resize(64 + 0x600, 0);
    bytes.extend_from_slice(&inner);
    let read = IMET::<U8Archive>::read(&bytes).unwrap();
    assert_eq!((read.icon_bin_size, read.banner_bin_size, read.sound_bin_size), (10, 20, 30));
    assert_eq!(read.name_jp, "\u{30BF}");
    assert_eq!(read.name_en, "Title");
    assert_eq!(read.name_fr, "Titre");
    assert_eq!(read.name_es, "");
    assert_eq!(read.name_kr, "\u{1F600}");
    assert_eq!(read.inner.get_file("meta/icon.bin"), Some(&[1u8, 2, 3][..]));
    assert!(matches!(IMET::<U8Archive>::read(&bytes[..67]), Err(WiiError::BadOffset)));
    assert!(matches!(IMET::<U8Archive>::read(&bytes[..700]), Err(WiiError::BadOffset)));
    assert!(matches!(IMET::<U8Archive>::read(&bytes[..64 + 0x600]), Err(WiiError::BadOffset)));
    let mut bad = bytes.clone();
    bad[64] = b'X';
    assert!(matches!(IMET::<U8Archive>::read(&bad), Err(WiiError::InvalidMagic)));
    // a surrogate that stands alone
    let mut bad = bytes.clone();
    bad[92 + 84] = 0xD8;
    bad[92 + 85] = 0x00;
    assert!(matches!(IMET::<U8Archive>::read(&bad), Err(WiiError::Utf16Error)));
}

#[test]
fn banner_strings() {
    assert_eq!(trim_zeros("abc\0\0"), "abc");
    assert_eq!(trim_zeros("a\0b\0"), "a\0b");
    assert_eq!(trim_zeros("\0\0"), "");
    assert_eq!(trim_zeros(""), "");
    let mut out = Vec::new();
    write_string(&mut out, "A\u{20AC}");
    assert_eq!(out, vec![0, 0x41, 0x20, 0xAC]);
    let mut field = vec![0u8; 90];
    field[3] = b'h';
    field[5] = b'i';
    assert_eq!(read_string(&field, 2).unwrap(), "hi");
}

#[test]
fn utf16_units_are_those_of_the_standard_library() {
    for text in ["", "a", "Zelda", "\u{30bc}\u{30eb}\u{30c0}", "\u{ffff}", "\u{10000}", "\u{1f600}x", "\u{10ffff}", "\u{d7ff}\u{e000}"] {
        let expected: Vec<u16> = text.encode_utf16().collect();
        assert_eq!(nintendo_formats::wii::imet::encode_utf16(text), expected, "{:?}", text);
    }
    assert_eq!(nintendo_formats::wii::imet::encode_utf16("\u{1f600}"), vec![0xD83D, 0xDE00]);
}

#[test]
fn utf16_units_are_read_as_the_standard_library_reads_them() {
    let cases: Vec<Vec<u16>> = vec![
        vec![],
        vec![0x41],
        vec![0x5A, 0x65, 0x6C, 0x64, 0x61, 0],
        vec![0xD7FF, 0xE000, 0xFFFF],
        vec![0xD83D, 0xDE00],
        vec![0xD800, 0xDC00, 0xDBFF, 0xDFFF],
        vec![0x41, 0xD83D, 0xDE00, 0x42],
        vec![0xD83D],
        vec![0xDE00],
        vec![0xD83D, 0x41],
        vec![0xDE00, 0xD83D],
        vec![0xD83D, 0xD83D, 0xDE00],
        vec![0x41, 0xDC00, 0x42],
        vec![0xD83D, 0xDE00, 0xDE00],
        vec![0x41, 0xD800],
    ];
    for units in cases {
        assert_eq!(nintendo_formats::wii::imet::decode_utf16(&units), String::from_utf16(&units).ok(), "{:?}", units);
    }
    for text in ["", "Zelda", "\u{1f600}\u{10000}\u{10ffff}\u{ffff}\u{0}"] {
        let units = nintendo_formats::wii::imet::encode_utf16(text);
        assert_eq!(nintendo_formats::wii::imet::decode_utf16(&units), Some(text.to_string()));
    }
}
