use nintendo_formats::endian::Endian;
use nintendo_formats::wii::error::WiiError;
use nintendo_formats::wii::format::FileFormat;
use nintendo_formats::wii::u8_archive::encode::NamePolicy;
use nintendo_formats::wii::u8_archive::header::U8Header;
use nintendo_formats::wii::u8_archive::node::U8Node;
use nintendo_formats::wii::u8_archive::U8Archive;

fn sample() -> U8Archive {
    let mut a = U8Archive::default();
    a.create_file("a/b/c.txt", vec![1, 2, 3]);
    a.create_file("a/d.bin", vec![9; 40]);
    a.create_directory("e/f");
    a.create_file("top", vec![]);
    a
}

fn entries(a: &U8Archive) -> Vec<(String, Option<Vec<u8>>)> {
    a.iter().into_iter().map(|(p, d)| (p.to_string(), d.map(|x| x.to_vec()))).collect()
}

#[test]
fn round_trip_keeps_every_entry() {
    let a = sample();
    let bytes = a.encode(Endian::Big, NamePolicy::Reject).unwrap();
    let b = U8Archive::decode(Endian::Big, &bytes).unwrap();
    assert_eq!(entries(&a), entries(&b));
    assert_eq!(
        entries(&b),
        vec![
            ("a".to_string(), None),
            ("a/b".to_string(), None),
            ("a/b/c.txt".to_string(), Some(vec![1, 2, 3])),
            ("a/d.bin".to_string(), Some(vec![9; 40])),
            ("e".to_string(), None),
            ("e/f".to_string(), None),
            ("top".to_string(), Some(vec![])),
        ]
    );
}

#[test]
fn encoding_is_deterministic() {
    let a = sample();
    let first = a.encode(Endian::Big, NamePolicy::Reject).unwrap();
    let second = a.encode(Endian::Big, NamePolicy::Reject).unwrap();
    assert_eq!(first, second);
    let mut b = U8Archive::default();
    b.create_file("top", vec![]);
    b.create_directory("e/f");
    b.create_file("a/d.bin", vec![9; 40]);
    b.create_file("a/b/c.txt", vec![1, 2, 3]);
    assert_eq!(first, b.encode(Endian::Big, NamePolicy::Reject).unwrap());
}

#[test]
fn create_file_creates_ancestors() {
    let mut a = U8Archive::default();
    a.create_file("a/b/c.txt", vec![7]);
    assert!(a.is_directory("a"));
    assert!(a.is_directory("a/b"));
    assert!(!a.is_directory("a/b/c.txt"));
    assert!(!a.is_directory("missing"));
    assert_eq!(a.get_file("a/b/c.txt"), Some(&[7u8][..]));
    assert_eq!(a.get_file("a"), None);
}

#[test]
fn create_file_overwrites() {
    let mut a = U8Archive::default();
    a.create_file("x", vec![1]);
    a.create_file("x", vec![2, 2]);
    assert_eq!(a.get_file("x"), Some(&[2u8, 2][..]));
    a.create_file("d/y", vec![1]);
    a.create_file("d/y", vec![3]);
    assert_eq!(a.get_file("d/y"), Some(&[3u8][..]));
}

#[test]
fn create_directory_keeps_what_is_there() {
    let mut a = U8Archive::default();
    a.create_file("x", vec![1]);
    a.create_directory("x");
    assert_eq!(a.get_file("x"), Some(&[1u8][..]));
    a.create_file("x/y", vec![5]);
    assert!(!a.is_directory("x"));
    assert_eq!(a.encode(Endian::Big, NamePolicy::Reject), Err(WiiError::MissingDirectory));
}

#[test]
fn paths_are_normalized() {
    let mut a = U8Archive::default();
    a.create_file("/a//b/", vec![1]);
    a.create_directory("");
    a.create_directory("/");
    assert_eq!(entries(&a), vec![("a".to_string(), None), ("a/b".to_string(), Some(vec![1]))]);
}

#[test]
fn empty_archive_round_trip() {
    let a = U8Archive::default();
    let bytes = a.encode(Endian::Big, NamePolicy::Reject).unwrap();
    assert_eq!(bytes.len(), 64);
    let b = U8Archive::decode(Endian::Big, &bytes).unwrap();
    assert_eq!(b.iter().len(), 0);
    assert_eq!(b.files().len(), 0);
    assert_eq!(b.directories().len(), 0);
}

#[test]
fn sibling_directories_layout() {
    let mut a = U8Archive::default();
    a.create_file("m/x", vec![1, 2]);
    a.create_file("n/y", vec![3]);
    let bytes = a.encode(Endian::Big, NamePolicy::Reject).unwrap();
    let header = U8Header::read(Endian::Big, &bytes).unwrap();
    assert_eq!(header.root_node, 32);
    // 5 records and the pool "\0m\0x\0n\0y\0"
    assert_eq!(header.header_size, 5 * 12 + 9);
    assert_eq!(header.data_offset, 128);
    let node = |i: usize| U8Node::read(Endian::Big, &bytes, 32 + 12 * i).unwrap();
    assert_eq!(node(0), U8Node { ty: 1, name_offset: 0, data_offset: 0, size: 5 });
    assert_eq!(node(1), U8Node { ty: 1, name_offset: 1, data_offset: 0, size: 3 });
    assert_eq!(node(2), U8Node { ty: 0, name_offset: 3, data_offset: 128, size: 2 });
    assert_eq!(node(3), U8Node { ty: 1, name_offset: 5, data_offset: 0, size: 5 });
    assert_eq!(node(4), U8Node { ty: 0, name_offset: 7, data_offset: 130, size: 1 });
    assert_eq!(&bytes[92..101], b"\0m\0x\0n\0y\0");
    assert_eq!(&bytes[128..131], &[1, 2, 3]);
    assert_eq!(bytes.len(), 160);
}

#[test]
fn wrong_magic_is_refused() {
    let mut bytes = sample().encode(Endian::Big, NamePolicy::Reject).unwrap();
    for b in bytes.iter_mut().take(4) {
        *b = !*b;
    }
    assert!(matches!(U8Archive::decode(Endian::Big, &bytes), Err(WiiError::InvalidMagic)));
    assert!(matches!(U8Archive::read(&bytes), Err(WiiError::InvalidMagic)));
}

#[test]
fn truncated_and_corrupt_input_is_refused() {
    let bytes = sample().encode(Endian::Big, NamePolicy::Reject).unwrap();
    assert!(matches!(U8Archive::decode(Endian::Big, &bytes[..3]), Err(WiiError::BadOffset)));
    assert!(matches!(U8Archive::decode(Endian::Big, &bytes[..20]), Err(WiiError::BadOffset)));
    assert!(matches!(U8Archive::decode(Endian::Big, &bytes[..40]), Err(WiiError::BadOffset)));
    assert!(matches!(U8Archive::decode(Endian::Big, &bytes[..bytes.len() - 64]), Err(WiiError::BadOffset)));
    // a directory whose subtree ends before it starts
    let mut bad = bytes.clone();
    bad[32 + 12 + 11] = 0;
    assert!(matches!(U8Archive::decode(Endian::Big, &bad), Err(WiiError::BadOffset)));
    // a record of an unknown kind
    let mut bad = bytes.clone();
    bad[32 + 12] = 7;
    assert!(matches!(U8Archive::decode(Endian::Big, &bad), Err(WiiError::InvalidType)));
}

#[test]
fn names_outside_ascii_follow_the_policy() {
    let mut a = U8Archive::default();
    a.create_file("dir/caf\u{e9}.txt", vec![1]);
    assert_eq!(a.encode(Endian::Big, NamePolicy::Reject), Err(WiiError::NonRepresentableName));
    let mut out = Vec::new();
    assert_eq!(a.write(&mut out), Err(WiiError::NonRepresentableName));
    assert!(out.is_empty());
    let bytes = a.encode(Endian::Big, NamePolicy::DropCharacters).unwrap();
    let b = U8Archive::decode(Endian::Big, &bytes).unwrap();
    assert_eq!(entries(&b), vec![("dir".to_string(), None), ("dir/caf.txt".to_string(), Some(vec![1]))]);
}

#[test]
fn remove_refuses_a_directory_with_contents() {
    let mut a = sample();
    assert_eq!(a.remove("a"), None);
    assert!(a.is_directory("a"));
    assert_eq!(a.remove("missing"), None);
    assert_eq!(a.remove("a/d.bin"), Some(Some(vec![9; 40])));
    assert_eq!(a.remove("e/f"), Some(None));
    assert_eq!(a.remove("e"), Some(None));
    assert_eq!(a.directories(), vec!["a", "a/b"]);
}

#[test]
fn mv_moves_a_file() {
    let mut a = sample();
    a.mv("a/b/c.txt", "z/c.txt");
    assert_eq!(a.get_file("a/b/c.txt"), None);
    assert_eq!(a.get_file("z/c.txt"), Some(&[1u8, 2, 3][..]));
    assert!(a.is_directory("z"));
    a.mv("a", "q");
    assert!(a.is_directory("a"));
    assert!(!a.is_directory("q"));
    let files: Vec<&str> = a.files().into_iter().map(|(p, _)| p).collect();
    assert_eq!(files, vec!["a/d.bin", "top", "z/c.txt"]);
}

#[test]
fn write_appends_the_image() {
    let a = sample();
    let mut out = vec![0xEE];
    a.write(&mut out).unwrap();
    assert_eq!(&out[1..], &a.encode(Endian::Big, NamePolicy::Reject).unwrap()[..]);
}

#[test]
fn sibling_with_smaller_character_breaks_the_order() {
    // '-' sorts before '/', so "a-b" stands between "a" and its contents.
    let mut a = U8Archive::default();
    a.create_file("a/c", vec![1]);
    a.create_file("a-b", vec![2]);
    assert_eq!(a.encode(Endian::Big, NamePolicy::Reject), Err(WiiError::MissingDirectory));
}

#[test]
fn round_trip_in_little_endian() {
    let a = sample();
    let little = a.encode(Endian::Little, NamePolicy::Reject).unwrap();
    let big = a.encode(Endian::Big, NamePolicy::Reject).unwrap();
    assert_ne!(little, big);
    assert_eq!(little.len(), big.len());
    assert_eq!(&little[..4], &[0x2D, 0x38, 0xAA, 0x55]);
    assert_eq!(&little[32..44], &[1, 0, 0, 0, 0, 0, 0, 0, 8, 0, 0, 0]);
    let b = U8Archive::decode(Endian::Little, &little).unwrap();
    assert_eq!(entries(&a), entries(&b));
    assert!(matches!(U8Archive::decode(Endian::Big, &little), Err(WiiError::InvalidMagic)));
    assert!(matches!(U8Archive::decode(Endian::Little, &big), Err(WiiError::InvalidMagic)));
}

#[test]
fn empty_directory_beside_a_longer_name_is_written() {
    // "a.txt" sorts behind "a", and nothing of "a" comes behind it.
    let mut a = U8Archive::default();
    a.create_directory("a");
    a.create_file("a.txt", vec![7, 8]);
    a.create_file("b/c.d", vec![9]);
    let bytes = a.encode(Endian::Big, NamePolicy::Reject).unwrap();
    let back = U8Archive::decode(Endian::Big, &bytes).unwrap();
    assert!(back.is_directory("a"));
    assert_eq!(back.get_file("a.txt"), Some(&[7u8, 8][..]));
    assert_eq!(back.get_file("b/c.d"), Some(&[9u8][..]));
    assert_eq!(entries(&back).len(), 4);
    a.create_file("a/z", vec![1]);
    assert_eq!(a.encode(Endian::Big, NamePolicy::Reject), Err(WiiError::MissingDirectory));
}
