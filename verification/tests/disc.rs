use nintendo_formats::wii::disc::header::nkit::NKitHeader;
use nintendo_formats::wii::disc::header::WiiDiscHeader;
use nintendo_formats::wii::disc::partition_table::{read_partition_table, PartitionTableEntry, PartitionType};
use nintendo_formats::wii::disc::ticket::TimeLimit;
use nintendo_formats::wii::disc::title::{RegionCode, SystemCode, TitleId};
use nintendo_formats::wii::error::WiiError;

#[test]
fn time_limit_accessors() {
    let mut t = TimeLimit::with_limit(30);
    assert!(t.is_enabled());
    assert_eq!(t.seconds(), 30);
    t.set_seconds(45);
    assert_eq!(t, TimeLimit(Some(45)));
    t.disable();
    assert!(!t.is_enabled());
    assert_eq!(t.seconds(), 0);
    assert_eq!(TimeLimit::default(), TimeLimit(None));
    assert_eq!(TimeLimit::from(7u32), TimeLimit(Some(7)));
    assert_eq!(TimeLimit::from(None), TimeLimit(None));
}

#[test]
fn title_id_parts() {
    let id = TitleId::from_bytes(*b"RMGE");
    assert_eq!(id.system_code(), SystemCode::Revolution);
    assert_eq!(id.game_code(), b"MG");
    assert_eq!(id.region_code(), RegionCode::Usa);
    assert_eq!(id.to_bytes(), *b"RMGE");
    let made = TitleId::from_parts(SystemCode::Gamecube, b"ZL", RegionCode::Japan);
    assert_eq!(made, TitleId(*b"GZLJ"));
    let odd = TitleId::from_bytes(*b"?AB!");
    assert_eq!(odd.system_code(), SystemCode::Unknown(b'?'));
    assert_eq!(odd.region_code(), RegionCode::Unknown(b'!'));
}

#[test]
fn codes_map_to_their_letters_and_back() {
    for value in 0..=255u8 {
        assert_eq!(u8::from(RegionCode::from(value)), value);
        assert_eq!(u8::from(SystemCode::from(value)), value);
        assert_eq!(RegionCode::from_u8(value).to_u8(), value);
        assert_eq!(SystemCode::from_u8(value).to_u8(), value);
    }
    assert_eq!(RegionCode::from(b'P'), RegionCode::PAL);
    assert_eq!(RegionCode::from(b'U'), RegionCode::Australia);
    assert_eq!(SystemCode::from(b'_'), SystemCode::WiiFitChanInstaller);
    assert_eq!(SystemCode::from(b'4'), SystemCode::WiiBackupDisc);
    assert_eq!(u8::from(SystemCode::DiagnosticDisc2), b'1');
}

#[test]
fn partition_types() {
    assert_eq!(PartitionType::from(0), PartitionType::Data);
    assert_eq!(PartitionType::from(1), PartitionType::Update);
    assert_eq!(PartitionType::from(2), PartitionType::ChannelInstaller);
    assert_eq!(PartitionType::from(9), PartitionType::Other(9));
    assert_eq!(u32::from(PartitionType::Other(77)), 77);
    assert_eq!(u32::from(PartitionType::Update), 1);
}

#[test]
fn partition_entry_read_and_save() {
    let bytes = [0x00, 0x01, 0x40, 0x00, 0, 0, 0, 1, 0xFF];
    let e = PartitionTableEntry::read(&bytes, 0).unwrap();
    assert_eq!(e, PartitionTableEntry { offset: 0x14000 << 2, ty: PartitionType::Update });
    let mut out = Vec::new();
    e.save(&mut out);
    assert_eq!(out, &bytes[..8]);
    assert_eq!(PartitionTableEntry::read(&bytes, 2), Err(WiiError::BadOffset));
    // the two highest bits of a stored offset are shifted out
    let high = [0xC0, 0, 0, 1, 0, 0, 0, 0];
    assert_eq!(PartitionTableEntry::read(&high, 0).unwrap().offset, 4);
}

#[test]
fn partition_table_of_two_groups() {
    let mut disc = vec![0u8; 0x40000 + 0x100];
    let put = |disc: &mut Vec<u8>, at: usize, v: u32| disc[at..at + 4].copy_from_slice(&v.to_be_bytes());
    put(&mut disc, 0x40000, 2);
    put(&mut disc, 0x40004, (0x40020u32) >> 2);
    put(&mut disc, 0x40010, 1);
    put(&mut disc, 0x40014, (0x40040u32) >> 2);
    put(&mut disc, 0x40020, 0x100);
    put(&mut disc, 0x40024, 1);
    put(&mut disc, 0x40028, 0x200);
    put(&mut disc, 0x4002C, 0);
    put(&mut disc, 0x40040, 0x300);
    put(&mut disc, 0x40044, 5);
    let table = read_partition_table(&disc).unwrap();
    assert_eq!(
        table,
        vec![
            PartitionTableEntry { offset: 0x400, ty: PartitionType::Update },
            PartitionTableEntry { offset: 0x800, ty: PartitionType::Data },
            PartitionTableEntry { offset: 0xC00, ty: PartitionType::Other(5) },
        ]
    );
    assert_eq!(read_partition_table(&disc[..0x40010]), Err(WiiError::BadOffset));
    put(&mut disc, 0x40018, 1);
    put(&mut disc, 0x4001C, 0x3FFF_FFFF);
    assert_eq!(read_partition_table(&disc), Err(WiiError::BadOffset));
}

#[test]
fn nkit_header_round_trip() {
    let h = NKitHeader {
        version: *b"v01 ",
        original_crc: 0x01020304,
        nkit_crc: 0xA0B0C0D0,
        source_image_length: 7,
        forced_junk_id: 8,
        update_partition_crc: 9,
    };
    let mut out = vec![0xEE; 3];
    h.write(&mut out);
    assert_eq!(out.len(), 31);
    assert_eq!(&out[3..7], b"NKIT");
    assert_eq!(&out[11..15], &[1, 2, 3, 4]);
    assert_eq!(NKitHeader::read(&out, 3), Ok(Some(h)));
    assert_eq!(NKitHeader::read(&out, 0), Ok(None));
    assert_eq!(NKitHeader::read(&out, 4), Ok(None));
    assert_eq!(NKitHeader::read(&out[..20], 3), Err(WiiError::BadOffset));
    assert_eq!(NKitHeader::read(&out, 29), Err(WiiError::BadOffset));
}

#[test]
fn disc_header_write_and_read() {
    let mut title = vec![0u8; 64];
    title[..5].copy_from_slice(b"Title");
    let h = WiiDiscHeader {
        title_id: TitleId(*b"RMGP"),
        marker_code: *b"01",
        disc_number: 1,
        disc_version: 2,
        audio_streaming: true,
        streaming_buffer_size: 3,
        wii_magicword: true,
        gamecube_magicword: false,
        game_title: title.clone(),
        hash_varification: true,
        disc_encryption: false,
        nkit_header: None,
    };
    let mut out = Vec::new();
    h.write(&mut out);
    assert_eq!(out.len(), 1024);
    assert_eq!(&out[..10], &[b'R', b'M', b'G', b'P', b'0', b'1', 1, 2, 1, 3]);
    assert_eq!(&out[24..28], &[0x5D, 0x1C, 0x9E, 0xA3]);
    assert_eq!(&out[28..32], &[0, 0, 0, 0]);
    assert_eq!(&out[32..37], b"Title");
    assert_eq!(&out[96..98], &[0, 1]);
    assert!(out[98..].iter().all(|b| *b == 0));
    let back = WiiDiscHeader::read(&out).unwrap();
    assert_eq!(back.title_id, h.title_id);
    assert_eq!(back.marker_code, h.marker_code);
    assert_eq!(back.disc_number, 1);
    assert_eq!(back.disc_version, 2);
    assert!(back.audio_streaming);
    assert_eq!(back.streaming_buffer_size, 3);
    assert!(back.wii_magicword);
    assert!(!back.gamecube_magicword);
    assert_eq!(back.game_title, title);
    assert!(back.hash_varification);
    assert!(!back.disc_encryption);
    assert!(back.nkit_header.is_none());
    assert!(matches!(WiiDiscHeader::read(&out[..1023]), Err(WiiError::BadOffset)));
    // the header of a shrunk image is written at 512 and looked for at 200
    let nkit = NKitHeader {
        version: *b"v01 ",
        original_crc: 1,
        nkit_crc: 2,
        source_image_length: 3,
        forced_junk_id: 4,
        update_partition_crc: 5,
    };
    let with = WiiDiscHeader { nkit_header: Some(nkit), game_title: title.clone(), ..h };
    let mut out = Vec::new();
    with.write(&mut out);
    assert_eq!(out.len(), 1024);
    assert_eq!(&out[512..516], b"NKIT");
    assert!(WiiDiscHeader::read(&out).unwrap().nkit_header.is_none());
    let mut moved = out.clone();
    moved.copy_within(512..540, 200);
    assert_eq!(WiiDiscHeader::read(&moved).unwrap().nkit_header, Some(nkit));
}
