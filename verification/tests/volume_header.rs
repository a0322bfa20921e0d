use sgidisklib::bytes_to_string;
use sgidisklib::error::{CodecError, Field, IoError, SgidiskLibReadError, ValueError};
use sgidisklib::volhdr::raw::VolumeHeader;
use sgidisklib::volhdr::{Partition, PartitionType, SgidiskVolume, VolumeFile};

fn header_bytes() -> Vec<u8> {
    let mut b = vec![0u8; 512];
    b[0..4].copy_from_slice(&[0x0B, 0xE5, 0xA9, 0x41]);
    b[4..8].copy_from_slice(&[0x00, 0x02, 0x00, 0x01]);
    // device parameters, from byte 24
    b[24..28].copy_from_slice(&[0xAA, 0xAA, 0xAA, 0xAA]);
    b[28..30].copy_from_slice(&1234u16.to_be_bytes());
    b[30..32].copy_from_slice(&[0xBB, 0xBB]);
    b[32..34].copy_from_slice(&16u16.to_be_bytes());
    b[34] = 4;
    b[35..38].copy_from_slice(&[0xCC, 0xCC, 0xCC]);
    b[38..40].copy_from_slice(&63u16.to_be_bytes());
    b[40..42].copy_from_slice(&512u16.to_be_bytes());
    b[42..44].copy_from_slice(&[0xDD, 0xDD]);
    b[44..48].copy_from_slice(&0x0000_1001i32.to_be_bytes());
    b[68..72].copy_from_slice(&4_000_000u32.to_be_bytes());
    // volume directory, from byte 72
    b[72..80].copy_from_slice(b"sgilabel");
    b[80..84].copy_from_slice(&2i32.to_be_bytes());
    b[84..88].copy_from_slice(&512i32.to_be_bytes());
    b[88..92].copy_from_slice(b"ide\0");
    b[96..100].copy_from_slice(&(-1i32).to_be_bytes());
    b[100..104].copy_from_slice(&70_000i32.to_be_bytes());
    // partition table, from byte 312
    let slot = |i: usize| 312 + 12 * i;
    b[slot(7)..slot(7) + 4].copy_from_slice(&409_600u32.to_be_bytes());
    b[slot(7) + 4..slot(7) + 8].copy_from_slice(&8192u32.to_be_bytes());
    b[slot(7) + 8..slot(7) + 12].copy_from_slice(&7i32.to_be_bytes());
    b[slot(8)..slot(8) + 4].copy_from_slice(&8192u32.to_be_bytes());
    b[slot(8) + 8..slot(8) + 12].copy_from_slice(&0i32.to_be_bytes());
    b[slot(10)..slot(10) + 4].copy_from_slice(&417_792u32.to_be_bytes());
    b[slot(10) + 8..slot(10) + 12].copy_from_slice(&6i32.to_be_bytes());
    b[504..508].copy_from_slice(&(-77i32).to_be_bytes());
    b
}

#[test]
fn volume_header_with_an_efs_partition_in_slot_7() {
    let vol = SgidiskVolume::read(&header_bytes()).unwrap();
    assert_eq!(vol.root_partition, 2);
    assert_eq!(vol.swap_partition, 1);
    assert_eq!(vol.boot_file, None);
    assert_eq!(vol.partitions.len(), 16);
    assert_eq!(
        vol.partitions[7],
        Partition { partition_type: PartitionType::Efs, block_start: 8192, block_sz: 409_600 }
    );
    assert_eq!(
        vol.partitions[8],
        Partition { partition_type: PartitionType::VolumeHeader, block_start: 0, block_sz: 8192 }
    );
    assert_eq!(vol.partitions[10].partition_type, PartitionType::EntireVolume);
    assert!(vol.partitions[7].in_use());
    assert!(!vol.partitions[0].in_use());
    assert_eq!(vol.sector_sz, 512);
    assert!(vol.ctq_enabled);
    assert_eq!(vol.ctq_depth, 4);
    assert_eq!(vol.compat_cylinders, 1234);
    assert_eq!(vol.compat_heads, 16);
    assert_eq!(vol.compat_sect, 63);
    assert_eq!(vol.compat_drivecap, 4_000_000);
}

#[test]
fn volume_header_lists_its_files() {
    let vol = SgidiskVolume::read(&header_bytes()).unwrap();
    assert_eq!(vol.files.len(), 15);
    assert_eq!(
        vol.files[0],
        VolumeFile { file_name: Some("sgilabel".to_string()), block_start: 2, file_sz: 512 }
    );
    assert_eq!(
        vol.files[1],
        VolumeFile { file_name: Some("ide".to_string()), block_start: 0, file_sz: 70_000 }
    );
    assert_eq!(vol.files[2], VolumeFile { file_name: None, block_start: 0, file_sz: 0 });
    assert!(vol.files[0].in_use());
    assert!(!vol.files[2].in_use());
}

#[test]
fn volume_header_reads_the_boot_file_name() {
    let mut b = header_bytes();
    b[8..13].copy_from_slice(b"/unix");
    assert_eq!(SgidiskVolume::read(&b).unwrap().boot_file, Some("/unix".to_string()));
    b[8..24].copy_from_slice(b"0123456789abcdef");
    assert_eq!(SgidiskVolume::read(&b).unwrap().boot_file, Some("0123456789abcdef".to_string()));
    b[10] = 0xff;
    assert_eq!(SgidiskVolume::read(&b), Err(SgidiskLibReadError::Value(ValueError::NameNotUtf8)));
}

#[test]
fn volume_header_keeps_the_checksum_and_does_not_judge_it() {
    let raw = VolumeHeader::parse_volume_header(&header_bytes()).unwrap();
    assert_eq!(raw.vh_csum, -77);
    assert_eq!(raw.vh_rootpt, 2);
    assert_eq!(raw.vh_swappt, 1);
    assert_eq!(raw.vh_bootfile, vec![0u8; 16]);
    assert_eq!(raw.vh_dp.dp_flags, 0x1001);
    assert_eq!(raw.vh_vd.len(), 15);
    assert_eq!(raw.vh_vd[1].vd_lbn, -1);
    assert_eq!(raw.vh_pt.len(), 16);
    let mut b = header_bytes();
    b[504..508].copy_from_slice(&12345i32.to_be_bytes());
    assert!(SgidiskVolume::read(&b).is_ok());
}

#[test]
fn volume_header_without_the_ctq_flag() {
    let mut b = header_bytes();
    b[44..48].copy_from_slice(&0x0000_0FFFi32.to_be_bytes());
    assert!(!SgidiskVolume::read(&b).unwrap().ctq_enabled);
    b[44..48].copy_from_slice(&(-1i32).to_be_bytes());
    assert!(SgidiskVolume::read(&b).unwrap().ctq_enabled);
}

#[test]
fn volume_header_rejects_a_wrong_magic() {
    let mut b = header_bytes();
    b[3] = 0x42;
    assert_eq!(SgidiskVolume::read(&b), Err(SgidiskLibReadError::Codec(CodecError::BadMagic)));
    assert_eq!(
        VolumeHeader::parse_volume_header(&header_bytes()[..511]),
        Err(SgidiskLibReadError::Codec(CodecError::LengthMismatch))
    );
    assert_eq!(
        SgidiskVolume::read(&header_bytes()[..511]),
        Err(SgidiskLibReadError::Io(IoError::UnexpectedEof))
    );
}

#[test]
fn volume_header_rejects_a_partition_type_outside_the_set() {
    let mut b = header_bytes();
    b[312 + 12 * 3 + 8..312 + 12 * 3 + 12].copy_from_slice(&15i32.to_be_bytes());
    b[312 + 12 * 5 + 8..312 + 12 * 5 + 12].copy_from_slice(&(-1i32).to_be_bytes());
    assert_eq!(
        SgidiskVolume::read(&b),
        Err(SgidiskLibReadError::Codec(CodecError::UnknownTag { value: 15 }))
    );
}

#[test]
fn volume_header_rejects_negative_indices_and_sizes() {
    let negative = |field, value| Err(SgidiskLibReadError::Value(ValueError::Negative { field, value }));
    let mut b = header_bytes();
    b[4..6].copy_from_slice(&(-2i16).to_be_bytes());
    b[6..8].copy_from_slice(&(-3i16).to_be_bytes());
    assert_eq!(SgidiskVolume::read(&b), negative(Field::RootPartition, -2));
    b[4..6].copy_from_slice(&2i16.to_be_bytes());
    assert_eq!(SgidiskVolume::read(&b), negative(Field::SwapPartition, -3));
    let mut b = header_bytes();
    b[80..84].copy_from_slice(&(-2i32).to_be_bytes());
    b[100..104].copy_from_slice(&(-9i32).to_be_bytes());
    assert_eq!(SgidiskVolume::read(&b), negative(Field::FileStart, -2));
    b[80..84].copy_from_slice(&(-1i32).to_be_bytes());
    assert_eq!(SgidiskVolume::read(&b), negative(Field::FileSize, -9));
}

#[test]
fn partition_types_have_their_tags_and_names() {
    let all = [
        (0, PartitionType::VolumeHeader, "VolumeHeader"),
        (1, PartitionType::Unsupported1, "Unsupported1"),
        (2, PartitionType::Unsupported2, "Unsupported2"),
        (3, PartitionType::Raw, "Raw"),
        (4, PartitionType::Unsupported4, "Unsupported4"),
        (5, PartitionType::Unsupported5, "Unsupported5"),
        (6, PartitionType::EntireVolume, "EntireVolume"),
        (7, PartitionType::Efs, "Efs"),
        (8, PartitionType::LogicalVolume, "LogicalVolume"),
        (9, PartitionType::RawLogicalVolume, "RawLogicalVolume"),
        (10, PartitionType::Xfs, "Xfs"),
        (11, PartitionType::XfsLog, "XfsLog"),
        (12, PartitionType::Xlv, "Xlv"),
        (13, PartitionType::Xvm, "Xvm"),
        (14, PartitionType::Vxvm, "Vxvm"),
    ];
    for (tag, kind, name) in all {
        assert_eq!(PartitionType::from_tag(tag), Some(kind));
        assert_eq!(kind.tag(), tag);
        assert_eq!(kind.name(), name);
        assert_eq!(format!("{:?}", kind), name);
    }
    assert_eq!(PartitionType::from_tag(15), None);
    assert_eq!(PartitionType::from_tag(-1), None);
}

#[test]
fn bytes_to_string_cuts_the_zero_bytes_at_the_end() {
    assert_eq!(bytes_to_string(&[0u8; 8]), Ok(None));
    assert_eq!(bytes_to_string(&[]), Ok(None));
    assert_eq!(bytes_to_string(b"ab\0\0"), Ok(Some("ab".to_string())));
    assert_eq!(bytes_to_string(b"abcd"), Ok(Some("abcd".to_string())));
    assert_eq!(bytes_to_string(b"a\0b\0"), Ok(Some("a\0b".to_string())));
    assert_eq!(bytes_to_string(b"\0\0b\0"), Ok(Some("\0\0b".to_string())));
    assert_eq!(
        bytes_to_string(&[b'a', 0x80, 0, 0]),
        Err(SgidiskLibReadError::Value(ValueError::NameNotUtf8))
    );
}
