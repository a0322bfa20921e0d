use sgidisklib::efs::extents::{check_extent_list, sort_extent_list};
use sgidisklib::efs::raw_inode::{EfsInode, Extent};
use sgidisklib::efs::{Efs, Inode, InodeBlockIter, InodeType};
use sgidisklib::error::{
    BoundsError, CodecError, Field, IoError, SgidiskLibReadError, ValueError,
};
use sgidisklib::time::{
    inode_time_text, local_time, local_time_at, time_text_with, InodeTime, LocalTime,
};
use sgidisklib::{fmt_inode, fmt_inode_with};

fn extent_bytes(bn: u32, length: u8, offset: u32) -> [u8; 8] {
    let bn = bn.to_be_bytes();
    let offset = offset.to_be_bytes();
    [0, bn[1], bn[2], bn[3], length, offset[1], offset[2], offset[3]]
}

fn inode_bytes(mode: u16, size: i32, numextents: i16, extents: &[(u32, u8, u32)]) -> Vec<u8> {
    let mut b = vec![0u8; 128];
    b[0..2].copy_from_slice(&mode.to_be_bytes());
    b[2..4].copy_from_slice(&1i16.to_be_bytes());
    b[4..6].copy_from_slice(&1001u16.to_be_bytes());
    b[6..8].copy_from_slice(&20u16.to_be_bytes());
    b[8..12].copy_from_slice(&size.to_be_bytes());
    b[12..16].copy_from_slice(&1_000_000_003i32.to_be_bytes());
    b[16..20].copy_from_slice(&1_000_000_002i32.to_be_bytes());
    b[20..24].copy_from_slice(&1_000_000_001i32.to_be_bytes());
    b[24..28].copy_from_slice(&0xDEAD_BEEFu32.to_be_bytes());
    b[28..30].copy_from_slice(&numextents.to_be_bytes());
    b[30] = 7;
    b[31] = 9;
    for (i, (bn, length, offset)) in extents.iter().enumerate() {
        b[32 + 8 * i..40 + 8 * i].copy_from_slice(&extent_bytes(*bn, *length, *offset));
    }
    b
}

fn small_efs() -> Efs {
    Efs {
        sector_sz: 512,
        partition_start: 1024,
        size: 1024 * 512,
        cg_start: 2,
        cg_size: 20,
        cg_inodes: 4,
        cg_count: 2,
    }
}

fn small_image() -> Vec<u8> {
    vec![0u8; 1024 + 1024 * 512]
}

fn put_inode(image: &mut [u8], efs: &Efs, n: u64, bytes: &[u8]) {
    let at = efs.inode_start(n).unwrap() as usize;
    image[at..at + 128].copy_from_slice(bytes);
}

fn extent(bn: u32, length: u8, offset: u32) -> Extent {
    Extent { ex_bn: bn, ex_length: length, ex_offset: offset }
}

#[test]
fn extent_decodes_its_three_fields() {
    assert_eq!(
        Extent::parse_extent(&[0, 0x01, 0x02, 0x03, 0x04, 0x05, 0x06, 0x07]),
        Ok(extent(0x010203, 4, 0x050607))
    );
    assert_eq!(
        Extent::parse_extent(&[0, 0xff, 0xff, 0xff, 0xff, 0xff, 0xff, 0xff, 0x55]),
        Ok(extent(0xff_ffff, 255, 0xff_ffff))
    );
}

#[test]
fn extent_rejects_a_leading_byte_that_is_not_zero() {
    assert_eq!(
        Extent::parse_extent(&[1, 0, 0, 1, 1, 0, 0, 0]),
        Err(SgidiskLibReadError::Codec(CodecError::ReservedNonZero))
    );
    assert_eq!(
        Extent::parse_extent(&[0, 0, 0, 1, 1, 0, 0]),
        Err(SgidiskLibReadError::Codec(CodecError::LengthMismatch))
    );
}

#[test]
fn extent_writes_what_it_was_read_from() {
    let bytes = [0u8, 0x01, 0x02, 0x03, 0x04, 0x05, 0x06, 0x07];
    let mut out = vec![0xAAu8];
    Extent::parse_extent(&bytes).unwrap().write_to(&mut out);
    assert_eq!(out[0], 0xAA);
    assert_eq!(&out[1..], &bytes);
}

#[test]
fn parse_extents_takes_whole_records_only() {
    let mut b = Vec::new();
    b.extend_from_slice(&extent_bytes(10, 1, 0));
    b.extend_from_slice(&extent_bytes(20, 2, 1));
    assert_eq!(Extent::parse_extents(&b), Ok(vec![extent(10, 1, 0), extent(20, 2, 1)]));
    assert_eq!(Extent::parse_extents(&[]), Ok(vec![]));
    assert_eq!(
        Extent::parse_extents(&b[..15]),
        Err(SgidiskLibReadError::Value(ValueError::ExtentAreaSize { len: 15 }))
    );
    b[8] = 9;
    assert_eq!(
        Extent::parse_extents(&b),
        Err(SgidiskLibReadError::Codec(CodecError::ReservedNonZero))
    );
}

#[test]
fn raw_inode_decodes_field_by_field() {
    let raw = EfsInode::parse_inode(&inode_bytes(0o100644, 5000, 2, &[(10, 1, 0), (20, 9, 1)])).unwrap();
    assert_eq!(raw.di_mode, 0o100644);
    assert_eq!(raw.di_nlink, 1);
    assert_eq!(raw.di_uid, 1001);
    assert_eq!(raw.di_gid, 20);
    assert_eq!(raw.di_size, 5000);
    assert_eq!(raw.di_atime, 1_000_000_003);
    assert_eq!(raw.di_mtime, 1_000_000_002);
    assert_eq!(raw.di_ctime, 1_000_000_001);
    assert_eq!(raw.di_gen, 0xDEAD_BEEF);
    assert_eq!(raw.di_numextents, 2);
    assert_eq!(raw.di_version, 7);
    assert_eq!(raw.di_spare, 9);
    assert_eq!(raw.data.len(), 96);
    assert_eq!(&raw.data[..8], &extent_bytes(10, 1, 0));
}

#[test]
fn raw_inode_writes_what_it_was_read_from() {
    let bytes = inode_bytes(0o100644, -5, -2, &[(10, 1, 0), (20, 9, 1)]);
    let raw = EfsInode::parse_inode(&bytes).unwrap();
    assert_eq!(raw.di_size, -5);
    assert_eq!(raw.di_numextents, -2);
    assert_eq!(raw.to_bytes(), bytes);
    assert_eq!(
        EfsInode::parse_inode(&bytes[..127]),
        Err(SgidiskLibReadError::Codec(CodecError::LengthMismatch))
    );
}

#[test]
fn inode_type_reads_the_type_bits() {
    assert_eq!(InodeType::try_from(0o010000), Ok(InodeType::Fifo));
    assert_eq!(InodeType::try_from(0o020000), Ok(InodeType::CharacterSpecial));
    assert_eq!(InodeType::try_from(0o030000), Ok(InodeType::CharacterSpecialLink));
    assert_eq!(InodeType::try_from(0o040755), Ok(InodeType::Directory));
    assert_eq!(InodeType::try_from(0o060000), Ok(InodeType::BlockSpecial));
    assert_eq!(InodeType::try_from(0o070000), Ok(InodeType::BlockSpecialLink));
    assert_eq!(InodeType::try_from(0o100644), Ok(InodeType::RegularFile));
    assert_eq!(InodeType::try_from(0o120777), Ok(InodeType::SymbolicLink));
    assert_eq!(InodeType::try_from(0o140000), Ok(InodeType::Socket));
    assert_eq!(
        InodeType::try_from(0o050123),
        Err(SgidiskLibReadError::Value(ValueError::UnknownInodeType { bits: 0o050000 }))
    );
    assert_eq!(
        InodeType::try_from(0o000644),
        Err(SgidiskLibReadError::Value(ValueError::UnknownInodeType { bits: 0 }))
    );
}

#[test]
fn inode_type_gives_back_its_type_bits() {
    for bits in [
        0o010000u16, 0o020000, 0o030000, 0o040000, 0o060000, 0o070000, 0o100000, 0o120000, 0o140000,
    ] {
        assert_eq!(u16::from(InodeType::try_from(bits).unwrap()), bits);
    }
}

#[test]
fn inode_of_a_directory_with_one_extent() {
    let raw = EfsInode::parse_inode(&inode_bytes(0o040755, 512, 1, &[(1000, 1, 0)])).unwrap();
    let inode = Inode::try_from(&raw).unwrap();
    assert_eq!(inode.inode_type, InodeType::Directory);
    assert_eq!(inode.unix_mode, 0o0755);
    assert_eq!(inode.owner_uid, 1001);
    assert_eq!(inode.owner_gid, 20);
    assert_eq!(inode.size, 512);
    assert_eq!(inode.atime, 1_000_000_003);
    assert_eq!(inode.mtime, 1_000_000_002);
    assert_eq!(inode.ctime, 1_000_000_001);
    assert_eq!(inode.num_extents, 1);
    assert_eq!(inode.extents, vec![extent(1000, 1, 0)]);
    let mut it = inode.iter();
    assert_eq!(it.next(), Some(1000));
    assert_eq!(it.next(), None);
    assert_eq!(it.next(), None);
    assert_eq!(inode.blocks(), vec![1000]);
}

#[test]
fn inode_keeps_the_permission_bits_apart_from_the_type() {
    let raw = EfsInode::parse_inode(&inode_bytes(0o107777, 0, 0, &[])).unwrap();
    let inode = Inode::try_from(&raw).unwrap();
    assert_eq!(inode.inode_type, InodeType::RegularFile);
    assert_eq!(inode.unix_mode, 0o7777);
}

#[test]
fn inode_reads_no_more_extents_than_it_declares_and_drops_the_empty() {
    let raw = EfsInode::parse_inode(&inode_bytes(
        0o100644,
        0,
        3,
        &[(10, 1, 0), (0, 0, 0), (30, 2, 1), (40, 1, 3)],
    ))
    .unwrap();
    let inode = Inode::try_from(&raw).unwrap();
    assert_eq!(inode.num_extents, 3);
    assert_eq!(inode.extents, vec![extent(10, 1, 0), extent(30, 2, 1)]);
}

#[test]
fn inode_ignores_the_data_area_behind_its_extents() {
    let mut bytes = inode_bytes(0o100644, 0, 1, &[(10, 1, 0)]);
    bytes[40] = 0xff;
    let inode = Inode::try_from(&EfsInode::parse_inode(&bytes).unwrap()).unwrap();
    assert_eq!(inode.extents, vec![extent(10, 1, 0)]);
    bytes[32] = 0xff;
    assert_eq!(
        Inode::try_from(&EfsInode::parse_inode(&bytes).unwrap()),
        Err(SgidiskLibReadError::Codec(CodecError::ReservedNonZero))
    );
}

#[test]
fn inode_rejects_what_cannot_be() {
    let build = |bytes: Vec<u8>| Inode::try_from(&EfsInode::parse_inode(&bytes).unwrap());
    assert_eq!(
        build(inode_bytes(0o050644, 0, 0, &[])),
        Err(SgidiskLibReadError::Value(ValueError::UnknownInodeType { bits: 0o050000 }))
    );
    assert_eq!(
        build(inode_bytes(0o100644, -1, 0, &[])),
        Err(SgidiskLibReadError::Value(ValueError::Negative { field: Field::InodeSize, value: -1 }))
    );
    assert_eq!(
        build(inode_bytes(0o100644, 0, -3, &[])),
        Err(SgidiskLibReadError::Value(ValueError::Negative {
            field: Field::ExtentCount,
            value: -3
        }))
    );
    assert_eq!(
        build(inode_bytes(0o050644, -1, -3, &[])),
        Err(SgidiskLibReadError::Value(ValueError::UnknownInodeType { bits: 0o050000 }))
    );
}

#[test]
fn sort_orders_by_logical_offset_and_keeps_equal_ones_in_place() {
    let mut extents = vec![
        extent(1, 2, 5),
        extent(2, 0, 3),
        extent(3, 3, 0),
        extent(4, 2, 3),
        extent(5, 0, 5),
        extent(6, 0, 0),
    ];
    sort_extent_list(&mut extents);
    assert_eq!(
        extents,
        vec![
            extent(3, 3, 0),
            extent(6, 0, 0),
            extent(2, 0, 3),
            extent(4, 2, 3),
            extent(1, 2, 5),
            extent(5, 0, 5),
        ]
    );
    let mut expected = extents.clone();
    expected.sort_by_key(|e| e.ex_offset);
    assert_eq!(extents, expected);
    let mut empty: Vec<Extent> = vec![];
    sort_extent_list(&mut empty);
    assert_eq!(empty, vec![]);
}

#[test]
fn check_finds_the_first_extent_that_does_not_join() {
    assert_eq!(check_extent_list(&vec![]), Ok(()));
    assert_eq!(check_extent_list(&vec![extent(9, 3, 0), extent(7, 2, 3), extent(8, 1, 5)]), Ok(()));
    assert_eq!(
        check_extent_list(&vec![extent(9, 3, 1)]),
        Err(SgidiskLibReadError::Value(ValueError::NotContiguous { expected: 0, offset: 1 }))
    );
    assert_eq!(
        check_extent_list(&vec![extent(9, 3, 0), extent(7, 2, 4), extent(8, 1, 9)]),
        Err(SgidiskLibReadError::Value(ValueError::NotContiguous { expected: 3, offset: 4 }))
    );
    assert_eq!(
        check_extent_list(&vec![extent(9, 3, 0), extent(7, 2, 2)]),
        Err(SgidiskLibReadError::Value(ValueError::NotContiguous { expected: 3, offset: 2 }))
    );
}

#[test]
fn block_iterator_walks_every_block_of_every_extent() {
    let inode = Inode {
        inode_type: InodeType::RegularFile,
        unix_mode: 0o644,
        owner_uid: 0,
        owner_gid: 0,
        size: 0,
        ctime: 0,
        mtime: 0,
        atime: 0,
        num_extents: 4,
        extents: vec![extent(0, 0, 0), extent(100, 3, 0), extent(7, 0, 3), extent(50, 2, 3), extent(9, 0, 5)],
    };
    let mut it: InodeBlockIter = inode.iter();
    let mut seen = Vec::new();
    while let Some(block) = it.next() {
        seen.push(block);
    }
    assert_eq!(seen, vec![100, 101, 102, 50, 51]);
    assert_eq!(it.next(), None);
    assert_eq!(inode.blocks(), seen);
    assert_eq!(seen.len(), 3 + 2);
}

#[test]
fn block_iterator_of_an_inode_without_extents_is_empty() {
    let inode = Inode::try_from(&EfsInode::parse_inode(&inode_bytes(0o100644, 0, 0, &[])).unwrap()).unwrap();
    assert_eq!(inode.iter().next(), None);
    assert_eq!(inode.blocks(), Vec::<u64>::new());
}

#[test]
fn read_inode_finds_the_inode_by_its_number() {
    let efs = small_efs();
    let mut image = small_image();
    put_inode(&mut image, &efs, 2, &inode_bytes(0o040755, 512, 1, &[(10, 1, 0)]));
    put_inode(&mut image, &efs, 5, &inode_bytes(0o100600, 1536, 2, &[(31, 2, 1), (30, 1, 0)]));
    let root = efs.read_inode(&image, 2).unwrap();
    assert_eq!(root.inode_type, InodeType::Directory);
    assert_eq!(root.blocks(), vec![10]);
    let file = efs.read_inode(&image, 5).unwrap();
    assert_eq!(file.inode_type, InodeType::RegularFile);
    assert_eq!(file.extents, vec![extent(30, 1, 0), extent(31, 2, 1)]);
    assert_eq!(file.blocks(), vec![30, 31, 32]);
    assert_eq!(efs.read_raw_inode(&image, 5).unwrap().di_mode, 0o100600);
}

#[test]
fn read_inode_fails_where_the_inode_cannot_be() {
    let efs = small_efs();
    let image = small_image();
    assert_eq!(
        efs.read_inode(&image, 8),
        Err(SgidiskLibReadError::Bounds(BoundsError::InodeOffset { inode: 8 }))
    );
    assert_eq!(
        efs.read_inode(&image, 0),
        Err(SgidiskLibReadError::Value(ValueError::UnknownInodeType { bits: 0 }))
    );
    assert_eq!(
        efs.read_inode(&image[..2048], 2),
        Err(SgidiskLibReadError::Io(IoError::UnexpectedEof))
    );
    let tiny = Efs { size: 1024 + 100, ..small_efs() };
    assert_eq!(
        tiny.read_inode(&image, 0),
        Err(SgidiskLibReadError::Bounds(BoundsError::InodeOffset { inode: 0 }))
    );
    let snug = Efs { size: 1024 + 128, ..small_efs() };
    assert_eq!(
        snug.read_inode(&image, 0),
        Err(SgidiskLibReadError::Value(ValueError::UnknownInodeType { bits: 0 }))
    );
    assert_eq!(
        snug.read_inode(&image, 1),
        Err(SgidiskLibReadError::Bounds(BoundsError::InodeOffset { inode: 1 }))
    );
}

#[test]
fn read_inode_rejects_extents_that_leave_a_gap() {
    let efs = small_efs();
    let mut image = small_image();
    put_inode(&mut image, &efs, 3, &inode_bytes(0o100600, 0, 2, &[(30, 1, 0), (31, 2, 2)]));
    assert_eq!(
        efs.read_inode(&image, 3),
        Err(SgidiskLibReadError::Value(ValueError::NotContiguous { expected: 1, offset: 2 }))
    );
}

#[test]
fn indirect_extents_are_read_from_the_blocks_that_the_inode_names() {
    let efs = small_efs();
    let mut image = small_image();
    put_inode(&mut image, &efs, 1, &inode_bytes(0o100644, 20 * 512, 20, &[(500, 2, 0)]));
    let at = 1024 + 500 * 512;
    for i in 0..20u32 {
        let k = 19 - i;
        let place = at + 8 * i as usize;
        image[place..place + 8].copy_from_slice(&extent_bytes(600 + k, 1, k));
    }
    image[at + 160] = 0xff;
    let inode = efs.read_inode(&image, 1).unwrap();
    assert_eq!(inode.num_extents, 20);
    assert_eq!(inode.extents.len(), 20);
    for (i, e) in inode.extents.iter().enumerate() {
        assert_eq!(*e, extent(600 + i as u32, 1, i as u32));
    }
    assert_eq!(inode.blocks(), (600..620).collect::<Vec<u64>>());
}

#[test]
fn indirect_extents_fill_whole_blocks_first() {
    let efs = small_efs();
    let mut image = small_image();
    put_inode(&mut image, &efs, 1, &inode_bytes(0o100644, 0, 70, &[(500, 1, 0), (0, 0, 0), (700, 1, 0)]));
    for i in 0..64u32 {
        let place = 1024 + 500 * 512 + 8 * i as usize;
        image[place..place + 8].copy_from_slice(&extent_bytes(100 + i, 1, i));
    }
    for i in 0..6u32 {
        let place = 1024 + 700 * 512 + 8 * i as usize;
        image[place..place + 8].copy_from_slice(&extent_bytes(200 + i, 1, 64 + i));
    }
    let inode = efs.read_inode(&image, 1).unwrap();
    assert_eq!(inode.extents.len(), 70);
    assert_eq!(inode.extents[63], extent(163, 1, 63));
    assert_eq!(inode.extents[64], extent(200, 1, 64));
    assert_eq!(inode.extents[69], extent(205, 1, 69));
}

#[test]
fn indirect_extents_must_be_as_many_as_declared() {
    let efs = small_efs();
    let mut image = small_image();
    put_inode(&mut image, &efs, 1, &inode_bytes(0o100644, 0, 70, &[(500, 1, 0)]));
    assert_eq!(
        efs.read_inode(&image, 1),
        Err(SgidiskLibReadError::Value(ValueError::ExtentCount { declared: 70, parsed: 64 }))
    );
}

#[test]
fn indirect_blocks_must_lie_inside_the_filesystem() {
    let efs = small_efs();
    let mut image = small_image();
    put_inode(&mut image, &efs, 1, &inode_bytes(0o100644, 0, 20, &[(1023, 2, 0)]));
    assert_eq!(
        efs.read_inode(&image, 1),
        Err(SgidiskLibReadError::Bounds(BoundsError::BlockPastEnd { block: 1023, len: 1024 }))
    );
    put_inode(&mut image, &efs, 1, &inode_bytes(0o100644, 0, 20, &[(1000, 2, 0)]));
    assert_eq!(
        efs.read_inode(&image[..1024 + 1000 * 512 + 100], 1),
        Err(SgidiskLibReadError::Io(IoError::UnexpectedEof))
    );
    image[1024 + 1000 * 512 + 8] = 1;
    assert_eq!(
        efs.read_inode(&image, 1),
        Err(SgidiskLibReadError::Codec(CodecError::ReservedNonZero))
    );
}

#[test]
fn expand_leaves_direct_extents_alone() {
    let efs = small_efs();
    let image = small_image();
    let raw = EfsInode::parse_inode(&inode_bytes(0o100644, 0, 12, &[(30, 1, 5), (31, 2, 0)])).unwrap();
    let mut inode = Inode::try_from(&raw).unwrap();
    assert_eq!(inode.expand_extents(&image, &efs), Ok(()));
    assert_eq!(inode.extents, vec![extent(30, 1, 5), extent(31, 2, 0)]);
    inode.sort_extents();
    assert_eq!(inode.extents, vec![extent(31, 2, 0), extent(30, 1, 5)]);
    assert_eq!(
        inode.check_extents(),
        Err(SgidiskLibReadError::Value(ValueError::NotContiguous { expected: 2, offset: 5 }))
    );
    let mut again = Inode::try_from(&raw).unwrap();
    assert_eq!(
        again.normalize_extents(&image, &efs),
        Err(SgidiskLibReadError::Value(ValueError::NotContiguous { expected: 2, offset: 5 }))
    );
    assert_eq!(again.extents, vec![extent(31, 2, 0), extent(30, 1, 5)]);
}

#[test]
fn fmt_inode_names_type_owner_and_size() {
    let raw = EfsInode::parse_inode(&inode_bytes(0o040755, 512, 1, &[(1000, 1, 0)])).unwrap();
    let inode = Inode::try_from(&raw).unwrap();
    assert_eq!(
        fmt_inode_with(&inode, LocalTime::new(1_000_000_002, 0)),
        "Directory 1001:20 512 2001-09-09T01:46:42+00:00"
    );
    assert_eq!(
        fmt_inode_with(&inode, LocalTime::new(1_000_000_002, -5 * 3600)),
        "Directory 1001:20 512 2001-09-08T20:46:42-05:00"
    );
    assert_eq!(fmt_inode_with(&inode, None), "Directory 1001:20 512 1000000002");
    let line = fmt_inode(&inode);
    assert!(line.starts_with("Directory 1001:20 512 "));
    assert_eq!(line, fmt_inode_with(&inode, local_time(inode.mtime)));
    assert!(line["Directory 1001:20 512 ".len()..].starts_with("2001-09-"));
}

#[test]
fn local_time_is_written_with_its_offset() {
    let at = |seconds, offset| LocalTime::new(seconds, offset).unwrap().text();
    assert_eq!(at(0, 0), "1970-01-01T00:00:00+00:00");
    assert_eq!(at(0, 3600), "1970-01-01T01:00:00+01:00");
    assert_eq!(at(0, -1), "1969-12-31T23:59:59-00:00:01");
    assert_eq!(at(1_000_000_002, 19_800), "2001-09-09T07:16:42+05:30");
    assert_eq!(at(i32::MAX, 0), "2038-01-19T03:14:07+00:00");
    assert_eq!(at(i32::MIN, 0), "1901-12-13T20:45:52+00:00");
    assert_eq!(at(i32::MAX, 86_399), "2038-01-20T03:14:06+23:59:59");
    assert_eq!(at(i32::MIN, -86_399), "1901-12-12T20:45:53-23:59:59");
}

#[test]
fn local_time_keeps_the_seconds() {
    let there = local_time_at(77, Some(-3600)).unwrap();
    assert_eq!((there.seconds(), there.offset()), (77, -3600));
    assert_eq!(local_time_at(77, Some(-3600)), LocalTime::new(77, -3600));
    assert_eq!(local_time_at(77, None), None);
    assert_eq!(local_time_at(77, Some(86_400)), None);
    assert_eq!(LocalTime::new(0, 86_400), None);
    assert_eq!(LocalTime::new(0, -86_400), None);
    assert!(LocalTime::new(0, 86_399).is_some());
    assert!(LocalTime::new(0, -86_399).is_some());
    for secs in [0, 1_000_000_002, i32::MAX, i32::MIN, -1] {
        let local = local_time(secs).unwrap();
        assert_eq!(local.seconds(), secs);
        assert!(-86_400 < local.offset() && local.offset() < 86_400);
    }
    assert_eq!(time_text_with(-5, None), "-5");
    assert_eq!(time_text_with(-5, LocalTime::new(60, 60)), "1970-01-01T00:02:00+00:01");
}

#[test]
fn each_time_of_an_inode_has_its_text() {
    let raw = EfsInode::parse_inode(&inode_bytes(0o040755, 512, 1, &[(1000, 1, 0)])).unwrap();
    let inode = Inode::try_from(&raw).unwrap();
    assert_eq!(inode.time(InodeTime::Access), 1_000_000_003);
    assert_eq!(inode.time(InodeTime::Modification), 1_000_000_002);
    assert_eq!(inode.time(InodeTime::Creation), 1_000_000_001);
    for which in [InodeTime::Access, InodeTime::Modification, InodeTime::Creation] {
        let text = inode_time_text(&inode, which);
        assert_eq!(text, local_time(inode.time(which)).unwrap().text());
        assert!(text.starts_with("2001-09-"));
    }
    let a = inode_time_text(&inode, InodeTime::Access);
    let c = inode_time_text(&inode, InodeTime::Creation);
    assert_eq!(&a[17..19], "43");
    assert_eq!(&c[17..19], "41");
}

#[test]
fn normalized_extents_begin_where_the_earlier_ones_end() {
    let efs = small_efs();
    let mut image = small_image();
    put_inode(
        &mut image,
        &efs,
        6,
        &inode_bytes(0o100600, 0, 5, &[(90, 4, 9), (10, 2, 0), (50, 7, 2), (0, 0, 0), (70, 1, 13)]),
    );
    let inode = efs.read_inode(&image, 6).unwrap();
    assert_eq!(
        inode.extents,
        vec![extent(10, 2, 0), extent(50, 7, 2), extent(90, 4, 9), extent(70, 1, 13)]
    );
    let mut sum = 0u32;
    for (i, e) in inode.extents.iter().enumerate() {
        assert_eq!(e.ex_offset, sum);
        if i > 0 {
            let before = inode.extents[i - 1];
            assert!(before.ex_offset < e.ex_offset);
            assert!(before.ex_offset + before.ex_length as u32 <= e.ex_offset);
        }
        sum += e.ex_length as u32;
    }
    let blocks = inode.blocks();
    assert_eq!(blocks.len() as u32, sum);
    for block in &blocks {
        assert!(inode
            .extents
            .iter()
            .any(|e| (e.ex_bn as u64..e.ex_bn as u64 + e.ex_length as u64).contains(block)));
    }
}
