use sgidisklib::efs::raw_sb::{EfsSuperblock, EfsSuperblockDirty, EfsSuperblockMagic};
use sgidisklib::efs::Efs;
use sgidisklib::error::{BoundsError, CodecError, Field, IoError, SgidiskLibReadError, ValueError};

fn geometry_efs() -> Efs {
    Efs {
        sector_sz: 512,
        partition_start: 4096,
        size: 51_200_000,
        cg_start: 2,
        cg_size: 5000,
        cg_inodes: 8,
        cg_count: 20,
    }
}

fn superblock_bytes(fs_size: i32, firstcg: i32, cgfsize: i32, cgisize: i16, ncg: i16) -> Vec<u8> {
    let mut b = vec![0u8; 92];
    b[0..4].copy_from_slice(&fs_size.to_be_bytes());
    b[4..8].copy_from_slice(&firstcg.to_be_bytes());
    b[8..12].copy_from_slice(&cgfsize.to_be_bytes());
    b[12..14].copy_from_slice(&cgisize.to_be_bytes());
    b[14..16].copy_from_slice(&63i16.to_be_bytes());
    b[16..18].copy_from_slice(&16i16.to_be_bytes());
    b[18..20].copy_from_slice(&ncg.to_be_bytes());
    b[20..22].copy_from_slice(&0i16.to_be_bytes());
    b[24..28].copy_from_slice(&0x2345_6789i32.to_be_bytes());
    b[28..32].copy_from_slice(&0x0007_295Ai32.to_be_bytes());
    b[32..38].copy_from_slice(b"fname\0");
    b[38..44].copy_from_slice(b"fpack\0");
    b[88..92].copy_from_slice(&(-2i32).to_be_bytes());
    b
}

#[test]
fn check_read_absolute_holds_exactly_inside_the_partition() {
    let efs = geometry_efs();
    assert_eq!(efs.check_read_absolute(4096, 51_200_000), Ok(()));
    assert_eq!(efs.check_read_absolute(4096, 0), Ok(()));
    assert_eq!(efs.check_read_absolute(4096 + 51_200_000, 0), Ok(()));
    assert_eq!(
        efs.check_read_absolute(4095, 1),
        Err(SgidiskLibReadError::Bounds(BoundsError::BeforeStart { start: 4095 }))
    );
    assert_eq!(
        efs.check_read_absolute(4096, 51_200_001),
        Err(SgidiskLibReadError::Bounds(BoundsError::PastEnd { start: 4096, len: 51_200_001 }))
    );
    assert_eq!(
        efs.check_read_absolute(u64::MAX, u64::MAX),
        Err(SgidiskLibReadError::Bounds(BoundsError::PastEnd { start: u64::MAX, len: u64::MAX }))
    );
}

#[test]
fn check_read_block_counts_in_blocks() {
    let efs = geometry_efs();
    assert_eq!(efs.check_read_block(0, 512), Ok(()));
    assert_eq!(efs.check_read_block(99_999, 512), Ok(()));
    assert_eq!(
        efs.check_read_block(99_999, 513),
        Err(SgidiskLibReadError::Bounds(BoundsError::BlockPastEnd { block: 99_999, len: 513 }))
    );
    assert_eq!(
        efs.check_read_block(u64::MAX, 1),
        Err(SgidiskLibReadError::Bounds(BoundsError::BlockPastEnd { block: u64::MAX, len: 1 }))
    );
}

#[test]
fn cg_start_rel_is_the_origin_of_the_group() {
    let efs = geometry_efs();
    assert_eq!(efs.cg_start_rel(0), Some(2 * 512));
    assert_eq!(efs.cg_start_rel(1), Some((2 + 5000) * 512));
    assert_eq!(efs.cg_start_rel(19), Some((2 + 19 * 5000) * 512));
    assert_eq!(efs.cg_start_rel(20), None);
    let short = Efs { size: 5000 * 512, ..geometry_efs() };
    assert_eq!(short.cg_start_rel(0), Some(1024));
    assert_eq!(short.cg_start_rel(1), None);
    let huge = Efs { cg_size: u64::MAX, cg_count: u64::MAX, ..geometry_efs() };
    assert_eq!(huge.cg_start_rel(u64::MAX - 1), None);
}

#[test]
fn inode_start_follows_the_formula() {
    let efs = geometry_efs();
    assert_eq!(efs.inode_start_rel(0), Some(1024));
    assert_eq!(efs.inode_start_rel(2), Some(1024 + 256));
    assert_eq!(efs.inode_start(2), Ok(4096 + 1024 + 256));
    assert_eq!(efs.inode_start(7), Ok(4096 + 1024 + 7 * 128));
    assert_eq!(efs.inode_start(8), Ok(4096 + (2 + 5000) * 512));
    assert_eq!(efs.inode_start(9), Ok(4096 + (2 + 5000) * 512 + 128));
    assert_eq!(
        efs.inode_start(160),
        Err(SgidiskLibReadError::Bounds(BoundsError::InodeOffset { inode: 160 }))
    );
}

#[test]
fn inode_start_of_an_inode_behind_the_end_is_out_of_bounds() {
    let efs = Efs {
        sector_sz: 512,
        partition_start: 0,
        size: 1024,
        cg_start: 1,
        cg_size: 1,
        cg_inodes: 8,
        cg_count: 1,
    };
    let out = |inode| Err(SgidiskLibReadError::Bounds(BoundsError::InodeOffset { inode }));
    assert_eq!(efs.cg_start_rel(0), Some(512));
    assert_eq!(efs.inode_start(0), Ok(512));
    assert_eq!(efs.inode_start(3), Ok(896));
    assert_eq!(efs.inode_start_rel(3), Some(896));
    assert_eq!(efs.inode_start(4), out(4));
    assert_eq!(efs.inode_start_rel(4), None);
    assert_eq!(efs.inode_start(7), out(7));
    assert_eq!(efs.inode_start(8), out(8));
    let moved = Efs { partition_start: 4096, size: 1023, ..efs };
    assert_eq!(moved.inode_start(2), Ok(4096 + 768));
    assert_eq!(moved.inode_start(3), out(3));
    let whole = Efs { size: 512 + 8 * 128, ..efs };
    assert_eq!(whole.inode_start(7), Ok(1408));
}

#[test]
fn inode_start_steps_and_jumps() {
    let efs = geometry_efs();
    for n in 0..7u64 {
        let here = efs.inode_start(n).unwrap();
        let next = efs.inode_start(n + 1).unwrap();
        assert!(here <= next);
        assert_eq!(next - here, 128);
    }
    let last = efs.inode_start(7).unwrap();
    let first = efs.inode_start(8).unwrap();
    assert_eq!(first - (last + 128), 5000 * 512 - 8 * 128);
    assert_eq!(efs.inode_start(8).unwrap() - efs.inode_start(0).unwrap(), 5000 * 512);
}

#[test]
fn inode_start_of_a_filesystem_without_inodes_is_out_of_bounds() {
    let efs = Efs { cg_inodes: 0, ..geometry_efs() };
    assert_eq!(efs.inode_start_rel(0), None);
    assert_eq!(
        efs.inode_start(0),
        Err(SgidiskLibReadError::Bounds(BoundsError::InodeOffset { inode: 0 }))
    );
}

#[test]
fn inode_start_that_does_not_fit_is_out_of_bounds() {
    let efs = Efs { partition_start: u64::MAX - 100, ..geometry_efs() };
    assert_eq!(
        efs.inode_start(0),
        Err(SgidiskLibReadError::Bounds(BoundsError::InodeOffset { inode: 0 }))
    );
}

#[test]
fn block_absolute_counts_from_the_partition() {
    let efs = geometry_efs();
    assert_eq!(efs.block_absolute(0), 4096);
    assert_eq!(efs.block_absolute(500), 4096 + 500 * 512);
}

#[test]
fn seek_block_stops_at_the_end() {
    let efs = geometry_efs();
    assert_eq!(efs.seek_block(10), Ok(4096 + 5120));
    assert_eq!(efs.seek_block(100_000), Ok(4096 + 51_200_000));
    assert_eq!(
        efs.seek_block(100_001),
        Err(SgidiskLibReadError::Bounds(BoundsError::BlockPastEnd { block: 100_001, len: 0 }))
    );
}

#[test]
fn superblock_decodes_field_by_field() {
    let sb = EfsSuperblock::parse_superblock(&superblock_bytes(100_000, 2, 5000, 2, 20)).unwrap();
    assert_eq!(sb.fs_size, 100_000);
    assert_eq!(sb.fs_firstcg, 2);
    assert_eq!(sb.fs_cgfsize, 5000);
    assert_eq!(sb.fs_cgisize, 2);
    assert_eq!(sb.fs_sectors, 63);
    assert_eq!(sb.fs_heads, 16);
    assert_eq!(sb.fs_ncg, 20);
    assert_eq!(sb.fs_dirty, EfsSuperblockDirty::Clean);
    assert_eq!(sb.fs_time, 0x2345_6789);
    assert_eq!(sb.fs_magic, EfsSuperblockMagic::NewMagic);
    assert_eq!(sb.fs_fname, b"fname\0");
    assert_eq!(sb.fs_fpack, b"fpack\0");
    assert_eq!(sb.fs_spare, vec![0u8; 20]);
    assert_eq!(sb.fs_checksum, -2);
}

#[test]
fn superblock_rejects_unknown_tags() {
    let mut b = superblock_bytes(100_000, 2, 5000, 2, 20);
    b[20..22].copy_from_slice(&0x0BAEi16.to_be_bytes());
    assert_eq!(
        EfsSuperblock::parse_superblock(&b),
        Err(SgidiskLibReadError::Codec(CodecError::UnknownTag { value: 0x0BAE }))
    );
    let mut b = superblock_bytes(100_000, 2, 5000, 2, 20);
    b[28..32].copy_from_slice(&0x0007_295Bi32.to_be_bytes());
    assert_eq!(
        EfsSuperblock::parse_superblock(&b),
        Err(SgidiskLibReadError::Codec(CodecError::UnknownTag { value: 0x0007_295B }))
    );
    assert_eq!(
        EfsSuperblock::parse_superblock(&b[..91]),
        Err(SgidiskLibReadError::Codec(CodecError::LengthMismatch))
    );
}

#[test]
fn superblock_knows_every_dirty_flag() {
    for (tag, flag) in [
        (0x0000i16, EfsSuperblockDirty::Clean),
        (0x0BAD, EfsSuperblockDirty::ActiveDirty),
        (0x7777, EfsSuperblockDirty::Active),
        (0x1234, EfsSuperblockDirty::Dirty),
    ] {
        let mut b = superblock_bytes(1, 1, 1, 1, 1);
        b[20..22].copy_from_slice(&tag.to_be_bytes());
        assert_eq!(EfsSuperblock::parse_superblock(&b).unwrap().fs_dirty, flag);
        assert_eq!(flag.tag(), tag);
    }
    let mut b = superblock_bytes(1, 1, 1, 1, 1);
    b[28..32].copy_from_slice(&0x0007_2959i32.to_be_bytes());
    assert_eq!(EfsSuperblock::parse_superblock(&b).unwrap().fs_magic, EfsSuperblockMagic::OldMagic);
}

#[test]
fn superblock_at_offset_512_gives_the_geometry() {
    let mut image = vec![0u8; 4096 + 1024];
    image[4096 + 512..4096 + 512 + 92].copy_from_slice(&superblock_bytes(100_000, 2, 5000, 2, 20));
    let efs = Efs::read(&image, 512, 4096).unwrap();
    assert_eq!(efs, geometry_efs());
    assert_eq!(efs.size, 51_200_000);
    assert_eq!(efs.cg_start, 2);
    assert_eq!(efs.cg_size, 5000);
    assert_eq!(efs.cg_inodes, 8);
    assert_eq!(efs.cg_count, 20);
}

#[test]
fn three_blocks_of_inodes_are_twelve_inodes() {
    let sb = EfsSuperblock::parse_superblock(&superblock_bytes(100_000, 2, 5000, 3, 20)).unwrap();
    assert_eq!(Efs::try_from(&sb, 512).unwrap().cg_inodes, 12);
}

#[test]
fn geometry_rejects_negative_fields() {
    let negative = |field, value| Err(SgidiskLibReadError::Value(ValueError::Negative { field, value }));
    let parse = |b: Vec<u8>| Efs::try_from(&EfsSuperblock::parse_superblock(&b).unwrap(), 512);
    assert_eq!(parse(superblock_bytes(-1, 2, 5000, 2, 20)), negative(Field::FsSize, -1));
    assert_eq!(parse(superblock_bytes(1, -2, 5000, 2, 20)), negative(Field::FirstCg, -2));
    assert_eq!(parse(superblock_bytes(1, 2, -5000, 2, 20)), negative(Field::CgSize, -5000));
    assert_eq!(parse(superblock_bytes(1, 2, 5000, -2, 20)), negative(Field::CgInodeArea, -1024));
    assert_eq!(parse(superblock_bytes(1, 2, 5000, 2, -20)), negative(Field::CgCount, -20));
    assert_eq!(parse(superblock_bytes(-1, -2, -3, -4, -5)), negative(Field::FsSize, -1));
}

#[test]
fn geometry_rejects_a_size_that_does_not_fit() {
    let sb = EfsSuperblock::parse_superblock(&superblock_bytes(3, 2, 5000, 2, 20)).unwrap();
    assert_eq!(
        Efs::try_from(&sb, u64::MAX / 2),
        Err(SgidiskLibReadError::Value(ValueError::SizeOverflow))
    );
    assert_eq!(Efs::try_from(&sb, u64::MAX / 3).unwrap().size, u64::MAX);
}

#[test]
fn reading_a_superblock_behind_the_end_is_an_io_failure() {
    let image = vec![0u8; 600];
    assert_eq!(Efs::read(&image, 512, 0), Err(SgidiskLibReadError::Io(IoError::UnexpectedEof)));
    assert_eq!(
        Efs::read(&image, 512, u64::MAX - 10),
        Err(SgidiskLibReadError::Io(IoError::SeekOverflow))
    );
}
