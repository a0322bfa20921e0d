use sgidisklib::efs::dir::{Directory, ROOT_DIRECTORY_INODE};
use sgidisklib::efs::raw_dir::{DirectoryBlock, DirectoryEntry};
use sgidisklib::efs::{Efs, InodeType};
use sgidisklib::error::{BoundsError, CodecError, SgidiskLibReadError, ValueError};
use sgidisklib::names::{bytes_order, name_of, NameOrder};

fn dir_efs() -> Efs {
    Efs {
        sector_sz: 512,
        partition_start: 512,
        size: 64 * 512,
        cg_start: 2,
        cg_size: 20,
        cg_inodes: 4,
        cg_count: 2,
    }
}

fn dir_inode_bytes(mode: u16, extents: &[(u32, u8, u32)]) -> Vec<u8> {
    let mut b = vec![0u8; 128];
    b[0..2].copy_from_slice(&mode.to_be_bytes());
    b[28..30].copy_from_slice(&(extents.len() as i16).to_be_bytes());
    for (i, (bn, length, offset)) in extents.iter().enumerate() {
        let bn = bn.to_be_bytes();
        let offset = offset.to_be_bytes();
        b[32 + 8 * i..40 + 8 * i]
            .copy_from_slice(&[0, bn[1], bn[2], bn[3], *length, offset[1], offset[2], offset[3]]);
    }
    b
}

fn dir_block_bytes(entries: &[(u32, &[u8])]) -> Vec<u8> {
    let mut b = vec![0u8; 512];
    b[0] = 0xBE;
    b[1] = 0xEF;
    b[3] = entries.len() as u8;
    let mut top = 512usize;
    for (slot, (inode, name)) in entries.iter().enumerate() {
        let size = (5 + name.len() + 1) & !1;
        top -= size;
        b[top..top + 4].copy_from_slice(&inode.to_be_bytes());
        b[top + 4] = name.len() as u8;
        b[top + 5..top + 5 + name.len()].copy_from_slice(name);
        b[4 + slot] = (top / 2) as u8;
    }
    b[2] = (top / 2) as u8;
    b
}

fn dir_image(blocks: &[(u64, Vec<u8>)], inodes: &[(u64, Vec<u8>)]) -> Vec<u8> {
    let efs = dir_efs();
    let mut image = vec![0u8; 512 + 64 * 512];
    for (n, bytes) in inodes {
        let at = efs.inode_start(*n).unwrap() as usize;
        image[at..at + 128].copy_from_slice(bytes);
    }
    for (block, bytes) in blocks {
        let at = efs.block_absolute(*block) as usize;
        image[at..at + 512].copy_from_slice(bytes);
    }
    image
}

#[test]
fn directory_block_with_two_slots_gives_two_entries_in_slot_order() {
    let mut b = vec![0u8; 512];
    b[0] = 0xBE;
    b[1] = 0xEF;
    b[2] = 3;
    b[3] = 2;
    b[4] = 3;
    b[5] = 4;
    b[6..10].copy_from_slice(&[0, 0, 0, 0]);
    b[10] = 1;
    b[11] = b'z';
    b[12] = 2;
    b[13] = b'a';
    b[14] = b'b';
    let block = DirectoryBlock::parse_directory_block(&b).unwrap();
    assert_eq!(block.firstused, 3);
    assert_eq!(block.slots, 2);
    assert_eq!(block.space.len(), 508);
    let entries = block.dir_entries().unwrap();
    assert_eq!(
        entries,
        vec![
            DirectoryEntry { inode: 0, d_namelen: 1, d_name: b"z".to_vec() },
            DirectoryEntry { inode: 0x00_00_01_7A, d_namelen: 2, d_name: b"ab".to_vec() },
        ]
    );
}

#[test]
fn directory_block_slot_below_the_floor_is_out_of_bounds() {
    let mut b = vec![0u8; 512];
    b[0] = 0xBE;
    b[1] = 0xEF;
    b[3] = 1;
    b[4] = 1;
    let block = DirectoryBlock::parse_directory_block(&b).unwrap();
    assert_eq!(
        block.dir_entries(),
        Err(SgidiskLibReadError::Bounds(BoundsError::SlotBeforePayload { compact: 1 }))
    );
    b[4] = 0;
    assert_eq!(
        DirectoryBlock::parse_directory_block(&b).unwrap().dir_entries(),
        Err(SgidiskLibReadError::Bounds(BoundsError::SlotBeforePayload { compact: 0 }))
    );
}

#[test]
fn directory_block_slot_at_the_floor_is_the_start_of_the_payload() {
    let mut b = vec![0u8; 512];
    b[0] = 0xBE;
    b[1] = 0xEF;
    b[3] = 1;
    b[4] = 2;
    let entries = DirectoryBlock::parse_directory_block(&b).unwrap().dir_entries().unwrap();
    assert_eq!(entries, vec![DirectoryEntry { inode: 0x0200_0000, d_namelen: 0, d_name: vec![] }]);
}

#[test]
fn directory_block_entry_must_fit_into_the_payload() {
    let mut b = vec![0u8; 512];
    b[0] = 0xBE;
    b[1] = 0xEF;
    b[3] = 1;
    b[4] = 255;
    assert_eq!(
        DirectoryBlock::parse_directory_block(&b).unwrap().dir_entries(),
        Err(SgidiskLibReadError::Codec(CodecError::LengthMismatch))
    );
    b[4] = 254;
    assert_eq!(
        DirectoryBlock::parse_directory_block(&b).unwrap().dir_entries(),
        Err(SgidiskLibReadError::Codec(CodecError::LengthMismatch))
    );
    b[4] = 253;
    b[510] = 2;
    assert_eq!(
        DirectoryBlock::parse_directory_block(&b).unwrap().dir_entries(),
        Err(SgidiskLibReadError::Codec(CodecError::LengthMismatch))
    );
    b[510] = 1;
    b[511] = b'q';
    assert_eq!(
        DirectoryBlock::parse_directory_block(&b).unwrap().dir_entries(),
        Ok(vec![DirectoryEntry { inode: 0, d_namelen: 1, d_name: b"q".to_vec() }])
    );
}

#[test]
fn directory_block_rejects_too_many_slots_and_a_wrong_magic() {
    let mut b = vec![0u8; 512];
    b[0] = 0xBE;
    b[1] = 0xEF;
    b[3] = 64;
    assert_eq!(
        DirectoryBlock::parse_directory_block(&b).unwrap().dir_entries(),
        Err(SgidiskLibReadError::Value(ValueError::TooManySlots { slots: 64 }))
    );
    b[1] = 0xEE;
    assert_eq!(
        DirectoryBlock::parse_directory_block(&b),
        Err(SgidiskLibReadError::Codec(CodecError::BadMagic))
    );
    assert_eq!(
        DirectoryBlock::parse_directory_block(&b[..511]),
        Err(SgidiskLibReadError::Codec(CodecError::LengthMismatch))
    );
}

#[test]
fn directory_block_ignores_firstused() {
    let mut b = dir_block_bytes(&[(7, b"name")]);
    let entries = DirectoryBlock::parse_directory_block(&b).unwrap().dir_entries().unwrap();
    b[2] = 0;
    assert_eq!(DirectoryBlock::parse_directory_block(&b).unwrap().dir_entries().unwrap(), entries);
    b[2] = 255;
    assert_eq!(DirectoryBlock::parse_directory_block(&b).unwrap().dir_entries().unwrap(), entries);
    assert_eq!(entries, vec![DirectoryEntry { inode: 7, d_namelen: 4, d_name: b"name".to_vec() }]);
}

#[test]
fn names_are_ordered_byte_by_byte() {
    assert_eq!(bytes_order(b"", b""), NameOrder::Same);
    assert_eq!(bytes_order(b"", b"a"), NameOrder::Before);
    assert_eq!(bytes_order(b"a", b""), NameOrder::After);
    assert_eq!(bytes_order(b"abc", b"abd"), NameOrder::Before);
    assert_eq!(bytes_order(b"abd", b"abc"), NameOrder::After);
    assert_eq!(bytes_order(b"ab", b"abc"), NameOrder::Before);
    assert_eq!(bytes_order(b"abc", b"abc"), NameOrder::Same);
    assert_eq!(bytes_order(b"Z", b"a"), NameOrder::Before);
    assert_eq!(bytes_order("é".as_bytes(), b"z"), NameOrder::After);
}

#[test]
fn names_must_be_utf8() {
    assert_eq!(name_of(b"unix"), Ok("unix".to_string()));
    assert_eq!(name_of("héllo".as_bytes()), Ok("héllo".to_string()));
    assert_eq!(name_of(b""), Ok(String::new()));
    assert_eq!(name_of(&[0x66, 0xff]), Err(SgidiskLibReadError::Value(ValueError::NameNotUtf8)));
    assert_eq!(name_of(&[0xc3]), Err(SgidiskLibReadError::Value(ValueError::NameNotUtf8)));
}

#[test]
fn read_dir_lists_the_names_in_their_order() {
    let image = dir_image(
        &[(10, dir_block_bytes(&[(3, b"usr"), (2, b".."), (5, b"bin"), (2, b".")]))],
        &[
            (2, dir_inode_bytes(0o040755, &[(10, 1, 0)])),
            (3, dir_inode_bytes(0o040700, &[])),
            (5, dir_inode_bytes(0o100644, &[(30, 2, 0)])),
        ],
    );
    let dir = Directory::read_dir(&image, &dir_efs(), ROOT_DIRECTORY_INODE).unwrap();
    assert_eq!(dir.directory_inode.inode_type, InodeType::Directory);
    let names: Vec<&str> = dir.entries.iter().map(|e| e.name.as_str()).collect();
    assert_eq!(names, vec![".", "..", "bin", "usr"]);
    let ids: Vec<u64> = dir.entries.iter().map(|e| e.inode_id).collect();
    assert_eq!(ids, vec![2, 2, 5, 3]);
    assert_eq!(dir.entries[2].inode.inode_type, InodeType::RegularFile);
    assert_eq!(dir.entries[2].inode.blocks(), vec![30, 31]);
    assert_eq!(dir.entries[3].inode.unix_mode, 0o700);
    assert_eq!(dir.get("bin").map(|e| e.inode_id), Some(5));
    assert_eq!(dir.get("..").map(|e| e.inode_id), Some(2));
    assert_eq!(dir.get("usr").map(|e| &e.inode), Some(&dir.entries[3].inode));
    assert!(dir.get("Bin").is_none());
    assert!(dir.get("").is_none());
    for entry in &dir.entries {
        assert_eq!(dir_efs().read_inode(&image, entry.inode_id).unwrap(), entry.inode);
    }
}

#[test]
fn read_dir_walks_all_blocks_and_the_last_of_a_name_wins() {
    let image = dir_image(
        &[
            (10, dir_block_bytes(&[(3, b"m"), (5, b"x")])),
            (11, dir_block_bytes(&[])),
            (20, dir_block_bytes(&[(5, b"m"), (3, b"a")])),
        ],
        &[
            (2, dir_inode_bytes(0o040755, &[(20, 1, 2), (10, 2, 0)])),
            (3, dir_inode_bytes(0o040700, &[])),
            (5, dir_inode_bytes(0o100644, &[])),
        ],
    );
    let dir = Directory::read_dir(&image, &dir_efs(), 2).unwrap();
    let listing: Vec<(&str, u64)> = dir.entries.iter().map(|e| (e.name.as_str(), e.inode_id)).collect();
    assert_eq!(listing, vec![("a", 3), ("m", 5), ("x", 5)]);
    assert_eq!(dir.entries[1].inode.inode_type, InodeType::RegularFile);
}

#[test]
fn read_dir_of_an_empty_directory_lists_nothing() {
    let image = dir_image(&[], &[(2, dir_inode_bytes(0o040755, &[]))]);
    let dir = Directory::read_dir(&image, &dir_efs(), 2).unwrap();
    assert!(dir.entries.is_empty());
}

#[test]
fn read_dir_rejects_what_is_no_directory() {
    let image = dir_image(&[], &[(2, dir_inode_bytes(0o100644, &[]))]);
    assert_eq!(
        Directory::read_dir(&image, &dir_efs(), 2),
        Err(SgidiskLibReadError::Value(ValueError::NotADirectory { inode: 2 }))
    );
    assert_eq!(
        Directory::read_dir(&image, &dir_efs(), 9),
        Err(SgidiskLibReadError::Bounds(BoundsError::InodeOffset { inode: 9 }))
    );
}

#[test]
fn read_dir_fails_with_the_first_entry_that_fails() {
    let efs = dir_efs();
    let inodes = vec![
        (2, dir_inode_bytes(0o040755, &[(10, 1, 0)])),
        (3, dir_inode_bytes(0o040700, &[])),
    ];
    let image = dir_image(&[(10, dir_block_bytes(&[(3, b"ok"), (3, &[0xff, 0xfe]), (1, b"bad")]))], &inodes);
    assert_eq!(
        Directory::read_dir(&image, &efs, 2),
        Err(SgidiskLibReadError::Value(ValueError::NameNotUtf8))
    );
    let image = dir_image(&[(10, dir_block_bytes(&[(3, b"ok"), (1, b"bad"), (3, &[0xff])]))], &inodes);
    assert_eq!(
        Directory::read_dir(&image, &efs, 2),
        Err(SgidiskLibReadError::Value(ValueError::UnknownInodeType { bits: 0 }))
    );
    let image = dir_image(&[(10, dir_block_bytes(&[(3, b"ok"), (900, b"far")]))], &inodes);
    assert_eq!(
        Directory::read_dir(&image, &efs, 2),
        Err(SgidiskLibReadError::Bounds(BoundsError::InodeOffset { inode: 900 }))
    );
    let image = dir_image(&[], &inodes);
    assert_eq!(
        Directory::read_dir(&image, &efs, 2),
        Err(SgidiskLibReadError::Codec(CodecError::BadMagic))
    );
}

#[test]
fn read_dir_checks_each_block_against_the_filesystem() {
    let efs = dir_efs();
    let image = dir_image(&[], &[(2, dir_inode_bytes(0o040755, &[(64, 1, 0)]))]);
    assert_eq!(
        Directory::read_dir(&image, &efs, 2),
        Err(SgidiskLibReadError::Bounds(BoundsError::BlockPastEnd { block: 64, len: 512 }))
    );
}
