use sgidisklib::efs::raw_dir::{DirectoryBlock, DirectoryEntry};
use sgidisklib::efs::raw_sb::EfsSuperblock;
use sgidisklib::volhdr::raw::{PartitionTable, VolumeDeviceParameters, VolumeDirectory, VolumeHeader};
use sgidisklib::volhdr::PartitionType;

fn pattern(len: usize, seed: usize) -> Vec<u8> {
    (0..len).map(|i| ((i * 31 + seed * 17 + 5) % 256) as u8).collect()
}

#[test]
fn superblock_writes_what_it_was_read_from() {
    let mut bytes = pattern(92, 1);
    bytes[20..22].copy_from_slice(&0x7777i16.to_be_bytes());
    bytes[22] = 0;
    bytes[23] = 0;
    bytes[28..32].copy_from_slice(&0x0007_2959i32.to_be_bytes());
    let sb = EfsSuperblock::parse_superblock(&bytes).unwrap();
    assert_eq!(sb.to_bytes(), bytes);
    assert_eq!(EfsSuperblock::parse_superblock(&sb.to_bytes()), Ok(sb));
}

#[test]
fn superblock_writes_zero_for_what_it_does_not_keep() {
    let mut bytes = pattern(92, 2);
    bytes[20..22].copy_from_slice(&0i16.to_be_bytes());
    bytes[28..32].copy_from_slice(&0x0007_295Ai32.to_be_bytes());
    bytes[22] = 0xAA;
    bytes[23] = 0xBB;
    let written = EfsSuperblock::parse_superblock(&bytes).unwrap().to_bytes();
    assert_eq!(written.len(), 92);
    assert_eq!(&written[..22], &bytes[..22]);
    assert_eq!(&written[22..24], &[0, 0]);
    assert_eq!(&written[24..], &bytes[24..]);
}

#[test]
fn directory_block_writes_what_it_was_read_from() {
    let mut bytes = pattern(512, 3);
    bytes[0] = 0xBE;
    bytes[1] = 0xEF;
    let block = DirectoryBlock::parse_directory_block(&bytes).unwrap();
    assert_eq!(block.to_bytes(), bytes);
    assert_eq!(DirectoryBlock::parse_directory_block(&block.to_bytes()), Ok(block));
}

#[test]
fn directory_entry_writes_the_bytes_that_it_takes() {
    let bytes = [0x00, 0x01, 0x02, 0x03, 0x04, b'n', b'a', b'm', b'e', 0xEE, 0xFF];
    let entry = DirectoryEntry::parse_entry(&bytes).unwrap();
    assert_eq!(entry.inode, 0x0001_0203);
    assert_eq!(entry.d_name, b"name");
    assert_eq!(entry.to_bytes(), &bytes[..9]);
    assert_eq!(DirectoryEntry::parse_entry(&entry.to_bytes()), Ok(entry));
}

#[test]
fn volume_header_writes_what_it_was_read_from() {
    let mut bytes = pattern(512, 4);
    bytes[0..4].copy_from_slice(&[0x0B, 0xE5, 0xA9, 0x41]);
    for i in 0..16 {
        let at = 312 + 12 * i + 8;
        bytes[at..at + 4].copy_from_slice(&(i as i32 % 15).to_be_bytes());
    }
    for range in [24..28, 30..32, 35..38, 42..44, 48..68, 508..512] {
        for b in &mut bytes[range] {
            *b = 0;
        }
    }
    let header = VolumeHeader::parse_volume_header(&bytes).unwrap();
    assert_eq!(header.to_bytes(), bytes);
    assert_eq!(VolumeHeader::parse_volume_header(&header.to_bytes()), Ok(header));
}

#[test]
fn volume_header_writes_zero_for_what_it_does_not_keep() {
    let mut bytes = pattern(512, 5);
    bytes[0..4].copy_from_slice(&[0x0B, 0xE5, 0xA9, 0x41]);
    for i in 0..16 {
        let at = 312 + 12 * i + 8;
        bytes[at..at + 4].copy_from_slice(&7i32.to_be_bytes());
    }
    let header = VolumeHeader::parse_volume_header(&bytes).unwrap();
    let written = header.to_bytes();
    assert_eq!(written.len(), 512);
    assert_eq!(VolumeHeader::parse_volume_header(&written), Ok(header));
    for (i, (w, b)) in written.iter().zip(bytes.iter()).enumerate() {
        let reserved = (24..28).contains(&i)
            || (30..32).contains(&i)
            || (35..38).contains(&i)
            || (42..44).contains(&i)
            || (48..68).contains(&i)
            || i >= 508;
        assert_eq!(*w, if reserved { 0 } else { *b }, "byte {}", i);
    }
}

#[test]
fn parts_of_the_volume_header_write_their_bytes() {
    let mut out = vec![9u8];
    PartitionTable { pt_nblks: 0x0102_0304, pt_firstlbn: 0x0506_0708, pt_type: PartitionType::Xfs }
        .write_to(&mut out);
    assert_eq!(out, vec![9, 1, 2, 3, 4, 5, 6, 7, 8, 0, 0, 0, 10]);
    let mut out = Vec::new();
    VolumeDirectory { vd_name: b"sash\0\0\0\0".to_vec(), vd_lbn: -1, vd_nbytes: 258 }.write_to(&mut out);
    assert_eq!(out, b"sash\0\0\0\0\xff\xff\xff\xff\x00\x00\x01\x02");
    let mut out = Vec::new();
    VolumeDeviceParameters {
        dp_cylinders: 0x0102,
        dp_heads: 0x0304,
        dp_ctq_depth: 5,
        dp_sect: 0x0607,
        dp_secbytes: 0x0200,
        dp_flags: -2,
        dp_drivecap: 0x0A0B_0C0D,
    }
    .write_to(&mut out);
    let mut expected = vec![0u8; 48];
    expected[4..6].copy_from_slice(&[1, 2]);
    expected[8..10].copy_from_slice(&[3, 4]);
    expected[10] = 5;
    expected[14..16].copy_from_slice(&[6, 7]);
    expected[16..18].copy_from_slice(&[2, 0]);
    expected[20..24].copy_from_slice(&[0xff, 0xff, 0xff, 0xfe]);
    expected[44..48].copy_from_slice(&[0x0A, 0x0B, 0x0C, 0x0D]);
    assert_eq!(out, expected);
}
