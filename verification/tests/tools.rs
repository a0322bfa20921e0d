use sgidisklib::cp::{
    compile, compiled, destination_fits, select_matching, source_range, GlobError,
};
use sha2::Digest;
use sgidisklib::efs::dir::{entry_path, is_dot, Directory, Subdirectory};
use sgidisklib::efs::{Efs, InodeType};
use sgidisklib::hash::{
    absorb_chunk, fill_hashes, hashed_items, HashItem, HashItemType, MultiHash, HASH_BUF_SZ,
};
use sgidisklib::info::{entire_volume_span, PartitionInfo, VhFileInfo, VolumeInfo, VolumeSpan};
use sgidisklib::text::bytes_to_hex;
use sgidisklib::volhdr::{Partition, PartitionType, SgidiskVolume, VolumeFile};

const SHA256_ABC: &str = "BA7816BF8F01CFEA414140DE5DAE2223B00361A396177A9CB410FF61F20015AD";
const SHA256_EMPTY: &str = "E3B0C44298FC1C149AFBF4C8996FB92427AE41E4649B934CA495991B7852B855";
const BLAKE3_EMPTY: &str = "AF1349B9F5F9A1A6A0404DEA36DCC9499BCB25C9ADC112B7CC9A93CAE41F3262";

fn file(name: Option<&str>, block_start: u64, file_sz: u64) -> VolumeFile {
    VolumeFile { file_name: name.map(|n| n.to_string()), block_start, file_sz }
}

fn partition(partition_type: PartitionType, block_start: u64, block_sz: u64) -> Partition {
    Partition { partition_type, block_start, block_sz }
}

fn tool_volume() -> SgidiskVolume {
    let mut partitions = vec![partition(PartitionType::VolumeHeader, 0, 0); 16];
    partitions[0] = partition(PartitionType::Efs, 4, 6);
    partitions[8] = partition(PartitionType::VolumeHeader, 0, 4);
    partitions[10] = partition(PartitionType::EntireVolume, 0, 10);
    let mut files = vec![
        file(Some("sgilabel"), 1, 100),
        file(None, 9, 9),
        file(Some("ide"), 2, 1024),
        file(Some(".hidden"), 3, 1),
    ];
    files.resize(15, file(None, 0, 0));
    SgidiskVolume {
        sector_sz: 512,
        ctq_enabled: false,
        ctq_depth: 0,
        root_partition: 0,
        swap_partition: 1,
        partitions,
        boot_file: Some("/unix".to_string()),
        files,
        compat_cylinders: 0,
        compat_heads: 0,
        compat_sect: 0,
        compat_drivecap: 0,
    }
}

fn both_hashes(data: &[u8]) -> (String, String) {
    (
        bytes_to_hex(blake3::hash(data).as_bytes()),
        bytes_to_hex(&sha2::Sha256::digest(data)),
    )
}

#[test]
fn multi_hash_of_nothing() {
    let r = MultiHash::new().finalize();
    assert_eq!(r.sha256, SHA256_EMPTY);
    assert_eq!(r.blake3, BLAKE3_EMPTY);
}

#[test]
fn multi_hash_of_abc_in_one_piece_and_in_three() {
    let mut whole = MultiHash::new();
    whole.update(b"abc");
    let whole = whole.finalize();
    assert_eq!(whole.sha256, SHA256_ABC);
    assert_eq!(whole.blake3, both_hashes(b"abc").0);
    assert_ne!(whole.blake3, BLAKE3_EMPTY);
    let mut pieces = MultiHash::new();
    pieces.update(b"a");
    pieces.update(b"");
    pieces.update(b"bc");
    assert_eq!(pieces.finalize(), whole);
}

#[test]
fn window_overlap_is_counted_from_the_start_of_the_window() {
    let item = HashItem::new("x".to_string(), "x".to_string(), HashItemType::VolumeFile, 100, 200);
    assert_eq!(item.window_overlap(0, 100), None);
    assert_eq!(item.window_overlap(200, 300), None);
    assert_eq!(item.window_overlap(0, 101), Some((100, 101)));
    assert_eq!(item.window_overlap(50, 150), Some((50, 100)));
    assert_eq!(item.window_overlap(100, 200), Some((0, 100)));
    assert_eq!(item.window_overlap(120, 130), Some((0, 10)));
    assert_eq!(item.window_overlap(150, 400), Some((0, 50)));
    assert_eq!(item.window_overlap(0, 400), Some((100, 200)));
    let empty = HashItem::new("e".to_string(), "e".to_string(), HashItemType::Partition, 7, 7);
    assert_eq!(empty.window_overlap(0, 100), Some((7, 7)));
    assert_eq!(empty.window_overlap(7, 100), None);
}

#[test]
fn short_by_says_what_is_missing() {
    let mut item = HashItem::new("x".to_string(), "x".to_string(), HashItemType::VolumeFile, 100, 200);
    assert_eq!(item.short_by(), Some(100));
    assert_eq!(item.short_by_str(), "100 bytes!");
    item.absorb(150, &[0u8; 20]);
    assert_eq!(item.hashed, 20);
    assert_eq!(item.short_by(), Some(80));
    item.absorb(0, &[0u8; 150]);
    item.absorb(170, &[0u8; 100]);
    assert_eq!(item.hashed, 100);
    assert_eq!(item.short_by(), None);
    assert_eq!(item.short_by_str(), "No");
}

#[test]
fn short_by_is_said_of_every_item() {
    let mut item = HashItem::new("x".to_string(), "x".to_string(), HashItemType::VolumeFile, 100, 200);
    item.hashed = 130;
    assert_eq!(item.short_by(), Some(-30));
    assert_eq!(item.short_by_str(), "-30 bytes!");
    item.start = 300;
    item.hashed = 0;
    assert_eq!(item.short_by(), Some(-100));
    item.start = i64::MIN;
    item.end = i64::MAX;
    assert_eq!(item.short_by(), Some(u64::MAX as i128));
    assert_eq!(item.short_by_str(), "18446744073709551615 bytes!");
    item.hashed = u64::MAX;
    assert_eq!(item.short_by(), None);
    assert_eq!(item.short_by_str(), "No");
    item.start = i64::MAX;
    item.end = i64::MIN;
    assert_eq!(item.short_by(), Some(-2 * (u64::MAX as i128)));
    assert_eq!(item.short_by_str(), "-36893488147419103230 bytes!");
}

#[test]
fn fill_hashes_hashes_each_range_and_the_image() {
    let image: Vec<u8> = (0..3 * HASH_BUF_SZ + 1000).map(|i| (i * 7 % 251) as u8).collect();
    let len = image.len() as i64;
    let ranges = [
        (0i64, 0i64),
        (0, 10),
        (5, HASH_BUF_SZ as i64),
        (HASH_BUF_SZ as i64 - 1, HASH_BUF_SZ as i64 + 1),
        (HASH_BUF_SZ as i64, 2 * HASH_BUF_SZ as i64),
        (100, len),
        (0, len),
        (len - 3, len + 500),
        (len, len + 5),
        (len + 100, len + 200),
    ];
    let mut items: Vec<HashItem> = ranges
        .iter()
        .enumerate()
        .map(|(i, (s, e))| HashItem::new(format!("r{}", i), i.to_string(), HashItemType::Partition, *s, *e))
        .collect();
    let whole = fill_hashes(&image, &mut items);
    assert_eq!((whole.blake3.clone(), whole.sha256.clone()), both_hashes(&image));
    for (item, (s, e)) in items.iter().zip(ranges.iter()) {
        let from = (*s).min(len) as usize;
        let to = (*e).min(len) as usize;
        assert!(item.hash.is_none());
        let result = item.hash_result.as_ref().unwrap();
        assert_eq!((result.blake3.clone(), result.sha256.clone()), both_hashes(&image[from..to]));
        assert_eq!(item.hashed, (to - from) as u64);
        let short = (e - s) as i128 - (to - from) as i128;
        assert_eq!(item.short_by(), if short == 0 { None } else { Some(short) });
        assert_eq!((item.start, item.end), (*s, *e));
    }
    assert_eq!(items[0].hash_result.as_ref().unwrap().sha256, SHA256_EMPTY);
    assert_eq!(items[7].short_by_str(), "500 bytes!");
}

#[test]
fn fill_hashes_of_an_empty_image() {
    let mut items = vec![HashItem::new("a".to_string(), "a".to_string(), HashItemType::VolumeFile, 0, 9)];
    let whole = fill_hashes(&[], &mut items);
    assert_eq!(whole.sha256, SHA256_EMPTY);
    assert_eq!(items[0].hash_result.as_ref().unwrap().blake3, BLAKE3_EMPTY);
    assert_eq!(items[0].short_by(), Some(9));
}

#[test]
fn absorb_chunk_passes_over_what_is_finished() {
    let mut items = vec![
        HashItem::new("a".to_string(), "a".to_string(), HashItemType::VolumeFile, 0, 4),
        HashItem::new("b".to_string(), "b".to_string(), HashItemType::VolumeFile, 2, 8),
        HashItem::new("c".to_string(), "c".to_string(), HashItemType::VolumeFile, 0, 100),
    ];
    let mut finished = vec![false, false, true];
    absorb_chunk(&mut items, &mut finished, 0, b"0123");
    assert_eq!(finished, vec![false, false, true]);
    assert_eq!((items[0].hashed, items[1].hashed, items[2].hashed), (4, 2, 0));
    absorb_chunk(&mut items, &mut finished, 4, b"4567");
    assert_eq!(finished, vec![false, false, true]);
    absorb_chunk(&mut items, &mut finished, 8, b"89");
    assert_eq!(finished, vec![true, false, true]);
    absorb_chunk(&mut items, &mut finished, 10, b"ab");
    assert_eq!(finished, vec![true, true, true]);
    assert_eq!((items[0].hashed, items[1].hashed, items[2].hashed), (4, 6, 0));
    for item in items.iter_mut() {
        item.finalize();
    }
    assert_eq!(items[0].hash_result.as_ref().unwrap().sha256, both_hashes(b"0123").1);
    assert_eq!(items[1].hash_result.as_ref().unwrap().blake3, both_hashes(b"234567").0);
    assert_eq!(items[2].hash_result.as_ref().unwrap().sha256, SHA256_EMPTY);
}

#[test]
fn hashed_items_lists_files_and_partitions_by_their_ends() {
    let vol = tool_volume();
    assert!(vol.spans_fit());
    let items = hashed_items(&vol);
    let listed: Vec<(&str, &str, HashItemType, i64, i64)> = items
        .iter()
        .map(|h| (h.name_display.as_str(), h.name_json.as_str(), h.item_type, h.start, h.end))
        .collect();
    assert_eq!(
        listed,
        vec![
            (" 0 (Efs)", "0", HashItemType::Partition, 2048, 5120),
            ("10 (EntireVolume)", "10", HashItemType::Partition, 0, 5120),
            ("ide", "ide", HashItemType::VolumeFile, 1024, 2048),
            (" 8 (VolumeHeader)", "8", HashItemType::Partition, 0, 2048),
            (".hidden", ".hidden", HashItemType::VolumeFile, 1536, 1537),
            ("sgilabel", "sgilabel", HashItemType::VolumeFile, 512, 612),
        ]
    );
    for item in &items {
        assert_eq!(item.hashed, 0);
        assert!(item.hash.is_some());
        assert!(item.hash_result.is_none());
    }
    let mut expected: Vec<i64> = items.iter().map(|h| h.end).collect();
    expected.sort_by_key(|e| -e);
    assert_eq!(items.iter().map(|h| h.end).collect::<Vec<i64>>(), expected);
}

#[test]
fn spans_fit_finds_what_cannot_be_counted() {
    let mut vol = tool_volume();
    vol.partitions[3] = partition(PartitionType::Raw, u64::MAX / 1024, 1 << 54);
    assert!(!vol.spans_fit());
    let mut vol = tool_volume();
    vol.files[5] = file(None, 1 << 54, 1 << 62);
    assert!(!vol.spans_fit());
    vol.files[5] = file(None, (1 << 54) - 1, 511);
    assert!(vol.spans_fit());
}

#[test]
fn volume_info_shows_what_is_in_use() {
    let info = VolumeInfo::from(&tool_volume(), 3000);
    assert_eq!(info.sector_sz, 512);
    assert_eq!(info.root_partition, 0);
    assert_eq!(info.swap_partition, 1);
    assert_eq!(info.boot_file, Some("/unix".to_string()));
    assert_eq!(
        info.vh_files,
        vec![
            VhFileInfo { id: 0, file_name: "sgilabel".to_string(), start_block: 1, size_bytes: 100, over_length: None },
            VhFileInfo { id: 2, file_name: "ide".to_string(), start_block: 2, size_bytes: 1024, over_length: None },
            VhFileInfo { id: 3, file_name: ".hidden".to_string(), start_block: 3, size_bytes: 1, over_length: None },
        ]
    );
    assert_eq!(
        info.partitions,
        vec![
            PartitionInfo { id: 0, partition_type: "Efs".to_string(), start_block: 4, end_block: 10, sz_blocks: 6, over_length: Some(2120) },
            PartitionInfo { id: 8, partition_type: "VolumeHeader".to_string(), start_block: 0, end_block: 4, sz_blocks: 4, over_length: None },
            PartitionInfo { id: 10, partition_type: "EntireVolume".to_string(), start_block: 0, end_block: 10, sz_blocks: 10, over_length: Some(2120) },
        ]
    );
    assert_eq!(VhFileInfo::from(4, &file(None, 2, 10), 1033).file_name, "");
    assert_eq!(VhFileInfo::from(4, &file(None, 2, 10), 1033).over_length, Some(1));
    assert_eq!(VhFileInfo::from(4, &file(None, 2, 10), 1034).over_length, None);
}

#[test]
fn entire_volume_is_held_against_the_image() {
    let vol = tool_volume();
    assert_eq!(entire_volume_span(&vol, 5120), Some(VolumeSpan::Equal { at: 5120 }));
    assert_eq!(entire_volume_span(&vol, 5000), Some(VolumeSpan::PastEnd { by: 120 }));
    assert_eq!(entire_volume_span(&vol, 6000), Some(VolumeSpan::Smaller { by: 880 }));
    let mut other = tool_volume();
    other.partitions[10] = partition(PartitionType::Raw, 0, 10);
    assert_eq!(entire_volume_span(&other, 5120), None);
    other.partitions.truncate(10);
    assert_eq!(entire_volume_span(&other, 5120), None);
}

#[test]
fn matches_finds_the_files_in_use_that_match() {
    let vol = tool_volume();
    let all = compile("*").unwrap();
    assert_eq!(sgidisklib::cp::matches(&vol.files, &all), vec![0, 2]);
    assert_eq!(sgidisklib::cp::matches(&vol.files, &compile("i?e").unwrap()), vec![2]);
    assert_eq!(sgidisklib::cp::matches(&vol.files, &compile("IDE").unwrap()), Vec::<usize>::new());
    assert_eq!(sgidisklib::cp::matches(&vol.files, &compile(".*").unwrap()), vec![3]);
    assert_eq!(sgidisklib::cp::matches(&vol.files, &compile("[a-z]*").unwrap()), vec![0, 2]);
    assert_eq!(sgidisklib::cp::matches(&Vec::new(), &all), Vec::<usize>::new());
    assert_eq!(compile("[").err(), Some(GlobError::BadPattern));
    assert_eq!(compile("a**b").err(), Some(GlobError::BadPattern));
}

#[test]
fn matches_answers_as_glob_does_under_the_three_settings() {
    let names = ["sgilabel", "IDE", "ide", ".hid", "a/b", "a.b", "sash", "s", ""];
    let files: Vec<VolumeFile> = names.iter().map(|n| file(Some(n), 0, 0)).collect();
    let options = glob::MatchOptions {
        case_sensitive: true,
        require_literal_separator: true,
        require_literal_leading_dot: true,
    };
    for source in ["*", "s*", "?", "[a-z]*", "a?b", "a*b", ".*", "*d*", "ide", "I*", ""] {
        let pattern = compile(source).unwrap();
        let expected: Vec<usize> = names
            .iter()
            .enumerate()
            .filter(|(_, n)| glob::Pattern::new(source).unwrap().matches_with(n, options))
            .map(|(i, _)| i)
            .collect();
        assert_eq!(sgidisklib::cp::matches(&files, &pattern), expected, "pattern {}", source);
    }
    let star = compile("*").unwrap();
    assert_eq!(sgidisklib::cp::matches(&files, &star), vec![0, 1, 2, 5, 6, 7, 8]);
    assert_eq!(sgidisklib::cp::matches(&files, &compile("a?b").unwrap()), vec![5]);
    assert_eq!(sgidisklib::cp::matches(&files, &compile("ide").unwrap()), vec![2]);
}

#[test]
fn compile_succeeds_where_glob_does() {
    for source in ["*", "", "a/**/b", "**", "[a-z]", "[!x]", "?", "[]]", "a\\b"] {
        assert_eq!(compile(source).is_ok(), glob::Pattern::new(source).is_ok(), "pattern {}", source);
        assert!(compile(source).is_ok(), "pattern {}", source);
    }
    for source in ["[", "[a", "a**", "**a", "***", "a/***/b", "[!"] {
        assert_eq!(compile(source).is_ok(), glob::Pattern::new(source).is_ok(), "pattern {}", source);
        assert_eq!(compile(source).err(), Some(GlobError::BadPattern), "pattern {}", source);
    }
}

#[test]
fn compile_keeps_the_text_of_the_pattern() {
    assert_eq!(compile("i?e").unwrap().as_str(), "i?e");
    assert_eq!(compile("").unwrap().as_str(), "");
    assert_eq!(compile("[a-z]*.[!0-9]").unwrap().as_str(), "[a-z]*.[!0-9]");
    assert!(compile("i?e").unwrap().matches("ide"));
    assert!(!compile("i?e").unwrap().matches("idle"));
    assert_eq!(compile("[a-").err(), Some(GlobError::BadPattern));
    assert_eq!(compile("***").err(), Some(GlobError::BadPattern));
}

#[test]
fn compiled_keeps_the_pattern_and_drops_the_account_of_a_failure() {
    let pattern = glob::Pattern::new("s*").unwrap();
    assert_eq!(compiled(Ok(pattern.clone())), Ok(pattern));
    let failure = glob::Pattern::new("[").unwrap_err();
    assert_eq!(compiled(Err(failure)), Err(GlobError::BadPattern));
}

#[test]
fn select_matching_takes_what_is_marked_and_in_use() {
    let files = vec![file(Some("a"), 0, 0), file(None, 0, 0), file(Some("c"), 0, 0), file(Some("d"), 0, 0)];
    assert_eq!(select_matching(&files, &vec![true, true, false, true]), vec![0, 3]);
    assert_eq!(select_matching(&files, &vec![false; 4]), Vec::<usize>::new());
    assert_eq!(select_matching(&files, &vec![true; 4]), vec![0, 2, 3]);
}

#[test]
fn copies_come_from_the_blocks_of_the_file() {
    assert_eq!(source_range(&file(Some("ide"), 2, 1024)), (1024, 1024));
    assert_eq!(source_range(&file(Some("x"), 0, 0)), (0, 0));
    assert!(destination_fits(0, false));
    assert!(destination_fits(1, false));
    assert!(!destination_fits(2, false));
    assert!(destination_fits(2, true));
}

#[test]
fn subdirectories_are_where_a_walk_goes_on() {
    let efs = Efs {
        sector_sz: 512,
        partition_start: 0,
        size: 64 * 512,
        cg_start: 2,
        cg_size: 20,
        cg_inodes: 4,
        cg_count: 2,
    };
    let mut image = vec![0u8; 64 * 512];
    let mut put_inode = |n: u64, mode: u16, block: Option<u32>| {
        let at = efs.inode_start(n).unwrap() as usize;
        image[at..at + 2].copy_from_slice(&mode.to_be_bytes());
        if let Some(bn) = block {
            image[at + 28..at + 30].copy_from_slice(&1i16.to_be_bytes());
            let bn = bn.to_be_bytes();
            image[at + 32..at + 40].copy_from_slice(&[0, bn[1], bn[2], bn[3], 1, 0, 0, 0]);
        }
    };
    put_inode(2, 0o040755, Some(10));
    put_inode(3, 0o040755, None);
    put_inode(5, 0o100644, None);
    put_inode(6, 0o040700, None);
    let mut block = vec![0u8; 512];
    block[0] = 0xBE;
    block[1] = 0xEF;
    let entries: [(u32, &[u8]); 6] = [(2, b"."), (2, b".."), (3, b"usr"), (5, b"unix"), (6, b"..."), (3, b".x")];
    block[3] = entries.len() as u8;
    let mut top = 512;
    for (slot, (inode, name)) in entries.iter().enumerate() {
        top -= (5 + name.len() + 1) & !1;
        block[top..top + 4].copy_from_slice(&inode.to_be_bytes());
        block[top + 4] = name.len() as u8;
        block[top + 5..top + 5 + name.len()].copy_from_slice(name);
        block[4 + slot] = (top / 2) as u8;
    }
    image[10 * 512..11 * 512].copy_from_slice(&block);
    let dir = Directory::read_dir(&image, &efs, 2).unwrap();
    assert_eq!(dir.entries.len(), 6);
    assert_eq!(dir.entries[0].inode.inode_type, InodeType::Directory);
    assert_eq!(
        dir.subdirectories("/top"),
        vec![
            Subdirectory { inode_id: 6, path: "/top/...".to_string() },
            Subdirectory { inode_id: 3, path: "/top/.x".to_string() },
            Subdirectory { inode_id: 3, path: "/top/usr".to_string() },
        ]
    );
    assert_eq!(dir.subdirectories("")[2].path, "/usr");
}

#[test]
fn dot_names_are_the_directory_and_the_one_above() {
    assert!(is_dot("."));
    assert!(is_dot(".."));
    assert!(!is_dot(""));
    assert!(!is_dot("..."));
    assert!(!is_dot("a"));
    assert!(!is_dot(".a"));
    assert!(!is_dot("a."));
    assert_eq!(entry_path("", "bin"), "/bin");
    assert_eq!(entry_path("/usr", "lib"), "/usr/lib");
}
