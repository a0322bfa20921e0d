//! The Extent File System: its geometry, its inodes and their extents.

use vstd::prelude::*;
use crate::error::{BoundsError, Field, SgidiskLibReadError, ValueError, view_result};
use crate::efs::extents::{contiguous, sorted_by_offset};
use crate::efs::inode::lemma_normalized_contiguous;
use crate::efs::raw_inode::{EfsInode, EfsInodeView, INODE_SIZE};
use crate::efs::raw_sb::{EfsSuperblock, EfsSuperblockView};

pub use crate::efs::block_iter::InodeBlockIter;
pub use crate::efs::inode::{Inode, InodeType, InodeView};

pub mod block_iter;
pub mod dir;
pub mod extents;
pub mod inode;
pub mod raw_dir;
pub mod raw_inode;
pub mod raw_sb;

verus! {

/// Size of a basic block, the unit in which EFS counts, in bytes.
pub const EFS_BLOCK_SZ: usize = 512;

/// Size of an inode on disk as a 64-bit number.
pub const INODE_STEP: u64 = 128;

/// What is known of an EFS filesystem inside a byte source.
#[derive(Debug, Clone, Copy, PartialEq, Eq)]
pub struct Efs {
    /// Length of a sector, in bytes
    pub sector_sz: u64,
    /// First byte of the partition within the byte source
    pub partition_start: u64,
    /// Total size of the filesystem, in bytes
    pub size: u64,
    /// Offset to the first cylinder group, in basic blocks
    pub cg_start: u64,
    /// Size of a cylinder group, in basic blocks
    pub cg_size: u64,
    /// Number of inodes in a cylinder group
    pub cg_inodes: u64,
    /// Number of cylinder groups in the filesystem
    pub cg_count: u64,
}

impl Efs {
    /// Whether a read of `len` bytes at the absolute offset `start` stays
    /// inside the filesystem, and if not, on which side it leaves it.
    pub open spec fn spec_check_read_absolute(self, start: u64, len: u64) -> Result<
        (),
        SgidiskLibReadError,
    > {
        if start < self.partition_start {
            Err(SgidiskLibReadError::Bounds(BoundsError::BeforeStart { start }))
        } else if start + len > self.partition_start + self.size {
            Err(SgidiskLibReadError::Bounds(BoundsError::PastEnd { start, len }))
        } else {
            Ok(())
        }
    }

    /// Checks that a read of `len` bytes at the absolute offset `start`
    /// stays inside the filesystem.
    pub fn check_read_absolute(&self, start: u64, len: u64) -> (r: Result<(), SgidiskLibReadError>)
        ensures
            r == self.spec_check_read_absolute(start, len),
            r is Ok <==> self.partition_start <= start && start + len <= self.partition_start
                + self.size,
    {
        if start < self.partition_start {
            return Err(SgidiskLibReadError::Bounds(BoundsError::BeforeStart { start }));
        }
        if start as u128 + len as u128 > self.partition_start as u128 + self.size as u128 {
            return Err(SgidiskLibReadError::Bounds(BoundsError::PastEnd { start, len }));
        }
        Ok(())
    }

    /// Whether a read of `len` bytes at the start of the basic block
    /// `start_block` stays inside the filesystem.
    pub open spec fn spec_check_read_block(self, start_block: u64, len: u64) -> Result<
        (),
        SgidiskLibReadError,
    > {
        if start_block * EFS_BLOCK_SZ + len > self.size {
            Err(SgidiskLibReadError::Bounds(BoundsError::BlockPastEnd { block: start_block, len }))
        } else {
            Ok(())
        }
    }

    /// Checks that a read of `len` bytes at the start of the basic block
    /// `start_block` stays inside the filesystem.
    pub fn check_read_block(&self, start_block: u64, len: u64) -> (r: Result<
        (),
        SgidiskLibReadError,
    >)
        ensures
            r == self.spec_check_read_block(start_block, len),
            r is Ok <==> self.partition_start + start_block * EFS_BLOCK_SZ + len
                <= self.partition_start + self.size,
    {
        if start_block as u128 * 512 + len as u128 > self.size as u128 {
            return Err(
                SgidiskLibReadError::Bounds(BoundsError::BlockPastEnd { block: start_block, len }),
            );
        }
        Ok(())
    }

    /// Offset of the cylinder group `cg` from the start of the partition,
    /// where the filesystem has such a group and it starts inside it.
    pub open spec fn spec_cg_start_rel(self, cg: u64) -> Option<u64> {
        if cg >= self.cg_count {
            None
        } else if (self.cg_start + cg * self.cg_size) * EFS_BLOCK_SZ > self.size {
            None
        } else {
            Some(((self.cg_start + cg * self.cg_size) * EFS_BLOCK_SZ) as u64)
        }
    }

    /// Offset of the cylinder group `cg` from the start of the partition.
    pub fn cg_start_rel(&self, cg: u64) -> (r: Option<u64>)
        ensures
            r == self.spec_cg_start_rel(cg),
    {
        if cg >= self.cg_count {
            return None;
        }
        assert(cg * self.cg_size <= 0xFFFF_FFFF_FFFF_FFFF * 0xFFFF_FFFF_FFFF_FFFF)
            by (nonlinear_arith)
            requires
                0 <= cg <= 0xFFFF_FFFF_FFFF_FFFF,
                0 <= self.cg_size <= 0xFFFF_FFFF_FFFF_FFFF,
        ;
        let first_block: u128 = self.cg_start as u128 + cg as u128 * self.cg_size as u128;
        let last_whole: u64 = self.size / 512;
        if first_block > last_whole as u128 {
            None
        } else {
            Some(first_block as u64 * 512)
        }
    }

    /// Offset of the inode `inode` from the start of the partition, where
    /// the filesystem has its cylinder group and holds the whole inode:
    /// nothing where the inode would end behind the end of the filesystem.
    pub open spec fn spec_inode_start_rel(self, inode: u64) -> Option<u64> {
        if self.cg_inodes == 0 {
            None
        } else {
            match self.spec_cg_start_rel(inode / self.cg_inodes) {
                None => None,
                Some(cg_origin) => if cg_origin + (inode % self.cg_inodes) * INODE_STEP
                    + INODE_STEP > self.size {
                    None
                } else {
                    Some((cg_origin + (inode % self.cg_inodes) * INODE_STEP) as u64)
                },
            }
        }
    }

    /// Offset of the inode `inode` from the start of the partition: that of
    /// its cylinder group, and 128 bytes more for each inode before it there.
    /// An inode that does not lie inside the filesystem has none.
    pub fn inode_start_rel(&self, inode: u64) -> (r: Option<u64>)
        ensures
            r == self.spec_inode_start_rel(inode),
            r is Some ==> r->Some_0 + INODE_STEP <= self.size,
    {
        if self.cg_inodes == 0 {
            return None;
        }
        let cg: u64 = inode / self.cg_inodes;
        let cg_origin: u64 = match self.cg_start_rel(cg) {
            Some(origin) => origin,
            None => {
                return None;
            },
        };
        let offset: u128 = cg_origin as u128 + (inode % self.cg_inodes) as u128 * 128;
        if offset + 128 > self.size as u128 {
            None
        } else {
            Some(offset as u64)
        }
    }

    /// Absolute offset of the inode `inode`, or why it has none: its
    /// cylinder group is none of the filesystem's, the inode does not lie
    /// inside the filesystem, or its offset is beyond what an offset can hold.
    pub open spec fn spec_inode_start(self, inode: u64) -> Result<u64, SgidiskLibReadError> {
        match self.spec_inode_start_rel(inode) {
            Some(offset) if self.partition_start + offset <= u64::MAX => Ok(
                (self.partition_start + offset) as u64,
            ),
            _ => Err(SgidiskLibReadError::Bounds(BoundsError::InodeOffset { inode })),
        }
    }

    /// Absolute offset of the inode `inode` within the byte source. An inode
    /// whose offset is handed out lies inside the filesystem, all of it.
    pub fn inode_start(&self, inode: u64) -> (r: Result<u64, SgidiskLibReadError>)
        ensures
            r == self.spec_inode_start(inode),
            r is Ok ==> self.partition_start <= r->Ok_0 && r->Ok_0 + INODE_STEP
                <= self.partition_start + self.size,
    {
        if let Some(offset) = self.inode_start_rel(inode) {
            if let Some(start) = self.partition_start.checked_add(offset) {
                return Ok(start);
            }
        }
        Err(SgidiskLibReadError::Bounds(BoundsError::InodeOffset { inode }))
    }

    /// Absolute offset of the basic block `block` within the byte source.
    pub fn block_absolute(&self, block: u64) -> (r: u64)
        requires
            self.partition_start + block * EFS_BLOCK_SZ <= u64::MAX,
        ensures
            r == self.partition_start + block * EFS_BLOCK_SZ,
    {
        self.partition_start + block * 512
    }

    /// Where the basic block `block` lies in the byte source, or why it lies
    /// nowhere: it starts behind the end of the filesystem, or behind the
    /// last position that there is.
    pub open spec fn spec_seek_block(self, block: u64) -> Result<u64, SgidiskLibReadError> {
        if block * EFS_BLOCK_SZ > self.size || self.partition_start + block * EFS_BLOCK_SZ
            > u64::MAX {
            Err(SgidiskLibReadError::Bounds(BoundsError::BlockPastEnd { block, len: 0 }))
        } else {
            Ok((self.partition_start + block * EFS_BLOCK_SZ) as u64)
        }
    }

    /// Finds the basic block `block` in the byte source.
    pub fn seek_block(&self, block: u64) -> (r: Result<u64, SgidiskLibReadError>)
        ensures
            r == self.spec_seek_block(block),
    {
        let offset: u128 = self.partition_start as u128 + block as u128 * 512;
        if block as u128 * 512 > self.size as u128 || offset > u64::MAX as u128 {
            return Err(SgidiskLibReadError::Bounds(BoundsError::BlockPastEnd { block, len: 0 }));
        }
        Ok(offset as u64)
    }

    /// The geometry that a superblock describes, for sectors of `sector_sz`
    /// bytes: each signed field narrowed to an unsigned one, the size turned
    /// from sectors into bytes, the inode area from basic blocks into inodes.
    pub open spec fn spec_try_from(sb: EfsSuperblockView, sector_sz: u64) -> Result<
        Efs,
        SgidiskLibReadError,
    > {
        if sb.fs_size < 0 {
            Err(
                SgidiskLibReadError::Value(
                    ValueError::Negative { field: Field::FsSize, value: sb.fs_size as i64 },
                ),
            )
        } else if sb.fs_size * sector_sz > u64::MAX {
            Err(SgidiskLibReadError::Value(ValueError::SizeOverflow))
        } else if sb.fs_firstcg < 0 {
            Err(
                SgidiskLibReadError::Value(
                    ValueError::Negative { field: Field::FirstCg, value: sb.fs_firstcg as i64 },
                ),
            )
        } else if sb.fs_cgfsize < 0 {
            Err(
                SgidiskLibReadError::Value(
                    ValueError::Negative { field: Field::CgSize, value: sb.fs_cgfsize as i64 },
                ),
            )
        } else if sb.fs_cgisize < 0 {
            Err(
                SgidiskLibReadError::Value(
                    ValueError::Negative {
                        field: Field::CgInodeArea,
                        value: (sb.fs_cgisize * EFS_BLOCK_SZ) as i64,
                    },
                ),
            )
        } else if (sb.fs_cgisize * EFS_BLOCK_SZ) % (INODE_STEP as int) != 0 {
            Err(
                SgidiskLibReadError::Value(
                    ValueError::CgInodeArea { bytes: (sb.fs_cgisize * EFS_BLOCK_SZ) as i64 },
                ),
            )
        } else if sb.fs_ncg < 0 {
            Err(
                SgidiskLibReadError::Value(
                    ValueError::Negative { field: Field::CgCount, value: sb.fs_ncg as i64 },
                ),
            )
        } else {
            Ok(
                Efs {
                    sector_sz,
                    partition_start: 0,
                    size: (sb.fs_size * sector_sz) as u64,
                    cg_start: sb.fs_firstcg as u64,
                    cg_size: sb.fs_cgfsize as u64,
                    cg_inodes: ((sb.fs_cgisize * EFS_BLOCK_SZ) / (INODE_STEP as int)) as u64,
                    cg_count: sb.fs_ncg as u64,
                },
            )
        }
    }

    /// Derives the geometry of a filesystem from its superblock and the
    /// sector size of its volume. The partition's start is left at 0.
    pub fn try_from(sb: &EfsSuperblock, sector_sz: u64) -> (r: Result<Efs, SgidiskLibReadError>)
        ensures
            r == Self::spec_try_from(sb@, sector_sz),
    {
        if sb.fs_size < 0 {
            return Err(
                SgidiskLibReadError::Value(
                    ValueError::Negative { field: Field::FsSize, value: sb.fs_size as i64 },
                ),
            );
        }
        let size: u64 = match (sb.fs_size as u64).checked_mul(sector_sz) {
            Some(size) => size,
            None => {
                return Err(SgidiskLibReadError::Value(ValueError::SizeOverflow));
            },
        };
        if sb.fs_firstcg < 0 {
            return Err(
                SgidiskLibReadError::Value(
                    ValueError::Negative { field: Field::FirstCg, value: sb.fs_firstcg as i64 },
                ),
            );
        }
        if sb.fs_cgfsize < 0 {
            return Err(
                SgidiskLibReadError::Value(
                    ValueError::Negative { field: Field::CgSize, value: sb.fs_cgfsize as i64 },
                ),
            );
        }
        let fs_cgisize_bytes: i64 = sb.fs_cgisize as i64 * 512;
        if fs_cgisize_bytes < 0 {
            return Err(
                SgidiskLibReadError::Value(
                    ValueError::Negative { field: Field::CgInodeArea, value: fs_cgisize_bytes },
                ),
            );
        }
        if fs_cgisize_bytes % 128 != 0 {
            return Err(
                SgidiskLibReadError::Value(ValueError::CgInodeArea { bytes: fs_cgisize_bytes }),
            );
        }
        if sb.fs_ncg < 0 {
            return Err(
                SgidiskLibReadError::Value(
                    ValueError::Negative { field: Field::CgCount, value: sb.fs_ncg as i64 },
                ),
            );
        }
        Ok(
            Efs {
                sector_sz,
                partition_start: 0,
                size,
                cg_start: sb.fs_firstcg as u64,
                cg_size: sb.fs_cgfsize as u64,
                cg_inodes: (fs_cgisize_bytes / 128) as u64,
                cg_count: sb.fs_ncg as u64,
            },
        )
    }

    /// What reading the filesystem of the partition that starts at
    /// `partition_start` yields.
    pub open spec fn spec_read(image: Seq<u8>, sector_sz: u64, partition_start: u64) -> Result<
        Efs,
        SgidiskLibReadError,
    > {
        match EfsSuperblock::spec_read(image, partition_start) {
            Err(e) => Err(e),
            Ok(sb) => match Self::spec_try_from(sb, sector_sz) {
                Err(e) => Err(e),
                Ok(efs) => Ok(Efs { partition_start, ..efs }),
            },
        }
    }

    /// Reads the superblock of the partition that starts at byte
    /// `partition_start` of the byte source, and derives the filesystem's
    /// geometry from it.
    pub fn read(image: &[u8], sector_sz: u64, partition_start: u64) -> (r: Result<
        Efs,
        SgidiskLibReadError,
    >)
        ensures
            r == Self::spec_read(image@, sector_sz, partition_start),
    {
        let raw = match EfsSuperblock::read(image, partition_start) {
            Ok(raw) => raw,
            Err(e) => {
                return Err(e);
            },
        };
        let mut efs = match Efs::try_from(&raw, sector_sz) {
            Ok(efs) => efs,
            Err(e) => {
                return Err(e);
            },
        };
        efs.partition_start = partition_start;
        Ok(efs)
    }
}

impl Efs {
    /// What reading the raw inode `inode` yields: the inode that lies at its
    /// offset, where that offset exists and the whole inode lies inside the
    /// filesystem.
    pub open spec fn spec_read_raw_inode(self, image: Seq<u8>, inode: u64) -> Result<
        EfsInodeView,
        SgidiskLibReadError,
    > {
        match self.spec_inode_start(inode) {
            Err(e) => Err(e),
            Ok(offset) => match self.spec_check_read_absolute(offset, INODE_STEP) {
                Err(e) => Err(e),
                Ok(()) => EfsInode::spec_read(image, offset as int),
            },
        }
    }

    /// Reads the raw inode `inode` from the byte source.
    pub fn read_raw_inode(&self, image: &[u8], inode: u64) -> (r: Result<
        EfsInode,
        SgidiskLibReadError,
    >)
        ensures
            view_result(r) == self.spec_read_raw_inode(image@, inode),
            r is Ok ==> r->Ok_0.wf(),
    {
        let offset: u64 = match self.inode_start(inode) {
            Ok(offset) => offset,
            Err(e) => {
                return Err(e);
            },
        };
        match self.check_read_absolute(offset, INODE_STEP) {
            Ok(()) => {},
            Err(e) => {
                return Err(e);
            },
        }
        EfsInode::read(image, offset)
    }

    /// What reading the inode `inode` yields: the raw inode decoded, the
    /// inode built from it, its extents normalized; or the failure of the
    /// first of these steps that fails.
    pub open spec fn spec_read_inode(self, image: Seq<u8>, inode: u64) -> Result<
        InodeView,
        SgidiskLibReadError,
    > {
        match self.spec_read_raw_inode(image, inode) {
            Err(e) => Err(e),
            Ok(raw) => match Inode::spec_try_from(raw) {
                Err(e) => Err(e),
                Ok(built) => built.spec_normalize(self, image),
            },
        }
    }

    /// Reads the inode `inode` from the byte source. The extents of the
    /// inode that comes back cover its content without a gap.
    pub fn read_inode(&self, image: &[u8], inode: u64) -> (r: Result<Inode, SgidiskLibReadError>)
        ensures
            view_result(r) == self.spec_read_inode(image@, inode),
            r is Ok ==> contiguous(r->Ok_0@.extents),
    {
        let raw = match self.read_raw_inode(image, inode) {
            Ok(raw) => raw,
            Err(e) => {
                return Err(e);
            },
        };
        let mut inode = match Inode::try_from(&raw) {
            Ok(inode) => inode,
            Err(e) => {
                return Err(e);
            },
        };
        match inode.normalize_extents(image, self) {
            Ok(()) => {},
            Err(e) => {
                return Err(e);
            },
        }
        Ok(inode)
    }
}

/// The extents of every inode that can be read cover its content without a
/// gap, in ascending order of their logical offsets.
pub proof fn lemma_read_inode_contiguous(efs: Efs, image: Seq<u8>, inode: u64)
    requires
        efs.spec_read_inode(image, inode) is Ok,
    ensures
        contiguous(efs.spec_read_inode(image, inode)->Ok_0.extents),
        sorted_by_offset(efs.spec_read_inode(image, inode)->Ok_0.extents),
{
    let raw = efs.spec_read_raw_inode(image, inode)->Ok_0;
    let built = Inode::spec_try_from(raw)->Ok_0;
    lemma_normalized_contiguous(built, efs, image);
}

/// An inode has an offset exactly when its cylinder group is one of the
/// filesystem's and the inode lies inside the filesystem, all of it, at an
/// offset that can be held; the offset is that of its group, and 128 bytes
/// more for each inode before it in the group.
pub proof fn lemma_inode_start_bounds(efs: Efs, n: u64)
    requires
        efs.cg_inodes > 0,
    ensures
        efs.spec_inode_start(n) is Ok <==> {
            &&& n / efs.cg_inodes < efs.cg_count
            &&& (efs.cg_start + (n / efs.cg_inodes) * efs.cg_size) * EFS_BLOCK_SZ + (n
                % efs.cg_inodes) * INODE_STEP + INODE_STEP <= efs.size
            &&& efs.partition_start + (efs.cg_start + (n / efs.cg_inodes) * efs.cg_size)
                * EFS_BLOCK_SZ + (n % efs.cg_inodes) * INODE_STEP <= u64::MAX
        },
        efs.spec_inode_start(n) is Ok ==> efs.spec_inode_start(n)->Ok_0 == efs.partition_start + (
        efs.cg_start + (n / efs.cg_inodes) * efs.cg_size) * EFS_BLOCK_SZ + (n % efs.cg_inodes)
            * INODE_STEP,
        efs.spec_inode_start(n) is Ok ==> efs.spec_check_read_absolute(
            efs.spec_inode_start(n)->Ok_0,
            INODE_STEP,
        ) is Ok,
{
    let group = (n / efs.cg_inodes) as int;
    let within = (n % efs.cg_inodes) as int;
    assert(group * efs.cg_size >= 0) by (nonlinear_arith)
        requires
            group >= 0,
            efs.cg_size >= 0,
    ;
    assert(within * INODE_STEP >= 0);
}

/// A read at block granularity is in bounds exactly when the same read at
/// the block's absolute offset is.
pub proof fn lemma_check_read_block_is_absolute(efs: Efs, block: u64, len: u64)
    requires
        efs.partition_start + block * EFS_BLOCK_SZ <= u64::MAX,
    ensures
        efs.spec_check_read_block(block, len) is Ok <==> efs.spec_check_read_absolute(
            (efs.partition_start + block * EFS_BLOCK_SZ) as u64,
            len,
        ) is Ok,
{
}

/// Within one cylinder group each inode starts 128 bytes behind the one
/// before it, so the start never decreases as the number grows.
pub proof fn lemma_inode_start_within_group(efs: Efs, n: u64, m: u64)
    requires
        efs.cg_inodes > 0,
        n <= m,
        n / efs.cg_inodes == m / efs.cg_inodes,
        efs.spec_inode_start(n) is Ok,
        efs.spec_inode_start(m) is Ok,
    ensures
        efs.spec_inode_start(m)->Ok_0 - efs.spec_inode_start(n)->Ok_0 == (m - n) * INODE_STEP,
        efs.spec_inode_start(n)->Ok_0 <= efs.spec_inode_start(m)->Ok_0,
{
    let k = efs.cg_inodes as int;
    assert((m as int) % k - (n as int) % k == m - n) by (nonlinear_arith)
        requires
            k > 0,
            0 <= n <= m,
            (n as int) / k == (m as int) / k,
    ;
}

/// From the last inode of one cylinder group to the first of the next, the
/// start moves on by one inode and by what lies between the two inode
/// tables: the size of a group less the size of its inode table.
pub proof fn lemma_inode_start_across_groups(efs: Efs, n: u64)
    requires
        efs.cg_inodes > 0,
        n < u64::MAX,
        (n + 1) % (efs.cg_inodes as int) == 0,
        efs.spec_inode_start(n) is Ok,
        efs.spec_inode_start((n + 1) as u64) is Ok,
    ensures
        efs.spec_inode_start((n + 1) as u64)->Ok_0 - (efs.spec_inode_start(n)->Ok_0 + INODE_STEP)
            == efs.cg_size * EFS_BLOCK_SZ - efs.cg_inodes * INODE_STEP,
{
    let k = efs.cg_inodes as int;
    let g = (n as int) / k;
    assert((n + 1) / k == g + 1 && (n as int) % k == k - 1) by (nonlinear_arith)
        requires
            k > 0,
            n >= 0,
            (n + 1) % k == 0,
            g == (n as int) / k,
    ;
    assert((g + 1) * (efs.cg_size as int) == g * (efs.cg_size as int) + efs.cg_size)
        by (nonlinear_arith);
}

/// The first inodes of two neighbouring cylinder groups lie one group's
/// size apart.
pub proof fn lemma_inode_start_group_stride(efs: Efs, n: u64)
    requires
        efs.cg_inodes > 0,
        n % efs.cg_inodes == 0,
        n + efs.cg_inodes <= u64::MAX,
        efs.spec_inode_start(n) is Ok,
        efs.spec_inode_start((n + efs.cg_inodes) as u64) is Ok,
    ensures
        efs.spec_inode_start((n + efs.cg_inodes) as u64)->Ok_0 - efs.spec_inode_start(n)->Ok_0
            == efs.cg_size * EFS_BLOCK_SZ,
{
    let k = efs.cg_inodes as int;
    let g = (n as int) / k;
    assert((n + k) / k == g + 1 && (n + k) % k == 0) by (nonlinear_arith)
        requires
            k > 0,
            n >= 0,
            (n as int) % k == 0,
            g == (n as int) / k,
    ;
    assert((g + 1) * (efs.cg_size as int) == g * (efs.cg_size as int) + efs.cg_size)
        by (nonlinear_arith);
}

} // verus!
