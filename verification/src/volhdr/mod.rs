//! The volume header: what a volume is divided into, and the files that
//! lie beside its filesystems.

use vstd::prelude::*;
use crate::error::{Field, SgidiskLibReadError, ValueError, view_result};
use crate::names::{bytes_to_string, spec_bytes_to_string};
use crate::volhdr::raw::{
    PartitionTable, VolumeDirectory, VolumeDirectoryView, VolumeHeader, VolumeHeaderView, DP_CTQ_EN,
    N_PAR_TAB, N_VOL_DIR,
};

pub mod raw;

verus! {

/// What a partition is used for.
#[derive(Debug, Copy, Clone, Eq, PartialEq, Structural)]
pub enum PartitionType {
    /// Partition is volume header
    VolumeHeader,
    /// A drive type that is no longer supported
    Unsupported1,
    /// A drive type that is no longer supported
    Unsupported2,
    /// Partition is used for data
    Raw,
    /// A filesystem type that was never supported
    Unsupported4,
    /// A filesystem type that was never supported
    Unsupported5,
    /// Partition is entire volume
    EntireVolume,
    /// Partition is SGI EFS
    Efs,
    /// Partition is part of a logical volume
    LogicalVolume,
    /// Part of a raw logical volume
    RawLogicalVolume,
    /// Partition is SGI XFS
    Xfs,
    /// Partition is SGI XFS log
    XfsLog,
    /// Partition is part of an XLV volume
    Xlv,
    /// Partition is SGI XVM
    Xvm,
    /// Partition is SGI VXVM
    Vxvm,
}

impl PartitionType {
    /// The partition type that the tag `tag` stands for.
    pub open spec fn spec_from_tag(tag: i32) -> Option<PartitionType> {
        if tag == 0 {
            Some(PartitionType::VolumeHeader)
        } else if tag == 1 {
            Some(PartitionType::Unsupported1)
        } else if tag == 2 {
            Some(PartitionType::Unsupported2)
        } else if tag == 3 {
            Some(PartitionType::Raw)
        } else if tag == 4 {
            Some(PartitionType::Unsupported4)
        } else if tag == 5 {
            Some(PartitionType::Unsupported5)
        } else if tag == 6 {
            Some(PartitionType::EntireVolume)
        } else if tag == 7 {
            Some(PartitionType::Efs)
        } else if tag == 8 {
            Some(PartitionType::LogicalVolume)
        } else if tag == 9 {
            Some(PartitionType::RawLogicalVolume)
        } else if tag == 10 {
            Some(PartitionType::Xfs)
        } else if tag == 11 {
            Some(PartitionType::XfsLog)
        } else if tag == 12 {
            Some(PartitionType::Xlv)
        } else if tag == 13 {
            Some(PartitionType::Xvm)
        } else if tag == 14 {
            Some(PartitionType::Vxvm)
        } else {
            None
        }
    }

    /// The tag that stands for the partition type.
    pub open spec fn spec_tag(self) -> i32 {
        match self {
            PartitionType::VolumeHeader => 0,
            PartitionType::Unsupported1 => 1,
            PartitionType::Unsupported2 => 2,
            PartitionType::Raw => 3,
            PartitionType::Unsupported4 => 4,
            PartitionType::Unsupported5 => 5,
            PartitionType::EntireVolume => 6,
            PartitionType::Efs => 7,
            PartitionType::LogicalVolume => 8,
            PartitionType::RawLogicalVolume => 9,
            PartitionType::Xfs => 10,
            PartitionType::XfsLog => 11,
            PartitionType::Xlv => 12,
            PartitionType::Xvm => 13,
            PartitionType::Vxvm => 14,
        }
    }

    /// Decodes the partition type from its tag.
    pub fn from_tag(tag: i32) -> (r: Option<PartitionType>)
        ensures
            r == Self::spec_from_tag(tag),
    {
        if tag == 0 {
            Some(PartitionType::VolumeHeader)
        } else if tag == 1 {
            Some(PartitionType::Unsupported1)
        } else if tag == 2 {
            Some(PartitionType::Unsupported2)
        } else if tag == 3 {
            Some(PartitionType::Raw)
        } else if tag == 4 {
            Some(PartitionType::Unsupported4)
        } else if tag == 5 {
            Some(PartitionType::Unsupported5)
        } else if tag == 6 {
            Some(PartitionType::EntireVolume)
        } else if tag == 7 {
            Some(PartitionType::Efs)
        } else if tag == 8 {
            Some(PartitionType::LogicalVolume)
        } else if tag == 9 {
            Some(PartitionType::RawLogicalVolume)
        } else if tag == 10 {
            Some(PartitionType::Xfs)
        } else if tag == 11 {
            Some(PartitionType::XfsLog)
        } else if tag == 12 {
            Some(PartitionType::Xlv)
        } else if tag == 13 {
            Some(PartitionType::Xvm)
        } else if tag == 14 {
            Some(PartitionType::Vxvm)
        } else {
            None
        }
    }

    /// The tag that stands for the partition type.
    pub fn tag(self) -> (r: i32)
        ensures
            r == self.spec_tag(),
            Self::spec_from_tag(r) == Some(self),
    {
        match self {
            PartitionType::VolumeHeader => 0,
            PartitionType::Unsupported1 => 1,
            PartitionType::Unsupported2 => 2,
            PartitionType::Raw => 3,
            PartitionType::Unsupported4 => 4,
            PartitionType::Unsupported5 => 5,
            PartitionType::EntireVolume => 6,
            PartitionType::Efs => 7,
            PartitionType::LogicalVolume => 8,
            PartitionType::RawLogicalVolume => 9,
            PartitionType::Xfs => 10,
            PartitionType::XfsLog => 11,
            PartitionType::Xlv => 12,
            PartitionType::Xvm => 13,
            PartitionType::Vxvm => 14,
        }
    }

    /// The name of the partition type.
    pub open spec fn spec_name(self) -> Seq<char> {
        match self {
            PartitionType::VolumeHeader => "VolumeHeader"@,
            PartitionType::Unsupported1 => "Unsupported1"@,
            PartitionType::Unsupported2 => "Unsupported2"@,
            PartitionType::Raw => "Raw"@,
            PartitionType::Unsupported4 => "Unsupported4"@,
            PartitionType::Unsupported5 => "Unsupported5"@,
            PartitionType::EntireVolume => "EntireVolume"@,
            PartitionType::Efs => "Efs"@,
            PartitionType::LogicalVolume => "LogicalVolume"@,
            PartitionType::RawLogicalVolume => "RawLogicalVolume"@,
            PartitionType::Xfs => "Xfs"@,
            PartitionType::XfsLog => "XfsLog"@,
            PartitionType::Xlv => "Xlv"@,
            PartitionType::Xvm => "Xvm"@,
            PartitionType::Vxvm => "Vxvm"@,
        }
    }

    /// The name of the partition type.
    pub fn name(self) -> (r: &'static str)
        ensures
            r@ == self.spec_name(),
    {
        match self {
            PartitionType::VolumeHeader => "VolumeHeader",
            PartitionType::Unsupported1 => "Unsupported1",
            PartitionType::Unsupported2 => "Unsupported2",
            PartitionType::Raw => "Raw",
            PartitionType::Unsupported4 => "Unsupported4",
            PartitionType::Unsupported5 => "Unsupported5",
            PartitionType::EntireVolume => "EntireVolume",
            PartitionType::Efs => "Efs",
            PartitionType::LogicalVolume => "LogicalVolume",
            PartitionType::RawLogicalVolume => "RawLogicalVolume",
            PartitionType::Xfs => "Xfs",
            PartitionType::XfsLog => "XfsLog",
            PartitionType::Xlv => "Xlv",
            PartitionType::Xvm => "Xvm",
            PartitionType::Vxvm => "Vxvm",
        }
    }
}

/// An entry of the partition table.
#[derive(Debug, Clone, Copy, PartialEq, Eq)]
pub struct Partition {
    /// Partition type
    pub partition_type: PartitionType,
    /// Partition size, in blocks
    pub block_sz: u64,
    /// Partition offset from the beginning of the disk, in blocks
    pub block_start: u64,
}

/// A file of the volume directory.
#[derive(Debug, Clone, PartialEq, Eq)]
pub struct VolumeFile {
    /// Name of the file; an entry without a name is unused
    pub file_name: Option<String>,
    /// First block of the file
    pub block_start: u64,
    /// Size of the file, in bytes
    pub file_sz: u64,
}

/// The mathematical value of a [`VolumeFile`].
pub ghost struct VolumeFileView {
    pub file_name: Option<Seq<char>>,
    pub block_start: u64,
    pub file_sz: u64,
}

impl View for VolumeFile {
    type V = VolumeFileView;

    open spec fn view(&self) -> VolumeFileView {
        VolumeFileView {
            file_name: match self.file_name {
                Some(name) => Some(name@),
                None => None,
            },
            block_start: self.block_start,
            file_sz: self.file_sz,
        }
    }
}

/// The values of a list of volume files.
pub open spec fn file_views(files: Seq<VolumeFile>) -> Seq<VolumeFileView> {
    Seq::new(files.len(), |i: int| files[i]@)
}

/// The volume header of an SGI disk.
#[derive(Debug, Clone, PartialEq, Eq)]
pub struct SgidiskVolume {
    /// Size of a disk sector in bytes
    pub sector_sz: usize,
    /// Command tag queueing enabled
    pub ctq_enabled: bool,
    /// Depth of the command tag queue
    pub ctq_depth: u8,
    /// Index of the root partition
    pub root_partition: usize,
    /// Index of the swap partition
    pub swap_partition: usize,
    /// The partition table
    pub partitions: Vec<Partition>,
    /// Name of the boot file
    pub boot_file: Option<String>,
    /// Files of the volume directory
    pub files: Vec<VolumeFile>,
    /// Number of cylinders; kept for older tools only
    pub compat_cylinders: u16,
    /// Number of heads; kept for older tools only
    pub compat_heads: u16,
    /// Sectors per track; kept for older tools only
    pub compat_sect: u16,
    /// Drive capacity in blocks; kept for older tools only
    pub compat_drivecap: u32,
}

/// The mathematical value of an [`SgidiskVolume`].
pub ghost struct SgidiskVolumeView {
    pub sector_sz: usize,
    pub ctq_enabled: bool,
    pub ctq_depth: u8,
    pub root_partition: usize,
    pub swap_partition: usize,
    pub partitions: Seq<Partition>,
    pub boot_file: Option<Seq<char>>,
    pub files: Seq<VolumeFileView>,
    pub compat_cylinders: u16,
    pub compat_heads: u16,
    pub compat_sect: u16,
    pub compat_drivecap: u32,
}

impl View for SgidiskVolume {
    type V = SgidiskVolumeView;

    open spec fn view(&self) -> SgidiskVolumeView {
        SgidiskVolumeView {
            sector_sz: self.sector_sz,
            ctq_enabled: self.ctq_enabled,
            ctq_depth: self.ctq_depth,
            root_partition: self.root_partition,
            swap_partition: self.swap_partition,
            partitions: self.partitions@,
            boot_file: match self.boot_file {
                Some(name) => Some(name@),
                None => None,
            },
            files: file_views(self.files@),
            compat_cylinders: self.compat_cylinders,
            compat_heads: self.compat_heads,
            compat_sect: self.compat_sect,
            compat_drivecap: self.compat_drivecap,
        }
    }
}

/// Size of a block of the volume, in bytes.
pub const VOLUME_BLOCK_SZ: u64 = 512;

impl Partition {
    /// Whether the byte behind the partition can be counted in 63 bits.
    pub open spec fn spec_fits(self) -> bool {
        (self.block_start + self.block_sz) * VOLUME_BLOCK_SZ <= i64::MAX
    }

    /// Whether the byte behind the partition can be counted in 63 bits.
    pub fn fits(&self) -> (r: bool)
        ensures
            r == self.spec_fits(),
    {
        (self.block_start as u128 + self.block_sz as u128) * 512 <= i64::MAX as u128
    }

    /// The partition that an entry of the partition table stands for.
    pub open spec fn spec_from(pt: PartitionTable) -> Partition {
        Partition {
            partition_type: pt.pt_type,
            block_sz: pt.pt_nblks as u64,
            block_start: pt.pt_firstlbn as u64,
        }
    }

    /// Builds the partition that an entry of the partition table stands for.
    pub fn from(pt: &PartitionTable) -> (r: Partition)
        ensures
            r == Self::spec_from(*pt),
    {
        Partition {
            partition_type: pt.pt_type,
            block_sz: pt.pt_nblks as u64,
            block_start: pt.pt_firstlbn as u64,
        }
    }

    /// Whether the partition is in use: whether it has any blocks.
    pub open spec fn spec_in_use(self) -> bool {
        self.block_sz > 0
    }

    /// Whether the partition is in use: whether it has any blocks.
    pub fn in_use(&self) -> (r: bool)
        ensures
            r == self.spec_in_use(),
    {
        self.block_sz > 0
    }
}

impl VolumeFileView {
    /// Whether the file is in use: whether it has a name.
    pub open spec fn spec_in_use(self) -> bool {
        self.file_name is Some
    }

    /// Whether the byte behind the file can be counted in 63 bits.
    pub open spec fn spec_fits(self) -> bool {
        self.block_start * VOLUME_BLOCK_SZ + self.file_sz <= i64::MAX
    }
}

impl SgidiskVolumeView {
    /// Whether the byte behind each partition and each file can be counted
    /// in 63 bits.
    pub open spec fn spans_fit(self) -> bool {
        &&& forall|i: int| 0 <= i < self.partitions.len() ==> (#[trigger] self.partitions[i]).spec_fits()
        &&& forall|i: int| 0 <= i < self.files.len() ==> (#[trigger] self.files[i]).spec_fits()
    }
}

impl VolumeFile {
    /// The file that an entry of the volume directory stands for: its name
    /// read as text, its start and size narrowed to unsigned numbers. A
    /// start of -1 stands for 0.
    pub open spec fn spec_try_from(vd: VolumeDirectoryView) -> Result<
        VolumeFileView,
        SgidiskLibReadError,
    > {
        match spec_bytes_to_string(vd.vd_name) {
            Err(e) => Err(e),
            Ok(file_name) => if vd.vd_lbn < -1 {
                Err(
                    SgidiskLibReadError::Value(
                        ValueError::Negative { field: Field::FileStart, value: vd.vd_lbn as i64 },
                    ),
                )
            } else if vd.vd_nbytes < 0 {
                Err(
                    SgidiskLibReadError::Value(
                        ValueError::Negative { field: Field::FileSize, value: vd.vd_nbytes as i64 },
                    ),
                )
            } else {
                Ok(
                    VolumeFileView {
                        file_name,
                        block_start: if vd.vd_lbn == -1 {
                            0
                        } else {
                            vd.vd_lbn as u64
                        },
                        file_sz: vd.vd_nbytes as u64,
                    },
                )
            },
        }
    }

    /// Builds the file that an entry of the volume directory stands for.
    pub fn try_from(vd: &VolumeDirectory) -> (r: Result<VolumeFile, SgidiskLibReadError>)
        ensures
            view_result(r) == Self::spec_try_from(vd@),
    {
        let file_name = match bytes_to_string(vd.vd_name.as_slice()) {
            Ok(file_name) => file_name,
            Err(e) => {
                return Err(e);
            },
        };
        let block_start: u64 = if vd.vd_lbn == -1 {
            0
        } else if vd.vd_lbn < 0 {
            return Err(
                SgidiskLibReadError::Value(
                    ValueError::Negative { field: Field::FileStart, value: vd.vd_lbn as i64 },
                ),
            );
        } else {
            vd.vd_lbn as u64
        };
        if vd.vd_nbytes < 0 {
            return Err(
                SgidiskLibReadError::Value(
                    ValueError::Negative { field: Field::FileSize, value: vd.vd_nbytes as i64 },
                ),
            );
        }
        Ok(VolumeFile { file_name, block_start, file_sz: vd.vd_nbytes as u64 })
    }

    /// Whether the file is in use: whether it has a name.
    pub fn in_use(&self) -> (r: bool)
        ensures
            r == self@.spec_in_use(),
    {
        self.file_name.is_some()
    }

    /// Whether the byte behind the file can be counted in 63 bits.
    pub fn fits(&self) -> (r: bool)
        ensures
            r == self@.spec_fits(),
    {
        self.block_start as u128 * 512 + self.file_sz as u128 <= i64::MAX as u128
    }
}

/// The files of a volume directory that was decoded lie where bytes can
/// still be counted.
pub proof fn lemma_files_fit(vd: Seq<VolumeDirectoryView>)
    requires
        spec_files(vd) is Ok,
    ensures
        spec_files(vd)->Ok_0.len() == vd.len(),
        forall|i: int| 0 <= i < vd.len() ==> (#[trigger] spec_files(vd)->Ok_0[i]).spec_fits(),
    decreases vd.len(),
{
    if vd.len() > 0 {
        lemma_files_fit(vd.drop_last());
        let before = spec_files(vd.drop_last())->Ok_0;
        let files = spec_files(vd)->Ok_0;
        assert forall|i: int| 0 <= i < vd.len() implies (#[trigger] files[i]).spec_fits() by {
            if i < before.len() {
                assert(files[i] == before[i]);
            }
        }
    }
}

/// The files that the entries `vd` of a volume directory stand for, or the
/// failure of the first entry that stands for none.
pub open spec fn spec_files(vd: Seq<VolumeDirectoryView>) -> Result<
    Seq<VolumeFileView>,
    SgidiskLibReadError,
>
    decreases vd.len(),
{
    if vd.len() == 0 {
        Ok(Seq::empty())
    } else {
        match spec_files(vd.drop_last()) {
            Err(e) => Err(e),
            Ok(before) => match VolumeFile::spec_try_from(vd.last()) {
                Err(e) => Err(e),
                Ok(file) => Ok(before.push(file)),
            },
        }
    }
}

/// Where a part of the volume directory from its start stands for no list of
/// files, neither does all of it, and for the same reason.
pub proof fn lemma_files_prefix_fails(vd: Seq<VolumeDirectoryView>, n: int)
    requires
        0 <= n <= vd.len(),
        spec_files(vd.take(n)) is Err,
    ensures
        spec_files(vd) == spec_files(vd.take(n)),
    decreases vd.len(),
{
    if n < vd.len() {
        assert(vd.drop_last().take(n) == vd.take(n));
        lemma_files_prefix_fails(vd.drop_last(), n);
    } else {
        assert(vd.take(n) == vd);
    }
}

impl SgidiskVolume {
    /// The volume that a volume header describes: its partition indices
    /// narrowed to unsigned numbers, its names read as text, its tables
    /// translated entry by entry.
    pub open spec fn spec_try_from(vh: VolumeHeaderView) -> Result<
        SgidiskVolumeView,
        SgidiskLibReadError,
    > {
        if vh.vh_rootpt < 0 {
            Err(
                SgidiskLibReadError::Value(
                    ValueError::Negative { field: Field::RootPartition, value: vh.vh_rootpt as i64 },
                ),
            )
        } else if vh.vh_swappt < 0 {
            Err(
                SgidiskLibReadError::Value(
                    ValueError::Negative { field: Field::SwapPartition, value: vh.vh_swappt as i64 },
                ),
            )
        } else {
            match spec_bytes_to_string(vh.vh_bootfile) {
                Err(e) => Err(e),
                Ok(boot_file) => match spec_files(vh.vh_vd) {
                    Err(e) => Err(e),
                    Ok(files) => Ok(
                        SgidiskVolumeView {
                            sector_sz: vh.vh_dp.dp_secbytes as usize,
                            ctq_enabled: vh.vh_dp.dp_flags & DP_CTQ_EN == DP_CTQ_EN,
                            ctq_depth: vh.vh_dp.dp_ctq_depth,
                            root_partition: vh.vh_rootpt as usize,
                            swap_partition: vh.vh_swappt as usize,
                            partitions: vh.vh_pt.map_values(|pt: PartitionTable| Partition::spec_from(pt)),
                            boot_file,
                            files,
                            compat_cylinders: vh.vh_dp.dp_cylinders,
                            compat_heads: vh.vh_dp.dp_heads,
                            compat_sect: vh.vh_dp.dp_sect,
                            compat_drivecap: vh.vh_dp.dp_drivecap,
                        },
                    ),
                },
            }
        }
    }

    /// Builds the volume that a volume header describes.
    pub fn try_from(vh: &VolumeHeader) -> (r: Result<SgidiskVolume, SgidiskLibReadError>)
        ensures
            view_result(r) == Self::spec_try_from(vh@),
            r is Ok ==> r->Ok_0@.spans_fit(),
            r is Ok ==> r->Ok_0@.partitions.len() == vh@.vh_pt.len(),
            r is Ok ==> r->Ok_0@.files.len() == vh@.vh_vd.len(),
    {
        if vh.vh_rootpt < 0 {
            return Err(
                SgidiskLibReadError::Value(
                    ValueError::Negative { field: Field::RootPartition, value: vh.vh_rootpt as i64 },
                ),
            );
        }
        let root_partition: usize = vh.vh_rootpt as usize;
        if vh.vh_swappt < 0 {
            return Err(
                SgidiskLibReadError::Value(
                    ValueError::Negative { field: Field::SwapPartition, value: vh.vh_swappt as i64 },
                ),
            );
        }
        let swap_partition: usize = vh.vh_swappt as usize;
        let ctq_enabled: bool = vh.vh_dp.dp_flags & DP_CTQ_EN == DP_CTQ_EN;
        let mut partitions: Vec<Partition> = Vec::with_capacity(vh.vh_pt.len());
        let mut i: usize = 0;
        while i < vh.vh_pt.len()
            invariant
                i <= vh.vh_pt@.len(),
                partitions@.len() == i,
                forall|j: int|
                    0 <= j < i ==> #[trigger] partitions@[j] == Partition::spec_from(vh.vh_pt@[j]),
            decreases vh.vh_pt@.len() - i,
        {
            partitions.push(Partition::from(&vh.vh_pt[i]));
            i += 1;
        }
        let boot_file = match bytes_to_string(vh.vh_bootfile.as_slice()) {
            Ok(boot_file) => boot_file,
            Err(e) => {
                return Err(e);
            },
        };
        let ghost vd = vh@.vh_vd;
        let mut files: Vec<VolumeFile> = Vec::with_capacity(vh.vh_vd.len());
        let mut k: usize = 0;
        assert(vd.take(0) =~= Seq::<VolumeDirectoryView>::empty());
        assert(file_views(files@) =~= Seq::<VolumeFileView>::empty());
        while k < vh.vh_vd.len()
            invariant
                k <= vh.vh_vd@.len(),
                vd == vh@.vh_vd,
                vh.vh_rootpt >= 0,
                vh.vh_swappt >= 0,
                spec_bytes_to_string(vh@.vh_bootfile) is Ok,
                spec_files(vd.take(k as int)) == Ok::<Seq<VolumeFileView>, SgidiskLibReadError>(
                    file_views(files@),
                ),
            decreases vh.vh_vd@.len() - k,
        {
            proof {
                assert(vd.take(k + 1).drop_last() == vd.take(k as int));
                assert(vd.take(k + 1).last() == vh.vh_vd@[k as int]@);
            }
            match VolumeFile::try_from(&vh.vh_vd[k]) {
                Ok(file) => {
                    proof {
                        assert(file_views(files@.push(file)) =~= file_views(files@).push(file@));
                    }
                    files.push(file);
                },
                Err(e) => {
                    proof {
                        lemma_files_prefix_fails(vd, k + 1);
                    }
                    return Err(e);
                },
            }
            k += 1;
        }
        assert(vd.take(k as int) == vd);
        let volume = SgidiskVolume {
            sector_sz: vh.vh_dp.dp_secbytes as usize,
            ctq_enabled,
            ctq_depth: vh.vh_dp.dp_ctq_depth,
            root_partition,
            swap_partition,
            partitions,
            boot_file,
            files,
            compat_cylinders: vh.vh_dp.dp_cylinders,
            compat_heads: vh.vh_dp.dp_heads,
            compat_sect: vh.vh_dp.dp_sect,
            compat_drivecap: vh.vh_dp.dp_drivecap,
        };
        assert(volume@.partitions =~= vh@.vh_pt.map_values(
            |pt: PartitionTable| Partition::spec_from(pt),
        ));
        proof {
            lemma_files_fit(vd);
        }
        Ok(volume)
    }

    /// Whether the byte behind each partition and each file can be counted
    /// in 63 bits.
    pub fn spans_fit(&self) -> (r: bool)
        ensures
            r == self@.spans_fit(),
    {
        let mut i: usize = 0;
        while i < self.partitions.len()
            invariant
                i <= self.partitions@.len(),
                forall|j: int| 0 <= j < i ==> (#[trigger] self.partitions@[j]).spec_fits(),
            decreases self.partitions@.len() - i,
        {
            if !self.partitions[i].fits() {
                assert(!self@.partitions[i as int].spec_fits());
                return false;
            }
            i += 1;
        }
        let mut k: usize = 0;
        while k < self.files.len()
            invariant
                k <= self.files@.len(),
                forall|j: int| 0 <= j < self.partitions@.len() ==> (#[trigger] self.partitions@[j]).spec_fits(),
                forall|j: int| 0 <= j < k ==> (#[trigger] self@.files[j]).spec_fits(),
            decreases self.files@.len() - k,
        {
            if !self.files[k].fits() {
                assert(!self@.files[k as int].spec_fits());
                return false;
            }
            assert(self@.files[k as int].spec_fits());
            k += 1;
        }
        true
    }

    /// What reading the volume of a byte source yields.
    pub open spec fn spec_read(image: Seq<u8>) -> Result<SgidiskVolumeView, SgidiskLibReadError> {
        match VolumeHeader::spec_read(image) {
            Err(e) => Err(e),
            Ok(vh) => Self::spec_try_from(vh),
        }
    }

    /// Reads the volume header from the start of the byte source and builds
    /// the volume that it describes.
    pub fn read(image: &[u8]) -> (r: Result<SgidiskVolume, SgidiskLibReadError>)
        ensures
            view_result(r) == Self::spec_read(image@),
            r is Ok ==> r->Ok_0@.spans_fit(),
            r is Ok ==> r->Ok_0@.partitions.len() == N_PAR_TAB,
            r is Ok ==> r->Ok_0@.files.len() == N_VOL_DIR,
    {
        match VolumeHeader::read(image) {
            Err(e) => Err(e),
            Ok(vh) => Self::try_from(&vh),
        }
    }
}

} // verus!
