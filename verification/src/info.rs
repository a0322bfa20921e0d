//! What a volume header says of its volume, held against the size of the
//! image that holds the volume.

use vstd::prelude::*;
use vstd::string::*;
use crate::volhdr::{
    Partition, PartitionType, SgidiskVolume, SgidiskVolumeView, VolumeFile, VolumeFileView,
    VOLUME_BLOCK_SZ,
};

verus! {

/// Index of the partition that stands for the entire volume.
pub const ENTIRE_VOLUME_PARTITION: usize = 10;

/// By how many bytes something that ends at byte `end` reaches past the end
/// of an image of `file_sz` bytes, where it does.
pub open spec fn spec_over_length(end: int, file_sz: u64) -> Option<u64> {
    if end > file_sz {
        Some((end - file_sz) as u64)
    } else {
        None
    }
}

/// A file of the volume directory, as it is shown.
#[derive(Debug, Clone, PartialEq, Eq)]
pub struct VhFileInfo {
    /// Index of the file in the volume directory
    pub id: usize,
    /// Name of the file; empty where it has none
    pub file_name: String,
    /// First block of the file
    pub start_block: u64,
    /// Size of the file, in bytes
    pub size_bytes: u64,
    /// By how many bytes the file reaches past the end of the image
    pub over_length: Option<u64>,
}

/// The mathematical value of a [`VhFileInfo`].
pub ghost struct VhFileInfoView {
    pub id: usize,
    pub file_name: Seq<char>,
    pub start_block: u64,
    pub size_bytes: u64,
    pub over_length: Option<u64>,
}

impl View for VhFileInfo {
    type V = VhFileInfoView;

    open spec fn view(&self) -> VhFileInfoView {
        VhFileInfoView {
            id: self.id,
            file_name: self.file_name@,
            start_block: self.start_block,
            size_bytes: self.size_bytes,
            over_length: self.over_length,
        }
    }
}

/// A partition, as it is shown.
#[derive(Debug, Clone, PartialEq, Eq)]
pub struct PartitionInfo {
    /// Index of the partition in the partition table
    pub id: usize,
    /// Name of the partition type
    pub partition_type: String,
    /// First block of the partition
    pub start_block: u64,
    /// Block behind the last block of the partition
    pub end_block: u64,
    /// Size of the partition, in blocks
    pub sz_blocks: u64,
    /// By how many bytes the partition reaches past the end of the image
    pub over_length: Option<u64>,
}

/// The mathematical value of a [`PartitionInfo`].
pub ghost struct PartitionInfoView {
    pub id: usize,
    pub partition_type: Seq<char>,
    pub start_block: u64,
    pub end_block: u64,
    pub sz_blocks: u64,
    pub over_length: Option<u64>,
}

impl View for PartitionInfo {
    type V = PartitionInfoView;

    open spec fn view(&self) -> PartitionInfoView {
        PartitionInfoView {
            id: self.id,
            partition_type: self.partition_type@,
            start_block: self.start_block,
            end_block: self.end_block,
            sz_blocks: self.sz_blocks,
            over_length: self.over_length,
        }
    }
}

/// A volume, as it is shown: its settings, and of its files and partitions
/// those that are in use.
#[derive(Debug, Clone, PartialEq, Eq)]
pub struct VolumeInfo {
    pub sector_sz: usize,
    pub ctq_enabled: bool,
    pub ctq_depth: u8,
    pub root_partition: usize,
    pub swap_partition: usize,
    pub boot_file: Option<String>,
    pub vh_files: Vec<VhFileInfo>,
    pub partitions: Vec<PartitionInfo>,
}

/// The values of a list of files as they are shown.
pub open spec fn file_info_views(infos: Seq<VhFileInfo>) -> Seq<VhFileInfoView> {
    Seq::new(infos.len(), |i: int| infos[i]@)
}

/// The values of a list of partitions as they are shown.
pub open spec fn partition_info_views(infos: Seq<PartitionInfo>) -> Seq<PartitionInfoView> {
    Seq::new(infos.len(), |i: int| infos[i]@)
}

/// How the partition that stands for the entire volume compares with the
/// image.
#[derive(Debug, Clone, Copy, PartialEq, Eq)]
pub enum VolumeSpan {
    /// The volume ends behind the image, by so many bytes.
    PastEnd { by: u64 },
    /// The volume ends before the image does, by so many bytes.
    Smaller { by: u64 },
    /// The volume ends where the image ends, at this byte.
    Equal { at: u64 },
}

impl VhFileInfo {
    /// The file `f`, index `id` of the volume directory, as it is shown for
    /// an image of `file_sz` bytes.
    pub open spec fn spec_from(id: usize, f: VolumeFileView, file_sz: u64) -> VhFileInfoView {
        VhFileInfoView {
            id,
            file_name: match f.file_name {
                Some(name) => name,
                None => Seq::empty(),
            },
            start_block: f.block_start,
            size_bytes: f.file_sz,
            over_length: spec_over_length(f.block_start * VOLUME_BLOCK_SZ + f.file_sz, file_sz),
        }
    }

    /// Describes a file of the volume directory.
    pub fn from(id: usize, f: &VolumeFile, file_sz: u64) -> (r: VhFileInfo)
        requires
            f@.spec_fits(),
        ensures
            r@ == Self::spec_from(id, f@, file_sz),
    {
        let end_bytes: u64 = f.block_start * 512 + f.file_sz;
        let over_length: Option<u64> = if end_bytes > file_sz {
            Some(end_bytes - file_sz)
        } else {
            None
        };
        VhFileInfo {
            id,
            file_name: match &f.file_name {
                Some(n) => n.clone(),
                None => String::new(),
            },
            start_block: f.block_start,
            size_bytes: f.file_sz,
            over_length,
        }
    }
}

impl PartitionInfo {
    /// The partition `p`, index `id` of the partition table, as it is shown
    /// for an image of `file_sz` bytes.
    pub open spec fn spec_from(id: usize, p: Partition, file_sz: u64) -> PartitionInfoView {
        PartitionInfoView {
            id,
            partition_type: p.partition_type.spec_name(),
            start_block: p.block_start,
            end_block: (p.block_start + p.block_sz) as u64,
            sz_blocks: p.block_sz,
            over_length: spec_over_length((p.block_start + p.block_sz) * VOLUME_BLOCK_SZ, file_sz),
        }
    }

    /// Describes a partition.
    pub fn from(id: usize, p: &Partition, file_sz: u64) -> (r: PartitionInfo)
        requires
            p.spec_fits(),
        ensures
            r@ == Self::spec_from(id, *p, file_sz),
    {
        let end_block: u64 = p.block_start + p.block_sz;
        let end_byte: u64 = end_block * 512;
        let over_length: Option<u64> = if end_byte > file_sz {
            Some(end_byte - file_sz)
        } else {
            None
        };
        PartitionInfo {
            id,
            partition_type: String::from_str(p.partition_type.name()),
            start_block: p.block_start,
            end_block,
            sz_blocks: p.block_sz,
            over_length,
        }
    }
}

/// The first `n` files of `files` that are in use, as they are shown.
pub open spec fn spec_file_infos(files: Seq<VolumeFileView>, file_sz: u64, n: nat) -> Seq<
    VhFileInfoView,
>
    decreases n,
{
    if n == 0 {
        Seq::empty()
    } else if files[n - 1].spec_in_use() {
        spec_file_infos(files, file_sz, (n - 1) as nat).push(
            VhFileInfo::spec_from((n - 1) as usize, files[n - 1], file_sz),
        )
    } else {
        spec_file_infos(files, file_sz, (n - 1) as nat)
    }
}

/// The first `n` partitions of `partitions` that are in use, as they are
/// shown.
pub open spec fn spec_partition_infos(partitions: Seq<Partition>, file_sz: u64, n: nat) -> Seq<
    PartitionInfoView,
>
    decreases n,
{
    if n == 0 {
        Seq::empty()
    } else if partitions[n - 1].spec_in_use() {
        spec_partition_infos(partitions, file_sz, (n - 1) as nat).push(
            PartitionInfo::spec_from((n - 1) as usize, partitions[n - 1], file_sz),
        )
    } else {
        spec_partition_infos(partitions, file_sz, (n - 1) as nat)
    }
}

/// How the entire-volume partition of `vol` compares with an image of
/// `file_sz` bytes; nothing where partition 10 is no such partition.
pub open spec fn spec_entire_volume_span(vol: SgidiskVolumeView, file_sz: u64) -> Option<
    VolumeSpan,
> {
    if vol.partitions.len() > ENTIRE_VOLUME_PARTITION && vol.partitions[ENTIRE_VOLUME_PARTITION as int].partition_type
        == PartitionType::EntireVolume {
        let p = vol.partitions[ENTIRE_VOLUME_PARTITION as int];
        let vol_end = (p.block_start + p.block_sz) * VOLUME_BLOCK_SZ;
        if vol_end > file_sz {
            Some(VolumeSpan::PastEnd { by: (vol_end - file_sz) as u64 })
        } else if vol_end < file_sz {
            Some(VolumeSpan::Smaller { by: (file_sz - vol_end) as u64 })
        } else {
            Some(VolumeSpan::Equal { at: vol_end as u64 })
        }
    } else {
        None
    }
}

/// Compares the entire-volume partition of `vol` with an image of `file_sz`
/// bytes. A volume that ends elsewhere than its image is reported, not
/// refused.
pub fn entire_volume_span(vol: &SgidiskVolume, file_sz: u64) -> (r: Option<VolumeSpan>)
    requires
        vol@.spans_fit(),
    ensures
        r == spec_entire_volume_span(vol@, file_sz),
{
    if vol.partitions.len() > ENTIRE_VOLUME_PARTITION
        && vol.partitions[ENTIRE_VOLUME_PARTITION].partition_type == PartitionType::EntireVolume {
        let p = &vol.partitions[ENTIRE_VOLUME_PARTITION];
        assert(vol@.partitions[ENTIRE_VOLUME_PARTITION as int].spec_fits());
        let vol_end: u64 = (p.block_start + p.block_sz) * 512;
        if vol_end > file_sz {
            Some(VolumeSpan::PastEnd { by: vol_end - file_sz })
        } else if vol_end < file_sz {
            Some(VolumeSpan::Smaller { by: file_sz - vol_end })
        } else {
            Some(VolumeSpan::Equal { at: vol_end })
        }
    } else {
        None
    }
}

impl VolumeInfo {
    /// Describes a volume for an image of `file_sz` bytes: its settings as
    /// they are, and of its files and partitions those that are in use,
    /// each under its index.
    pub fn from(vol: &SgidiskVolume, file_sz: u64) -> (r: VolumeInfo)
        requires
            vol@.spans_fit(),
        ensures
            r.sector_sz == vol.sector_sz,
            r.ctq_enabled == vol.ctq_enabled,
            r.ctq_depth == vol.ctq_depth,
            r.root_partition == vol.root_partition,
            r.swap_partition == vol.swap_partition,
            r.boot_file == vol.boot_file,
            file_info_views(r.vh_files@) == spec_file_infos(vol@.files, file_sz, vol@.files.len()),
            partition_info_views(r.partitions@) == spec_partition_infos(
                vol@.partitions,
                file_sz,
                vol@.partitions.len(),
            ),
    {
        let mut vh_files: Vec<VhFileInfo> = Vec::new();
        let mut i: usize = 0;
        assert(file_info_views(vh_files@) =~= Seq::<VhFileInfoView>::empty());
        while i < vol.files.len()
            invariant
                i <= vol.files@.len(),
                vol@.spans_fit(),
                file_info_views(vh_files@) == spec_file_infos(vol@.files, file_sz, i as nat),
            decreases vol.files@.len() - i,
        {
            assert(vol@.files[i as int].spec_fits());
            assert(vol@.files[i as int] == vol.files@[i as int]@);
            if vol.files[i].in_use() {
                let info = VhFileInfo::from(i, &vol.files[i], file_sz);
                assert(file_info_views(vh_files@.push(info)) =~= file_info_views(vh_files@).push(
                    info@,
                ));
                vh_files.push(info);
            }
            i += 1;
        }
        let mut partitions: Vec<PartitionInfo> = Vec::new();
        let mut k: usize = 0;
        assert(partition_info_views(partitions@) =~= Seq::<PartitionInfoView>::empty());
        while k < vol.partitions.len()
            invariant
                k <= vol.partitions@.len(),
                vol@.spans_fit(),
                partition_info_views(partitions@) == spec_partition_infos(
                    vol@.partitions,
                    file_sz,
                    k as nat,
                ),
            decreases vol.partitions@.len() - k,
        {
            assert(vol@.partitions[k as int].spec_fits());
            if vol.partitions[k].in_use() {
                let info = PartitionInfo::from(k, &vol.partitions[k], file_sz);
                assert(partition_info_views(partitions@.push(info)) =~= partition_info_views(
                    partitions@,
                ).push(info@));
                partitions.push(info);
            }
            k += 1;
        }
        VolumeInfo {
            sector_sz: vol.sector_sz,
            ctq_enabled: vol.ctq_enabled,
            ctq_depth: vol.ctq_depth,
            root_partition: vol.root_partition,
            swap_partition: vol.swap_partition,
            boot_file: vol.boot_file.clone(),
            vh_files,
            partitions,
        }
    }
}

} // verus!
