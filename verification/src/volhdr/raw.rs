//! The volume header as it lies on disk, in sector 0 of the volume.

use vstd::prelude::*;
use crate::codec::{
    all_zero, be16, be16_bytes, be32, be32_bytes, fetch, lemma_be_at, lemma_be_read_written,
    lemma_be_within, lemma_be_written_read, lemma_join, lemma_peel, lemma_signed_pattern,
    pattern16, pattern32, put_bytes, put_i16, put_i32, put_u16, put_u32, put_zeros, read_bytes,
    read_i16, read_i32, read_u16, read_u32, read_u8, signed16, signed32, spec_fetch, zeros,
};
use crate::error::{CodecError, SgidiskLibReadError, view_result};
use crate::volhdr::PartitionType;

verus! {

/// Size of the volume header on disk, in bytes.
pub const VOLUME_HEADER_SIZE: usize = 512;

/// Number of entries in the partition table.
pub const N_PAR_TAB: usize = 16;

/// Number of entries in the volume directory.
pub const N_VOL_DIR: usize = 15;

/// Size of the name of the boot file.
pub const BOOTF_NAME_SZ: usize = 16;

/// Size of the name of a file of the volume directory.
pub const VDNAME_SZ: usize = 8;

/// Size of the device parameters on disk.
pub const DEVICE_PARAMETERS_SIZE: usize = 48;

/// Size of an entry of the volume directory on disk.
pub const VOLUME_DIRECTORY_SIZE: usize = 16;

/// Size of an entry of the partition table on disk.
pub const PARTITION_TABLE_SIZE: usize = 12;

/// Where the device parameters begin in the volume header.
pub const DEVICE_PARAMETERS_AT: usize = 24;

/// Where the volume directory begins in the volume header.
pub const VOLUME_DIRECTORY_AT: usize = 72;

/// Where the partition table begins in the volume header.
pub const PARTITION_TABLE_AT: usize = 312;

/// The flag of the device parameters that says that command tag queueing
/// is enabled.
pub const DP_CTQ_EN: i32 = 0x1000;

/// How logical blocks map to the device.
#[derive(Debug, Clone, Copy, PartialEq, Eq)]
pub struct VolumeDeviceParameters {
    /// Number of cylinders; kept for older tools only
    pub dp_cylinders: u16,
    /// Number of heads; kept for older tools only
    pub dp_heads: u16,
    /// Depth of the command tag queue
    pub dp_ctq_depth: u8,
    /// Sectors per track; kept for older tools only
    pub dp_sect: u16,
    /// Length of a sector in bytes
    pub dp_secbytes: u16,
    /// Flags used by the disk driver
    pub dp_flags: i32,
    /// Drive capacity in blocks
    pub dp_drivecap: u32,
}

/// An entry of the volume directory: a file that lies in the volume header's
/// own partition.
#[derive(Debug, Clone, PartialEq, Eq)]
pub struct VolumeDirectory {
    /// Name, 8 bytes
    pub vd_name: Vec<u8>,
    /// Logical block number
    pub vd_lbn: i32,
    /// File length in bytes
    pub vd_nbytes: i32,
}

/// The mathematical value of a [`VolumeDirectory`].
pub ghost struct VolumeDirectoryView {
    pub vd_name: Seq<u8>,
    pub vd_lbn: i32,
    pub vd_nbytes: i32,
}

impl View for VolumeDirectory {
    type V = VolumeDirectoryView;

    open spec fn view(&self) -> VolumeDirectoryView {
        VolumeDirectoryView {
            vd_name: self.vd_name@,
            vd_lbn: self.vd_lbn,
            vd_nbytes: self.vd_nbytes,
        }
    }
}

/// An entry of the partition table.
#[derive(Debug, Clone, Copy, PartialEq, Eq)]
pub struct PartitionTable {
    /// Number of logical blocks in the partition
    pub pt_nblks: u32,
    /// First logical block of the partition
    pub pt_firstlbn: u32,
    /// Use of the partition
    pub pt_type: PartitionType,
}

/// The volume header as its 512 bytes spell it.
#[derive(Debug, Clone, PartialEq, Eq)]
pub struct VolumeHeader {
    /// Root partition number
    pub vh_rootpt: i16,
    /// Swap partition number
    pub vh_swappt: i16,
    /// Name of the file to boot, 16 bytes
    pub vh_bootfile: Vec<u8>,
    /// Device parameters
    pub vh_dp: VolumeDeviceParameters,
    /// The 15 entries of the volume directory
    pub vh_vd: Vec<VolumeDirectory>,
    /// The 16 entries of the partition table
    pub vh_pt: Vec<PartitionTable>,
    /// Volume header checksum, as stored
    pub vh_csum: i32,
}

/// The mathematical value of a [`VolumeHeader`].
pub ghost struct VolumeHeaderView {
    pub vh_rootpt: i16,
    pub vh_swappt: i16,
    pub vh_bootfile: Seq<u8>,
    pub vh_dp: VolumeDeviceParameters,
    pub vh_vd: Seq<VolumeDirectoryView>,
    pub vh_pt: Seq<PartitionTable>,
    pub vh_csum: i32,
}

/// The values of a list of volume directory entries.
pub open spec fn directory_views(entries: Seq<VolumeDirectory>) -> Seq<VolumeDirectoryView> {
    Seq::new(entries.len(), |i: int| entries[i]@)
}

impl View for VolumeHeader {
    type V = VolumeHeaderView;

    open spec fn view(&self) -> VolumeHeaderView {
        VolumeHeaderView {
            vh_rootpt: self.vh_rootpt,
            vh_swappt: self.vh_swappt,
            vh_bootfile: self.vh_bootfile@,
            vh_dp: self.vh_dp,
            vh_vd: directory_views(self.vh_vd@),
            vh_pt: self.vh_pt@,
            vh_csum: self.vh_csum,
        }
    }
}

impl VolumeDeviceParameters {
    /// The device parameters that the 48 bytes at `at` of `b` spell.
    pub open spec fn spec_decode(b: Seq<u8>, at: int) -> VolumeDeviceParameters {
        VolumeDeviceParameters {
            dp_cylinders: be16(b, at + 4) as u16,
            dp_heads: be16(b, at + 8) as u16,
            dp_ctq_depth: b[at + 10],
            dp_sect: be16(b, at + 14) as u16,
            dp_secbytes: be16(b, at + 16) as u16,
            dp_flags: signed32(be32(b, at + 20)) as i32,
            dp_drivecap: be32(b, at + 44) as u32,
        }
    }

    /// Decodes the device parameters from the 48 bytes at `at` of `buf`.
    pub fn parse_at(buf: &[u8], at: usize) -> (r: VolumeDeviceParameters)
        requires
            at + DEVICE_PARAMETERS_SIZE <= buf@.len(),
        ensures
            r == Self::spec_decode(buf@, at as int),
    {
        let total: usize = buf.len();
        VolumeDeviceParameters {
            dp_cylinders: read_u16(buf, at + 4),
            dp_heads: read_u16(buf, at + 8),
            dp_ctq_depth: read_u8(buf, at + 10),
            dp_sect: read_u16(buf, at + 14),
            dp_secbytes: read_u16(buf, at + 16),
            dp_flags: read_i32(buf, at + 20),
            dp_drivecap: read_u32(buf, at + 44),
        }
    }
}

impl VolumeDirectory {
    /// The entry that the 16 bytes at `at` of `b` spell.
    pub open spec fn spec_decode(b: Seq<u8>, at: int) -> VolumeDirectoryView {
        VolumeDirectoryView {
            vd_name: b.subrange(at, at + 8),
            vd_lbn: signed32(be32(b, at + 8)) as i32,
            vd_nbytes: signed32(be32(b, at + 12)) as i32,
        }
    }

    /// Decodes an entry of the volume directory from the 16 bytes at `at` of
    /// `buf`.
    pub fn parse_at(buf: &[u8], at: usize) -> (r: VolumeDirectory)
        requires
            at + VOLUME_DIRECTORY_SIZE <= buf@.len(),
        ensures
            r@ == Self::spec_decode(buf@, at as int),
    {
        let total: usize = buf.len();
        VolumeDirectory {
            vd_name: read_bytes(buf, at, VDNAME_SZ),
            vd_lbn: read_i32(buf, at + 8),
            vd_nbytes: read_i32(buf, at + 12),
        }
    }
}

impl PartitionTable {
    /// The tag of the partition type that the entry at `at` of `b` holds.
    pub open spec fn spec_type_tag(b: Seq<u8>, at: int) -> i32 {
        signed32(be32(b, at + 8)) as i32
    }

    /// The entry that the 12 bytes at `at` of `b` spell.
    pub open spec fn spec_decode(b: Seq<u8>, at: int) -> Result<PartitionTable, SgidiskLibReadError> {
        match PartitionType::spec_from_tag(Self::spec_type_tag(b, at)) {
            None => Err(
                SgidiskLibReadError::Codec(
                    CodecError::UnknownTag { value: Self::spec_type_tag(b, at) },
                ),
            ),
            Some(pt_type) => Ok(
                PartitionTable {
                    pt_nblks: be32(b, at) as u32,
                    pt_firstlbn: be32(b, at + 4) as u32,
                    pt_type,
                },
            ),
        }
    }

    /// Decodes an entry of the partition table from the 12 bytes at `at` of
    /// `buf`.
    pub fn parse_at(buf: &[u8], at: usize) -> (r: Result<PartitionTable, SgidiskLibReadError>)
        requires
            at + PARTITION_TABLE_SIZE <= buf@.len(),
        ensures
            r == Self::spec_decode(buf@, at as int),
    {
        let total: usize = buf.len();
        let tag: i32 = read_i32(buf, at + 8);
        match PartitionType::from_tag(tag) {
            None => Err(SgidiskLibReadError::Codec(CodecError::UnknownTag { value: tag })),
            Some(pt_type) => Ok(
                PartitionTable {
                    pt_nblks: read_u32(buf, at),
                    pt_firstlbn: read_u32(buf, at + 4),
                    pt_type,
                },
            ),
        }
    }
}

impl VolumeHeaderView {
    /// Whether the name and the two tables have the sizes that the format
    /// gives them.
    pub open spec fn wf(self) -> bool {
        &&& self.vh_bootfile.len() == BOOTF_NAME_SZ
        &&& self.vh_vd.len() == N_VOL_DIR
        &&& self.vh_pt.len() == N_PAR_TAB
        &&& forall|i: int| 0 <= i < self.vh_vd.len() ==> (#[trigger] self.vh_vd[i]).vd_name.len()
            == VDNAME_SZ
    }
}

impl VolumeHeader {
    /// The entries of the volume directory that `b` holds.
    pub open spec fn spec_directory(b: Seq<u8>) -> Seq<VolumeDirectoryView> {
        Seq::new(
            N_VOL_DIR as nat,
            |i: int| VolumeDirectory::spec_decode(b, VOLUME_DIRECTORY_AT + i * VOLUME_DIRECTORY_SIZE),
        )
    }

    /// The first `n` entries of the partition table that `b` holds, or the
    /// failure of the first that spells none.
    pub open spec fn spec_partitions(b: Seq<u8>, n: nat) -> Result<
        Seq<PartitionTable>,
        SgidiskLibReadError,
    >
        decreases n,
    {
        if n == 0 {
            Ok(Seq::empty())
        } else {
            match Self::spec_partitions(b, (n - 1) as nat) {
                Err(e) => Err(e),
                Ok(before) => match PartitionTable::spec_decode(
                    b,
                    PARTITION_TABLE_AT + (n - 1) * PARTITION_TABLE_SIZE,
                ) {
                    Err(e) => Err(e),
                    Ok(entry) => Ok(before.push(entry)),
                },
            }
        }
    }

    /// Whether `b` begins with the magic number of a volume header.
    pub open spec fn spec_magic(b: Seq<u8>) -> bool {
        b[0] == 0x0B && b[1] == 0xE5 && b[2] == 0xA9 && b[3] == 0x41
    }

    /// The volume header that the first 512 bytes of `b` spell.
    pub open spec fn spec_decode(b: Seq<u8>) -> Result<VolumeHeaderView, SgidiskLibReadError> {
        if b.len() < VOLUME_HEADER_SIZE {
            Err(SgidiskLibReadError::Codec(CodecError::LengthMismatch))
        } else if !Self::spec_magic(b) {
            Err(SgidiskLibReadError::Codec(CodecError::BadMagic))
        } else {
            match Self::spec_partitions(b, N_PAR_TAB as nat) {
                Err(e) => Err(e),
                Ok(vh_pt) => Ok(
                    VolumeHeaderView {
                        vh_rootpt: signed16(be16(b, 4)) as i16,
                        vh_swappt: signed16(be16(b, 6)) as i16,
                        vh_bootfile: b.subrange(8, 24),
                        vh_dp: VolumeDeviceParameters::spec_decode(b, DEVICE_PARAMETERS_AT as int),
                        vh_vd: Self::spec_directory(b),
                        vh_pt,
                        vh_csum: signed32(be32(b, 504)) as i32,
                    },
                ),
            }
        }
    }

    /// Decodes a volume header from the first 512 bytes of `buf`.
    pub fn parse_volume_header(buf: &[u8]) -> (r: Result<VolumeHeader, SgidiskLibReadError>)
        ensures
            view_result(r) == Self::spec_decode(buf@),
            r is Ok ==> r->Ok_0@.wf(),
    {
        if buf.len() < VOLUME_HEADER_SIZE {
            return Err(SgidiskLibReadError::Codec(CodecError::LengthMismatch));
        }
        if read_u8(buf, 0) != 0x0B || read_u8(buf, 1) != 0xE5 || read_u8(buf, 2) != 0xA9 || read_u8(
            buf,
            3,
        ) != 0x41 {
            return Err(SgidiskLibReadError::Codec(CodecError::BadMagic));
        }
        let mut vh_vd: Vec<VolumeDirectory> = Vec::with_capacity(N_VOL_DIR);
        let mut i: usize = 0;
        while i < N_VOL_DIR
            invariant
                i <= N_VOL_DIR,
                buf@.len() >= VOLUME_HEADER_SIZE,
                vh_vd@.len() == i,
                forall|j: int|
                    0 <= j < i ==> (#[trigger] vh_vd@[j])@ == VolumeDirectory::spec_decode(
                        buf@,
                        VOLUME_DIRECTORY_AT + j * VOLUME_DIRECTORY_SIZE,
                    ),
            decreases N_VOL_DIR - i,
        {
            vh_vd.push(VolumeDirectory::parse_at(buf, VOLUME_DIRECTORY_AT + i * VOLUME_DIRECTORY_SIZE));
            i += 1;
        }
        let mut vh_pt: Vec<PartitionTable> = Vec::with_capacity(N_PAR_TAB);
        let mut k: usize = 0;
        while k < N_PAR_TAB
            invariant
                k <= N_PAR_TAB,
                buf@.len() >= VOLUME_HEADER_SIZE,
                Self::spec_magic(buf@),
                Self::spec_partitions(buf@, k as nat) == Ok::<
                    Seq<PartitionTable>,
                    SgidiskLibReadError,
                >(vh_pt@),
                vh_pt@.len() == k,
            decreases N_PAR_TAB - k,
        {
            match PartitionTable::parse_at(buf, PARTITION_TABLE_AT + k * PARTITION_TABLE_SIZE) {
                Err(e) => {
                    proof {
                        lemma_partitions_prefix_fails(buf@, k + 1, N_PAR_TAB as int);
                    }
                    return Err(e);
                },
                Ok(entry) => {
                    vh_pt.push(entry);
                },
            }
            k += 1;
        }
        let header = VolumeHeader {
            vh_rootpt: read_i16(buf, 4),
            vh_swappt: read_i16(buf, 6),
            vh_bootfile: read_bytes(buf, 8, BOOTF_NAME_SZ),
            vh_dp: VolumeDeviceParameters::parse_at(buf, DEVICE_PARAMETERS_AT),
            vh_vd,
            vh_pt,
            vh_csum: read_i32(buf, 504),
        };
        assert(header@.vh_vd =~= Self::spec_directory(buf@));
        Ok(header)
    }

    /// What reading the volume header of a byte source yields.
    pub open spec fn spec_read(image: Seq<u8>) -> Result<VolumeHeaderView, SgidiskLibReadError> {
        match spec_fetch(image, 0, VOLUME_HEADER_SIZE as int) {
            Err(e) => Err(e),
            Ok(bytes) => Self::spec_decode(bytes),
        }
    }

    /// Reads the volume header from the start of the byte source.
    pub fn read(image: &[u8]) -> (r: Result<VolumeHeader, SgidiskLibReadError>)
        ensures
            view_result(r) == Self::spec_read(image@),
            r is Ok ==> r->Ok_0@.wf(),
    {
        match fetch(image, 0, VOLUME_HEADER_SIZE) {
            Err(e) => Err(e),
            Ok(bytes) => Self::parse_volume_header(bytes),
        }
    }
}

/// Where the first `n` entries of the partition table spell no table,
/// neither do the first `m`, for any `m` that is not less, and for the same
/// reason.
pub proof fn lemma_partitions_prefix_fails(b: Seq<u8>, n: int, m: int)
    requires
        0 <= n <= m,
        VolumeHeader::spec_partitions(b, n as nat) is Err,
    ensures
        VolumeHeader::spec_partitions(b, m as nat) == VolumeHeader::spec_partitions(b, n as nat),
    decreases m - n,
{
    if n < m {
        lemma_partitions_prefix_fails(b, n, m - 1);
    }
}

impl VolumeDeviceParameters {
    /// The 48 bytes that spell the device parameters.
    pub open spec fn spec_encode(v: VolumeDeviceParameters) -> Seq<u8> {
        zeros(4)
            + be16_bytes(v.dp_cylinders as int)
            + zeros(2)
            + be16_bytes(v.dp_heads as int)
            + seq![v.dp_ctq_depth]
            + zeros(3)
            + be16_bytes(v.dp_sect as int)
            + be16_bytes(v.dp_secbytes as int)
            + zeros(2)
            + be32_bytes(pattern32(v.dp_flags as int))
            + zeros(20)
            + be32_bytes(v.dp_drivecap as int)
    }

    /// Appends the 48 bytes that spell the device parameters.
    pub fn write_to(&self, out: &mut Vec<u8>)
        ensures
            final(out)@ == old(out)@ + Self::spec_encode(*self),
    {
        let ghost before = out@;
        put_zeros(out, 4);
        put_u16(out, self.dp_cylinders);
        put_zeros(out, 2);
        put_u16(out, self.dp_heads);
        out.push(self.dp_ctq_depth);
        put_zeros(out, 3);
        put_u16(out, self.dp_sect);
        put_u16(out, self.dp_secbytes);
        put_zeros(out, 2);
        put_i32(out, self.dp_flags);
        put_zeros(out, 20);
        put_u32(out, self.dp_drivecap);
        assert(out@ =~= before + Self::spec_encode(*self));
    }
}

/// Where each field of a device parameters lies in its bytes.
pub proof fn lemma_device_parameters_layout(v: VolumeDeviceParameters)
    ensures
        VolumeDeviceParameters::spec_encode(v).len() == 48,
        VolumeDeviceParameters::spec_encode(v).subrange(0, 4) == zeros(4),
        VolumeDeviceParameters::spec_encode(v).subrange(4, 6) == be16_bytes(v.dp_cylinders as int),
        VolumeDeviceParameters::spec_encode(v).subrange(6, 8) == zeros(2),
        VolumeDeviceParameters::spec_encode(v).subrange(8, 10) == be16_bytes(v.dp_heads as int),
        VolumeDeviceParameters::spec_encode(v).subrange(10, 11) == seq![v.dp_ctq_depth],
        VolumeDeviceParameters::spec_encode(v).subrange(11, 14) == zeros(3),
        VolumeDeviceParameters::spec_encode(v).subrange(14, 16) == be16_bytes(v.dp_sect as int),
        VolumeDeviceParameters::spec_encode(v).subrange(16, 18) == be16_bytes(v.dp_secbytes as int),
        VolumeDeviceParameters::spec_encode(v).subrange(18, 20) == zeros(2),
        VolumeDeviceParameters::spec_encode(v).subrange(20, 24) == be32_bytes(pattern32(v.dp_flags as int)),
        VolumeDeviceParameters::spec_encode(v).subrange(24, 44) == zeros(20),
        VolumeDeviceParameters::spec_encode(v).subrange(44, 48) == be32_bytes(v.dp_drivecap as int),
{
    let b = VolumeDeviceParameters::spec_encode(v);
    let part0 = zeros(4);
    let part1 = be16_bytes(v.dp_cylinders as int);
    let part2 = zeros(2);
    let part3 = be16_bytes(v.dp_heads as int);
    let part4 = seq![v.dp_ctq_depth];
    let part5 = zeros(3);
    let part6 = be16_bytes(v.dp_sect as int);
    let part7 = be16_bytes(v.dp_secbytes as int);
    let part8 = zeros(2);
    let part9 = be32_bytes(pattern32(v.dp_flags as int));
    let part10 = zeros(20);
    let part11 = be32_bytes(v.dp_drivecap as int);
    let upto0 = part0;
    assert(upto0.len() == 4);
    let upto1 = upto0 + part1;
    assert(upto1.len() == 6);
    let upto2 = upto1 + part2;
    assert(upto2.len() == 8);
    let upto3 = upto2 + part3;
    assert(upto3.len() == 10);
    let upto4 = upto3 + part4;
    assert(upto4.len() == 11);
    let upto5 = upto4 + part5;
    assert(upto5.len() == 14);
    let upto6 = upto5 + part6;
    assert(upto6.len() == 16);
    let upto7 = upto6 + part7;
    assert(upto7.len() == 18);
    let upto8 = upto7 + part8;
    assert(upto8.len() == 20);
    let upto9 = upto8 + part9;
    assert(upto9.len() == 24);
    let upto10 = upto9 + part10;
    assert(upto10.len() == 44);
    let upto11 = upto10 + part11;
    assert(upto11.len() == 48);
    assert(b == upto11);
    assert(b.take(48) == b);
    lemma_peel(b, upto10, part11);
    lemma_peel(b, upto9, part10);
    lemma_peel(b, upto8, part9);
    lemma_peel(b, upto7, part8);
    lemma_peel(b, upto6, part7);
    lemma_peel(b, upto5, part6);
    lemma_peel(b, upto4, part5);
    lemma_peel(b, upto3, part4);
    lemma_peel(b, upto2, part3);
    lemma_peel(b, upto1, part2);
    lemma_peel(b, upto0, part1);
    assert(b.subrange(0, 4) == part0) by {
        assert(b.take(4) =~= b.subrange(0, 4));
    }
}

/// Encoding the device parameters that the 48 bytes at `at` spell gives those bytes,
/// where the bytes that the device parameters does not keep are zero.
pub proof fn lemma_device_parameters_encode_decode(b: Seq<u8>, at: int)
    requires
        0 <= at,
        at + 48 <= b.len(),
        all_zero(b, at + 0, at + 4),
        all_zero(b, at + 6, at + 8),
        all_zero(b, at + 11, at + 14),
        all_zero(b, at + 18, at + 20),
        all_zero(b, at + 24, at + 44),
    ensures
        VolumeDeviceParameters::spec_encode(VolumeDeviceParameters::spec_decode(b, at)) == b.subrange(at, at + 48),
{
    let v = VolumeDeviceParameters::spec_decode(b, at);
    assert(zeros(4) == b.subrange(at + 0, at + 4)) by {
        assert(zeros(4) =~= b.subrange(at + 0, at + 4));
    }
    assert(be16_bytes(v.dp_cylinders as int) == b.subrange(at + 4, at + 6)) by {
        lemma_be_written_read(b, at + 4);
    }
    assert(zeros(2) == b.subrange(at + 6, at + 8)) by {
        assert(zeros(2) =~= b.subrange(at + 6, at + 8));
    }
    assert(be16_bytes(v.dp_heads as int) == b.subrange(at + 8, at + 10)) by {
        lemma_be_written_read(b, at + 8);
    }
    assert(seq![v.dp_ctq_depth] == b.subrange(at + 10, at + 11)) by {
        assert(seq![v.dp_ctq_depth] =~= b.subrange(at + 10, at + 11));
    }
    assert(zeros(3) == b.subrange(at + 11, at + 14)) by {
        assert(zeros(3) =~= b.subrange(at + 11, at + 14));
    }
    assert(be16_bytes(v.dp_sect as int) == b.subrange(at + 14, at + 16)) by {
        lemma_be_written_read(b, at + 14);
    }
    assert(be16_bytes(v.dp_secbytes as int) == b.subrange(at + 16, at + 18)) by {
        lemma_be_written_read(b, at + 16);
    }
    assert(zeros(2) == b.subrange(at + 18, at + 20)) by {
        assert(zeros(2) =~= b.subrange(at + 18, at + 20));
    }
    assert(be32_bytes(pattern32(v.dp_flags as int)) == b.subrange(at + 20, at + 24)) by {
        lemma_be_written_read(b, at + 20);
        lemma_signed_pattern(be32(b, at + 20));
    }
    assert(zeros(20) == b.subrange(at + 24, at + 44)) by {
        assert(zeros(20) =~= b.subrange(at + 24, at + 44));
    }
    assert(be32_bytes(v.dp_drivecap as int) == b.subrange(at + 44, at + 48)) by {
        lemma_be_written_read(b, at + 44);
    }
    lemma_join(b, at, at + 4, at + 6);
    lemma_join(b, at, at + 6, at + 8);
    lemma_join(b, at, at + 8, at + 10);
    lemma_join(b, at, at + 10, at + 11);
    lemma_join(b, at, at + 11, at + 14);
    lemma_join(b, at, at + 14, at + 16);
    lemma_join(b, at, at + 16, at + 18);
    lemma_join(b, at, at + 18, at + 20);
    lemma_join(b, at, at + 20, at + 24);
    lemma_join(b, at, at + 24, at + 44);
    lemma_join(b, at, at + 44, at + 48);
}

/// Where the 48 bytes at `at` are those that spell a device parameters, decoding
/// them gives that device parameters.
pub proof fn lemma_device_parameters_decode_encode(b: Seq<u8>, at: int, v: VolumeDeviceParameters)
    requires
        0 <= at,
        at + 48 <= b.len(),
        b.subrange(at, at + 48) == VolumeDeviceParameters::spec_encode(v),
    ensures
        VolumeDeviceParameters::spec_decode(b, at) == v,
{
    let e = VolumeDeviceParameters::spec_encode(v);
    lemma_device_parameters_layout(v);
    assert(be16(b, at + 4) == v.dp_cylinders) by {
        lemma_be_within(b, at, 48, 4);
        lemma_be_at(e, 4);
        lemma_be_read_written(v.dp_cylinders as int);
    }
    assert(be16(b, at + 8) == v.dp_heads) by {
        lemma_be_within(b, at, 48, 8);
        lemma_be_at(e, 8);
        lemma_be_read_written(v.dp_heads as int);
    }
    assert(b[at + 10] == v.dp_ctq_depth) by {
        assert(b.subrange(at, at + 48)[10] == b[at + 10]);
        assert(e.subrange(10, 11)[0] == e[10]);
    }
    assert(be16(b, at + 14) == v.dp_sect) by {
        lemma_be_within(b, at, 48, 14);
        lemma_be_at(e, 14);
        lemma_be_read_written(v.dp_sect as int);
    }
    assert(be16(b, at + 16) == v.dp_secbytes) by {
        lemma_be_within(b, at, 48, 16);
        lemma_be_at(e, 16);
        lemma_be_read_written(v.dp_secbytes as int);
    }
    assert(signed32(be32(b, at + 20)) == v.dp_flags) by {
        lemma_be_within(b, at, 48, 20);
        lemma_be_at(e, 20);
        lemma_signed_pattern(v.dp_flags as int);
        lemma_be_read_written(pattern32(v.dp_flags as int));
    }
    assert(be32(b, at + 44) == v.dp_drivecap) by {
        lemma_be_within(b, at, 48, 44);
        lemma_be_at(e, 44);
        lemma_be_read_written(v.dp_drivecap as int);
    }
}

impl VolumeDirectory {
    /// The 16 bytes that spell the volume directory entry.
    pub open spec fn spec_encode(v: VolumeDirectoryView) -> Seq<u8> {
        v.vd_name
            + be32_bytes(pattern32(v.vd_lbn as int))
            + be32_bytes(pattern32(v.vd_nbytes as int))
    }

    /// Appends the 16 bytes that spell the volume directory entry.
    pub fn write_to(&self, out: &mut Vec<u8>)
        requires
            self@.vd_name.len() == VDNAME_SZ,
        ensures
            final(out)@ == old(out)@ + Self::spec_encode(self@),
    {
        let ghost before = out@;
        put_bytes(out, self.vd_name.as_slice());
        put_i32(out, self.vd_lbn);
        put_i32(out, self.vd_nbytes);
        assert(out@ =~= before + Self::spec_encode(self@));
    }
}

/// Where each field of a volume directory entry lies in its bytes.
pub proof fn lemma_volume_directory_layout(v: VolumeDirectoryView)
    requires
        v.vd_name.len() == VDNAME_SZ,
    ensures
        VolumeDirectory::spec_encode(v).len() == 16,
        VolumeDirectory::spec_encode(v).subrange(0, 8) == v.vd_name,
        VolumeDirectory::spec_encode(v).subrange(8, 12) == be32_bytes(pattern32(v.vd_lbn as int)),
        VolumeDirectory::spec_encode(v).subrange(12, 16) == be32_bytes(pattern32(v.vd_nbytes as int)),
{
    let b = VolumeDirectory::spec_encode(v);
    let part0 = v.vd_name;
    let part1 = be32_bytes(pattern32(v.vd_lbn as int));
    let part2 = be32_bytes(pattern32(v.vd_nbytes as int));
    let upto0 = part0;
    assert(upto0.len() == 8);
    let upto1 = upto0 + part1;
    assert(upto1.len() == 12);
    let upto2 = upto1 + part2;
    assert(upto2.len() == 16);
    assert(b == upto2);
    assert(b.take(16) == b);
    lemma_peel(b, upto1, part2);
    lemma_peel(b, upto0, part1);
    assert(b.subrange(0, 8) == part0) by {
        assert(b.take(8) =~= b.subrange(0, 8));
    }
}

/// Encoding the volume directory entry that the 16 bytes at `at` spell gives those bytes,
/// where the bytes that the volume directory entry does not keep are zero.
pub proof fn lemma_volume_directory_encode_decode(b: Seq<u8>, at: int)
    requires
        0 <= at,
        at + 16 <= b.len(),
    ensures
        VolumeDirectory::spec_encode(VolumeDirectory::spec_decode(b, at)) == b.subrange(at, at + 16),
{
    let v = VolumeDirectory::spec_decode(b, at);
    assert(v.vd_name == b.subrange(at + 0, at + 8)) by {
        assert(v.vd_name =~= b.subrange(at + 0, at + 8));
    }
    assert(be32_bytes(pattern32(v.vd_lbn as int)) == b.subrange(at + 8, at + 12)) by {
        lemma_be_written_read(b, at + 8);
        lemma_signed_pattern(be32(b, at + 8));
    }
    assert(be32_bytes(pattern32(v.vd_nbytes as int)) == b.subrange(at + 12, at + 16)) by {
        lemma_be_written_read(b, at + 12);
        lemma_signed_pattern(be32(b, at + 12));
    }
    lemma_join(b, at, at + 8, at + 12);
    lemma_join(b, at, at + 12, at + 16);
}

/// Where the 16 bytes at `at` are those that spell a volume directory entry, decoding
/// them gives that volume directory entry.
pub proof fn lemma_volume_directory_decode_encode(b: Seq<u8>, at: int, v: VolumeDirectoryView)
    requires
        0 <= at,
        at + 16 <= b.len(),
        v.vd_name.len() == VDNAME_SZ,
        b.subrange(at, at + 16) == VolumeDirectory::spec_encode(v),
    ensures
        VolumeDirectory::spec_decode(b, at) == v,
{
    let e = VolumeDirectory::spec_encode(v);
    lemma_volume_directory_layout(v);
    assert(b.subrange(at, at + 8) == v.vd_name) by {
        assert(b.subrange(at, at + 8) =~= b.subrange(at, at + 16).subrange(0, 8));
    }
    assert(signed32(be32(b, at + 8)) == v.vd_lbn) by {
        lemma_be_within(b, at, 16, 8);
        lemma_be_at(e, 8);
        lemma_signed_pattern(v.vd_lbn as int);
        lemma_be_read_written(pattern32(v.vd_lbn as int));
    }
    assert(signed32(be32(b, at + 12)) == v.vd_nbytes) by {
        lemma_be_within(b, at, 16, 12);
        lemma_be_at(e, 12);
        lemma_signed_pattern(v.vd_nbytes as int);
        lemma_be_read_written(pattern32(v.vd_nbytes as int));
    }
}

impl PartitionTable {
    /// The 12 bytes that spell the partition table entry.
    pub open spec fn spec_encode(v: PartitionTable) -> Seq<u8> {
        be32_bytes(v.pt_nblks as int)
            + be32_bytes(v.pt_firstlbn as int)
            + be32_bytes(pattern32(v.pt_type.spec_tag() as int))
    }

    /// Appends the 12 bytes that spell the partition table entry.
    pub fn write_to(&self, out: &mut Vec<u8>)
        ensures
            final(out)@ == old(out)@ + Self::spec_encode(*self),
    {
        let ghost before = out@;
        put_u32(out, self.pt_nblks);
        put_u32(out, self.pt_firstlbn);
        put_i32(out, self.pt_type.tag());
        assert(out@ =~= before + Self::spec_encode(*self));
    }
}

/// Where each field of a partition table entry lies in its bytes.
pub proof fn lemma_partition_table_layout(v: PartitionTable)
    ensures
        PartitionTable::spec_encode(v).len() == 12,
        PartitionTable::spec_encode(v).subrange(0, 4) == be32_bytes(v.pt_nblks as int),
        PartitionTable::spec_encode(v).subrange(4, 8) == be32_bytes(v.pt_firstlbn as int),
        PartitionTable::spec_encode(v).subrange(8, 12) == be32_bytes(pattern32(v.pt_type.spec_tag() as int)),
{
    let b = PartitionTable::spec_encode(v);
    let part0 = be32_bytes(v.pt_nblks as int);
    let part1 = be32_bytes(v.pt_firstlbn as int);
    let part2 = be32_bytes(pattern32(v.pt_type.spec_tag() as int));
    let upto0 = part0;
    assert(upto0.len() == 4);
    let upto1 = upto0 + part1;
    assert(upto1.len() == 8);
    let upto2 = upto1 + part2;
    assert(upto2.len() == 12);
    assert(b == upto2);
    assert(b.take(12) == b);
    lemma_peel(b, upto1, part2);
    lemma_peel(b, upto0, part1);
    assert(b.subrange(0, 4) == part0) by {
        assert(b.take(4) =~= b.subrange(0, 4));
    }
}

/// Encoding the partition table entry that the 12 bytes at `at` spell gives those bytes,
/// where the bytes that the partition table entry does not keep are zero.
pub proof fn lemma_partition_table_encode_decode(b: Seq<u8>, at: int)
    requires
        0 <= at,
        at + 12 <= b.len(),
        PartitionTable::spec_decode(b, at) is Ok,
    ensures
        PartitionTable::spec_encode(PartitionTable::spec_decode(b, at)->Ok_0) == b.subrange(at, at + 12),
{
    let v = PartitionTable::spec_decode(b, at)->Ok_0;
    assert(be32_bytes(v.pt_nblks as int) == b.subrange(at + 0, at + 4)) by {
        lemma_be_written_read(b, at + 0);
    }
    assert(be32_bytes(v.pt_firstlbn as int) == b.subrange(at + 4, at + 8)) by {
        lemma_be_written_read(b, at + 4);
    }
    assert(be32_bytes(pattern32(v.pt_type.spec_tag() as int)) == b.subrange(at + 8, at + 12)) by {
        lemma_be_written_read(b, at + 8);
        lemma_signed_pattern(be32(b, at + 8));
    }
    lemma_join(b, at, at + 4, at + 8);
    lemma_join(b, at, at + 8, at + 12);
}

/// Where the 12 bytes at `at` are those that spell a partition table entry, decoding
/// them gives that partition table entry.
pub proof fn lemma_partition_table_decode_encode(b: Seq<u8>, at: int, v: PartitionTable)
    requires
        0 <= at,
        at + 12 <= b.len(),
        b.subrange(at, at + 12) == PartitionTable::spec_encode(v),
    ensures
        PartitionTable::spec_decode(b, at) == Ok::<PartitionTable, SgidiskLibReadError>(v),
{
    let e = PartitionTable::spec_encode(v);
    lemma_partition_table_layout(v);
    assert(be32(b, at) == v.pt_nblks) by {
        lemma_be_within(b, at, 12, 0);
        lemma_be_at(e, 0);
        lemma_be_read_written(v.pt_nblks as int);
    }
    assert(be32(b, at + 4) == v.pt_firstlbn) by {
        lemma_be_within(b, at, 12, 4);
        lemma_be_at(e, 4);
        lemma_be_read_written(v.pt_firstlbn as int);
    }
    assert(signed32(be32(b, at + 8)) == v.pt_type.spec_tag()) by {
        lemma_be_within(b, at, 12, 8);
        lemma_be_at(e, 8);
        lemma_signed_pattern(v.pt_type.spec_tag() as int);
        lemma_be_read_written(pattern32(v.pt_type.spec_tag() as int));
    }
}



impl VolumeHeader {
    /// The bytes that spell the entries `vd` of a volume directory, one
    /// entry behind the other.
    pub open spec fn spec_encode_directory(vd: Seq<VolumeDirectoryView>) -> Seq<u8>
        decreases vd.len(),
    {
        if vd.len() == 0 {
            Seq::empty()
        } else {
            Self::spec_encode_directory(vd.drop_last()) + VolumeDirectory::spec_encode(vd.last())
        }
    }

    /// The bytes that spell the entries `pt` of a partition table, one entry
    /// behind the other.
    pub open spec fn spec_encode_partitions(pt: Seq<PartitionTable>) -> Seq<u8>
        decreases pt.len(),
    {
        if pt.len() == 0 {
            Seq::empty()
        } else {
            Self::spec_encode_partitions(pt.drop_last()) + PartitionTable::spec_encode(pt.last())
        }
    }

    /// The 512 bytes that spell the volume header.
    pub open spec fn spec_encode(v: VolumeHeaderView) -> Seq<u8> {
        seq![0x0Bu8, 0xE5u8, 0xA9u8, 0x41u8] + be16_bytes(pattern16(v.vh_rootpt as int))
            + be16_bytes(pattern16(v.vh_swappt as int)) + v.vh_bootfile
            + VolumeDeviceParameters::spec_encode(v.vh_dp) + Self::spec_encode_directory(v.vh_vd)
            + Self::spec_encode_partitions(v.vh_pt) + be32_bytes(pattern32(v.vh_csum as int))
            + zeros(4)
    }

    /// The 512 bytes that spell the volume header.
    pub fn to_bytes(&self) -> (out: Vec<u8>)
        requires
            self@.wf(),
        ensures
            out@ == Self::spec_encode(self@),
    {
        let mut out: Vec<u8> = Vec::with_capacity(VOLUME_HEADER_SIZE);
        out.push(0x0Bu8);
        out.push(0xE5u8);
        out.push(0xA9u8);
        out.push(0x41u8);
        put_i16(&mut out, self.vh_rootpt);
        put_i16(&mut out, self.vh_swappt);
        put_bytes(&mut out, self.vh_bootfile.as_slice());
        self.vh_dp.write_to(&mut out);
        let ghost head = out@;
        let ghost vd = self@.vh_vd;
        assert(head =~= seq![0x0Bu8, 0xE5u8, 0xA9u8, 0x41u8] + be16_bytes(
            pattern16(self.vh_rootpt as int),
        ) + be16_bytes(pattern16(self.vh_swappt as int)) + self.vh_bootfile@
            + VolumeDeviceParameters::spec_encode(self.vh_dp));
        let mut i: usize = 0;
        assert(vd.take(0) =~= Seq::<VolumeDirectoryView>::empty());
        assert(head + Seq::<u8>::empty() =~= head);
        while i < self.vh_vd.len()
            invariant
                i <= self.vh_vd@.len(),
                self@.wf(),
                vd == self@.vh_vd,
                out@ == head + Self::spec_encode_directory(vd.take(i as int)),
            decreases self.vh_vd@.len() - i,
        {
            let ghost before = out@;
            assert(vd.take(i + 1).drop_last() == vd.take(i as int));
            assert(vd.take(i + 1).last() == self.vh_vd@[i as int]@);
            assert(vd[i as int].vd_name.len() == VDNAME_SZ);
            self.vh_vd[i].write_to(&mut out);
            assert(out@ =~= head + Self::spec_encode_directory(vd.take(i + 1)));
            i += 1;
        }
        assert(vd.take(i as int) == vd);
        let ghost middle = out@;
        let ghost pt = self.vh_pt@;
        let mut k: usize = 0;
        assert(pt.take(0) =~= Seq::<PartitionTable>::empty());
        assert(middle + Seq::<u8>::empty() =~= middle);
        while k < self.vh_pt.len()
            invariant
                k <= self.vh_pt@.len(),
                pt == self.vh_pt@,
                out@ == middle + Self::spec_encode_partitions(pt.take(k as int)),
            decreases self.vh_pt@.len() - k,
        {
            assert(pt.take(k + 1).drop_last() == pt.take(k as int));
            self.vh_pt[k].write_to(&mut out);
            assert(out@ =~= middle + Self::spec_encode_partitions(pt.take(k + 1)));
            k += 1;
        }
        assert(pt.take(k as int) == pt);
        put_i32(&mut out, self.vh_csum);
        put_zeros(&mut out, 4);
        out
    }
}

/// A volume directory takes sixteen bytes for each of its entries.
pub proof fn lemma_directory_len(vd: Seq<VolumeDirectoryView>)
    requires
        forall|i: int| 0 <= i < vd.len() ==> (#[trigger] vd[i]).vd_name.len() == VDNAME_SZ,
    ensures
        VolumeHeader::spec_encode_directory(vd).len() == VOLUME_DIRECTORY_SIZE * vd.len(),
    decreases vd.len(),
{
    if vd.len() > 0 {
        let init = vd.drop_last();
        assert forall|i: int| 0 <= i < init.len() implies (#[trigger] init[i]).vd_name.len()
            == VDNAME_SZ by {
            assert(init[i] == vd[i]);
        }
        lemma_directory_len(init);
        assert(vd.last() == vd[vd.len() - 1]);
        lemma_volume_directory_layout(vd.last());
    }
}

/// A partition table takes twelve bytes for each of its entries.
pub proof fn lemma_partitions_len(pt: Seq<PartitionTable>)
    ensures
        VolumeHeader::spec_encode_partitions(pt).len() == PARTITION_TABLE_SIZE * pt.len(),
    decreases pt.len(),
{
    if pt.len() > 0 {
        lemma_partitions_len(pt.drop_last());
        lemma_partition_table_layout(pt.last());
    }
}

/// Encoding the first `n` entries of the volume directory that `b` holds
/// gives the bytes that hold them.
pub proof fn lemma_directory_encode_decode(b: Seq<u8>, n: int)
    requires
        0 <= n <= N_VOL_DIR,
        b.len() >= VOLUME_HEADER_SIZE,
    ensures
        VolumeHeader::spec_encode_directory(VolumeHeader::spec_directory(b).take(n))
            == b.subrange(
            VOLUME_DIRECTORY_AT as int,
            VOLUME_DIRECTORY_AT + n * VOLUME_DIRECTORY_SIZE,
        ),
    decreases n,
{
    let vd = VolumeHeader::spec_directory(b);
    if n == 0 {
        assert(vd.take(0) =~= Seq::<VolumeDirectoryView>::empty());
        assert(b.subrange(72, 72) =~= Seq::<u8>::empty());
    } else {
        lemma_directory_encode_decode(b, n - 1);
        assert(vd.take(n).drop_last() == vd.take(n - 1));
        assert(vd.take(n).last() == vd[n - 1]);
        lemma_volume_directory_encode_decode(b, 72 + (n - 1) * 16);
        lemma_join(b, 72, 72 + (n - 1) * 16, 72 + n * 16);
    }
}

/// Where the bytes of `b` from `at` on are those that spell the entries
/// `vd` of a volume directory, decoding them entry by entry gives `vd`.
pub proof fn lemma_directory_decode_encode(b: Seq<u8>, at: int, vd: Seq<VolumeDirectoryView>)
    requires
        0 <= at,
        at + VOLUME_DIRECTORY_SIZE * vd.len() <= b.len(),
        forall|i: int| 0 <= i < vd.len() ==> (#[trigger] vd[i]).vd_name.len() == VDNAME_SZ,
        b.subrange(at, at + VOLUME_DIRECTORY_SIZE * vd.len())
            == VolumeHeader::spec_encode_directory(vd),
    ensures
        forall|i: int|
            0 <= i < vd.len() ==> VolumeDirectory::spec_decode(b, at + i * VOLUME_DIRECTORY_SIZE)
                == #[trigger] vd[i],
    decreases vd.len(),
{
    if vd.len() > 0 {
        let n = vd.len() as int;
        let init = vd.drop_last();
        let e = b.subrange(at, at + 16 * n);
        assert forall|i: int| 0 <= i < init.len() implies (#[trigger] init[i]).vd_name.len()
            == VDNAME_SZ by {
            assert(init[i] == vd[i]);
        }
        assert(vd.last() == vd[n - 1]);
        lemma_directory_len(init);
        lemma_volume_directory_layout(vd.last());
        assert(e.take(16 * n) == e);
        lemma_peel(e, VolumeHeader::spec_encode_directory(init), VolumeDirectory::spec_encode(vd.last()));
        assert(b.subrange(at, at + 16 * (n - 1)) =~= e.take(16 * (n - 1)));
        assert(b.subrange(at + 16 * (n - 1), at + 16 * n) =~= e.subrange(16 * (n - 1), 16 * n));
        lemma_directory_decode_encode(b, at, init);
        lemma_volume_directory_decode_encode(b, at + 16 * (n - 1), vd.last());
        assert forall|i: int| 0 <= i < vd.len() implies VolumeDirectory::spec_decode(
            b,
            at + i * VOLUME_DIRECTORY_SIZE,
        ) == #[trigger] vd[i] by {
            if i < n - 1 {
                assert(init[i] == vd[i]);
            }
        }
    }
}

/// Encoding the first `n` entries of the partition table that `b` holds
/// gives the bytes that hold them.
pub proof fn lemma_partitions_encode_decode(b: Seq<u8>, n: int)
    requires
        0 <= n <= N_PAR_TAB,
        b.len() >= VOLUME_HEADER_SIZE,
        VolumeHeader::spec_partitions(b, n as nat) is Ok,
    ensures
        VolumeHeader::spec_partitions(b, n as nat)->Ok_0.len() == n,
        VolumeHeader::spec_encode_partitions(VolumeHeader::spec_partitions(b, n as nat)->Ok_0)
            == b.subrange(
            PARTITION_TABLE_AT as int,
            PARTITION_TABLE_AT + n * PARTITION_TABLE_SIZE,
        ),
    decreases n,
{
    if n == 0 {
        assert(b.subrange(312, 312) =~= Seq::<u8>::empty());
    } else {
        lemma_partitions_encode_decode(b, n - 1);
        let before = VolumeHeader::spec_partitions(b, (n - 1) as nat)->Ok_0;
        let entry = PartitionTable::spec_decode(b, 312 + (n - 1) * 12)->Ok_0;
        assert(before.push(entry).drop_last() == before);
        lemma_partition_table_encode_decode(b, 312 + (n - 1) * 12);
        lemma_join(b, 312, 312 + (n - 1) * 12, 312 + n * 12);
    }
}

/// Where the bytes of the partition table in `b` are those that spell the
/// entries `pt`, decoding them gives `pt`.
pub proof fn lemma_partitions_decode_encode(b: Seq<u8>, pt: Seq<PartitionTable>)
    requires
        PARTITION_TABLE_AT + PARTITION_TABLE_SIZE * pt.len() <= b.len(),
        b.subrange(
            PARTITION_TABLE_AT as int,
            PARTITION_TABLE_AT + PARTITION_TABLE_SIZE * pt.len(),
        ) == VolumeHeader::spec_encode_partitions(pt),
    ensures
        VolumeHeader::spec_partitions(b, pt.len()) == Ok::<Seq<PartitionTable>, SgidiskLibReadError>(
            pt,
        ),
    decreases pt.len(),
{
    if pt.len() > 0 {
        let n = pt.len() as int;
        let init = pt.drop_last();
        let e = b.subrange(312, 312 + 12 * n);
        lemma_partitions_len(init);
        lemma_partition_table_layout(pt.last());
        assert(e.take(12 * n) == e);
        lemma_peel(e, VolumeHeader::spec_encode_partitions(init), PartitionTable::spec_encode(pt.last()));
        assert(b.subrange(312, 312 + 12 * (n - 1)) =~= e.take(12 * (n - 1)));
        assert(b.subrange(312 + 12 * (n - 1), 312 + 12 * n) =~= e.subrange(12 * (n - 1), 12 * n));
        lemma_partitions_decode_encode(b, init);
        lemma_partition_table_decode_encode(b, 312 + 12 * (n - 1), pt.last());
        assert(init.push(pt.last()) == pt);
    } else {
        assert(pt =~= Seq::<PartitionTable>::empty());
    }
}

/// Encoding the volume header that 512 bytes spell gives the 512 bytes,
/// where the reserved bytes among them are zero.
pub proof fn lemma_volume_header_encode_decode(b: Seq<u8>)
    requires
        b.len() == VOLUME_HEADER_SIZE,
        VolumeHeader::spec_decode(b) is Ok,
        all_zero(b, 24, 28),
        all_zero(b, 30, 32),
        all_zero(b, 35, 38),
        all_zero(b, 42, 44),
        all_zero(b, 48, 68),
        all_zero(b, 508, 512),
    ensures
        VolumeHeader::spec_encode(VolumeHeader::spec_decode(b)->Ok_0) == b,
{
    let v = VolumeHeader::spec_decode(b)->Ok_0;
    assert(seq![0x0Bu8, 0xE5u8, 0xA9u8, 0x41u8] == b.subrange(0, 4)) by {
        assert(seq![0x0Bu8, 0xE5u8, 0xA9u8, 0x41u8] =~= b.subrange(0, 4));
    }
    assert(be16_bytes(pattern16(v.vh_rootpt as int)) == b.subrange(4, 6)) by {
        lemma_be_written_read(b, 4);
        lemma_signed_pattern(be16(b, 4));
    }
    assert(be16_bytes(pattern16(v.vh_swappt as int)) == b.subrange(6, 8)) by {
        lemma_be_written_read(b, 6);
        lemma_signed_pattern(be16(b, 6));
    }
    assert(v.vh_bootfile == b.subrange(8, 24));
    assert(VolumeDeviceParameters::spec_encode(v.vh_dp) == b.subrange(24, 72)) by {
        let at: int = 24;
        assert(all_zero(b, at + 0, at + 4));
        assert(all_zero(b, at + 6, at + 8));
        assert(all_zero(b, at + 11, at + 14));
        assert(all_zero(b, at + 18, at + 20));
        assert(all_zero(b, at + 24, at + 44));
        lemma_device_parameters_encode_decode(b, at);
    }
    assert(VolumeHeader::spec_encode_directory(v.vh_vd) == b.subrange(72, 312)) by {
        lemma_directory_encode_decode(b, 15);
        assert(VolumeHeader::spec_directory(b).take(15) == VolumeHeader::spec_directory(b));
    }
    assert(VolumeHeader::spec_encode_partitions(v.vh_pt) == b.subrange(312, 504)) by {
        lemma_partitions_encode_decode(b, 16);
    }
    assert(be32_bytes(pattern32(v.vh_csum as int)) == b.subrange(504, 508)) by {
        lemma_be_written_read(b, 504);
        lemma_signed_pattern(be32(b, 504));
    }
    assert(zeros(4) == b.subrange(508, 512)) by {
        assert(zeros(4) =~= b.subrange(508, 512));
    }
    lemma_join(b, 0, 4, 6);
    lemma_join(b, 0, 6, 8);
    lemma_join(b, 0, 8, 24);
    lemma_join(b, 0, 24, 72);
    lemma_join(b, 0, 72, 312);
    lemma_join(b, 0, 312, 504);
    lemma_join(b, 0, 504, 508);
    lemma_join(b, 0, 508, 512);
    assert(b.subrange(0, 512) == b);
}

/// Where each part of a well-formed volume header lies in its bytes.
pub proof fn lemma_volume_header_layout(v: VolumeHeaderView)
    requires
        v.wf(),
    ensures
        VolumeHeader::spec_encode(v).len() == VOLUME_HEADER_SIZE,
        VolumeHeader::spec_encode(v).subrange(0, 4) == seq![0x0Bu8, 0xE5u8, 0xA9u8, 0x41u8],
        VolumeHeader::spec_encode(v).subrange(4, 6) == be16_bytes(pattern16(v.vh_rootpt as int)),
        VolumeHeader::spec_encode(v).subrange(6, 8) == be16_bytes(pattern16(v.vh_swappt as int)),
        VolumeHeader::spec_encode(v).subrange(8, 24) == v.vh_bootfile,
        VolumeHeader::spec_encode(v).subrange(24, 72) == VolumeDeviceParameters::spec_encode(
            v.vh_dp,
        ),
        VolumeHeader::spec_encode(v).subrange(72, 312) == VolumeHeader::spec_encode_directory(
            v.vh_vd,
        ),
        VolumeHeader::spec_encode(v).subrange(312, 504) == VolumeHeader::spec_encode_partitions(
            v.vh_pt,
        ),
        VolumeHeader::spec_encode(v).subrange(504, 508) == be32_bytes(
            pattern32(v.vh_csum as int),
        ),
{
    let b = VolumeHeader::spec_encode(v);
    let part0 = seq![0x0Bu8, 0xE5u8, 0xA9u8, 0x41u8];
    let part1 = be16_bytes(pattern16(v.vh_rootpt as int));
    let part2 = be16_bytes(pattern16(v.vh_swappt as int));
    let part3 = v.vh_bootfile;
    let part4 = VolumeDeviceParameters::spec_encode(v.vh_dp);
    let part5 = VolumeHeader::spec_encode_directory(v.vh_vd);
    let part6 = VolumeHeader::spec_encode_partitions(v.vh_pt);
    let part7 = be32_bytes(pattern32(v.vh_csum as int));
    let part8 = zeros(4);
    lemma_device_parameters_layout(v.vh_dp);
    lemma_directory_len(v.vh_vd);
    lemma_partitions_len(v.vh_pt);
    let upto0 = part0;
    assert(upto0.len() == 4);
    let upto1 = upto0 + part1;
    assert(upto1.len() == 6);
    let upto2 = upto1 + part2;
    assert(upto2.len() == 8);
    let upto3 = upto2 + part3;
    assert(upto3.len() == 24);
    let upto4 = upto3 + part4;
    assert(upto4.len() == 72);
    let upto5 = upto4 + part5;
    assert(upto5.len() == 312);
    let upto6 = upto5 + part6;
    assert(upto6.len() == 504);
    let upto7 = upto6 + part7;
    assert(upto7.len() == 508);
    let upto8 = upto7 + part8;
    assert(upto8.len() == 512);
    assert(b == upto8);
    assert(b.take(512) == b);
    lemma_peel(b, upto7, part8);
    lemma_peel(b, upto6, part7);
    lemma_peel(b, upto5, part6);
    lemma_peel(b, upto4, part5);
    lemma_peel(b, upto3, part4);
    lemma_peel(b, upto2, part3);
    lemma_peel(b, upto1, part2);
    lemma_peel(b, upto0, part1);
    assert(b.subrange(0, 4) == part0) by {
        assert(b.take(4) =~= b.subrange(0, 4));
    }
}

/// Decoding the bytes of a well-formed volume header gives the volume
/// header.
pub proof fn lemma_volume_header_decode_encode(v: VolumeHeaderView)
    requires
        v.wf(),
    ensures
        VolumeHeader::spec_encode(v).len() == VOLUME_HEADER_SIZE,
        VolumeHeader::spec_decode(VolumeHeader::spec_encode(v)) == Ok::<
            VolumeHeaderView,
            SgidiskLibReadError,
        >(v),
{
    let b = VolumeHeader::spec_encode(v);
    lemma_volume_header_layout(v);
    assert(VolumeHeader::spec_magic(b)) by {
        assert(b.subrange(0, 4)[0] == b[0]);
        assert(b.subrange(0, 4)[1] == b[1]);
        assert(b.subrange(0, 4)[2] == b[2]);
        assert(b.subrange(0, 4)[3] == b[3]);
    }
    assert(signed16(be16(b, 4)) == v.vh_rootpt) by {
        lemma_be_at(b, 4);
        lemma_signed_pattern(v.vh_rootpt as int);
        lemma_be_read_written(pattern16(v.vh_rootpt as int));
    }
    assert(signed16(be16(b, 6)) == v.vh_swappt) by {
        lemma_be_at(b, 6);
        lemma_signed_pattern(v.vh_swappt as int);
        lemma_be_read_written(pattern16(v.vh_swappt as int));
    }
    assert(VolumeDeviceParameters::spec_decode(b, 24) == v.vh_dp) by {
        lemma_device_parameters_decode_encode(b, 24, v.vh_dp);
    }
    assert(VolumeHeader::spec_directory(b) == v.vh_vd) by {
        lemma_directory_decode_encode(b, 72, v.vh_vd);
        assert(VolumeHeader::spec_directory(b) =~= v.vh_vd);
    }
    assert(VolumeHeader::spec_partitions(b, 16) == Ok::<Seq<PartitionTable>, SgidiskLibReadError>(
        v.vh_pt,
    )) by {
        lemma_partitions_decode_encode(b, v.vh_pt);
    }
    assert(signed32(be32(b, 504)) == v.vh_csum) by {
        lemma_be_at(b, 504);
        lemma_signed_pattern(v.vh_csum as int);
        lemma_be_read_written(pattern32(v.vh_csum as int));
    }
}

} // verus!
