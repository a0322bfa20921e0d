//! The superblock as it lies on disk, in basic block 1 of the partition.

use vstd::prelude::*;
use crate::codec::{
    be16, be16_bytes, be32, be32_bytes, fetch, lemma_be_at, lemma_be_read_written,
    lemma_be_written_read, lemma_join, lemma_peel, lemma_signed_pattern, pattern16, pattern32,
    put_bytes, put_i16, put_i32, put_zeros, read_bytes, read_i16, read_i32, signed16, signed32,
    spec_fetch, zeros,
};
use crate::error::{CodecError, IoError, SgidiskLibReadError, view_result};

verus! {

/// Size of the superblock on disk, in bytes.
pub const SUPERBLOCK_SIZE: usize = 92;

/// Offset of the superblock from the start of its partition: basic block 0
/// is left to a bootstrap program.
pub const SUPERBLOCK_OFFSET: u64 = 512;

/// Whether, and how, the filesystem needs to be checked.
#[derive(Debug, Clone, Copy, PartialEq, Eq)]
pub enum EfsSuperblockDirty {
    /// Unmounted and clean
    Clean,
    /// A dirty root filesystem that was mounted nevertheless
    ActiveDirty,
    /// Mounted and clean
    Active,
    /// Known to be dirty
    Dirty,
}

/// Which generation of EFS wrote the filesystem.
#[derive(Debug, Clone, Copy, PartialEq, Eq)]
pub enum EfsSuperblockMagic {
    /// Before IRIX 3.3
    OldMagic,
    /// IRIX 3.3 and later
    NewMagic,
}

impl EfsSuperblockDirty {
    /// The flag that the tag `tag` stands for.
    pub open spec fn spec_from_tag(tag: i16) -> Option<EfsSuperblockDirty> {
        if tag == 0x0000 {
            Some(EfsSuperblockDirty::Clean)
        } else if tag == 0x0BAD {
            Some(EfsSuperblockDirty::ActiveDirty)
        } else if tag == 0x7777 {
            Some(EfsSuperblockDirty::Active)
        } else if tag == 0x1234 {
            Some(EfsSuperblockDirty::Dirty)
        } else {
            None
        }
    }

    /// The tag that stands for the flag.
    pub open spec fn spec_tag(self) -> i16 {
        match self {
            EfsSuperblockDirty::Clean => 0x0000,
            EfsSuperblockDirty::ActiveDirty => 0x0BAD,
            EfsSuperblockDirty::Active => 0x7777,
            EfsSuperblockDirty::Dirty => 0x1234,
        }
    }

    /// Decodes the flag from its tag.
    pub fn from_tag(tag: i16) -> (r: Option<EfsSuperblockDirty>)
        ensures
            r == Self::spec_from_tag(tag),
    {
        if tag == 0x0000 {
            Some(EfsSuperblockDirty::Clean)
        } else if tag == 0x0BAD {
            Some(EfsSuperblockDirty::ActiveDirty)
        } else if tag == 0x7777 {
            Some(EfsSuperblockDirty::Active)
        } else if tag == 0x1234 {
            Some(EfsSuperblockDirty::Dirty)
        } else {
            None
        }
    }

    /// The tag that stands for the flag.
    pub fn tag(self) -> (r: i16)
        ensures
            r == self.spec_tag(),
            Self::spec_from_tag(r) == Some(self),
    {
        match self {
            EfsSuperblockDirty::Clean => 0x0000,
            EfsSuperblockDirty::ActiveDirty => 0x0BAD,
            EfsSuperblockDirty::Active => 0x7777,
            EfsSuperblockDirty::Dirty => 0x1234,
        }
    }
}

impl EfsSuperblockMagic {
    /// The magic that the tag `tag` stands for.
    pub open spec fn spec_from_tag(tag: i32) -> Option<EfsSuperblockMagic> {
        if tag == 0x0007_2959 {
            Some(EfsSuperblockMagic::OldMagic)
        } else if tag == 0x0007_295A {
            Some(EfsSuperblockMagic::NewMagic)
        } else {
            None
        }
    }

    /// The tag that stands for the magic.
    pub open spec fn spec_tag(self) -> i32 {
        match self {
            EfsSuperblockMagic::OldMagic => 0x0007_2959,
            EfsSuperblockMagic::NewMagic => 0x0007_295A,
        }
    }

    /// Decodes the magic from its tag.
    pub fn from_tag(tag: i32) -> (r: Option<EfsSuperblockMagic>)
        ensures
            r == Self::spec_from_tag(tag),
    {
        if tag == 0x0007_2959 {
            Some(EfsSuperblockMagic::OldMagic)
        } else if tag == 0x0007_295A {
            Some(EfsSuperblockMagic::NewMagic)
        } else {
            None
        }
    }

    /// The tag that stands for the magic.
    pub fn tag(self) -> (r: i32)
        ensures
            r == self.spec_tag(),
            Self::spec_from_tag(r) == Some(self),
    {
        match self {
            EfsSuperblockMagic::OldMagic => 0x0007_2959,
            EfsSuperblockMagic::NewMagic => 0x0007_295A,
        }
    }
}

/// The superblock as its 92 bytes spell it.
#[derive(Debug, Clone, PartialEq, Eq)]
pub struct EfsSuperblock {
    /// Size of filesystem, in sectors
    pub fs_size: i32,
    /// Basic block offset to first cylinder group
    pub fs_firstcg: i32,
    /// Size of cylinder group in basic blocks
    pub fs_cgfsize: i32,
    /// Basic blocks of inodes per cylinder group
    pub fs_cgisize: i16,
    /// Sectors per track
    pub fs_sectors: i16,
    /// Heads per cylinder
    pub fs_heads: i16,
    /// Number of cylinder groups in filesystem
    pub fs_ncg: i16,
    /// Whether the filesystem needs to be checked
    pub fs_dirty: EfsSuperblockDirty,
    /// Last super-block update
    pub fs_time: i32,
    /// Magic number
    pub fs_magic: EfsSuperblockMagic,
    /// File system name, 6 bytes
    pub fs_fname: Vec<u8>,
    /// File system pack name, 6 bytes
    pub fs_fpack: Vec<u8>,
    /// Size of bitmap in bytes
    pub fs_bmsize: i32,
    /// Total free data blocks
    pub fs_tfree: i32,
    /// Total free inodes
    pub fs_tinode: i32,
    /// Bitmap location
    pub fs_bmblock: i32,
    /// Location of replicated superblock
    pub fs_replsb: i32,
    /// Last allocated inode
    pub fs_lastialloc: i32,
    /// Space for expansion, 20 bytes
    pub fs_spare: Vec<u8>,
    /// Checksum of volume portion of filesystem
    pub fs_checksum: i32,
}

/// The mathematical value of an [`EfsSuperblock`].
pub ghost struct EfsSuperblockView {
    pub fs_size: i32,
    pub fs_firstcg: i32,
    pub fs_cgfsize: i32,
    pub fs_cgisize: i16,
    pub fs_sectors: i16,
    pub fs_heads: i16,
    pub fs_ncg: i16,
    pub fs_dirty: EfsSuperblockDirty,
    pub fs_time: i32,
    pub fs_magic: EfsSuperblockMagic,
    pub fs_fname: Seq<u8>,
    pub fs_fpack: Seq<u8>,
    pub fs_bmsize: i32,
    pub fs_tfree: i32,
    pub fs_tinode: i32,
    pub fs_bmblock: i32,
    pub fs_replsb: i32,
    pub fs_lastialloc: i32,
    pub fs_spare: Seq<u8>,
    pub fs_checksum: i32,
}

impl View for EfsSuperblock {
    type V = EfsSuperblockView;

    open spec fn view(&self) -> EfsSuperblockView {
        EfsSuperblockView {
            fs_size: self.fs_size,
            fs_firstcg: self.fs_firstcg,
            fs_cgfsize: self.fs_cgfsize,
            fs_cgisize: self.fs_cgisize,
            fs_sectors: self.fs_sectors,
            fs_heads: self.fs_heads,
            fs_ncg: self.fs_ncg,
            fs_dirty: self.fs_dirty,
            fs_time: self.fs_time,
            fs_magic: self.fs_magic,
            fs_fname: self.fs_fname@,
            fs_fpack: self.fs_fpack@,
            fs_bmsize: self.fs_bmsize,
            fs_tfree: self.fs_tfree,
            fs_tinode: self.fs_tinode,
            fs_bmblock: self.fs_bmblock,
            fs_replsb: self.fs_replsb,
            fs_lastialloc: self.fs_lastialloc,
            fs_spare: self.fs_spare@,
            fs_checksum: self.fs_checksum,
        }
    }
}

impl EfsSuperblockView {
    /// Whether the byte blocks have the sizes that the format gives them.
    pub open spec fn wf(self) -> bool {
        self.fs_fname.len() == 6 && self.fs_fpack.len() == 6 && self.fs_spare.len() == 20
    }
}

impl EfsSuperblock {
    /// The dirty tag that `b` holds.
    pub open spec fn spec_dirty_tag(b: Seq<u8>) -> i16 {
        signed16(be16(b, 20)) as i16
    }

    /// The magic tag that `b` holds.
    pub open spec fn spec_magic_tag(b: Seq<u8>) -> i32 {
        signed32(be32(b, 28)) as i32
    }

    /// The superblock that the first 92 bytes of `b` spell.
    pub open spec fn spec_decode(b: Seq<u8>) -> Result<EfsSuperblockView, SgidiskLibReadError> {
        if b.len() < SUPERBLOCK_SIZE {
            Err(SgidiskLibReadError::Codec(CodecError::LengthMismatch))
        } else if EfsSuperblockDirty::spec_from_tag(Self::spec_dirty_tag(b)) is None {
            Err(
                SgidiskLibReadError::Codec(
                    CodecError::UnknownTag { value: Self::spec_dirty_tag(b) as i32 },
                ),
            )
        } else if EfsSuperblockMagic::spec_from_tag(Self::spec_magic_tag(b)) is None {
            Err(SgidiskLibReadError::Codec(CodecError::UnknownTag { value: Self::spec_magic_tag(b) }))
        } else {
            Ok(
                EfsSuperblockView {
                    fs_size: signed32(be32(b, 0)) as i32,
                    fs_firstcg: signed32(be32(b, 4)) as i32,
                    fs_cgfsize: signed32(be32(b, 8)) as i32,
                    fs_cgisize: signed16(be16(b, 12)) as i16,
                    fs_sectors: signed16(be16(b, 14)) as i16,
                    fs_heads: signed16(be16(b, 16)) as i16,
                    fs_ncg: signed16(be16(b, 18)) as i16,
                    fs_dirty: EfsSuperblockDirty::spec_from_tag(Self::spec_dirty_tag(b))->Some_0,
                    fs_time: signed32(be32(b, 24)) as i32,
                    fs_magic: EfsSuperblockMagic::spec_from_tag(Self::spec_magic_tag(b))->Some_0,
                    fs_fname: b.subrange(32, 38),
                    fs_fpack: b.subrange(38, 44),
                    fs_bmsize: signed32(be32(b, 44)) as i32,
                    fs_tfree: signed32(be32(b, 48)) as i32,
                    fs_tinode: signed32(be32(b, 52)) as i32,
                    fs_bmblock: signed32(be32(b, 56)) as i32,
                    fs_replsb: signed32(be32(b, 60)) as i32,
                    fs_lastialloc: signed32(be32(b, 64)) as i32,
                    fs_spare: b.subrange(68, 88),
                    fs_checksum: signed32(be32(b, 88)) as i32,
                },
            )
        }
    }

    /// Decodes a superblock from the first 92 bytes of `buf`.
    pub fn parse_superblock(buf: &[u8]) -> (r: Result<EfsSuperblock, SgidiskLibReadError>)
        ensures
            view_result(r) == Self::spec_decode(buf@),
            r is Ok ==> r->Ok_0@.wf(),
    {
        if buf.len() < SUPERBLOCK_SIZE {
            return Err(SgidiskLibReadError::Codec(CodecError::LengthMismatch));
        }
        let dirty_tag: i16 = read_i16(buf, 20);
        let fs_dirty = match EfsSuperblockDirty::from_tag(dirty_tag) {
            Some(d) => d,
            None => {
                return Err(
                    SgidiskLibReadError::Codec(CodecError::UnknownTag { value: dirty_tag as i32 }),
                );
            },
        };
        let magic_tag: i32 = read_i32(buf, 28);
        let fs_magic = match EfsSuperblockMagic::from_tag(magic_tag) {
            Some(m) => m,
            None => {
                return Err(SgidiskLibReadError::Codec(CodecError::UnknownTag { value: magic_tag }));
            },
        };
        Ok(
            EfsSuperblock {
                fs_size: read_i32(buf, 0),
                fs_firstcg: read_i32(buf, 4),
                fs_cgfsize: read_i32(buf, 8),
                fs_cgisize: read_i16(buf, 12),
                fs_sectors: read_i16(buf, 14),
                fs_heads: read_i16(buf, 16),
                fs_ncg: read_i16(buf, 18),
                fs_dirty,
                fs_time: read_i32(buf, 24),
                fs_magic,
                fs_fname: read_bytes(buf, 32, 6),
                fs_fpack: read_bytes(buf, 38, 6),
                fs_bmsize: read_i32(buf, 44),
                fs_tfree: read_i32(buf, 48),
                fs_tinode: read_i32(buf, 52),
                fs_bmblock: read_i32(buf, 56),
                fs_replsb: read_i32(buf, 60),
                fs_lastialloc: read_i32(buf, 64),
                fs_spare: read_bytes(buf, 68, 20),
                fs_checksum: read_i32(buf, 88),
            },
        )
    }

    /// Where the superblock of the partition that starts at
    /// `partition_start` lies.
    pub open spec fn spec_seek_superblock(partition_start: u64) -> Result<u64, SgidiskLibReadError> {
        if partition_start + SUPERBLOCK_OFFSET > u64::MAX {
            Err(SgidiskLibReadError::Io(IoError::SeekOverflow))
        } else {
            Ok((partition_start + SUPERBLOCK_OFFSET) as u64)
        }
    }

    /// Finds the superblock of the partition that starts at `partition_start`.
    pub fn seek_superblock(partition_start: u64) -> (r: Result<u64, SgidiskLibReadError>)
        ensures
            r == Self::spec_seek_superblock(partition_start),
    {
        match partition_start.checked_add(SUPERBLOCK_OFFSET) {
            Some(position) => Ok(position),
            None => Err(SgidiskLibReadError::Io(IoError::SeekOverflow)),
        }
    }

    /// What reading the superblock of the partition that starts at
    /// `partition_start` yields.
    pub open spec fn spec_read(image: Seq<u8>, partition_start: u64) -> Result<
        EfsSuperblockView,
        SgidiskLibReadError,
    > {
        match Self::spec_seek_superblock(partition_start) {
            Err(e) => Err(e),
            Ok(position) => match spec_fetch(image, position as int, SUPERBLOCK_SIZE as int) {
                Err(e) => Err(e),
                Ok(bytes) => Self::spec_decode(bytes),
            },
        }
    }

    /// Reads the superblock of the partition that starts at `partition_start`
    /// of the byte source.
    pub fn read(image: &[u8], partition_start: u64) -> (r: Result<
        EfsSuperblock,
        SgidiskLibReadError,
    >)
        ensures
            view_result(r) == Self::spec_read(image@, partition_start),
            r is Ok ==> r->Ok_0@.wf(),
    {
        let position: u64 = match Self::seek_superblock(partition_start) {
            Ok(position) => position,
            Err(e) => {
                return Err(e);
            },
        };
        match fetch(image, position, SUPERBLOCK_SIZE) {
            Err(e) => Err(e),
            Ok(bytes) => Self::parse_superblock(bytes),
        }
    }
}

impl EfsSuperblock {
    /// The 92 bytes that spell the superblock.
    pub open spec fn spec_encode(v: EfsSuperblockView) -> Seq<u8> {
        be32_bytes(pattern32(v.fs_size as int))
            + be32_bytes(pattern32(v.fs_firstcg as int))
            + be32_bytes(pattern32(v.fs_cgfsize as int))
            + be16_bytes(pattern16(v.fs_cgisize as int))
            + be16_bytes(pattern16(v.fs_sectors as int))
            + be16_bytes(pattern16(v.fs_heads as int))
            + be16_bytes(pattern16(v.fs_ncg as int))
            + be16_bytes(pattern16(v.fs_dirty.spec_tag() as int))
            + zeros(2)
            + be32_bytes(pattern32(v.fs_time as int))
            + be32_bytes(pattern32(v.fs_magic.spec_tag() as int))
            + v.fs_fname
            + v.fs_fpack
            + be32_bytes(pattern32(v.fs_bmsize as int))
            + be32_bytes(pattern32(v.fs_tfree as int))
            + be32_bytes(pattern32(v.fs_tinode as int))
            + be32_bytes(pattern32(v.fs_bmblock as int))
            + be32_bytes(pattern32(v.fs_replsb as int))
            + be32_bytes(pattern32(v.fs_lastialloc as int))
            + v.fs_spare
            + be32_bytes(pattern32(v.fs_checksum as int))
    }

    /// The 92 bytes that spell the superblock.
    pub fn to_bytes(&self) -> (out: Vec<u8>)
        requires
            self@.wf(),
        ensures
            out@ == Self::spec_encode(self@),
    {
        let mut out: Vec<u8> = Vec::with_capacity(SUPERBLOCK_SIZE);
        put_i32(&mut out, self.fs_size);
        put_i32(&mut out, self.fs_firstcg);
        put_i32(&mut out, self.fs_cgfsize);
        put_i16(&mut out, self.fs_cgisize);
        put_i16(&mut out, self.fs_sectors);
        put_i16(&mut out, self.fs_heads);
        put_i16(&mut out, self.fs_ncg);
        put_i16(&mut out, self.fs_dirty.tag());
        put_zeros(&mut out, 2);
        put_i32(&mut out, self.fs_time);
        put_i32(&mut out, self.fs_magic.tag());
        put_bytes(&mut out, self.fs_fname.as_slice());
        put_bytes(&mut out, self.fs_fpack.as_slice());
        put_i32(&mut out, self.fs_bmsize);
        put_i32(&mut out, self.fs_tfree);
        put_i32(&mut out, self.fs_tinode);
        put_i32(&mut out, self.fs_bmblock);
        put_i32(&mut out, self.fs_replsb);
        put_i32(&mut out, self.fs_lastialloc);
        put_bytes(&mut out, self.fs_spare.as_slice());
        put_i32(&mut out, self.fs_checksum);
        assert(out@ =~= Self::spec_encode(self@));
        out
    }
}

/// Encoding the superblock that 92 bytes spell gives the 92 bytes,
/// where the bytes that the superblock does not keep are zero.
pub proof fn lemma_superblock_encode_decode(b: Seq<u8>)
    requires
        b.len() == SUPERBLOCK_SIZE,
        EfsSuperblock::spec_decode(b) is Ok,
        b[22] == 0,
        b[23] == 0,
    ensures
        EfsSuperblock::spec_encode(EfsSuperblock::spec_decode(b)->Ok_0) == b,
{
    let v = EfsSuperblock::spec_decode(b)->Ok_0;
    assert(be32_bytes(pattern32(v.fs_size as int)) == b.subrange(0, 4)) by {
        lemma_be_written_read(b, 0);
        lemma_signed_pattern(be32(b, 0));
    }
    assert(be32_bytes(pattern32(v.fs_firstcg as int)) == b.subrange(4, 8)) by {
        lemma_be_written_read(b, 4);
        lemma_signed_pattern(be32(b, 4));
    }
    assert(be32_bytes(pattern32(v.fs_cgfsize as int)) == b.subrange(8, 12)) by {
        lemma_be_written_read(b, 8);
        lemma_signed_pattern(be32(b, 8));
    }
    assert(be16_bytes(pattern16(v.fs_cgisize as int)) == b.subrange(12, 14)) by {
        lemma_be_written_read(b, 12);
        lemma_signed_pattern(be16(b, 12));
    }
    assert(be16_bytes(pattern16(v.fs_sectors as int)) == b.subrange(14, 16)) by {
        lemma_be_written_read(b, 14);
        lemma_signed_pattern(be16(b, 14));
    }
    assert(be16_bytes(pattern16(v.fs_heads as int)) == b.subrange(16, 18)) by {
        lemma_be_written_read(b, 16);
        lemma_signed_pattern(be16(b, 16));
    }
    assert(be16_bytes(pattern16(v.fs_ncg as int)) == b.subrange(18, 20)) by {
        lemma_be_written_read(b, 18);
        lemma_signed_pattern(be16(b, 18));
    }
    assert(be16_bytes(pattern16(v.fs_dirty.spec_tag() as int)) == b.subrange(20, 22)) by {
        lemma_be_written_read(b, 20);
        lemma_signed_pattern(be16(b, 20));
    }
    assert(zeros(2) == b.subrange(22, 24)) by {
        assert(zeros(2) =~= b.subrange(22, 24));
    }
    assert(be32_bytes(pattern32(v.fs_time as int)) == b.subrange(24, 28)) by {
        lemma_be_written_read(b, 24);
        lemma_signed_pattern(be32(b, 24));
    }
    assert(be32_bytes(pattern32(v.fs_magic.spec_tag() as int)) == b.subrange(28, 32)) by {
        lemma_be_written_read(b, 28);
        lemma_signed_pattern(be32(b, 28));
    }
    assert(v.fs_fname == b.subrange(32, 38)) by {
        assert(v.fs_fname =~= b.subrange(32, 38));
    }
    assert(v.fs_fpack == b.subrange(38, 44)) by {
        assert(v.fs_fpack =~= b.subrange(38, 44));
    }
    assert(be32_bytes(pattern32(v.fs_bmsize as int)) == b.subrange(44, 48)) by {
        lemma_be_written_read(b, 44);
        lemma_signed_pattern(be32(b, 44));
    }
    assert(be32_bytes(pattern32(v.fs_tfree as int)) == b.subrange(48, 52)) by {
        lemma_be_written_read(b, 48);
        lemma_signed_pattern(be32(b, 48));
    }
    assert(be32_bytes(pattern32(v.fs_tinode as int)) == b.subrange(52, 56)) by {
        lemma_be_written_read(b, 52);
        lemma_signed_pattern(be32(b, 52));
    }
    assert(be32_bytes(pattern32(v.fs_bmblock as int)) == b.subrange(56, 60)) by {
        lemma_be_written_read(b, 56);
        lemma_signed_pattern(be32(b, 56));
    }
    assert(be32_bytes(pattern32(v.fs_replsb as int)) == b.subrange(60, 64)) by {
        lemma_be_written_read(b, 60);
        lemma_signed_pattern(be32(b, 60));
    }
    assert(be32_bytes(pattern32(v.fs_lastialloc as int)) == b.subrange(64, 68)) by {
        lemma_be_written_read(b, 64);
        lemma_signed_pattern(be32(b, 64));
    }
    assert(v.fs_spare == b.subrange(68, 88)) by {
        assert(v.fs_spare =~= b.subrange(68, 88));
    }
    assert(be32_bytes(pattern32(v.fs_checksum as int)) == b.subrange(88, 92)) by {
        lemma_be_written_read(b, 88);
        lemma_signed_pattern(be32(b, 88));
    }
    lemma_join(b, 0, 4, 8);
    lemma_join(b, 0, 8, 12);
    lemma_join(b, 0, 12, 14);
    lemma_join(b, 0, 14, 16);
    lemma_join(b, 0, 16, 18);
    lemma_join(b, 0, 18, 20);
    lemma_join(b, 0, 20, 22);
    lemma_join(b, 0, 22, 24);
    lemma_join(b, 0, 24, 28);
    lemma_join(b, 0, 28, 32);
    lemma_join(b, 0, 32, 38);
    lemma_join(b, 0, 38, 44);
    lemma_join(b, 0, 44, 48);
    lemma_join(b, 0, 48, 52);
    lemma_join(b, 0, 52, 56);
    lemma_join(b, 0, 56, 60);
    lemma_join(b, 0, 60, 64);
    lemma_join(b, 0, 64, 68);
    lemma_join(b, 0, 68, 88);
    lemma_join(b, 0, 88, 92);
    assert(b.subrange(0, 92) == b);
}

/// Where each field of a well-formed superblock lies in its bytes.
pub proof fn lemma_superblock_layout(v: EfsSuperblockView)
    requires
        v.wf(),
    ensures
        EfsSuperblock::spec_encode(v).len() == SUPERBLOCK_SIZE,
        EfsSuperblock::spec_encode(v).subrange(0, 4) == be32_bytes(pattern32(v.fs_size as int)),
        EfsSuperblock::spec_encode(v).subrange(4, 8) == be32_bytes(pattern32(v.fs_firstcg as int)),
        EfsSuperblock::spec_encode(v).subrange(8, 12) == be32_bytes(pattern32(v.fs_cgfsize as int)),
        EfsSuperblock::spec_encode(v).subrange(12, 14) == be16_bytes(pattern16(v.fs_cgisize as int)),
        EfsSuperblock::spec_encode(v).subrange(14, 16) == be16_bytes(pattern16(v.fs_sectors as int)),
        EfsSuperblock::spec_encode(v).subrange(16, 18) == be16_bytes(pattern16(v.fs_heads as int)),
        EfsSuperblock::spec_encode(v).subrange(18, 20) == be16_bytes(pattern16(v.fs_ncg as int)),
        EfsSuperblock::spec_encode(v).subrange(20, 22) == be16_bytes(pattern16(v.fs_dirty.spec_tag() as int)),
        EfsSuperblock::spec_encode(v).subrange(22, 24) == zeros(2),
        EfsSuperblock::spec_encode(v).subrange(24, 28) == be32_bytes(pattern32(v.fs_time as int)),
        EfsSuperblock::spec_encode(v).subrange(28, 32) == be32_bytes(pattern32(v.fs_magic.spec_tag() as int)),
        EfsSuperblock::spec_encode(v).subrange(32, 38) == v.fs_fname,
        EfsSuperblock::spec_encode(v).subrange(38, 44) == v.fs_fpack,
        EfsSuperblock::spec_encode(v).subrange(44, 48) == be32_bytes(pattern32(v.fs_bmsize as int)),
        EfsSuperblock::spec_encode(v).subrange(48, 52) == be32_bytes(pattern32(v.fs_tfree as int)),
        EfsSuperblock::spec_encode(v).subrange(52, 56) == be32_bytes(pattern32(v.fs_tinode as int)),
        EfsSuperblock::spec_encode(v).subrange(56, 60) == be32_bytes(pattern32(v.fs_bmblock as int)),
        EfsSuperblock::spec_encode(v).subrange(60, 64) == be32_bytes(pattern32(v.fs_replsb as int)),
        EfsSuperblock::spec_encode(v).subrange(64, 68) == be32_bytes(pattern32(v.fs_lastialloc as int)),
        EfsSuperblock::spec_encode(v).subrange(68, 88) == v.fs_spare,
        EfsSuperblock::spec_encode(v).subrange(88, 92) == be32_bytes(pattern32(v.fs_checksum as int)),
{
    let b = EfsSuperblock::spec_encode(v);
    let part0 = be32_bytes(pattern32(v.fs_size as int));
    let part1 = be32_bytes(pattern32(v.fs_firstcg as int));
    let part2 = be32_bytes(pattern32(v.fs_cgfsize as int));
    let part3 = be16_bytes(pattern16(v.fs_cgisize as int));
    let part4 = be16_bytes(pattern16(v.fs_sectors as int));
    let part5 = be16_bytes(pattern16(v.fs_heads as int));
    let part6 = be16_bytes(pattern16(v.fs_ncg as int));
    let part7 = be16_bytes(pattern16(v.fs_dirty.spec_tag() as int));
    let part8 = zeros(2);
    let part9 = be32_bytes(pattern32(v.fs_time as int));
    let part10 = be32_bytes(pattern32(v.fs_magic.spec_tag() as int));
    let part11 = v.fs_fname;
    let part12 = v.fs_fpack;
    let part13 = be32_bytes(pattern32(v.fs_bmsize as int));
    let part14 = be32_bytes(pattern32(v.fs_tfree as int));
    let part15 = be32_bytes(pattern32(v.fs_tinode as int));
    let part16 = be32_bytes(pattern32(v.fs_bmblock as int));
    let part17 = be32_bytes(pattern32(v.fs_replsb as int));
    let part18 = be32_bytes(pattern32(v.fs_lastialloc as int));
    let part19 = v.fs_spare;
    let part20 = be32_bytes(pattern32(v.fs_checksum as int));
    let upto0 = part0;
    assert(upto0.len() == 4);
    let upto1 = upto0 + part1;
    assert(upto1.len() == 8);
    let upto2 = upto1 + part2;
    assert(upto2.len() == 12);
    let upto3 = upto2 + part3;
    assert(upto3.len() == 14);
    let upto4 = upto3 + part4;
    assert(upto4.len() == 16);
    let upto5 = upto4 + part5;
    assert(upto5.len() == 18);
    let upto6 = upto5 + part6;
    assert(upto6.len() == 20);
    let upto7 = upto6 + part7;
    assert(upto7.len() == 22);
    let upto8 = upto7 + part8;
    assert(upto8.len() == 24);
    let upto9 = upto8 + part9;
    assert(upto9.len() == 28);
    let upto10 = upto9 + part10;
    assert(upto10.len() == 32);
    let upto11 = upto10 + part11;
    assert(upto11.len() == 38);
    let upto12 = upto11 + part12;
    assert(upto12.len() == 44);
    let upto13 = upto12 + part13;
    assert(upto13.len() == 48);
    let upto14 = upto13 + part14;
    assert(upto14.len() == 52);
    let upto15 = upto14 + part15;
    assert(upto15.len() == 56);
    let upto16 = upto15 + part16;
    assert(upto16.len() == 60);
    let upto17 = upto16 + part17;
    assert(upto17.len() == 64);
    let upto18 = upto17 + part18;
    assert(upto18.len() == 68);
    let upto19 = upto18 + part19;
    assert(upto19.len() == 88);
    let upto20 = upto19 + part20;
    assert(upto20.len() == 92);
    assert(b == upto20);
    assert(b.take(92) == b);
    lemma_peel(b, upto19, part20);
    lemma_peel(b, upto18, part19);
    lemma_peel(b, upto17, part18);
    lemma_peel(b, upto16, part17);
    lemma_peel(b, upto15, part16);
    lemma_peel(b, upto14, part15);
    lemma_peel(b, upto13, part14);
    lemma_peel(b, upto12, part13);
    lemma_peel(b, upto11, part12);
    lemma_peel(b, upto10, part11);
    lemma_peel(b, upto9, part10);
    lemma_peel(b, upto8, part9);
    lemma_peel(b, upto7, part8);
    lemma_peel(b, upto6, part7);
    lemma_peel(b, upto5, part6);
    lemma_peel(b, upto4, part5);
    lemma_peel(b, upto3, part4);
    lemma_peel(b, upto2, part3);
    lemma_peel(b, upto1, part2);
    lemma_peel(b, upto0, part1);
    assert(b.subrange(0, 4) == part0) by {
        assert(b.take(4) =~= b.subrange(0, 4));
    }
}

/// Decoding the bytes of a well-formed superblock gives the superblock.
pub proof fn lemma_superblock_decode_encode(v: EfsSuperblockView)
    requires
        v.wf(),
    ensures
        EfsSuperblock::spec_encode(v).len() == SUPERBLOCK_SIZE,
        EfsSuperblock::spec_decode(EfsSuperblock::spec_encode(v)) == Ok::<EfsSuperblockView, SgidiskLibReadError>(v),
{
    let b = EfsSuperblock::spec_encode(v);
    lemma_superblock_layout(v);
    assert(signed32(be32(b, 0)) == v.fs_size) by {
        lemma_be_at(b, 0);
        lemma_signed_pattern(v.fs_size as int);
        lemma_be_read_written(pattern32(v.fs_size as int));
    }
    assert(signed32(be32(b, 4)) == v.fs_firstcg) by {
        lemma_be_at(b, 4);
        lemma_signed_pattern(v.fs_firstcg as int);
        lemma_be_read_written(pattern32(v.fs_firstcg as int));
    }
    assert(signed32(be32(b, 8)) == v.fs_cgfsize) by {
        lemma_be_at(b, 8);
        lemma_signed_pattern(v.fs_cgfsize as int);
        lemma_be_read_written(pattern32(v.fs_cgfsize as int));
    }
    assert(signed16(be16(b, 12)) == v.fs_cgisize) by {
        lemma_be_at(b, 12);
        lemma_signed_pattern(v.fs_cgisize as int);
        lemma_be_read_written(pattern16(v.fs_cgisize as int));
    }
    assert(signed16(be16(b, 14)) == v.fs_sectors) by {
        lemma_be_at(b, 14);
        lemma_signed_pattern(v.fs_sectors as int);
        lemma_be_read_written(pattern16(v.fs_sectors as int));
    }
    assert(signed16(be16(b, 16)) == v.fs_heads) by {
        lemma_be_at(b, 16);
        lemma_signed_pattern(v.fs_heads as int);
        lemma_be_read_written(pattern16(v.fs_heads as int));
    }
    assert(signed16(be16(b, 18)) == v.fs_ncg) by {
        lemma_be_at(b, 18);
        lemma_signed_pattern(v.fs_ncg as int);
        lemma_be_read_written(pattern16(v.fs_ncg as int));
    }
    assert(signed16(be16(b, 20)) == v.fs_dirty.spec_tag()) by {
        lemma_be_at(b, 20);
        lemma_signed_pattern(v.fs_dirty.spec_tag() as int);
        lemma_be_read_written(pattern16(v.fs_dirty.spec_tag() as int));
    }
    assert(signed32(be32(b, 24)) == v.fs_time) by {
        lemma_be_at(b, 24);
        lemma_signed_pattern(v.fs_time as int);
        lemma_be_read_written(pattern32(v.fs_time as int));
    }
    assert(signed32(be32(b, 28)) == v.fs_magic.spec_tag()) by {
        lemma_be_at(b, 28);
        lemma_signed_pattern(v.fs_magic.spec_tag() as int);
        lemma_be_read_written(pattern32(v.fs_magic.spec_tag() as int));
    }
    assert(signed32(be32(b, 44)) == v.fs_bmsize) by {
        lemma_be_at(b, 44);
        lemma_signed_pattern(v.fs_bmsize as int);
        lemma_be_read_written(pattern32(v.fs_bmsize as int));
    }
    assert(signed32(be32(b, 48)) == v.fs_tfree) by {
        lemma_be_at(b, 48);
        lemma_signed_pattern(v.fs_tfree as int);
        lemma_be_read_written(pattern32(v.fs_tfree as int));
    }
    assert(signed32(be32(b, 52)) == v.fs_tinode) by {
        lemma_be_at(b, 52);
        lemma_signed_pattern(v.fs_tinode as int);
        lemma_be_read_written(pattern32(v.fs_tinode as int));
    }
    assert(signed32(be32(b, 56)) == v.fs_bmblock) by {
        lemma_be_at(b, 56);
        lemma_signed_pattern(v.fs_bmblock as int);
        lemma_be_read_written(pattern32(v.fs_bmblock as int));
    }
    assert(signed32(be32(b, 60)) == v.fs_replsb) by {
        lemma_be_at(b, 60);
        lemma_signed_pattern(v.fs_replsb as int);
        lemma_be_read_written(pattern32(v.fs_replsb as int));
    }
    assert(signed32(be32(b, 64)) == v.fs_lastialloc) by {
        lemma_be_at(b, 64);
        lemma_signed_pattern(v.fs_lastialloc as int);
        lemma_be_read_written(pattern32(v.fs_lastialloc as int));
    }
    assert(signed32(be32(b, 88)) == v.fs_checksum) by {
        lemma_be_at(b, 88);
        lemma_signed_pattern(v.fs_checksum as int);
        lemma_be_read_written(pattern32(v.fs_checksum as int));
    }
}


} // verus!
