//! The inode and the extent as they lie on disk.

use vstd::prelude::*;
use crate::codec::{
    be16, be16_bytes, be24, be24_bytes, be32, be32_bytes, fetch, lemma_be_at,
    lemma_be_read_written, lemma_join, lemma_peel,
    lemma_be_written_read, lemma_signed_pattern, pattern16, pattern32, put_bytes, put_i16,
    put_i32, put_u16, put_u24, put_u32, read_bytes, read_i16, read_i32, read_u16, read_u24,
    read_u32, read_u8, signed16, signed32, spec_fetch,
};
use crate::error::{CodecError, SgidiskLibReadError, ValueError, view_result};

verus! {

/// Size of an inode on disk, in bytes.
pub const INODE_SIZE: usize = 128;

/// Size of the area of an inode that holds its extents or its device data.
pub const EXTENT_DATA_AREA_SZ: usize = 96;

/// Number of extents that fit into the inode itself.
pub const EFS_DIRECTEXTENTS: usize = 12;

/// Size of an extent on disk, in bytes.
pub const EXTENT_SIZE: usize = 8;

/// The most extents that an inode can declare.
pub const MAX_EXTENTS: usize = 32767;

/// Mask of the permission bits in an inode's mode.
pub const INODE_MODE_MASK: u16 = 0x0FFF;

/// Mask of the type bits in an inode's mode.
pub const INODE_TYPE_MASK: u16 = 0xF000;

/// Type bits of a FIFO queue.
pub const INODE_TYPE_FIFO: u16 = 0x1000;

/// Type bits of a character device.
pub const INODE_TYPE_FCHR: u16 = 0x2000;

/// Type bits of a character device link.
pub const INODE_TYPE_FCHRLNK: u16 = 0x3000;

/// Type bits of a directory.
pub const INODE_TYPE_DIR: u16 = 0x4000;

/// Type bits of a block device.
pub const INODE_TYPE_BLK: u16 = 0x6000;

/// Type bits of a block device link.
pub const INODE_TYPE_BLKLNK: u16 = 0x7000;

/// Type bits of a regular file.
pub const INODE_TYPE_REG: u16 = 0x8000;

/// Type bits of a symbolic link.
pub const INODE_TYPE_LNK: u16 = 0xA000;

/// Type bits of a socket.
pub const INODE_TYPE_SOCK: u16 = 0xC000;

/// A run of consecutive basic blocks that holds a range of a file.
#[derive(Debug, Clone, Copy, PartialEq, Eq)]
pub struct Extent {
    /// Number of the first basic block of the run (24 bits).
    pub ex_bn: u32,
    /// Length of the run, in basic blocks.
    pub ex_length: u8,
    /// Logical block of the file at which the run begins (24 bits).
    pub ex_offset: u32,
}

/// An inode as its 128 bytes spell it.
#[derive(Debug, Clone, PartialEq, Eq)]
pub struct EfsInode {
    /// Mode and type of file
    pub di_mode: u16,
    /// Number of links to file
    pub di_nlink: i16,
    /// Owner's user id
    pub di_uid: u16,
    /// Owner's group id
    pub di_gid: u16,
    /// Number of bytes in file
    pub di_size: i32,
    /// Time last accessed
    pub di_atime: i32,
    /// Time last modified
    pub di_mtime: i32,
    /// Time created
    pub di_ctime: i32,
    /// Generation number
    pub di_gen: u32,
    /// Number of extents
    pub di_numextents: i16,
    /// Version of inode
    pub di_version: u8,
    /// Spare byte
    pub di_spare: u8,
    /// The 96 bytes of extents or device data
    pub data: Vec<u8>,
}

/// The mathematical value of an [`EfsInode`].
pub ghost struct EfsInodeView {
    pub di_mode: u16,
    pub di_nlink: i16,
    pub di_uid: u16,
    pub di_gid: u16,
    pub di_size: i32,
    pub di_atime: i32,
    pub di_mtime: i32,
    pub di_ctime: i32,
    pub di_gen: u32,
    pub di_numextents: i16,
    pub di_version: u8,
    pub di_spare: u8,
    pub data: Seq<u8>,
}

impl View for EfsInode {
    type V = EfsInodeView;

    open spec fn view(&self) -> EfsInodeView {
        EfsInodeView {
            di_mode: self.di_mode,
            di_nlink: self.di_nlink,
            di_uid: self.di_uid,
            di_gid: self.di_gid,
            di_size: self.di_size,
            di_atime: self.di_atime,
            di_mtime: self.di_mtime,
            di_ctime: self.di_ctime,
            di_gen: self.di_gen,
            di_numextents: self.di_numextents,
            di_version: self.di_version,
            di_spare: self.di_spare,
            data: self.data@,
        }
    }
}

impl Extent {
    /// Whether both block numbers fit the 24 bits that the format gives them.
    pub open spec fn wf(self) -> bool {
        self.ex_bn < 0x100_0000 && self.ex_offset < 0x100_0000
    }

    /// The extent that the first eight bytes of `b` spell.
    pub open spec fn spec_decode(b: Seq<u8>) -> Result<Extent, SgidiskLibReadError> {
        if b.len() < EXTENT_SIZE {
            Err(SgidiskLibReadError::Codec(CodecError::LengthMismatch))
        } else if b[0] != 0 {
            Err(SgidiskLibReadError::Codec(CodecError::ReservedNonZero))
        } else {
            Ok(
                Extent {
                    ex_bn: be24(b, 1) as u32,
                    ex_length: b[4],
                    ex_offset: be24(b, 5) as u32,
                },
            )
        }
    }

    /// The eight bytes that spell the extent.
    pub open spec fn spec_encode(self) -> Seq<u8> {
        seq![0u8] + be24_bytes(self.ex_bn as int) + seq![self.ex_length] + be24_bytes(
            self.ex_offset as int,
        )
    }

    /// The extents that the whole eight-byte records at the start of `b`
    /// spell, in their order, or the failure of the first that spells none.
    pub open spec fn spec_parse_packed(b: Seq<u8>) -> Result<Seq<Extent>, SgidiskLibReadError>
        decreases b.len(),
    {
        if b.len() < EXTENT_SIZE {
            Ok(Seq::empty())
        } else {
            let whole: int = (b.len() as int / 8) * 8;
            match Self::spec_parse_packed(b.take(whole - 8)) {
                Err(e) => Err(e),
                Ok(before) => match Self::spec_decode(b.subrange(whole - 8, whole)) {
                    Err(e) => Err(e),
                    Ok(extent) => Ok(before.push(extent)),
                },
            }
        }
    }

    /// The extents that `b` spells when it is a whole number of records.
    pub open spec fn spec_parse_extents(b: Seq<u8>) -> Result<Seq<Extent>, SgidiskLibReadError> {
        if b.len() % 8 != 0 {
            Err(SgidiskLibReadError::Value(ValueError::ExtentAreaSize { len: b.len() as usize }))
        } else {
            Self::spec_parse_packed(b)
        }
    }

    /// Decodes one extent from the first eight bytes of `buf`.
    pub fn parse_extent(buf: &[u8]) -> (r: Result<Extent, SgidiskLibReadError>)
        ensures
            r == Self::spec_decode(buf@),
            r is Ok ==> r->Ok_0.wf(),
    {
        if buf.len() < EXTENT_SIZE {
            return Err(SgidiskLibReadError::Codec(CodecError::LengthMismatch));
        }
        if read_u8(buf, 0) != 0 {
            return Err(SgidiskLibReadError::Codec(CodecError::ReservedNonZero));
        }
        Ok(Extent { ex_bn: read_u24(buf, 1), ex_length: read_u8(buf, 4), ex_offset: read_u24(buf, 5) })
    }

    /// Decodes the extents that are packed into `buf`.
    pub fn parse_extents(buf: &[u8]) -> (r: Result<Vec<Extent>, SgidiskLibReadError>)
        ensures
            view_result(r) == Self::spec_parse_extents(buf@),
            r is Ok ==> r->Ok_0@.len() == buf@.len() / 8,
            r is Ok ==> forall|i: int| 0 <= i < r->Ok_0@.len() ==> (#[trigger] r->Ok_0@[i]).wf(),
    {
        let total: usize = buf.len();
        if total % EXTENT_SIZE != 0 {
            return Err(SgidiskLibReadError::Value(ValueError::ExtentAreaSize { len: total }));
        }
        let count: usize = total / EXTENT_SIZE;
        let mut extents: Vec<Extent> = Vec::with_capacity(count);
        let mut i: usize = 0;
        assert(buf@.take(0).len() == 0);
        while i < count
            invariant
                i <= count,
                total == buf@.len(),
                total == count * 8,
                extents@.len() == i,
                Self::spec_parse_packed(buf@.take(8 * i)) == Ok::<Seq<Extent>, SgidiskLibReadError>(
                    extents@,
                ),
                forall|j: int| 0 <= j < extents@.len() ==> (#[trigger] extents@[j]).wf(),
            decreases count - i,
        {
            let ghost prefix = buf@.take(8 * (i + 1));
            assert(prefix.len() == 8 * (i + 1));
            assert(prefix.take(8 * i) == buf@.take(8 * i));
            assert(prefix.subrange(8 * i, 8 * (i + 1)) == buf@.subrange(8 * i, 8 * (i + 1)));
            match Self::parse_extent(&buf[8 * i..8 * i + 8]) {
                Err(e) => {
                    proof {
                        lemma_parse_packed_prefix_fails(buf@, 8 * (i + 1));
                    }
                    return Err(e);
                },
                Ok(extent) => {
                    extents.push(extent);
                },
            }
            i += 1;
        }
        assert(buf@.take(8 * i) == buf@);
        Ok(extents)
    }

    /// Appends the eight bytes that spell the extent.
    pub fn write_to(&self, out: &mut Vec<u8>)
        requires
            self.wf(),
        ensures
            final(out)@ == old(out)@ + self.spec_encode(),
    {
        out.push(0u8);
        put_u24(out, self.ex_bn);
        out.push(self.ex_length);
        put_u24(out, self.ex_offset);
        assert(out@ == old(out)@ + self.spec_encode());
    }
}

/// Where the records at the start of `b` up to byte `n` spell no extents,
/// neither does all of `b`, and for the same reason.
pub proof fn lemma_parse_packed_prefix_fails(b: Seq<u8>, n: int)
    requires
        0 <= n <= b.len(),
        n % 8 == 0,
        b.len() % 8 == 0,
        Extent::spec_parse_packed(b.take(n)) is Err,
    ensures
        Extent::spec_parse_packed(b) == Extent::spec_parse_packed(b.take(n)),
    decreases b.len(),
{
    if n < b.len() {
        let shorter = b.take(b.len() - 8);
        assert(shorter.take(n) == b.take(n));
        lemma_parse_packed_prefix_fails(shorter, n);
    } else {
        assert(b.take(n) == b);
    }
}

/// Where packed records spell a list of extents, the list has one extent
/// for each whole record, and each is what its record spells.
pub proof fn lemma_parse_packed_elements(b: Seq<u8>)
    requires
        Extent::spec_parse_packed(b) is Ok,
    ensures
        Extent::spec_parse_packed(b)->Ok_0.len() == b.len() / 8,
        forall|i: int|
            0 <= i < b.len() / 8 ==> Extent::spec_decode(b.subrange(8 * i, 8 * i + 8)) == Ok::<
                Extent,
                SgidiskLibReadError,
            >(#[trigger] Extent::spec_parse_packed(b)->Ok_0[i]),
    decreases b.len(),
{
    if b.len() >= EXTENT_SIZE {
        let whole = (b.len() as int / 8) * 8;
        let shorter = b.take(whole - 8);
        lemma_parse_packed_elements(shorter);
        let before = Extent::spec_parse_packed(shorter)->Ok_0;
        let all = Extent::spec_parse_packed(b)->Ok_0;
        assert forall|i: int| 0 <= i < b.len() / 8 implies Extent::spec_decode(
            b.subrange(8 * i, 8 * i + 8),
        ) == Ok::<Extent, SgidiskLibReadError>(#[trigger] all[i]) by {
            if i < before.len() {
                assert(all[i] == before[i]);
                assert(shorter.subrange(8 * i, 8 * i + 8) == b.subrange(8 * i, 8 * i + 8));
            }
        }
    }
}

/// Decoding the bytes of a well-formed extent gives the extent.
pub proof fn lemma_extent_decode_encode(e: Extent)
    requires
        e.wf(),
    ensures
        e.spec_encode().len() == EXTENT_SIZE,
        Extent::spec_decode(e.spec_encode()) == Ok::<Extent, SgidiskLibReadError>(e),
{
    lemma_be_read_written(e.ex_bn as int);
    lemma_be_read_written(e.ex_offset as int);
    let b = e.spec_encode();
    assert(b.subrange(1, 4) == be24_bytes(e.ex_bn as int));
    assert(b.subrange(5, 8) == be24_bytes(e.ex_offset as int));
}

/// Encoding the extent that eight bytes spell gives the eight bytes.
pub proof fn lemma_extent_encode_decode(b: Seq<u8>)
    requires
        b.len() == EXTENT_SIZE,
        Extent::spec_decode(b) is Ok,
    ensures
        Extent::spec_decode(b)->Ok_0.spec_encode() == b,
{
    lemma_be_written_read(b, 1);
    lemma_be_written_read(b, 5);
    let e = Extent::spec_decode(b)->Ok_0;
    assert(e.spec_encode() =~= b);
}

impl EfsInode {
    /// Whether the data area has the size that the format gives it.
    pub open spec fn wf(self) -> bool {
        self.data@.len() == EXTENT_DATA_AREA_SZ
    }

    /// The inode that the first 128 bytes of `b` spell.
    pub open spec fn spec_decode(b: Seq<u8>) -> Result<EfsInodeView, SgidiskLibReadError> {
        if b.len() < INODE_SIZE {
            Err(SgidiskLibReadError::Codec(CodecError::LengthMismatch))
        } else {
            Ok(
                EfsInodeView {
                    di_mode: be16(b, 0) as u16,
                    di_nlink: signed16(be16(b, 2)) as i16,
                    di_uid: be16(b, 4) as u16,
                    di_gid: be16(b, 6) as u16,
                    di_size: signed32(be32(b, 8)) as i32,
                    di_atime: signed32(be32(b, 12)) as i32,
                    di_mtime: signed32(be32(b, 16)) as i32,
                    di_ctime: signed32(be32(b, 20)) as i32,
                    di_gen: be32(b, 24) as u32,
                    di_numextents: signed16(be16(b, 28)) as i16,
                    di_version: b[30],
                    di_spare: b[31],
                    data: b.subrange(32, 128),
                },
            )
        }
    }

    /// The 128 bytes that spell the inode.
    pub open spec fn spec_encode(v: EfsInodeView) -> Seq<u8> {
        be16_bytes(v.di_mode as int) + be16_bytes(pattern16(v.di_nlink as int)) + be16_bytes(
            v.di_uid as int,
        ) + be16_bytes(v.di_gid as int) + be32_bytes(pattern32(v.di_size as int)) + be32_bytes(
            pattern32(v.di_atime as int),
        ) + be32_bytes(pattern32(v.di_mtime as int)) + be32_bytes(pattern32(v.di_ctime as int))
            + be32_bytes(v.di_gen as int) + be16_bytes(pattern16(v.di_numextents as int))
            + seq![v.di_version, v.di_spare] + v.data
    }

    /// Decodes an inode from the first 128 bytes of `buf`.
    pub fn parse_inode(buf: &[u8]) -> (r: Result<EfsInode, SgidiskLibReadError>)
        ensures
            view_result(r) == Self::spec_decode(buf@),
            r is Ok ==> r->Ok_0.wf(),
    {
        if buf.len() < INODE_SIZE {
            return Err(SgidiskLibReadError::Codec(CodecError::LengthMismatch));
        }
        Ok(
            EfsInode {
                di_mode: read_u16(buf, 0),
                di_nlink: read_i16(buf, 2),
                di_uid: read_u16(buf, 4),
                di_gid: read_u16(buf, 6),
                di_size: read_i32(buf, 8),
                di_atime: read_i32(buf, 12),
                di_mtime: read_i32(buf, 16),
                di_ctime: read_i32(buf, 20),
                di_gen: read_u32(buf, 24),
                di_numextents: read_i16(buf, 28),
                di_version: read_u8(buf, 30),
                di_spare: read_u8(buf, 31),
                data: read_bytes(buf, 32, EXTENT_DATA_AREA_SZ),
            },
        )
    }

    /// What reading an inode at `offset` of a byte source yields.
    pub open spec fn spec_read(image: Seq<u8>, offset: int) -> Result<
        EfsInodeView,
        SgidiskLibReadError,
    > {
        match spec_fetch(image, offset, INODE_SIZE as int) {
            Err(e) => Err(e),
            Ok(bytes) => Self::spec_decode(bytes),
        }
    }

    /// Reads the inode that lies at `offset` of the byte source.
    pub fn read(image: &[u8], offset: u64) -> (r: Result<EfsInode, SgidiskLibReadError>)
        ensures
            view_result(r) == Self::spec_read(image@, offset as int),
            r is Ok ==> r->Ok_0.wf(),
    {
        match fetch(image, offset, INODE_SIZE) {
            Err(e) => Err(e),
            Ok(bytes) => Self::parse_inode(bytes),
        }
    }

    /// The 128 bytes that spell the inode.
    pub fn to_bytes(&self) -> (out: Vec<u8>)
        requires
            self.wf(),
        ensures
            out@ == Self::spec_encode(self@),
            out@.len() == INODE_SIZE,
    {
        let mut out: Vec<u8> = Vec::with_capacity(INODE_SIZE);
        put_u16(&mut out, self.di_mode);
        put_i16(&mut out, self.di_nlink);
        put_u16(&mut out, self.di_uid);
        put_u16(&mut out, self.di_gid);
        put_i32(&mut out, self.di_size);
        put_i32(&mut out, self.di_atime);
        put_i32(&mut out, self.di_mtime);
        put_i32(&mut out, self.di_ctime);
        put_u32(&mut out, self.di_gen);
        put_i16(&mut out, self.di_numextents);
        out.push(self.di_version);
        out.push(self.di_spare);
        put_bytes(&mut out, self.data.as_slice());
        assert(out@ == Self::spec_encode(self@));
        out
    }
}

/// Encoding the inode that 128 bytes spell gives the 128 bytes.
pub proof fn lemma_inode_encode_decode(b: Seq<u8>)
    requires
        b.len() == INODE_SIZE,
    ensures
        EfsInode::spec_decode(b) is Ok,
        EfsInode::spec_encode(EfsInode::spec_decode(b)->Ok_0) == b,
{
    let v = EfsInode::spec_decode(b)->Ok_0;
    assert(be16_bytes(v.di_mode as int) == b.subrange(0, 2)) by {
        lemma_be_written_read(b, 0);
    }
    assert(be16_bytes(pattern16(v.di_nlink as int)) == b.subrange(2, 4)) by {
        lemma_be_written_read(b, 2);
        lemma_signed_pattern(be16(b, 2));
    }
    assert(be16_bytes(v.di_uid as int) == b.subrange(4, 6)) by {
        lemma_be_written_read(b, 4);
    }
    assert(be16_bytes(v.di_gid as int) == b.subrange(6, 8)) by {
        lemma_be_written_read(b, 6);
    }
    assert(be32_bytes(pattern32(v.di_size as int)) == b.subrange(8, 12)) by {
        lemma_be_written_read(b, 8);
        lemma_signed_pattern(be32(b, 8));
    }
    assert(be32_bytes(pattern32(v.di_atime as int)) == b.subrange(12, 16)) by {
        lemma_be_written_read(b, 12);
        lemma_signed_pattern(be32(b, 12));
    }
    assert(be32_bytes(pattern32(v.di_mtime as int)) == b.subrange(16, 20)) by {
        lemma_be_written_read(b, 16);
        lemma_signed_pattern(be32(b, 16));
    }
    assert(be32_bytes(pattern32(v.di_ctime as int)) == b.subrange(20, 24)) by {
        lemma_be_written_read(b, 20);
        lemma_signed_pattern(be32(b, 20));
    }
    assert(be32_bytes(v.di_gen as int) == b.subrange(24, 28)) by {
        lemma_be_written_read(b, 24);
    }
    assert(be16_bytes(pattern16(v.di_numextents as int)) == b.subrange(28, 30)) by {
        lemma_be_written_read(b, 28);
        lemma_signed_pattern(be16(b, 28));
    }
    assert(seq![v.di_version, v.di_spare] == b.subrange(30, 32));
    lemma_join(b, 0, 2, 4);
    lemma_join(b, 0, 4, 6);
    lemma_join(b, 0, 6, 8);
    lemma_join(b, 0, 8, 12);
    lemma_join(b, 0, 12, 16);
    lemma_join(b, 0, 16, 20);
    lemma_join(b, 0, 20, 24);
    lemma_join(b, 0, 24, 28);
    lemma_join(b, 0, 28, 30);
    lemma_join(b, 0, 30, 32);
    lemma_join(b, 0, 32, 128);
    assert(b.subrange(0, 128) == b);
}

/// Decoding the bytes of a well-formed inode gives the inode.
pub proof fn lemma_inode_decode_encode(v: EfsInodeView)
    requires
        v.data.len() == EXTENT_DATA_AREA_SZ,
    ensures
        EfsInode::spec_encode(v).len() == INODE_SIZE,
        EfsInode::spec_decode(EfsInode::spec_encode(v)) == Ok::<EfsInodeView, SgidiskLibReadError>(
            v,
        ),
{
    let b = EfsInode::spec_encode(v);
    let f0 = be16_bytes(v.di_mode as int);
    let f1 = be16_bytes(pattern16(v.di_nlink as int));
    let f2 = be16_bytes(v.di_uid as int);
    let f3 = be16_bytes(v.di_gid as int);
    let f4 = be32_bytes(pattern32(v.di_size as int));
    let f5 = be32_bytes(pattern32(v.di_atime as int));
    let f6 = be32_bytes(pattern32(v.di_mtime as int));
    let f7 = be32_bytes(pattern32(v.di_ctime as int));
    let f8 = be32_bytes(v.di_gen as int);
    let f9 = be16_bytes(pattern16(v.di_numextents as int));
    let f10 = seq![v.di_version, v.di_spare];
    let p1 = f0 + f1;
    let p2 = p1 + f2;
    let p3 = p2 + f3;
    let p4 = p3 + f4;
    let p5 = p4 + f5;
    let p6 = p5 + f6;
    let p7 = p6 + f7;
    let p8 = p7 + f8;
    let p9 = p8 + f9;
    let p10 = p9 + f10;
    assert(b == p10 + v.data);
    assert(b.take(128) == b);
    lemma_peel(b, p10, v.data);
    lemma_peel(b, p9, f10);
    lemma_peel(b, p8, f9);
    lemma_peel(b, p7, f8);
    lemma_peel(b, p6, f7);
    lemma_peel(b, p5, f6);
    lemma_peel(b, p4, f5);
    lemma_peel(b, p3, f4);
    lemma_peel(b, p2, f3);
    lemma_peel(b, p1, f2);
    lemma_peel(b, f0, f1);
    assert(b.subrange(0, 2) == f0) by {
        assert(b.take(2) =~= b.subrange(0, 2));
    }
    assert(be16(b, 0) == v.di_mode) by {
        lemma_be_at(b, 0);
        lemma_be_read_written(v.di_mode as int);
    }
    assert(signed16(be16(b, 2)) == v.di_nlink) by {
        lemma_be_at(b, 2);
        lemma_signed_pattern(v.di_nlink as int);
        lemma_be_read_written(pattern16(v.di_nlink as int));
    }
    assert(be16(b, 4) == v.di_uid) by {
        lemma_be_at(b, 4);
        lemma_be_read_written(v.di_uid as int);
    }
    assert(be16(b, 6) == v.di_gid) by {
        lemma_be_at(b, 6);
        lemma_be_read_written(v.di_gid as int);
    }
    assert(signed32(be32(b, 8)) == v.di_size) by {
        lemma_be_at(b, 8);
        lemma_signed_pattern(v.di_size as int);
        lemma_be_read_written(pattern32(v.di_size as int));
    }
    assert(signed32(be32(b, 12)) == v.di_atime) by {
        lemma_be_at(b, 12);
        lemma_signed_pattern(v.di_atime as int);
        lemma_be_read_written(pattern32(v.di_atime as int));
    }
    assert(signed32(be32(b, 16)) == v.di_mtime) by {
        lemma_be_at(b, 16);
        lemma_signed_pattern(v.di_mtime as int);
        lemma_be_read_written(pattern32(v.di_mtime as int));
    }
    assert(signed32(be32(b, 20)) == v.di_ctime) by {
        lemma_be_at(b, 20);
        lemma_signed_pattern(v.di_ctime as int);
        lemma_be_read_written(pattern32(v.di_ctime as int));
    }
    assert(be32(b, 24) == v.di_gen) by {
        lemma_be_at(b, 24);
        lemma_be_read_written(v.di_gen as int);
    }
    assert(signed16(be16(b, 28)) == v.di_numextents) by {
        lemma_be_at(b, 28);
        lemma_signed_pattern(v.di_numextents as int);
        lemma_be_read_written(pattern16(v.di_numextents as int));
    }
    assert(b[30] == v.di_version && b[31] == v.di_spare) by {
        assert(b.subrange(30, 32)[0] == b[30]);
        assert(b.subrange(30, 32)[1] == b[31]);
    }
}

} // verus!
