//! The inode as the library hands it out: its type, its owner, its times,
//! and the extents that hold its content, brought into the order of the file.

use vstd::prelude::*;
use vstd::std_specs::convert::{FromSpecImpl, TryFromSpecImpl};
use crate::codec::{fetch, spec_fetch};
use crate::efs::extents::{
    check_extent_list, contiguous, lemma_check_is_contiguous, lemma_contiguous_sorted,
    sort_by_offset, sort_extent_list, sorted_by_offset, spec_check_extents,
};
use crate::efs::raw_inode::{
    EfsInode, EfsInodeView, Extent, EFS_DIRECTEXTENTS, EXTENT_DATA_AREA_SZ, INODE_MODE_MASK,
    INODE_TYPE_BLK, INODE_TYPE_BLKLNK, INODE_TYPE_DIR, INODE_TYPE_FCHR, INODE_TYPE_FCHRLNK,
    INODE_TYPE_FIFO, INODE_TYPE_LNK, INODE_TYPE_MASK, INODE_TYPE_REG, INODE_TYPE_SOCK,
    MAX_EXTENTS,
};
use crate::efs::{Efs, EFS_BLOCK_SZ};
use crate::error::{Field, IoError, SgidiskLibReadError, ValueError, view_result};

verus! {

/// What kind of thing an inode stands for.
#[derive(Debug, Copy, Clone, Eq, PartialEq, Structural)]
pub enum InodeType {
    /// FIFO queue
    Fifo,
    /// Character device
    CharacterSpecial,
    /// Character device link
    CharacterSpecialLink,
    /// Directory
    Directory,
    /// Block device
    BlockSpecial,
    /// Block device link
    BlockSpecialLink,
    /// Regular file
    RegularFile,
    /// Symbolic link
    SymbolicLink,
    /// Socket
    Socket,
}

/// The inode type that the type bits of the mode `bits` name.
pub open spec fn type_of_mode(bits: u16) -> Option<InodeType> {
    let t = bits & INODE_TYPE_MASK;
    if t == INODE_TYPE_FIFO {
        Some(InodeType::Fifo)
    } else if t == INODE_TYPE_FCHR {
        Some(InodeType::CharacterSpecial)
    } else if t == INODE_TYPE_FCHRLNK {
        Some(InodeType::CharacterSpecialLink)
    } else if t == INODE_TYPE_DIR {
        Some(InodeType::Directory)
    } else if t == INODE_TYPE_BLK {
        Some(InodeType::BlockSpecial)
    } else if t == INODE_TYPE_BLKLNK {
        Some(InodeType::BlockSpecialLink)
    } else if t == INODE_TYPE_REG {
        Some(InodeType::RegularFile)
    } else if t == INODE_TYPE_LNK {
        Some(InodeType::SymbolicLink)
    } else if t == INODE_TYPE_SOCK {
        Some(InodeType::Socket)
    } else {
        None
    }
}

/// The type bits that name the inode type `t` in a mode.
pub open spec fn mode_of_type(t: InodeType) -> u16 {
    match t {
        InodeType::Fifo => INODE_TYPE_FIFO,
        InodeType::CharacterSpecial => INODE_TYPE_FCHR,
        InodeType::CharacterSpecialLink => INODE_TYPE_FCHRLNK,
        InodeType::Directory => INODE_TYPE_DIR,
        InodeType::BlockSpecial => INODE_TYPE_BLK,
        InodeType::BlockSpecialLink => INODE_TYPE_BLKLNK,
        InodeType::RegularFile => INODE_TYPE_REG,
        InodeType::SymbolicLink => INODE_TYPE_LNK,
        InodeType::Socket => INODE_TYPE_SOCK,
    }
}

impl TryFrom<u16> for InodeType {
    type Error = SgidiskLibReadError;

    /// Reads the inode type out of the type bits of a mode.
    fn try_from(bit_type: u16) -> (r: Result<Self, Self::Error>) {
        let itype_part: u16 = bit_type & INODE_TYPE_MASK;
        if itype_part == INODE_TYPE_FIFO {
            Ok(InodeType::Fifo)
        } else if itype_part == INODE_TYPE_FCHR {
            Ok(InodeType::CharacterSpecial)
        } else if itype_part == INODE_TYPE_FCHRLNK {
            Ok(InodeType::CharacterSpecialLink)
        } else if itype_part == INODE_TYPE_DIR {
            Ok(InodeType::Directory)
        } else if itype_part == INODE_TYPE_BLK {
            Ok(InodeType::BlockSpecial)
        } else if itype_part == INODE_TYPE_BLKLNK {
            Ok(InodeType::BlockSpecialLink)
        } else if itype_part == INODE_TYPE_REG {
            Ok(InodeType::RegularFile)
        } else if itype_part == INODE_TYPE_LNK {
            Ok(InodeType::SymbolicLink)
        } else if itype_part == INODE_TYPE_SOCK {
            Ok(InodeType::Socket)
        } else {
            Err(SgidiskLibReadError::Value(ValueError::UnknownInodeType { bits: itype_part }))
        }
    }
}

impl TryFromSpecImpl<u16> for InodeType {
    open spec fn obeys_try_from_spec() -> bool {
        true
    }

    open spec fn try_from_spec(v: u16) -> Result<Self, SgidiskLibReadError> {
        match type_of_mode(v) {
            Some(t) => Ok(t),
            None => Err(
                SgidiskLibReadError::Value(
                    ValueError::UnknownInodeType { bits: v & INODE_TYPE_MASK },
                ),
            ),
        }
    }
}

impl From<InodeType> for u16 {
    /// The type bits that name the inode type in a mode.
    fn from(inode_type: InodeType) -> (r: u16) {
        match inode_type {
            InodeType::Fifo => INODE_TYPE_FIFO,
            InodeType::CharacterSpecial => INODE_TYPE_FCHR,
            InodeType::CharacterSpecialLink => INODE_TYPE_FCHRLNK,
            InodeType::Directory => INODE_TYPE_DIR,
            InodeType::BlockSpecial => INODE_TYPE_BLK,
            InodeType::BlockSpecialLink => INODE_TYPE_BLKLNK,
            InodeType::RegularFile => INODE_TYPE_REG,
            InodeType::SymbolicLink => INODE_TYPE_LNK,
            InodeType::Socket => INODE_TYPE_SOCK,
        }
    }
}

impl FromSpecImpl<InodeType> for u16 {
    open spec fn obeys_from_spec() -> bool {
        true
    }

    open spec fn from_spec(v: InodeType) -> u16 {
        mode_of_type(v)
    }
}

/// The type bits of an inode type name that type again, and they are type
/// bits only.
pub proof fn lemma_type_of_mode_of_type(t: InodeType)
    ensures
        type_of_mode(mode_of_type(t)) == Some(t),
        mode_of_type(t) & INODE_TYPE_MASK == mode_of_type(t),
        mode_of_type(t) & INODE_MODE_MASK == 0,
{
    assert(0x1000u16 & 0xF000 == 0x1000) by (bit_vector);
    assert(0x2000u16 & 0xF000 == 0x2000) by (bit_vector);
    assert(0x3000u16 & 0xF000 == 0x3000) by (bit_vector);
    assert(0x4000u16 & 0xF000 == 0x4000) by (bit_vector);
    assert(0x6000u16 & 0xF000 == 0x6000) by (bit_vector);
    assert(0x7000u16 & 0xF000 == 0x7000) by (bit_vector);
    assert(0x8000u16 & 0xF000 == 0x8000) by (bit_vector);
    assert(0xA000u16 & 0xF000 == 0xA000) by (bit_vector);
    assert(0xC000u16 & 0xF000 == 0xC000) by (bit_vector);
    assert(forall|x: u16| (x & 0xF000) & 0x0FFF == 0) by (bit_vector);
}

/// Any permission bits may stand beside the type bits of an inode type: the
/// mode still names that type, and the permission bits read back.
pub proof fn lemma_type_of_mode_with_permissions(t: InodeType, permissions: u16)
    requires
        permissions & INODE_TYPE_MASK == 0,
    ensures
        type_of_mode(mode_of_type(t) | permissions) == Some(t),
        (mode_of_type(t) | permissions) & INODE_MODE_MASK == permissions,
{
    lemma_type_of_mode_of_type(t);
    let m = mode_of_type(t);
    assert((m | permissions) & 0xF000 == m && (m | permissions) & 0x0FFF == permissions)
        by (bit_vector)
        requires
            m & 0xF000 == m,
            permissions & 0xF000 == 0,
    ;
}

/// An entry of the filesystem.
#[derive(Debug, Clone, PartialEq, Eq)]
pub struct Inode {
    /// Type of inode
    pub inode_type: InodeType,
    /// Unix permission bits
    pub unix_mode: u16,
    /// User ID of the owner
    pub owner_uid: u16,
    /// Group ID of the owner
    pub owner_gid: u16,
    /// Size of the file in bytes
    pub size: u64,
    /// Creation time, in seconds since the Unix epoch
    pub ctime: i32,
    /// Modification time, in seconds since the Unix epoch
    pub mtime: i32,
    /// Access time, in seconds since the Unix epoch
    pub atime: i32,
    /// Number of extents that the inode declares
    pub num_extents: usize,
    /// Extents that hold the content
    pub extents: Vec<Extent>,
}

/// The mathematical value of an [`Inode`].
pub ghost struct InodeView {
    pub inode_type: InodeType,
    pub unix_mode: u16,
    pub owner_uid: u16,
    pub owner_gid: u16,
    pub size: u64,
    pub ctime: i32,
    pub mtime: i32,
    pub atime: i32,
    pub num_extents: usize,
    pub extents: Seq<Extent>,
}

impl View for Inode {
    type V = InodeView;

    open spec fn view(&self) -> InodeView {
        InodeView {
            inode_type: self.inode_type,
            unix_mode: self.unix_mode,
            owner_uid: self.owner_uid,
            owner_gid: self.owner_gid,
            size: self.size,
            ctime: self.ctime,
            mtime: self.mtime,
            atime: self.atime,
            num_extents: self.num_extents,
            extents: self.extents@,
        }
    }
}

/// The extents of `s` that hold at least one block, in their order: an
/// extent of no blocks marks an unused place.
pub open spec fn live_extents(s: Seq<Extent>) -> Seq<Extent>
    decreases s.len(),
{
    if s.len() == 0 {
        s
    } else if s.last().ex_length > 0 {
        live_extents(s.drop_last()).push(s.last())
    } else {
        live_extents(s.drop_last())
    }
}

/// `r` with `before` put in front of what it yields.
pub open spec fn prepend(before: Seq<Extent>, r: Result<Seq<Extent>, SgidiskLibReadError>) -> Result<
    Seq<Extent>,
    SgidiskLibReadError,
> {
    match r {
        Ok(extents) => Ok(before + extents),
        Err(e) => Err(e),
    }
}

/// How many extents are read from the next indirect block when `remaining`
/// are still to come: as many as a block holds, or all that remain.
pub open spec fn block_share(remaining: nat) -> nat {
    if remaining < 64 {
        remaining
    } else {
        64
    }
}

/// The extents that the indirect blocks of one run hold: `blocks` blocks
/// from byte `position` of the byte source on, read one after the other
/// until `remaining` extents have come.
pub open spec fn spec_indirect_run(image: Seq<u8>, position: int, blocks: nat, remaining: nat) -> Result<
    Seq<Extent>,
    SgidiskLibReadError,
>
    decreases blocks,
{
    if blocks == 0 || remaining == 0 {
        Ok(Seq::empty())
    } else {
        match spec_fetch(image, position, (block_share(remaining) * 8) as int) {
            Err(e) => Err(e),
            Ok(bytes) => match Extent::spec_parse_extents(bytes) {
                Err(e) => Err(e),
                Ok(extents) => prepend(
                    extents,
                    spec_indirect_run(
                        image,
                        position + EFS_BLOCK_SZ,
                        (blocks - 1) as nat,
                        (remaining - block_share(remaining)) as nat,
                    ),
                ),
            },
        }
    }
}

/// The extents that the runs of indirect blocks named by `descriptors` hold,
/// run after run, when `remaining` extents are to come in all.
pub open spec fn spec_expand_from(
    efs: Efs,
    image: Seq<u8>,
    descriptors: Seq<Extent>,
    remaining: nat,
) -> Result<Seq<Extent>, SgidiskLibReadError>
    decreases descriptors.len(),
{
    if descriptors.len() == 0 {
        Ok(Seq::empty())
    } else {
        let d = descriptors[0];
        match efs.spec_check_read_block(d.ex_bn as u64, (d.ex_length * EFS_BLOCK_SZ) as u64) {
            Err(e) => Err(e),
            Ok(()) => match spec_indirect_run(
                image,
                efs.partition_start + d.ex_bn * EFS_BLOCK_SZ,
                d.ex_length as nat,
                remaining,
            ) {
                Err(e) => Err(e),
                Ok(extents) => prepend(
                    extents,
                    spec_expand_from(
                        efs,
                        image,
                        descriptors.skip(1),
                        (remaining - extents.len()) as nat,
                    ),
                ),
            },
        }
    }
}

/// Putting in front is associative.
pub proof fn lemma_prepend_twice(
    a: Seq<Extent>,
    b: Seq<Extent>,
    r: Result<Seq<Extent>, SgidiskLibReadError>,
)
    ensures
        prepend(a, prepend(b, r)) == prepend(a + b, r),
{
    if let Ok(extents) = r {
        assert(a + (b + extents) =~= (a + b) + extents);
    }
}

impl InodeView {
    /// The inode with `extents` in place of its own.
    pub open spec fn with_extents(self, extents: Seq<Extent>) -> InodeView {
        InodeView { extents, ..self }
    }

    /// The extents of the inode once those that only point to indirect
    /// blocks have been followed. An inode whose extents fit into it has
    /// none such.
    pub open spec fn spec_expand(self, efs: Efs, image: Seq<u8>) -> Result<
        Seq<Extent>,
        SgidiskLibReadError,
    > {
        if self.num_extents <= EFS_DIRECTEXTENTS {
            Ok(self.extents)
        } else {
            match spec_expand_from(efs, image, self.extents, self.num_extents as nat) {
                Err(e) => Err(e),
                Ok(extents) => if extents.len() != self.num_extents {
                    Err(
                        SgidiskLibReadError::Value(
                            ValueError::ExtentCount {
                                declared: self.num_extents,
                                parsed: extents.len() as usize,
                            },
                        ),
                    )
                } else {
                    Ok(extents)
                },
            }
        }
    }

    /// The inode with its extents expanded, sorted and found to cover the
    /// file without a gap, or the failure of the first of these steps that
    /// fails.
    pub open spec fn spec_normalize(self, efs: Efs, image: Seq<u8>) -> Result<
        InodeView,
        SgidiskLibReadError,
    > {
        match self.spec_expand(efs, image) {
            Err(e) => Err(e),
            Ok(expanded) => match spec_check_extents(sort_by_offset(expanded)) {
                Err(e) => Err(e),
                Ok(()) => Ok(self.with_extents(sort_by_offset(expanded))),
            },
        }
    }

    /// What normalizing leaves in the inode: the sorted extents once the
    /// expansion has succeeded, the inode as it was before.
    pub open spec fn spec_normalize_leaves(self, efs: Efs, image: Seq<u8>) -> InodeView {
        match self.spec_expand(efs, image) {
            Err(e) => self,
            Ok(expanded) => self.with_extents(sort_by_offset(expanded)),
        }
    }
}

/// Reads the extents of one run of indirect blocks.
pub fn read_indirect_run(image: &[u8], position: u128, blocks: u8, remaining: usize) -> (r: Result<
    Vec<Extent>,
    SgidiskLibReadError,
>)
    requires
        position + blocks * EFS_BLOCK_SZ <= u128::MAX,
    ensures
        view_result(r) == spec_indirect_run(
            image@,
            position as int,
            blocks as nat,
            remaining as nat,
        ),
        r is Ok ==> r->Ok_0@.len() <= remaining,
{
    let size: usize = image.len();
    let mut extents: Vec<Extent> = Vec::new();
    let mut left: usize = remaining;
    let mut k: u8 = 0;
    let ghost whole = spec_indirect_run(image@, position as int, blocks as nat, remaining as nat);
    while k < blocks && left > 0
        invariant
            k <= blocks,
            size == image@.len(),
            position + blocks * EFS_BLOCK_SZ <= u128::MAX,
            extents@.len() + left == remaining,
            whole == spec_indirect_run(image@, position as int, blocks as nat, remaining as nat),
            whole == prepend(
                extents@,
                spec_indirect_run(
                    image@,
                    position + k * EFS_BLOCK_SZ,
                    (blocks - k) as nat,
                    left as nat,
                ),
            ),
        decreases blocks - k,
    {
        let share: usize = if left < 64 {
            left
        } else {
            64
        };
        let at: u128 = position + k as u128 * 512;
        if at > u64::MAX as u128 {
            return Err(SgidiskLibReadError::Io(IoError::UnexpectedEof));
        }
        let bytes = match fetch(image, at as u64, share * 8) {
            Ok(bytes) => bytes,
            Err(e) => {
                return Err(e);
            },
        };
        let mut block_extents = match Extent::parse_extents(bytes) {
            Ok(block_extents) => block_extents,
            Err(e) => {
                return Err(e);
            },
        };
        proof {
            lemma_prepend_twice(
                extents@,
                block_extents@,
                spec_indirect_run(
                    image@,
                    at + EFS_BLOCK_SZ,
                    (blocks - k - 1) as nat,
                    (left - share) as nat,
                ),
            );
        }
        left = left - block_extents.len();
        extents.append(&mut block_extents);
        k = k + 1;
    }
    assert(extents@ + Seq::<Extent>::empty() == extents@);
    Ok(extents)
}

impl Inode {
    /// The inode that a raw inode stands for: its type and permission bits
    /// parted, its size and extent count narrowed to unsigned numbers, and of
    /// the extents in its data area those that the count admits and that
    /// hold a block.
    pub open spec fn spec_try_from(raw: EfsInodeView) -> Result<InodeView, SgidiskLibReadError> {
        match type_of_mode(raw.di_mode) {
            None => Err(
                SgidiskLibReadError::Value(
                    ValueError::UnknownInodeType { bits: raw.di_mode & INODE_TYPE_MASK },
                ),
            ),
            Some(inode_type) => if raw.di_size < 0 {
                Err(
                    SgidiskLibReadError::Value(
                        ValueError::Negative { field: Field::InodeSize, value: raw.di_size as i64 },
                    ),
                )
            } else if raw.di_numextents < 0 {
                Err(
                    SgidiskLibReadError::Value(
                        ValueError::Negative {
                            field: Field::ExtentCount,
                            value: raw.di_numextents as i64,
                        },
                    ),
                )
            } else if raw.di_numextents > MAX_EXTENTS {
                Err(
                    SgidiskLibReadError::Value(
                        ValueError::TooManyExtents { count: raw.di_numextents },
                    ),
                )
            } else {
                match Extent::spec_parse_extents(
                    raw.data.take(Self::spec_direct_area(raw.di_numextents as int)),
                ) {
                    Err(e) => Err(e),
                    Ok(parsed) => Ok(
                        InodeView {
                            inode_type,
                            unix_mode: raw.di_mode & INODE_MODE_MASK,
                            owner_uid: raw.di_uid,
                            owner_gid: raw.di_gid,
                            size: raw.di_size as u64,
                            ctime: raw.di_ctime,
                            mtime: raw.di_mtime,
                            atime: raw.di_atime,
                            num_extents: raw.di_numextents as usize,
                            extents: live_extents(parsed),
                        },
                    ),
                }
            },
        }
    }

    /// How many bytes of the data area hold extents when the inode declares
    /// `count` of them.
    pub open spec fn spec_direct_area(count: int) -> int {
        if count * 8 < EXTENT_DATA_AREA_SZ {
            count * 8
        } else {
            EXTENT_DATA_AREA_SZ as int
        }
    }

    /// Builds the inode that a raw inode stands for.
    pub fn try_from(inode: &EfsInode) -> (r: Result<Inode, SgidiskLibReadError>)
        requires
            inode.wf(),
        ensures
            view_result(r) == Self::spec_try_from(inode@),
    {
        let inode_type = match InodeType::try_from(inode.di_mode) {
            Ok(v) => v,
            Err(e) => {
                return Err(e);
            },
        };
        if inode.di_size < 0 {
            return Err(
                SgidiskLibReadError::Value(
                    ValueError::Negative { field: Field::InodeSize, value: inode.di_size as i64 },
                ),
            );
        }
        let size: u64 = inode.di_size as u64;
        let unix_mode: u16 = inode.di_mode & INODE_MODE_MASK;
        if inode.di_numextents < 0 {
            return Err(
                SgidiskLibReadError::Value(
                    ValueError::Negative {
                        field: Field::ExtentCount,
                        value: inode.di_numextents as i64,
                    },
                ),
            );
        }
        let num_extents: usize = inode.di_numextents as usize;
        if num_extents > MAX_EXTENTS {
            return Err(
                SgidiskLibReadError::Value(
                    ValueError::TooManyExtents { count: inode.di_numextents },
                ),
            );
        }
        let extent_sz: usize = if num_extents * 8 < EXTENT_DATA_AREA_SZ {
            num_extents * 8
        } else {
            EXTENT_DATA_AREA_SZ
        };
        let area = inode.data.as_slice();
        let parsed = match Extent::parse_extents(&area[0..extent_sz]) {
            Ok(parsed) => parsed,
            Err(e) => {
                return Err(e);
            },
        };
        let mut extents: Vec<Extent> = Vec::new();
        let mut i: usize = 0;
        assert(parsed@.take(0) =~= Seq::<Extent>::empty());
        while i < parsed.len()
            invariant
                i <= parsed@.len(),
                extents@ == live_extents(parsed@.take(i as int)),
            decreases parsed@.len() - i,
        {
            assert(parsed@.take(i + 1).drop_last() == parsed@.take(i as int));
            if parsed[i].ex_length > 0 {
                extents.push(parsed[i]);
            }
            i += 1;
        }
        assert(parsed@.take(i as int) == parsed@);
        Ok(
            Inode {
                inode_type,
                unix_mode,
                owner_uid: inode.di_uid,
                owner_gid: inode.di_gid,
                size,
                ctime: inode.di_ctime,
                mtime: inode.di_mtime,
                atime: inode.di_atime,
                num_extents,
                extents,
            },
        )
    }

    /// Where the inode declares more extents than fit into it, follows the
    /// extents that it holds to the indirect blocks and puts the extents
    /// found there in the place of its own. Otherwise the inode stays as it
    /// is.
    pub fn expand_extents(&mut self, image: &[u8], efs: &Efs) -> (r: Result<
        (),
        SgidiskLibReadError,
    >)
        ensures
            match old(self)@.spec_expand(*efs, image@) {
                Ok(extents) => r is Ok && final(self)@ == old(self)@.with_extents(extents),
                Err(e) => r == Err::<(), SgidiskLibReadError>(e) && final(self)@ == old(self)@,
            },
    {
        if self.num_extents <= EFS_DIRECTEXTENTS {
            return Ok(());
        }
        let total: usize = self.num_extents;
        let mut extents: Vec<Extent> = Vec::new();
        let mut indirect_remaining: usize = total;
        let mut d: usize = 0;
        let ghost descriptors = self.extents@;
        let ghost whole = spec_expand_from(*efs, image@, descriptors, total as nat);
        assert(descriptors.skip(0) == descriptors);
        assert(Seq::<Extent>::empty() + descriptors == descriptors);
        while d < self.extents.len()
            invariant
                d <= descriptors.len(),
                self@ == old(self)@,
                descriptors == self.extents@,
                total == self.num_extents,
                total > EFS_DIRECTEXTENTS,
                extents@.len() + indirect_remaining == total,
                whole == spec_expand_from(*efs, image@, descriptors, total as nat),
                whole == prepend(
                    extents@,
                    spec_expand_from(
                        *efs,
                        image@,
                        descriptors.skip(d as int),
                        indirect_remaining as nat,
                    ),
                ),
            decreases descriptors.len() - d,
        {
            let extent: Extent = self.extents[d];
            let sz: u64 = extent.ex_length as u64 * 512;
            assert(descriptors.skip(d as int)[0] == extent);
            assert(descriptors.skip(d as int).skip(1) == descriptors.skip(d + 1));
            match efs.check_read_block(extent.ex_bn as u64, sz) {
                Ok(()) => {},
                Err(e) => {
                    return Err(e);
                },
            }
            let from: u128 = efs.partition_start as u128 + extent.ex_bn as u128 * 512;
            let mut run_extents = match read_indirect_run(
                image,
                from,
                extent.ex_length,
                indirect_remaining,
            ) {
                Ok(run_extents) => run_extents,
                Err(e) => {
                    return Err(e);
                },
            };
            proof {
                lemma_prepend_twice(
                    extents@,
                    run_extents@,
                    spec_expand_from(
                        *efs,
                        image@,
                        descriptors.skip(d + 1),
                        (indirect_remaining - run_extents@.len()) as nat,
                    ),
                );
            }
            indirect_remaining = indirect_remaining - run_extents.len();
            extents.append(&mut run_extents);
            d += 1;
        }
        assert(extents@ + Seq::<Extent>::empty() == extents@);
        if extents.len() != total {
            return Err(
                SgidiskLibReadError::Value(
                    ValueError::ExtentCount { declared: total, parsed: extents.len() },
                ),
            );
        }
        self.extents = extents;
        Ok(())
    }

    /// Sorts the extents by their place in the file, ascending.
    pub fn sort_extents(&mut self)
        ensures
            final(self)@ == old(self)@.with_extents(sort_by_offset(old(self)@.extents)),
    {
        sort_extent_list(&mut self.extents);
    }

    /// Checks that each extent begins at the logical block where the ones
    /// before it end.
    pub fn check_extents(&self) -> (r: Result<(), SgidiskLibReadError>)
        ensures
            r == spec_check_extents(self@.extents),
            r is Ok <==> contiguous(self@.extents),
    {
        check_extent_list(&self.extents)
    }

    /// Expands the extents, sorts them, and checks that they cover the file
    /// without a gap.
    pub fn normalize_extents(&mut self, image: &[u8], efs: &Efs) -> (r: Result<
        (),
        SgidiskLibReadError,
    >)
        ensures
            match old(self)@.spec_normalize(*efs, image@) {
                Ok(normal) => r is Ok && final(self)@ == normal && contiguous(final(self)@.extents),
                Err(e) => r == Err::<(), SgidiskLibReadError>(e),
            },
            final(self)@ == old(self)@.spec_normalize_leaves(*efs, image@),
    {
        match self.expand_extents(image, efs) {
            Ok(()) => {},
            Err(e) => {
                return Err(e);
            },
        }
        self.sort_extents();
        match self.check_extents() {
            Ok(()) => {},
            Err(e) => {
                return Err(e);
            },
        }
        Ok(())
    }
}


/// The extents of a normalized inode cover its content without a gap, in
/// ascending order of their logical offsets.
pub proof fn lemma_normalized_contiguous(inode: InodeView, efs: Efs, image: Seq<u8>)
    requires
        inode.spec_normalize(efs, image) is Ok,
    ensures
        contiguous(inode.spec_normalize(efs, image)->Ok_0.extents),
        sorted_by_offset(inode.spec_normalize(efs, image)->Ok_0.extents),
{
    let extents = inode.spec_normalize(efs, image)->Ok_0.extents;
    lemma_check_is_contiguous(extents);
    lemma_contiguous_sorted(extents);
}

} // verus!
