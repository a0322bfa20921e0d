//! The directory block as it lies on disk: a header, a table of one-byte
//! slots at the low end of its payload, and the entries that the slots
//! point to at the high end.

use vstd::prelude::*;
use crate::codec::{
    be32, be32_bytes, fetch, lemma_be_at, lemma_be_read_written, lemma_be_written_read,
    lemma_join, lemma_peel, put_bytes, put_u32, read_bytes, read_u32, read_u8, spec_fetch,
};
use crate::error::{BoundsError, CodecError, SgidiskLibReadError, ValueError, view_result};

verus! {

/// Size of a directory block on disk, in bytes: one basic block.
pub const DIRECTORY_BLOCK_SIZE: usize = 512;

/// Size of the header of a directory block.
pub const DIRECTORY_HEADER_SZ: usize = 4;

/// Size of the payload of a directory block.
pub const DIRECTORY_SPACE_SZ: usize = 508;

/// The least that an entry takes of the payload: its slot, its inode number,
/// the length of its name and one byte of name, padded to a half word.
pub const DIRECTORY_ENTRY_MIN_SIZE: usize = 8;

/// The most entries that a directory block can hold.
pub const DIRECTORY_MAX_ENTRIES: usize = 63;

/// Size of an entry without its name.
pub const DIRECTORY_ENTRY_FIXED_SZ: usize = 5;

/// One block of a directory.
#[derive(Debug, Clone, PartialEq, Eq)]
pub struct DirectoryBlock {
    /// Offset to the first used entry byte; kept as found, never relied on
    pub firstused: u8,
    /// Number of slots
    pub slots: u8,
    /// The 508 bytes of slots and entries
    pub space: Vec<u8>,
}

/// The mathematical value of a [`DirectoryBlock`].
pub ghost struct DirectoryBlockView {
    pub firstused: u8,
    pub slots: u8,
    pub space: Seq<u8>,
}

impl View for DirectoryBlock {
    type V = DirectoryBlockView;

    open spec fn view(&self) -> DirectoryBlockView {
        DirectoryBlockView { firstused: self.firstused, slots: self.slots, space: self.space@ }
    }
}

/// One entry of a directory: a name and the inode that it names.
#[derive(Debug, Clone, PartialEq, Eq)]
pub struct DirectoryEntry {
    /// Inode number
    pub inode: u32,
    /// Length of the name
    pub d_namelen: u8,
    /// The bytes of the name
    pub d_name: Vec<u8>,
}

/// The mathematical value of a [`DirectoryEntry`].
pub ghost struct DirectoryEntryView {
    pub inode: u32,
    pub d_namelen: u8,
    pub d_name: Seq<u8>,
}

impl View for DirectoryEntry {
    type V = DirectoryEntryView;

    open spec fn view(&self) -> DirectoryEntryView {
        DirectoryEntryView { inode: self.inode, d_namelen: self.d_namelen, d_name: self.d_name@ }
    }
}

/// The values of a list of entries.
pub open spec fn entry_views(entries: Seq<DirectoryEntry>) -> Seq<DirectoryEntryView> {
    Seq::new(entries.len(), |i: int| entries[i]@)
}

impl DirectoryEntryView {
    /// Whether the name is as long as the entry says.
    pub open spec fn wf(self) -> bool {
        self.d_name.len() == self.d_namelen
    }
}

impl DirectoryEntry {
    /// The entry that the start of `b` spells: an inode number, the length
    /// of a name, and as many bytes of name.
    pub open spec fn spec_decode(b: Seq<u8>) -> Result<DirectoryEntryView, SgidiskLibReadError> {
        if b.len() < DIRECTORY_ENTRY_FIXED_SZ {
            Err(SgidiskLibReadError::Codec(CodecError::LengthMismatch))
        } else if b.len() < DIRECTORY_ENTRY_FIXED_SZ + b[4] {
            Err(SgidiskLibReadError::Codec(CodecError::LengthMismatch))
        } else {
            Ok(
                DirectoryEntryView {
                    inode: be32(b, 0) as u32,
                    d_namelen: b[4],
                    d_name: b.subrange(5, 5 + b[4]),
                },
            )
        }
    }

    /// Decodes an entry from the start of `buf`.
    pub fn parse_entry(buf: &[u8]) -> (r: Result<DirectoryEntry, SgidiskLibReadError>)
        ensures
            view_result(r) == Self::spec_decode(buf@),
            r is Ok ==> r->Ok_0@.wf(),
    {
        if buf.len() < DIRECTORY_ENTRY_FIXED_SZ {
            return Err(SgidiskLibReadError::Codec(CodecError::LengthMismatch));
        }
        let d_namelen: u8 = read_u8(buf, 4);
        if buf.len() - DIRECTORY_ENTRY_FIXED_SZ < d_namelen as usize {
            return Err(SgidiskLibReadError::Codec(CodecError::LengthMismatch));
        }
        Ok(
            DirectoryEntry {
                inode: read_u32(buf, 0),
                d_namelen,
                d_name: read_bytes(buf, 5, d_namelen as usize),
            },
        )
    }
}

impl DirectoryBlockView {
    /// Whether the payload has the size that the format gives it.
    pub open spec fn wf(self) -> bool {
        self.space.len() == DIRECTORY_SPACE_SZ
    }

    /// Where in the payload the entry of slot `slot` begins: twice what the
    /// slot holds, counted from the start of the block.
    pub open spec fn spec_entry_offset(self, slot: int) -> int {
        self.space[slot] * 2 - DIRECTORY_HEADER_SZ
    }

    /// The entry that slot `slot` points to, or why it points to none.
    pub open spec fn spec_entry_at(self, slot: int) -> Result<
        DirectoryEntryView,
        SgidiskLibReadError,
    > {
        if self.space[slot] < 2 {
            Err(
                SgidiskLibReadError::Bounds(
                    BoundsError::SlotBeforePayload { compact: self.space[slot] },
                ),
            )
        } else if self.spec_entry_offset(slot) >= DIRECTORY_SPACE_SZ {
            Err(
                SgidiskLibReadError::Bounds(
                    BoundsError::SlotPastPayload { entry: self.spec_entry_offset(slot) as usize },
                ),
            )
        } else {
            DirectoryEntry::spec_decode(
                self.space.subrange(self.spec_entry_offset(slot), DIRECTORY_SPACE_SZ as int),
            )
        }
    }

    /// The entries of the first `n` slots, in the order of the slots, or the
    /// failure of the first slot that yields none.
    pub open spec fn spec_entries(self, n: nat) -> Result<
        Seq<DirectoryEntryView>,
        SgidiskLibReadError,
    >
        decreases n,
    {
        if n == 0 {
            Ok(Seq::empty())
        } else {
            match self.spec_entries((n - 1) as nat) {
                Err(e) => Err(e),
                Ok(before) => match self.spec_entry_at(n - 1) {
                    Err(e) => Err(e),
                    Ok(entry) => Ok(before.push(entry)),
                },
            }
        }
    }

    /// The entries of the block, in the order of its slots.
    pub open spec fn spec_dir_entries(self) -> Result<Seq<DirectoryEntryView>, SgidiskLibReadError> {
        if self.slots > DIRECTORY_MAX_ENTRIES {
            Err(SgidiskLibReadError::Value(ValueError::TooManySlots { slots: self.slots }))
        } else {
            self.spec_entries(self.slots as nat)
        }
    }
}

impl DirectoryBlock {
    /// The directory block that the first 512 bytes of `b` spell.
    pub open spec fn spec_decode(b: Seq<u8>) -> Result<DirectoryBlockView, SgidiskLibReadError> {
        if b.len() < DIRECTORY_BLOCK_SIZE {
            Err(SgidiskLibReadError::Codec(CodecError::LengthMismatch))
        } else if b[0] != 0xBE || b[1] != 0xEF {
            Err(SgidiskLibReadError::Codec(CodecError::BadMagic))
        } else {
            Ok(DirectoryBlockView { firstused: b[2], slots: b[3], space: b.subrange(4, 512) })
        }
    }

    /// Decodes a directory block from the first 512 bytes of `buf`.
    pub fn parse_directory_block(buf: &[u8]) -> (r: Result<DirectoryBlock, SgidiskLibReadError>)
        ensures
            view_result(r) == Self::spec_decode(buf@),
            r is Ok ==> r->Ok_0@.wf(),
    {
        if buf.len() < DIRECTORY_BLOCK_SIZE {
            return Err(SgidiskLibReadError::Codec(CodecError::LengthMismatch));
        }
        if read_u8(buf, 0) != 0xBE || read_u8(buf, 1) != 0xEF {
            return Err(SgidiskLibReadError::Codec(CodecError::BadMagic));
        }
        Ok(
            DirectoryBlock {
                firstused: read_u8(buf, 2),
                slots: read_u8(buf, 3),
                space: read_bytes(buf, 4, DIRECTORY_SPACE_SZ),
            },
        )
    }

    /// What reading a directory block at `offset` of a byte source yields.
    pub open spec fn spec_read(image: Seq<u8>, offset: int) -> Result<
        DirectoryBlockView,
        SgidiskLibReadError,
    > {
        match spec_fetch(image, offset, DIRECTORY_BLOCK_SIZE as int) {
            Err(e) => Err(e),
            Ok(bytes) => Self::spec_decode(bytes),
        }
    }

    /// Reads the directory block that lies at `offset` of the byte source.
    pub fn read(image: &[u8], offset: u64) -> (r: Result<DirectoryBlock, SgidiskLibReadError>)
        ensures
            view_result(r) == Self::spec_read(image@, offset as int),
            r is Ok ==> r->Ok_0@.wf(),
    {
        match fetch(image, offset, DIRECTORY_BLOCK_SIZE) {
            Err(e) => Err(e),
            Ok(bytes) => Self::parse_directory_block(bytes),
        }
    }

    /// Resolves each slot of the block to the entry that it points to.
    pub fn dir_entries(&self) -> (r: Result<Vec<DirectoryEntry>, SgidiskLibReadError>)
        requires
            self@.wf(),
        ensures
            match r {
                Ok(entries) => self@.spec_dir_entries() == Ok::<
                    Seq<DirectoryEntryView>,
                    SgidiskLibReadError,
                >(entry_views(entries@)),
                Err(e) => self@.spec_dir_entries() == Err::<
                    Seq<DirectoryEntryView>,
                    SgidiskLibReadError,
                >(e),
            },
            r is Ok ==> r->Ok_0@.len() == self.slots,
    {
        let slots: usize = self.slots as usize;
        if slots > DIRECTORY_MAX_ENTRIES {
            return Err(SgidiskLibReadError::Value(ValueError::TooManySlots { slots: self.slots }));
        }
        let mut entries: Vec<DirectoryEntry> = Vec::with_capacity(slots);
        let space = self.space.as_slice();
        let mut slot: usize = 0;
        assert(entry_views(entries@) =~= Seq::<DirectoryEntryView>::empty());
        while slot < slots
            invariant
                slot <= slots,
                slots == self.slots,
                slots <= DIRECTORY_MAX_ENTRIES,
                self@.wf(),
                space@ == self.space@,
                entries@.len() == slot,
                self@.spec_entries(slot as nat) == Ok::<Seq<DirectoryEntryView>, SgidiskLibReadError>(
                    entry_views(entries@),
                ),
            decreases slots - slot,
        {
            let compact_offset: usize = space[slot] as usize;
            if compact_offset < DIRECTORY_HEADER_SZ / 2 {
                proof {
                    lemma_entries_prefix_fails(self@, slot + 1, slots as int);
                }
                return Err(
                    SgidiskLibReadError::Bounds(
                        BoundsError::SlotBeforePayload { compact: space[slot] },
                    ),
                );
            }
            let offset: usize = compact_offset * 2 - DIRECTORY_HEADER_SZ;
            if offset >= DIRECTORY_SPACE_SZ {
                proof {
                    lemma_entries_prefix_fails(self@, slot + 1, slots as int);
                }
                return Err(
                    SgidiskLibReadError::Bounds(BoundsError::SlotPastPayload { entry: offset }),
                );
            }
            let dent = match DirectoryEntry::parse_entry(&space[offset..DIRECTORY_SPACE_SZ]) {
                Ok(dent) => dent,
                Err(e) => {
                    proof {
                        lemma_entries_prefix_fails(self@, slot + 1, slots as int);
                    }
                    return Err(e);
                },
            };
            proof {
                assert(entry_views(entries@.push(dent)) =~= entry_views(entries@).push(dent@));
            }
            entries.push(dent);
            slot += 1;
        }
        Ok(entries)
    }
}

/// Where the first `n` slots yield a list of entries, the list has one entry
/// for each slot, and each is the entry that its slot points to.
pub proof fn lemma_entries_elements(block: DirectoryBlockView, n: nat)
    requires
        block.spec_entries(n) is Ok,
    ensures
        block.spec_entries(n)->Ok_0.len() == n,
        forall|slot: int|
            0 <= slot < n ==> block.spec_entry_at(slot) == Ok::<
                DirectoryEntryView,
                SgidiskLibReadError,
            >(#[trigger] block.spec_entries(n)->Ok_0[slot]),
    decreases n,
{
    if n > 0 {
        lemma_entries_elements(block, (n - 1) as nat);
        let before = block.spec_entries((n - 1) as nat)->Ok_0;
        let all = block.spec_entries(n)->Ok_0;
        assert forall|slot: int| 0 <= slot < n implies block.spec_entry_at(slot) == Ok::<
            DirectoryEntryView,
            SgidiskLibReadError,
        >(#[trigger] all[slot]) by {
            if slot < n - 1 {
                assert(all[slot] == before[slot]);
            }
        }
    }
}

/// Where the first `n` slots yield no list of entries, neither do the first
/// `m`, for any `m` that is not less, and for the same reason.
pub proof fn lemma_entries_prefix_fails(block: DirectoryBlockView, n: int, m: int)
    requires
        0 <= n <= m,
        block.spec_entries(n as nat) is Err,
    ensures
        block.spec_entries(m as nat) == block.spec_entries(n as nat),
    decreases m - n,
{
    if n < m {
        lemma_entries_prefix_fails(block, n, m - 1);
    }
}

impl DirectoryBlock {
    /// The 512 bytes that spell the directory block.
    pub open spec fn spec_encode(v: DirectoryBlockView) -> Seq<u8> {
        seq![0xBEu8, 0xEFu8]
            + seq![v.firstused]
            + seq![v.slots]
            + v.space
    }

    /// The 512 bytes that spell the directory block.
    pub fn to_bytes(&self) -> (out: Vec<u8>)
        requires
            self@.wf(),
        ensures
            out@ == Self::spec_encode(self@),
    {
        let mut out: Vec<u8> = Vec::with_capacity(DIRECTORY_BLOCK_SIZE);
        out.push(0xBEu8);
        out.push(0xEFu8);
        out.push(self.firstused);
        out.push(self.slots);
        put_bytes(&mut out, self.space.as_slice());
        assert(out@ =~= Self::spec_encode(self@));
        out
    }
}

/// Encoding the directory block that 512 bytes spell gives the 512 bytes.
pub proof fn lemma_directory_block_encode_decode(b: Seq<u8>)
    requires
        b.len() == DIRECTORY_BLOCK_SIZE,
        DirectoryBlock::spec_decode(b) is Ok,
    ensures
        DirectoryBlock::spec_encode(DirectoryBlock::spec_decode(b)->Ok_0) == b,
{
    let v = DirectoryBlock::spec_decode(b)->Ok_0;
    assert(seq![0xBEu8, 0xEFu8] == b.subrange(0, 2)) by {
        assert(seq![0xBEu8, 0xEFu8] =~= b.subrange(0, 2));
    }
    assert(seq![v.firstused] == b.subrange(2, 3)) by {
        assert(seq![v.firstused] =~= b.subrange(2, 3));
    }
    assert(seq![v.slots] == b.subrange(3, 4)) by {
        assert(seq![v.slots] =~= b.subrange(3, 4));
    }
    assert(v.space == b.subrange(4, 512)) by {
        assert(v.space =~= b.subrange(4, 512));
    }
    lemma_join(b, 0, 2, 3);
    lemma_join(b, 0, 3, 4);
    lemma_join(b, 0, 4, 512);
    assert(b.subrange(0, 512) == b);
}

/// Where each field of a well-formed directory block lies in its bytes.
pub proof fn lemma_directory_block_layout(v: DirectoryBlockView)
    requires
        v.wf(),
    ensures
        DirectoryBlock::spec_encode(v).len() == DIRECTORY_BLOCK_SIZE,
        DirectoryBlock::spec_encode(v).subrange(0, 2) == seq![0xBEu8, 0xEFu8],
        DirectoryBlock::spec_encode(v).subrange(2, 3) == seq![v.firstused],
        DirectoryBlock::spec_encode(v).subrange(3, 4) == seq![v.slots],
        DirectoryBlock::spec_encode(v).subrange(4, 512) == v.space,
{
    let b = DirectoryBlock::spec_encode(v);
    let part0 = seq![0xBEu8, 0xEFu8];
    let part1 = seq![v.firstused];
    let part2 = seq![v.slots];
    let part3 = v.space;
    let upto0 = part0;
    assert(upto0.len() == 2);
    let upto1 = upto0 + part1;
    assert(upto1.len() == 3);
    let upto2 = upto1 + part2;
    assert(upto2.len() == 4);
    let upto3 = upto2 + part3;
    assert(upto3.len() == 512);
    assert(b == upto3);
    assert(b.take(512) == b);
    lemma_peel(b, upto2, part3);
    lemma_peel(b, upto1, part2);
    lemma_peel(b, upto0, part1);
    assert(b.subrange(0, 2) == part0) by {
        assert(b.take(2) =~= b.subrange(0, 2));
    }
}

/// Decoding the bytes of a well-formed directory block gives the directory block.
pub proof fn lemma_directory_block_decode_encode(v: DirectoryBlockView)
    requires
        v.wf(),
    ensures
        DirectoryBlock::spec_encode(v).len() == DIRECTORY_BLOCK_SIZE,
        DirectoryBlock::spec_decode(DirectoryBlock::spec_encode(v)) == Ok::<DirectoryBlockView, SgidiskLibReadError>(v),
{
    let b = DirectoryBlock::spec_encode(v);
    lemma_directory_block_layout(v);
    assert(b[0] == 0xBE) by {
        assert(b.subrange(0, 2)[0] == b[0]);
    }
    assert(b[1] == 0xEF) by {
        assert(b.subrange(0, 2)[1] == b[1]);
    }
    assert(b[2] == v.firstused) by {
        assert(b.subrange(2, 3)[0] == b[2]);
    }
    assert(b[3] == v.slots) by {
        assert(b.subrange(3, 4)[0] == b[3]);
    }
}


impl DirectoryEntry {
    /// The bytes that spell the entry: its inode number, the length of its
    /// name, and the name.
    pub open spec fn spec_encode(v: DirectoryEntryView) -> Seq<u8> {
        be32_bytes(v.inode as int) + seq![v.d_namelen] + v.d_name
    }

    /// The bytes that spell the entry.
    pub fn to_bytes(&self) -> (out: Vec<u8>)
        requires
            self@.wf(),
        ensures
            out@ == Self::spec_encode(self@),
            out@.len() == DIRECTORY_ENTRY_FIXED_SZ + self.d_namelen,
    {
        let mut out: Vec<u8> = Vec::new();
        put_u32(&mut out, self.inode);
        out.push(self.d_namelen);
        put_bytes(&mut out, self.d_name.as_slice());
        assert(out@ =~= Self::spec_encode(self@));
        out
    }
}

/// Encoding the entry that bytes spell gives the bytes that the entry takes:
/// five, and the length of its name.
pub proof fn lemma_directory_entry_encode_decode(b: Seq<u8>)
    requires
        DirectoryEntry::spec_decode(b) is Ok,
    ensures
        DirectoryEntry::spec_encode(DirectoryEntry::spec_decode(b)->Ok_0) == b.take(
            DIRECTORY_ENTRY_FIXED_SZ + b[4],
        ),
{
    let v = DirectoryEntry::spec_decode(b)->Ok_0;
    lemma_be_written_read(b, 0);
    assert(DirectoryEntry::spec_encode(v) =~= b.take(DIRECTORY_ENTRY_FIXED_SZ + b[4]));
}

/// Decoding the bytes of a well-formed entry gives the entry, whatever
/// follows the bytes.
pub proof fn lemma_directory_entry_decode_encode(v: DirectoryEntryView, rest: Seq<u8>)
    requires
        v.wf(),
    ensures
        DirectoryEntry::spec_decode(DirectoryEntry::spec_encode(v) + rest) == Ok::<
            DirectoryEntryView,
            SgidiskLibReadError,
        >(v),
{
    let b = DirectoryEntry::spec_encode(v) + rest;
    lemma_be_read_written(v.inode as int);
    assert(b.subrange(0, 4) =~= be32_bytes(v.inode as int));
    lemma_be_at(b, 0);
    assert(b.subrange(5, 5 + b[4]) =~= v.d_name);
}

} // verus!
