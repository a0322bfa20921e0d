//! The failure kinds that every layer of the library reports.

use vstd::prelude::*;

verus! {

/// Why a byte sequence is not the record it was decoded as.
#[derive(Debug, Clone, Copy, PartialEq, Eq)]
pub enum CodecError {
    /// The magic prefix of the record is not the expected one.
    BadMagic,
    /// An enumeration tag lies outside the closed set of its values.
    UnknownTag { value: i32 },
    /// There are fewer bytes than the record, or its length prefix, declares.
    LengthMismatch,
    /// A reserved byte that must be zero is not.
    ReservedNonZero,
}

/// Why the byte source could not supply what was asked of it.
#[derive(Debug, Clone, Copy, PartialEq, Eq)]
pub enum IoError {
    /// The byte source ends before the last byte of the read.
    UnexpectedEof,
    /// The position sought is beyond what a position can hold.
    SeekOverflow,
}

/// The signed on-disk fields that are narrowed to unsigned values.
#[derive(Debug, Clone, Copy, PartialEq, Eq)]
pub enum Field {
    RootPartition,
    SwapPartition,
    FileStart,
    FileSize,
    FsSize,
    FirstCg,
    CgSize,
    CgInodeArea,
    CgCount,
    InodeSize,
    ExtentCount,
}

/// Why a structurally valid record is rejected.
#[derive(Debug, Clone, Copy, PartialEq, Eq)]
pub enum ValueError {
    /// A signed field holds a negative number where an unsigned one is needed.
    Negative { field: Field, value: i64 },
    /// The filesystem's length in bytes does not fit in 64 bits.
    SizeOverflow,
    /// The inode area of a cylinder group is no whole number of inodes.
    CgInodeArea { bytes: i64 },
    /// The type bits of an inode's mode name no inode type.
    UnknownInodeType { bits: u16 },
    /// An inode declares more extents than the format allows.
    TooManyExtents { count: i16 },
    /// A region of packed extents is no whole number of extent records.
    ExtentAreaSize { len: usize },
    /// The indirect blocks hold fewer extents than the inode declares.
    ExtentCount { declared: usize, parsed: usize },
    /// An extent does not begin at the logical block where the one before it ends.
    NotContiguous { expected: u64, offset: u32 },
    /// A directory block declares more slots than can hold an entry.
    TooManySlots { slots: u8 },
    /// A name is not valid UTF-8.
    NameNotUtf8,
    /// The inode that was to be listed is no directory.
    NotADirectory { inode: u64 },
}

/// Why a location lies outside what it must lie in.
#[derive(Debug, Clone, Copy, PartialEq, Eq)]
pub enum BoundsError {
    /// A read starts before the first byte of the partition.
    BeforeStart { start: u64 },
    /// A read ends after the last byte of the filesystem.
    PastEnd { start: u64, len: u64 },
    /// A read of a numbered block ends after the last byte of the filesystem.
    BlockPastEnd { block: u64, len: u64 },
    /// An inode number has no offset inside the filesystem.
    InodeOffset { inode: u64 },
    /// A directory slot points into the header of its block.
    SlotBeforePayload { compact: u8 },
    /// A directory slot points past the payload of its block.
    SlotPastPayload { entry: usize },
}

/// Everything that reading an SGI disk image can fail with.
#[derive(Debug, Clone, Copy, PartialEq, Eq)]
pub enum SgidiskLibReadError {
    /// The bytes could not be decoded.
    Codec(CodecError),
    /// The byte source failed underneath a read.
    Io(IoError),
    /// The decoded value is not acceptable.
    Value(ValueError),
    /// The filesystem points outside its own limits.
    Bounds(BoundsError),
}

impl SgidiskLibReadError {
    /// What kind of failure this is, in words.
    pub open spec fn spec_message(self) -> Seq<char> {
        match self {
            SgidiskLibReadError::Codec(_) => "Couldn't unpack binary data"@,
            SgidiskLibReadError::Io(_) => "I/O error"@,
            SgidiskLibReadError::Value(_) => "Value error"@,
            SgidiskLibReadError::Bounds(_) => "File system points to something out of listed bounds"@,
        }
    }

    /// Says in words what kind of failure this is.
    pub fn message(&self) -> (r: &'static str)
        ensures
            r@ == self.spec_message(),
    {
        match self {
            SgidiskLibReadError::Codec(_) => "Couldn't unpack binary data",
            SgidiskLibReadError::Io(_) => "I/O error",
            SgidiskLibReadError::Value(_) => "Value error",
            SgidiskLibReadError::Bounds(_) => "File system points to something out of listed bounds",
        }
    }
}

/// The result of a fallible step with its success value replaced by its view.
pub open spec fn view_result<T: View>(r: Result<T, SgidiskLibReadError>) -> Result<
    T::V,
    SgidiskLibReadError,
> {
    match r {
        Ok(v) => Ok(v@),
        Err(e) => Err(e),
    }
}

} // verus!
