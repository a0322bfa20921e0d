//! Read-only inspection of SGI disk images: the volume header of sector 0
//! and the EFS partitions that it names.

use vstd::prelude::*;
use vstd::string::*;
use crate::efs::inode::{Inode, InodeType, InodeView};
use crate::text::{decimal, decimal_digits};
use crate::time::{local_time, offset_in_range, spec_time_text, time_text_with, LocalTime};

pub use crate::error::SgidiskLibReadError;
pub use crate::names::bytes_to_string;

pub mod codec;
pub mod cp;
pub mod efs;
pub mod error;
pub mod hash;
pub mod info;
pub mod names;
pub mod text;
pub mod time;
pub mod volhdr;

verus! {

/// The name of an inode type.
pub open spec fn spec_kind_name(t: InodeType) -> Seq<char> {
    match t {
        InodeType::Fifo => "Fifo"@,
        InodeType::CharacterSpecial => "CharacterSpecial"@,
        InodeType::CharacterSpecialLink => "CharacterSpecialLink"@,
        InodeType::Directory => "Directory"@,
        InodeType::BlockSpecial => "BlockSpecial"@,
        InodeType::BlockSpecialLink => "BlockSpecialLink"@,
        InodeType::RegularFile => "RegularFile"@,
        InodeType::SymbolicLink => "SymbolicLink"@,
        InodeType::Socket => "Socket"@,
    }
}

/// The name of an inode type.
pub fn kind_name(t: InodeType) -> (r: &'static str)
    ensures
        r@ == spec_kind_name(t),
{
    match t {
        InodeType::Fifo => "Fifo",
        InodeType::CharacterSpecial => "CharacterSpecial",
        InodeType::CharacterSpecialLink => "CharacterSpecialLink",
        InodeType::Directory => "Directory",
        InodeType::BlockSpecial => "BlockSpecial",
        InodeType::BlockSpecialLink => "BlockSpecialLink",
        InodeType::RegularFile => "RegularFile",
        InodeType::SymbolicLink => "SymbolicLink",
        InodeType::Socket => "Socket",
    }
}

/// One line about an inode: its type, its owner as user and group, its
/// size, and `time` for the time of its last modification.
pub open spec fn spec_fmt_inode(inode: InodeView, time: Seq<char>) -> Seq<char> {
    spec_kind_name(inode.inode_type) + seq![' '] + decimal_digits(inode.owner_uid as nat)
        + seq![':'] + decimal_digits(inode.owner_gid as nat) + seq![' '] + decimal_digits(
        inode.size as nat,
    ) + seq![' '] + time
}

/// Writes one line about an inode, with `local` as the local reading of
/// the time of its last modification where there is one.
pub fn fmt_inode_with(inode: &Inode, local: Option<LocalTime>) -> (r: String)
    ensures
        r@ == spec_fmt_inode(inode@, spec_time_text(inode.mtime, local)),
{
    proof {
        reveal_strlit(" ");
        reveal_strlit(":");
    }
    let mut line = String::from_str(kind_name(inode.inode_type));
    line.append(" ");
    line.append(decimal(inode.owner_uid as u64).as_str());
    line.append(":");
    line.append(decimal(inode.owner_gid as u64).as_str());
    line.append(" ");
    line.append(decimal(inode.size).as_str());
    line.append(" ");
    assert(" "@ =~= seq![' ']);
    assert(":"@ =~= seq![':']);
    line.append(time_text_with(inode.mtime, local).as_str());
    line
}

/// Writes one line about an inode: its type, its owner as user and group,
/// its size, and the time of its last modification as the clocks of the
/// machine's time zone show it.
pub fn fmt_inode(inode: &Inode) -> (r: String)
    ensures
        exists|local: Option<LocalTime>|
            (local is Some ==> local->Some_0.spec_seconds() == inode.mtime && offset_in_range(
                local->Some_0.spec_offset() as int,
            )) && r@ == spec_fmt_inode(inode@, #[trigger] spec_time_text(inode.mtime, local)),
{
    let local = local_time(inode.mtime);
    let line = fmt_inode_with(inode, local);
    assert(line@ == spec_fmt_inode(inode@, spec_time_text(inode.mtime, local)));
    line
}

} // verus!
