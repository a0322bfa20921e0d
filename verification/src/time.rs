//! The times of an inode, as seconds since the Unix epoch and as the clocks
//! of the machine's time zone show them.

use vstd::prelude::*;
use vstd::string::*;
use chrono::{FixedOffset, Local, LocalResult, TimeZone};
use crate::efs::inode::{Inode, InodeView};
use crate::text::{signed_decimal, signed_decimal_digits};

verus! {

/// The offsets from Greenwich that a time zone can have lie within a day of
/// it, to either side: this many seconds.
pub const OFFSET_LIMIT: i32 = 86_400;

/// Which of the three times of an inode.
#[derive(Debug, Clone, Copy, PartialEq, Eq)]
pub enum InodeTime {
    /// When the file was last accessed
    Access,
    /// When the file was last modified
    Modification,
    /// When the inode was created
    Creation,
}

/// A time as the clocks of a time zone show it: the time itself, and how far
/// the clocks are ahead of Greenwich then.
#[derive(Debug, Clone, Copy, PartialEq, Eq)]
pub struct LocalTime {
    /// Seconds since the Unix epoch
    seconds: i32,
    /// Seconds that the local clocks are ahead of Greenwich; within a day
    offset: i32,
}

/// The text that chrono's `Debug` writes for the time `seconds` seconds
/// after the Unix epoch as clocks show it that are `offset` seconds ahead of
/// Greenwich: the date and the time of day on those clocks, and the offset.
pub uninterp spec fn offset_time_debug(seconds: int, offset: int) -> Seq<char>;

/// How far the clocks of the machine's time zone are ahead of Greenwich
/// `secs` seconds after the Unix epoch: the offset of the single result of
/// chrono's `Local.timestamp_opt(secs, 0)`, and nothing where chrono finds
/// no single local time. Which offset comes back depends on the time zone of
/// the machine; every offset of chrono lies within a day of Greenwich.
#[verifier::external_body]
fn local_offset(secs: i32) -> (r: Option<i32>)
    ensures
        r is Some ==> offset_in_range(r->Some_0 as int),
{
    match Local.timestamp_opt(secs as i64, 0) {
        LocalResult::Single(t) => Some(t.offset().local_minus_utc()),
        LocalResult::Ambiguous(_, _) => None,
        LocalResult::None => None,
    }
}

/// The `Debug` text of chrono's `DateTime` for the time `secs` seconds after
/// the Unix epoch in the zone `FixedOffset::east_opt(offset)`. chrono has
/// such a zone for the offsets within a day of Greenwich, and in it every
/// time has one reading.
#[verifier::external_body]
fn offset_time_text(secs: i32, offset: i32) -> (text: String)
    requires
        offset_in_range(offset as int),
    ensures
        text@ == offset_time_debug(secs as int, offset as int),
{
    let zone = FixedOffset::east_opt(offset).unwrap();
    format!("{:#?}", zone.timestamp_opt(secs as i64, 0).unwrap())
}

/// Whether `offset` is an offset that a time zone can have.
pub open spec fn offset_in_range(offset: int) -> bool {
    -OFFSET_LIMIT < offset < OFFSET_LIMIT
}

/// The text that stands for a time: what its local reading is written as
/// where there is one, the seconds since the Unix epoch where there is none.
pub open spec fn spec_time_text(secs: i32, local: Option<LocalTime>) -> Seq<char> {
    match local {
        Some(time) => offset_time_debug(time.spec_seconds() as int, time.spec_offset() as int),
        None => signed_decimal_digits(secs as int),
    }
}

/// Whether `local` is the reading of the time `secs` that the offset
/// `offset` makes: none without an offset that a time zone can have.
pub open spec fn reads_at(secs: i32, offset: Option<i32>, local: Option<LocalTime>) -> bool {
    match offset {
        Some(offset) if offset_in_range(offset as int) => local is Some
            && local->Some_0.spec_seconds() == secs && local->Some_0.spec_offset() == offset,
        _ => local is None,
    }
}

impl InodeView {
    /// The seconds of one of the three times.
    pub open spec fn spec_time(self, which: InodeTime) -> i32 {
        match which {
            InodeTime::Access => self.atime,
            InodeTime::Modification => self.mtime,
            InodeTime::Creation => self.ctime,
        }
    }
}

impl LocalTime {
    #[verifier::type_invariant]
    spec fn inv(self) -> bool {
        offset_in_range(self.offset as int)
    }

    /// Seconds since the Unix epoch.
    pub closed spec fn spec_seconds(self) -> i32 {
        self.seconds
    }

    /// Seconds that the local clocks are ahead of Greenwich.
    pub closed spec fn spec_offset(self) -> i32 {
        self.offset
    }

    /// The time `seconds` seconds after the Unix epoch on clocks that are
    /// `offset` seconds ahead of Greenwich. There are no such clocks for an
    /// offset of a day or more.
    pub fn new(seconds: i32, offset: i32) -> (r: Option<LocalTime>)
        ensures
            reads_at(seconds, Some(offset), r),
    {
        if -OFFSET_LIMIT < offset && offset < OFFSET_LIMIT {
            Some(LocalTime { seconds, offset })
        } else {
            None
        }
    }

    /// Seconds since the Unix epoch.
    pub fn seconds(&self) -> (r: i32)
        ensures
            r == self.spec_seconds(),
    {
        self.seconds
    }

    /// Seconds that the local clocks are ahead of Greenwich.
    pub fn offset(&self) -> (r: i32)
        ensures
            r == self.spec_offset(),
            offset_in_range(r as int),
    {
        proof {
            use_type_invariant(self);
        }
        self.offset
    }

    /// Writes the time as the local clocks show it, with their offset.
    pub fn text(&self) -> (r: String)
        ensures
            r@ == offset_time_debug(self.spec_seconds() as int, self.spec_offset() as int),
    {
        proof {
            use_type_invariant(self);
        }
        offset_time_text(self.seconds, self.offset)
    }
}

impl Inode {
    /// The seconds of one of the three times.
    pub fn time(&self, which: InodeTime) -> (r: i32)
        ensures
            r == self@.spec_time(which),
    {
        match which {
            InodeTime::Access => self.atime,
            InodeTime::Modification => self.mtime,
            InodeTime::Creation => self.ctime,
        }
    }
}

/// The local time that an offset makes of the time `secs` seconds after the
/// Unix epoch.
pub fn local_time_at(secs: i32, offset: Option<i32>) -> (r: Option<LocalTime>)
    ensures
        reads_at(secs, offset, r),
{
    match offset {
        Some(offset) => LocalTime::new(secs, offset),
        None => None,
    }
}

/// Reads the time `secs` seconds after the Unix epoch on the clocks of the
/// machine's time zone. There is nothing to read where the zone gives the
/// time no single reading.
pub fn local_time(secs: i32) -> (r: Option<LocalTime>)
    ensures
        r is Some ==> r->Some_0.spec_seconds() == secs,
        r is Some ==> offset_in_range(r->Some_0.spec_offset() as int),
{
    local_time_at(secs, local_offset(secs))
}

/// Writes a time: its local reading `local` where there is one, the seconds
/// since the Unix epoch where there is none.
pub fn time_text_with(secs: i32, local: Option<LocalTime>) -> (r: String)
    ensures
        r@ == spec_time_text(secs, local),
{
    match local {
        Some(time) => time.text(),
        None => signed_decimal(secs as i64),
    }
}

/// Writes one of the three times of an inode as the clocks of the machine's
/// time zone show it, or in seconds since the Unix epoch where the zone
/// gives it no single reading.
pub fn inode_time_text(inode: &Inode, which: InodeTime) -> (r: String)
    ensures
        exists|local: Option<LocalTime>|
            (local is Some ==> local->Some_0.spec_seconds() == inode@.spec_time(which)
                && offset_in_range(local->Some_0.spec_offset() as int)) && r@
                == #[trigger] spec_time_text(inode@.spec_time(which), local),
{
    let secs: i32 = inode.time(which);
    let local = local_time(secs);
    let text = time_text_with(secs, local);
    assert(text@ == spec_time_text(inode@.spec_time(which), local));
    text
}

} // verus!
