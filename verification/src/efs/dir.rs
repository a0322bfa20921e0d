//! The listing of a directory: its names, each with the inode that it names.

use vstd::prelude::*;
use vstd::string::*;
use vstd::utf8::{
    decode_utf8, decode_utf8_encode_utf8, encode_utf8, encode_utf8_decode_utf8, is_ascii_chars, is_ascii_chars_encode_utf8,
    valid_utf8,
};
use crate::efs::extents::block_seq;
use crate::efs::inode::{Inode, InodeType, InodeView};
use crate::efs::raw_dir::{
    entry_views, DirectoryBlock, DirectoryBlockView, DirectoryEntry, DirectoryEntryView,
    DIRECTORY_BLOCK_SIZE,
};
use crate::efs::{Efs, EFS_BLOCK_SZ};
use crate::error::{SgidiskLibReadError, ValueError, view_result};
use crate::names::{
    bytes_order, lemma_lex_asymmetric, lemma_lex_total, lemma_lex_transitive, name_less, name_of,
    same_name, spec_name_of, NameOrder,
};

verus! {

/// Inode number of the root directory.
pub const ROOT_DIRECTORY_INODE: u64 = 2;

/// A name of a directory with the inode that it names.
#[derive(Debug, Clone, PartialEq, Eq)]
pub struct DirectoryItem {
    /// The name
    pub name: String,
    /// Number of the inode
    pub inode_id: u64,
    /// The inode
    pub inode: Inode,
}

/// The mathematical value of a [`DirectoryItem`].
pub ghost struct DirectoryItemView {
    pub name: Seq<char>,
    pub inode_id: u64,
    pub inode: InodeView,
}

impl View for DirectoryItem {
    type V = DirectoryItemView;

    open spec fn view(&self) -> DirectoryItemView {
        DirectoryItemView { name: self.name@, inode_id: self.inode_id, inode: self.inode@ }
    }
}

/// A directory and what it holds.
#[derive(Debug, Clone, PartialEq, Eq)]
pub struct Directory {
    /// Inode of the directory itself
    pub directory_inode: Inode,
    /// What the directory holds, in the order of the names, each name once
    pub entries: Vec<DirectoryItem>,
}

/// The mathematical value of a [`Directory`].
pub ghost struct DirectoryView {
    pub directory_inode: InodeView,
    pub entries: Seq<DirectoryItemView>,
}

/// The values of a list of items.
pub open spec fn item_views(items: Seq<DirectoryItem>) -> Seq<DirectoryItemView> {
    Seq::new(items.len(), |i: int| items[i]@)
}

impl View for Directory {
    type V = DirectoryView;

    open spec fn view(&self) -> DirectoryView {
        DirectoryView {
            directory_inode: self.directory_inode@,
            entries: item_views(self.entries@),
        }
    }
}

/// Whether the name of item `i` is listed before that of item `j`.
pub open spec fn listed_before(entries: Seq<DirectoryItemView>, i: int, j: int) -> bool {
    name_less(entries[i].name, entries[j].name)
}

/// Whether the names of `entries` ascend, so that none occurs twice.
#[verifier::opaque]
pub open spec fn sorted_by_name(entries: Seq<DirectoryItemView>) -> bool {
    forall|i: int, j: int| 0 <= i < j < entries.len() ==> #[trigger] listed_before(entries, i, j)
}

/// Whether reading the inode `inode_id` yields `inode`.
pub open spec fn reads_as(efs: Efs, image: Seq<u8>, inode_id: u64, inode: InodeView) -> bool {
    efs.spec_read_inode(image, inode_id) == Ok::<InodeView, SgidiskLibReadError>(inode)
}

/// Whether item `i` of `entries` holds what reading its inode yields.
pub open spec fn resolved_at(efs: Efs, image: Seq<u8>, entries: Seq<DirectoryItemView>, i: int) -> bool {
    reads_as(efs, image, entries[i].inode_id, entries[i].inode)
}

/// Whether each inode of `entries` is what reading its number yields.
#[verifier::opaque]
pub open spec fn resolved(efs: Efs, image: Seq<u8>, entries: Seq<DirectoryItemView>) -> bool {
    forall|i: int| 0 <= i < entries.len() ==> #[trigger] resolved_at(efs, image, entries, i)
}

/// Where the name `name` belongs in `entries`: behind the last name that
/// is listed before it.
pub open spec fn listing_position(entries: Seq<DirectoryItemView>, name: Seq<char>) -> int
    decreases entries.len(),
{
    if entries.len() == 0 {
        0
    } else if name_less(entries.last().name, name) {
        entries.len() as int
    } else {
        listing_position(entries.drop_last(), name)
    }
}

/// `entries` with `item` under its name: in the place of the item that had
/// the name, or where the name belongs.
pub open spec fn listing_insert(entries: Seq<DirectoryItemView>, item: DirectoryItemView) -> Seq<
    DirectoryItemView,
> {
    let p = listing_position(entries, item.name);
    if p < entries.len() && same_name(entries[p].name, item.name) {
        entries.update(p, item)
    } else {
        entries.insert(p, item)
    }
}

/// The listing `acc` with the entry `entry` added: its name read as text,
/// its inode read from the filesystem.
#[verifier::opaque]
pub open spec fn spec_list_entry(
    efs: Efs,
    image: Seq<u8>,
    entry: DirectoryEntryView,
    acc: Seq<DirectoryItemView>,
) -> Result<Seq<DirectoryItemView>, SgidiskLibReadError> {
    match spec_name_of(entry.d_name) {
        Err(e) => Err(e),
        Ok(name) => match efs.spec_read_inode(image, entry.inode as u64) {
            Err(e) => Err(e),
            Ok(inode) => Ok(
                listing_insert(acc, DirectoryItemView { name, inode_id: entry.inode as u64, inode }),
            ),
        },
    }
}

/// The listing `acc` with the entries `entries` added one after the other.
pub open spec fn spec_list_entries(
    efs: Efs,
    image: Seq<u8>,
    entries: Seq<DirectoryEntryView>,
    acc: Seq<DirectoryItemView>,
) -> Result<Seq<DirectoryItemView>, SgidiskLibReadError>
    decreases entries.len(),
{
    if entries.len() == 0 {
        Ok(acc)
    } else {
        match spec_list_entries(efs, image, entries.drop_last(), acc) {
            Err(e) => Err(e),
            Ok(before) => spec_list_entry(efs, image, entries.last(), before),
        }
    }
}

/// The listing `acc` with the entries of the directory block in basic
/// block `block` added.
#[verifier::opaque]
pub open spec fn spec_list_block(
    efs: Efs,
    image: Seq<u8>,
    block: u64,
    acc: Seq<DirectoryItemView>,
) -> Result<Seq<DirectoryItemView>, SgidiskLibReadError> {
    match efs.spec_check_read_block(block, DIRECTORY_BLOCK_SIZE as u64) {
        Err(e) => Err(e),
        Ok(()) => match efs.spec_seek_block(block) {
            Err(e) => Err(e),
            Ok(offset) => match DirectoryBlock::spec_read(image, offset as int) {
                Err(e) => Err(e),
                Ok(dir_block) => match dir_block.spec_dir_entries() {
                    Err(e) => Err(e),
                    Ok(entries) => spec_list_entries(efs, image, entries, acc),
                },
            },
        },
    }
}

/// The listing that the directory blocks in the basic blocks `blocks` make,
/// block after block.
pub open spec fn spec_list_blocks(efs: Efs, image: Seq<u8>, blocks: Seq<u64>) -> Result<
    Seq<DirectoryItemView>,
    SgidiskLibReadError,
>
    decreases blocks.len(),
{
    if blocks.len() == 0 {
        Ok(Seq::empty())
    } else {
        match spec_list_blocks(efs, image, blocks.drop_last()) {
            Err(e) => Err(e),
            Ok(before) => spec_list_block(efs, image, blocks.last(), before),
        }
    }
}

/// What listing the directory of inode `inode` yields.
pub open spec fn spec_read_dir(efs: Efs, image: Seq<u8>, inode: u64) -> Result<
    DirectoryView,
    SgidiskLibReadError,
> {
    match efs.spec_read_inode(image, inode) {
        Err(e) => Err(e),
        Ok(directory_inode) => if directory_inode.inode_type != InodeType::Directory {
            Err(SgidiskLibReadError::Value(ValueError::NotADirectory { inode }))
        } else {
            match spec_list_blocks(efs, image, block_seq(directory_inode.extents)) {
                Err(e) => Err(e),
                Ok(entries) => Ok(DirectoryView { directory_inode, entries }),
            }
        },
    }
}

/// Where a part of the entries from their start cannot be listed, neither
/// can all of them, and for the same reason.
pub proof fn lemma_list_entries_prefix_fails(
    efs: Efs,
    image: Seq<u8>,
    entries: Seq<DirectoryEntryView>,
    acc: Seq<DirectoryItemView>,
    n: int,
)
    requires
        0 <= n <= entries.len(),
        spec_list_entries(efs, image, entries.take(n), acc) is Err,
    ensures
        spec_list_entries(efs, image, entries, acc) == spec_list_entries(
            efs,
            image,
            entries.take(n),
            acc,
        ),
    decreases entries.len(),
{
    if n < entries.len() {
        assert(entries.drop_last().take(n) == entries.take(n));
        lemma_list_entries_prefix_fails(efs, image, entries.drop_last(), acc, n);
    } else {
        assert(entries.take(n) == entries);
    }
}

/// Where a part of the blocks from their start cannot be listed, neither
/// can all of them, and for the same reason.
pub proof fn lemma_list_blocks_prefix_fails(efs: Efs, image: Seq<u8>, blocks: Seq<u64>, n: int)
    requires
        0 <= n <= blocks.len(),
        spec_list_blocks(efs, image, blocks.take(n)) is Err,
    ensures
        spec_list_blocks(efs, image, blocks) == spec_list_blocks(efs, image, blocks.take(n)),
    decreases blocks.len(),
{
    if n < blocks.len() {
        assert(blocks.drop_last().take(n) == blocks.take(n));
        lemma_list_blocks_prefix_fails(efs, image, blocks.drop_last(), n);
    } else {
        assert(blocks.take(n) == blocks);
    }
}

/// The place where a name belongs lies in the listing, behind a name that
/// is listed before it and before none such.
pub proof fn lemma_listing_position(entries: Seq<DirectoryItemView>, name: Seq<char>)
    ensures
        0 <= listing_position(entries, name) <= entries.len(),
        listing_position(entries, name) > 0 ==> name_less(
            entries[listing_position(entries, name) - 1].name,
            name,
        ),
        forall|j: int|
            listing_position(entries, name) <= j < entries.len() ==> !name_less(
                (#[trigger] entries[j]).name,
                name,
            ),
    decreases entries.len(),
{
    if entries.len() > 0 && !name_less(entries.last().name, name) {
        let init = entries.drop_last();
        lemma_listing_position(init, name);
        assert forall|j: int|
            listing_position(entries, name) <= j < entries.len() implies !name_less(
            (#[trigger] entries[j]).name,
            name,
        ) by {
            if j < init.len() {
                assert(init[j] == entries[j]);
            }
        }
    }
}

/// A place that lies behind a name that is listed before `name` and before
/// none such is where `name` belongs.
pub proof fn lemma_listing_position_unique(
    entries: Seq<DirectoryItemView>,
    name: Seq<char>,
    p: int,
)
    requires
        0 <= p <= entries.len(),
        p > 0 ==> name_less(entries[p - 1].name, name),
        forall|j: int| p <= j < entries.len() ==> !name_less((#[trigger] entries[j]).name, name),
    ensures
        listing_position(entries, name) == p,
    decreases entries.len(),
{
    if entries.len() > 0 && p < entries.len() {
        assert(!name_less(entries[entries.len() - 1].name, name));
        lemma_listing_position_unique(entries.drop_last(), name, p);
    }
}

/// An empty listing is in order, and nothing in it waits to be resolved.
pub proof fn lemma_empty_listing(efs: Efs, image: Seq<u8>)
    ensures
        sorted_by_name(Seq::<DirectoryItemView>::empty()),
        resolved(efs, image, Seq::<DirectoryItemView>::empty()),
{
    reveal(sorted_by_name);
    reveal(resolved);
}

/// A listing whose names ascend stays one when an item is put under its
/// name.
pub proof fn lemma_listing_insert_sorted(entries: Seq<DirectoryItemView>, item: DirectoryItemView)
    requires
        sorted_by_name(entries),
    ensures
        sorted_by_name(listing_insert(entries, item)),
{
    reveal(sorted_by_name);
    let p = listing_position(entries, item.name);
    let after = listing_insert(entries, item);
    let key = encode_utf8(item.name);
    lemma_listing_position(entries, item.name);
    let replaces = p < entries.len() && same_name(entries[p].name, item.name);
    assert forall|i: int| 0 <= i < p implies name_less(#[trigger] entries[i].name, item.name) by {
        if i < p - 1 {
            assert(listed_before(entries, i, p - 1));
            lemma_lex_transitive(encode_utf8(entries[i].name), encode_utf8(entries[p - 1].name), key);
        }
    }
    assert forall|j: int| p <= j < entries.len() && !(replaces && j == p) implies name_less(
        item.name,
        #[trigger] entries[j].name,
    ) by {
        if replaces {
            assert(listed_before(entries, p, j));
        } else {
            lemma_lex_total(encode_utf8(entries[p].name), key);
            assert(!name_less(entries[p].name, item.name));
            if j > p {
                assert(listed_before(entries, p, j));
                lemma_lex_transitive(key, encode_utf8(entries[p].name), encode_utf8(entries[j].name));
            }
        }
    }
    assert forall|i: int, j: int| 0 <= i < j < after.len() implies #[trigger] listed_before(
        after,
        i,
        j,
    ) by {
        if replaces {
            if i != p && j != p {
                assert(listed_before(entries, i, j));
            } else if i == p {
                assert(name_less(item.name, entries[j].name));
            } else {
                assert(name_less(entries[i].name, item.name));
            }
        } else {
            if j < p {
                assert(listed_before(entries, i, j));
            } else if j == p {
                assert(name_less(entries[i].name, item.name));
            } else if i < p {
                assert(after[j] == entries[j - 1]);
                assert(name_less(entries[i].name, item.name));
                assert(name_less(item.name, entries[j - 1].name));
                lemma_lex_transitive(
                    encode_utf8(entries[i].name),
                    key,
                    encode_utf8(entries[j - 1].name),
                );
            } else if i == p {
                assert(after[j] == entries[j - 1]);
                assert(name_less(item.name, entries[j - 1].name));
            } else {
                assert(after[i] == entries[i - 1]);
                assert(after[j] == entries[j - 1]);
                assert(listed_before(entries, i - 1, j - 1));
            }
        }
    }
}

/// What was resolved in a listing stays resolved when a resolved item is put
/// under its name.
pub proof fn lemma_listing_insert_resolved(
    efs: Efs,
    image: Seq<u8>,
    entries: Seq<DirectoryItemView>,
    item: DirectoryItemView,
)
    requires
        resolved(efs, image, entries),
        reads_as(efs, image, item.inode_id, item.inode),
    ensures
        resolved(efs, image, listing_insert(entries, item)),
{
    reveal(resolved);
    let p = listing_position(entries, item.name);
    let after = listing_insert(entries, item);
    lemma_listing_position(entries, item.name);
    let replaces = p < entries.len() && same_name(entries[p].name, item.name);
    assert forall|i: int| 0 <= i < after.len() implies #[trigger] resolved_at(
        efs,
        image,
        after,
        i,
    ) by {
        if replaces {
            if i != p {
                assert(after[i] == entries[i]);
                assert(resolved_at(efs, image, entries, i));
            }
        } else {
            if i < p {
                assert(after[i] == entries[i]);
                assert(resolved_at(efs, image, entries, i));
            } else if i > p {
                assert(after[i] == entries[i - 1]);
                assert(resolved_at(efs, image, entries, i - 1));
            }
        }
    }
}

/// Putting an item into a listing under its name does what putting it into
/// a map does: the item is in the listing, every item of another name stays,
/// and nothing else comes in.
pub proof fn lemma_listing_insert_members(entries: Seq<DirectoryItemView>, item: DirectoryItemView)
    ensures
        exists|i: int|
            0 <= i < listing_insert(entries, item).len() && #[trigger] listing_insert(
                entries,
                item,
            )[i] == item,
        forall|j: int|
            0 <= j < entries.len() && !same_name((#[trigger] entries[j]).name, item.name)
                ==> listing_insert(entries, item).contains(entries[j]),
        forall|i: int|
            0 <= i < listing_insert(entries, item).len() ==> (#[trigger] listing_insert(
                entries,
                item,
            )[i]) == item || entries.contains(listing_insert(entries, item)[i]),
{
    let p = listing_position(entries, item.name);
    let after = listing_insert(entries, item);
    lemma_listing_position(entries, item.name);
    let replaces = p < entries.len() && same_name(entries[p].name, item.name);
    assert(after[p] == item);
    assert forall|j: int|
        0 <= j < entries.len() && !same_name((#[trigger] entries[j]).name, item.name) implies after.contains(
        entries[j],
    ) by {
        if replaces {
            assert(after[j] == entries[j]);
        } else if j < p {
            assert(after[j] == entries[j]);
        } else {
            assert(after[j + 1] == entries[j]);
        }
    }
    assert forall|i: int| 0 <= i < after.len() implies (#[trigger] after[i]) == item
        || entries.contains(after[i]) by {
        if i != p {
            if replaces {
                assert(entries[i] == after[i]);
            } else if i < p {
                assert(entries[i] == after[i]);
            } else {
                assert(entries[i - 1] == after[i]);
            }
        }
    }
}

/// In a listing whose names ascend no name occurs twice.
pub proof fn lemma_sorted_names_unique(entries: Seq<DirectoryItemView>, i: int, j: int)
    requires
        sorted_by_name(entries),
        0 <= i < entries.len(),
        0 <= j < entries.len(),
        i != j,
    ensures
        entries[i].name != entries[j].name,
{
    reveal(sorted_by_name);
    if i < j {
        assert(listed_before(entries, i, j));
        lemma_lex_asymmetric(encode_utf8(entries[i].name), encode_utf8(entries[j].name));
    } else {
        assert(listed_before(entries, j, i));
        lemma_lex_asymmetric(encode_utf8(entries[j].name), encode_utf8(entries[i].name));
    }
}

/// Each item of a resolved listing holds what reading its inode yields.
pub proof fn lemma_resolved_item(efs: Efs, image: Seq<u8>, entries: Seq<DirectoryItemView>, i: int)
    requires
        resolved(efs, image, entries),
        0 <= i < entries.len(),
    ensures
        efs.spec_read_inode(image, entries[i].inode_id) == Ok::<InodeView, SgidiskLibReadError>(
            entries[i].inode,
        ),
{
    reveal(resolved);
    assert(resolved_at(efs, image, entries, i));
}

/// Puts `item` into the listing under its name.
fn insert_item(entries: &mut Vec<DirectoryItem>, item: DirectoryItem)
    ensures
        item_views(final(entries)@) == listing_insert(item_views(old(entries)@), item@),
{
    let ghost before = item_views(entries@);
    let mut p: usize = entries.len();
    while p > 0 && !matches!(
        bytes_order(entries[p - 1].name.as_str().as_bytes(), item.name.as_str().as_bytes()),
        NameOrder::Before
    )
        invariant
            p <= entries@.len(),
            entries@ == old(entries)@,
            before == item_views(entries@),
            forall|j: int|
                p <= j < before.len() ==> !name_less((#[trigger] before[j]).name, item@.name),
        decreases p,
    {
        p -= 1;
    }
    proof {
        lemma_listing_position_unique(before, item@.name, p as int);
    }
    let replaces: bool = p < entries.len() && matches!(
        bytes_order(entries[p].name.as_str().as_bytes(), item.name.as_str().as_bytes()),
        NameOrder::Same
    );
    if replaces {
        entries[p] = item;
        assert(item_views(entries@) =~= before.update(p as int, item@));
    } else {
        entries.insert(p, item);
        assert(item_views(entries@) =~= before.insert(p as int, item@));
    }
}

/// Adds the entries of one directory block to the listing.
fn list_entries(
    image: &[u8],
    efs: &Efs,
    block_entries: &Vec<DirectoryEntry>,
    entries: &mut Vec<DirectoryItem>,
) -> (r: Result<(), SgidiskLibReadError>)
    requires
        sorted_by_name(item_views(old(entries)@)),
        resolved(*efs, image@, item_views(old(entries)@)),
    ensures
        match spec_list_entries(*efs, image@, entry_views(block_entries@), item_views(old(entries)@)) {
            Ok(listing) => r is Ok && item_views(final(entries)@) == listing,
            Err(e) => r == Err::<(), SgidiskLibReadError>(e),
        },
        r is Ok ==> sorted_by_name(item_views(final(entries)@)),
        r is Ok ==> resolved(*efs, image@, item_views(final(entries)@)),
{
    reveal(spec_list_entry);
    let ghost raw = entry_views(block_entries@);
    let ghost acc = item_views(entries@);
    let mut i: usize = 0;
    assert(raw.take(0) =~= Seq::<DirectoryEntryView>::empty());
    while i < block_entries.len()
        invariant
            i <= block_entries@.len(),
            raw == entry_views(block_entries@),
            acc == item_views(old(entries)@),
            spec_list_entries(*efs, image@, raw.take(i as int), acc) == Ok::<
                Seq<DirectoryItemView>,
                SgidiskLibReadError,
            >(item_views(entries@)),
            sorted_by_name(item_views(entries@)),
            resolved(*efs, image@, item_views(entries@)),
        decreases block_entries@.len() - i,
    {
        let block_entry = &block_entries[i];
        proof {
            reveal(spec_list_entry);
            assert(raw.take(i + 1).drop_last() == raw.take(i as int));
            assert(raw.take(i + 1).last() == block_entry@);
        }
        let entry_name = match name_of(block_entry.d_name.as_slice()) {
            Ok(s) => s,
            Err(e) => {
                proof {
                    lemma_list_entries_prefix_fails(*efs, image@, raw, acc, i + 1);
                }
                return Err(e);
            },
        };
        let entry_inode_id: u64 = block_entry.inode as u64;
        let entry_inode = match efs.read_inode(image, entry_inode_id) {
            Ok(inode) => inode,
            Err(e) => {
                proof {
                    lemma_list_entries_prefix_fails(*efs, image@, raw, acc, i + 1);
                }
                return Err(e);
            },
        };
        let item = DirectoryItem { name: entry_name, inode_id: entry_inode_id, inode: entry_inode };
        proof {
            lemma_listing_insert_sorted(item_views(entries@), item@);
            lemma_listing_insert_resolved(*efs, image@, item_views(entries@), item@);
        }
        insert_item(entries, item);
        i += 1;
    }
    assert(raw.take(i as int) == raw);
    Ok(())
}

/// Adds the entries of the directory block in basic block `block` to the
/// listing.
fn list_block(image: &[u8], efs: &Efs, block: u64, entries: &mut Vec<DirectoryItem>) -> (r: Result<
    (),
    SgidiskLibReadError,
>)
    requires
        sorted_by_name(item_views(old(entries)@)),
        resolved(*efs, image@, item_views(old(entries)@)),
    ensures
        match spec_list_block(*efs, image@, block, item_views(old(entries)@)) {
            Ok(listing) => r is Ok && item_views(final(entries)@) == listing,
            Err(e) => r == Err::<(), SgidiskLibReadError>(e),
        },
        r is Ok ==> sorted_by_name(item_views(final(entries)@)),
        r is Ok ==> resolved(*efs, image@, item_views(final(entries)@)),
{
    reveal(spec_list_block);
    match efs.check_read_block(block, DIRECTORY_BLOCK_SIZE as u64) {
        Ok(()) => {},
        Err(e) => {
            return Err(e);
        },
    }
    let offset: u64 = match efs.seek_block(block) {
        Ok(offset) => offset,
        Err(e) => {
            return Err(e);
        },
    };
    let dir_block = match DirectoryBlock::read(image, offset) {
        Ok(dir_block) => dir_block,
        Err(e) => {
            return Err(e);
        },
    };
    let block_entries = match dir_block.dir_entries() {
        Ok(block_entries) => block_entries,
        Err(e) => {
            return Err(e);
        },
    };
    list_entries(image, efs, &block_entries, entries)
}

impl Directory {
    /// Whether the names ascend, so that none occurs twice.
    pub open spec fn wf(self) -> bool {
        sorted_by_name(self@.entries)
    }

    /// Looks a name up in the listing.
    pub fn get(&self, name: &str) -> (r: Option<&DirectoryItem>)
        ensures
            match r {
                Some(item) => self.entries@.contains(*item) && same_name(item@.name, name@),
                None => forall|i: int|
                    0 <= i < self@.entries.len() ==> !same_name(
                        (#[trigger] self@.entries[i]).name,
                        name@,
                    ),
            },
    {
        let mut i: usize = 0;
        while i < self.entries.len()
            invariant
                i <= self.entries@.len(),
                forall|j: int|
                    0 <= j < i ==> !same_name((#[trigger] self@.entries[j]).name, name@),
            decreases self.entries@.len() - i,
        {
            let entry = &self.entries[i];
            assert(self@.entries[i as int] == entry@);
            if matches!(
                bytes_order(entry.name.as_str().as_bytes(), name.as_bytes()),
                NameOrder::Same
            ) {
                return Some(entry);
            }
            i += 1;
        }
        None
    }

    /// Lists the directory of inode `inode`: reads the inode, then each of
    /// its blocks as a directory block, and for each entry the inode that it
    /// names. A name that occurs again takes the place of the earlier one.
    /// The root directory is inode 2.
    pub fn read_dir(image: &[u8], efs: &Efs, inode: u64) -> (r: Result<
        Directory,
        SgidiskLibReadError,
    >)
        ensures
            view_result(r) == spec_read_dir(*efs, image@, inode),
            r is Ok ==> r->Ok_0.wf(),
            r is Ok ==> resolved(*efs, image@, r->Ok_0@.entries),
    {
        let directory_inode = match efs.read_inode(image, inode) {
            Ok(directory_inode) => directory_inode,
            Err(e) => {
                return Err(e);
            },
        };
        if directory_inode.inode_type != InodeType::Directory {
            return Err(SgidiskLibReadError::Value(ValueError::NotADirectory { inode }));
        }
        let blocks = directory_inode.blocks();
        let mut entries: Vec<DirectoryItem> = Vec::new();
        let mut i: usize = 0;
        assert(blocks@.take(0) =~= Seq::<u64>::empty());
        assert(item_views(entries@) =~= Seq::<DirectoryItemView>::empty());
        proof {
            lemma_empty_listing(*efs, image@);
        }
        while i < blocks.len()
            invariant
                i <= blocks@.len(),
                efs.spec_read_inode(image@, inode) == Ok::<InodeView, SgidiskLibReadError>(
                    directory_inode@,
                ),
                directory_inode.inode_type == InodeType::Directory,
                blocks@ == block_seq(directory_inode@.extents),
                spec_list_blocks(*efs, image@, blocks@.take(i as int)) == Ok::<
                    Seq<DirectoryItemView>,
                    SgidiskLibReadError,
                >(item_views(entries@)),
                sorted_by_name(item_views(entries@)),
                resolved(*efs, image@, item_views(entries@)),
            decreases blocks@.len() - i,
        {
            proof {
                assert(blocks@.take(i + 1).drop_last() == blocks@.take(i as int));
            }
            match list_block(image, efs, blocks[i], &mut entries) {
                Ok(()) => {},
                Err(e) => {
                    proof {
                        lemma_list_blocks_prefix_fails(*efs, image@, blocks@, i + 1);
                    }
                    return Err(e);
                },
            }
            i += 1;
        }
        assert(blocks@.take(i as int) == blocks@);
        Ok(Directory { directory_inode, entries })
    }
}


/// A directory that lies in another one.
#[derive(Debug, Clone, PartialEq, Eq)]
pub struct Subdirectory {
    /// Number of the inode of the directory
    pub inode_id: u64,
    /// Path of the directory
    pub path: String,
}

/// The mathematical value of a [`Subdirectory`].
pub ghost struct SubdirectoryView {
    pub inode_id: u64,
    pub path: Seq<char>,
}

impl View for Subdirectory {
    type V = SubdirectoryView;

    open spec fn view(&self) -> SubdirectoryView {
        SubdirectoryView { inode_id: self.inode_id, path: self.path@ }
    }
}

/// The values of a list of subdirectories.
pub open spec fn subdirectory_views(dirs: Seq<Subdirectory>) -> Seq<SubdirectoryView> {
    Seq::new(dirs.len(), |i: int| dirs[i]@)
}

/// Whether `name` names a directory itself or the one above it.
pub open spec fn is_dot_name(name: Seq<char>) -> bool {
    name == seq!['.'] || name == seq!['.', '.']
}

/// The path of what is called `entry_name` in the directory of path
/// `dir_name`.
pub open spec fn spec_entry_path(dir_name: Seq<char>, entry_name: Seq<char>) -> Seq<char> {
    dir_name + seq!['/'] + entry_name
}

/// The directories among the first `n` of `entries`, apart from the
/// directory itself and the one above it, each with its path below
/// `dir_name`.
pub open spec fn spec_subdirectories(entries: Seq<DirectoryItemView>, dir_name: Seq<char>, n: nat) -> Seq<
    SubdirectoryView,
>
    decreases n,
{
    if n == 0 {
        Seq::empty()
    } else if entries[n - 1].inode.inode_type == InodeType::Directory && !is_dot_name(
        entries[n - 1].name,
    ) {
        spec_subdirectories(entries, dir_name, (n - 1) as nat).push(
            SubdirectoryView {
                inode_id: entries[n - 1].inode_id,
                path: spec_entry_path(dir_name, entries[n - 1].name),
            },
        )
    } else {
        spec_subdirectories(entries, dir_name, (n - 1) as nat)
    }
}

/// Whether `name` names a directory itself or the one above it.
pub fn is_dot(name: &str) -> (r: bool)
    ensures
        r == is_dot_name(name@),
{
    let bytes = name.as_bytes();
    proof {
        let one = seq!['.'];
        let two = seq!['.', '.'];
        assert(is_ascii_chars(one));
        assert(is_ascii_chars(two));
        is_ascii_chars_encode_utf8(one);
        is_ascii_chars_encode_utf8(two);
        assert(encode_utf8(one) =~= seq![0x2Eu8]) by {
            assert(one[0] as u8 == encode_utf8(one)[0]);
        }
        assert(encode_utf8(two) =~= seq![0x2Eu8, 0x2Eu8]) by {
            assert(two[0] as u8 == encode_utf8(two)[0]);
            assert(two[1] as u8 == encode_utf8(two)[1]);
        }
        encode_utf8_decode_utf8(one);
        encode_utf8_decode_utf8(two);
        encode_utf8_decode_utf8(name@);
        if bytes@ =~= seq![0x2Eu8] {
            assert(name@ == one);
        }
        if bytes@ =~= seq![0x2Eu8, 0x2Eu8] {
            assert(name@ == two);
        }
    }
    (bytes.len() == 1 && bytes[0] == 0x2E) || (bytes.len() == 2 && bytes[0] == 0x2E && bytes[1]
        == 0x2E)
}

/// The path of what is called `entry_name` in the directory of path
/// `dir_name`.
pub fn entry_path(dir_name: &str, entry_name: &str) -> (r: String)
    ensures
        r@ == spec_entry_path(dir_name@, entry_name@),
{
    proof {
        reveal_strlit("/");
    }
    let mut path = String::from_str(dir_name);
    path.append("/");
    path.append(entry_name);
    assert("/"@ =~= seq!['/']);
    path
}

impl Directory {
    /// The directories that lie in this one, apart from itself and the one
    /// above it, in the order of the listing, each with its path below
    /// `dir_name`: where a walk of the tree goes on.
    pub fn subdirectories(&self, dir_name: &str) -> (r: Vec<Subdirectory>)
        ensures
            subdirectory_views(r@) == spec_subdirectories(
                self@.entries,
                dir_name@,
                self@.entries.len(),
            ),
    {
        let mut dirs: Vec<Subdirectory> = Vec::new();
        let mut i: usize = 0;
        assert(subdirectory_views(dirs@) =~= Seq::<SubdirectoryView>::empty());
        while i < self.entries.len()
            invariant
                i <= self.entries@.len(),
                subdirectory_views(dirs@) == spec_subdirectories(
                    self@.entries,
                    dir_name@,
                    i as nat,
                ),
            decreases self.entries@.len() - i,
        {
            let entry = &self.entries[i];
            assert(self@.entries[i as int] == entry@);
            if entry.inode.inode_type == InodeType::Directory && !is_dot(entry.name.as_str()) {
                let dir = Subdirectory {
                    inode_id: entry.inode_id,
                    path: entry_path(dir_name, entry.name.as_str()),
                };
                assert(subdirectory_views(dirs@.push(dir)) =~= subdirectory_views(dirs@).push(dir@));
                dirs.push(dir);
            }
            i += 1;
        }
        dirs
    }
}


/// Whether the listing has an item whose name `bytes` spell.
pub open spec fn lists_name(listing: Seq<DirectoryItemView>, bytes: Seq<u8>) -> bool {
    exists|k: int| 0 <= k < listing.len() && encode_utf8((#[trigger] listing[k]).name) == bytes
}

/// Whether every name of `before` is a name of `after`.
pub open spec fn keeps_names(before: Seq<DirectoryItemView>, after: Seq<DirectoryItemView>) -> bool {
    forall|k: int|
        0 <= k < before.len() ==> lists_name(after, encode_utf8((#[trigger] before[k]).name))
}

/// The entries of the directory block in basic block `block`.
pub open spec fn spec_block_entries(efs: Efs, image: Seq<u8>, block: u64) -> Seq<
    DirectoryEntryView,
> {
    DirectoryBlock::spec_read(
        image,
        efs.spec_seek_block(block)->Ok_0 as int,
    )->Ok_0.spec_dir_entries()->Ok_0
}

/// Whether the listing has the name of every entry of the directory block in
/// basic block `block`.
pub open spec fn block_listed(
    efs: Efs,
    image: Seq<u8>,
    block: u64,
    listing: Seq<DirectoryItemView>,
) -> bool {
    forall|i: int|
        0 <= i < spec_block_entries(efs, image, block).len() ==> lists_name(
            listing,
            (#[trigger] spec_block_entries(efs, image, block)[i]).d_name,
        )
}

/// A name that is listed stays listed in a listing that keeps the names.
pub proof fn lemma_keeps_listed(
    before: Seq<DirectoryItemView>,
    after: Seq<DirectoryItemView>,
    bytes: Seq<u8>,
)
    requires
        keeps_names(before, after),
        lists_name(before, bytes),
    ensures
        lists_name(after, bytes),
{
    let k = choose|k: int| 0 <= k < before.len() && encode_utf8((#[trigger] before[k]).name) == bytes;
    assert(lists_name(after, encode_utf8(before[k].name)));
}

/// A listing that keeps the names of one that keeps the names of a third
/// keeps the names of the third.
pub proof fn lemma_keeps_names_transitive(
    a: Seq<DirectoryItemView>,
    b: Seq<DirectoryItemView>,
    c: Seq<DirectoryItemView>,
)
    requires
        keeps_names(a, b),
        keeps_names(b, c),
    ensures
        keeps_names(a, c),
{
    assert forall|k: int| 0 <= k < a.len() implies lists_name(
        c,
        encode_utf8((#[trigger] a[k]).name),
    ) by {
        lemma_keeps_listed(b, c, encode_utf8(a[k].name));
    }
}

/// Putting an item into a listing under its name keeps every name of the
/// listing, and lists the name of the item.
pub proof fn lemma_listing_insert_keeps(entries: Seq<DirectoryItemView>, item: DirectoryItemView)
    ensures
        keeps_names(entries, listing_insert(entries, item)),
        lists_name(listing_insert(entries, item), encode_utf8(item.name)),
{
    let p = listing_position(entries, item.name);
    let after = listing_insert(entries, item);
    lemma_listing_position(entries, item.name);
    let replaces = p < entries.len() && same_name(entries[p].name, item.name);
    assert(after[p] == item);
    assert forall|k: int| 0 <= k < entries.len() implies lists_name(
        after,
        encode_utf8((#[trigger] entries[k]).name),
    ) by {
        if same_name(entries[k].name, item.name) {
            assert(encode_utf8(after[p].name) == encode_utf8(entries[k].name));
        } else if replaces || k < p {
            assert(after[k] == entries[k]);
        } else {
            assert(after[k + 1] == entries[k]);
        }
    }
}

/// Where entries are added to a listing, the listing keeps its names and
/// has the name of every entry that was added.
pub proof fn lemma_list_entries_names(
    efs: Efs,
    image: Seq<u8>,
    entries: Seq<DirectoryEntryView>,
    acc: Seq<DirectoryItemView>,
)
    requires
        spec_list_entries(efs, image, entries, acc) is Ok,
    ensures
        keeps_names(acc, spec_list_entries(efs, image, entries, acc)->Ok_0),
        forall|i: int|
            0 <= i < entries.len() ==> lists_name(
                spec_list_entries(efs, image, entries, acc)->Ok_0,
                (#[trigger] entries[i]).d_name,
            ),
    decreases entries.len(),
{
    reveal(spec_list_entry);
    let listing = spec_list_entries(efs, image, entries, acc)->Ok_0;
    if entries.len() == 0 {
        assert forall|k: int| 0 <= k < acc.len() implies lists_name(
            acc,
            encode_utf8((#[trigger] acc[k]).name),
        ) by {}
    } else {
        let init = entries.drop_last();
        let before = spec_list_entries(efs, image, init, acc)->Ok_0;
        lemma_list_entries_names(efs, image, init, acc);
        let last = entries.last();
        let name = decode_utf8(last.d_name);
        decode_utf8_encode_utf8(last.d_name);
        let item = DirectoryItemView {
            name,
            inode_id: last.inode as u64,
            inode: efs.spec_read_inode(image, last.inode as u64)->Ok_0,
        };
        assert(listing == listing_insert(before, item));
        lemma_listing_insert_keeps(before, item);
        lemma_keeps_names_transitive(acc, before, listing);
        assert forall|i: int| 0 <= i < entries.len() implies lists_name(
            listing,
            (#[trigger] entries[i]).d_name,
        ) by {
            if i < init.len() {
                assert(init[i] == entries[i]);
                lemma_keeps_listed(before, listing, entries[i].d_name);
            }
        }
    }
}

/// Where the entries of a directory block are added to a listing, the
/// listing keeps its names and has the name of every entry of the block.
pub proof fn lemma_list_block_names(
    efs: Efs,
    image: Seq<u8>,
    block: u64,
    acc: Seq<DirectoryItemView>,
)
    requires
        spec_list_block(efs, image, block, acc) is Ok,
    ensures
        keeps_names(acc, spec_list_block(efs, image, block, acc)->Ok_0),
        block_listed(efs, image, block, spec_list_block(efs, image, block, acc)->Ok_0),
{
    reveal(spec_list_block);
    lemma_list_entries_names(efs, image, spec_block_entries(efs, image, block), acc);
}

/// The listing of a run of directory blocks has the name of every entry of
/// every block of the run.
pub proof fn lemma_list_blocks_names(efs: Efs, image: Seq<u8>, blocks: Seq<u64>)
    requires
        spec_list_blocks(efs, image, blocks) is Ok,
    ensures
        forall|j: int|
            0 <= j < blocks.len() ==> block_listed(
                efs,
                image,
                #[trigger] blocks[j],
                spec_list_blocks(efs, image, blocks)->Ok_0,
            ),
    decreases blocks.len(),
{
    if blocks.len() > 0 {
        let init = blocks.drop_last();
        let before = spec_list_blocks(efs, image, init)->Ok_0;
        let listing = spec_list_blocks(efs, image, blocks)->Ok_0;
        lemma_list_blocks_names(efs, image, init);
        lemma_list_block_names(efs, image, blocks.last(), before);
        assert forall|j: int| 0 <= j < blocks.len() implies block_listed(
            efs,
            image,
            #[trigger] blocks[j],
            listing,
        ) by {
            if j < init.len() {
                assert(init[j] == blocks[j]);
                assert(block_listed(efs, image, init[j], before));
                let entries = spec_block_entries(efs, image, blocks[j]);
                assert forall|i: int| 0 <= i < entries.len() implies lists_name(
                    listing,
                    (#[trigger] entries[i]).d_name,
                ) by {
                    lemma_keeps_listed(before, listing, entries[i].d_name);
                }
            }
        }
    }
}

/// The listing of a directory has the name of every entry of every block of
/// the directory.
pub proof fn lemma_read_dir_names(efs: Efs, image: Seq<u8>, inode: u64)
    requires
        spec_read_dir(efs, image, inode) is Ok,
    ensures
        forall|j: int|
            0 <= j < block_seq(spec_read_dir(efs, image, inode)->Ok_0.directory_inode.extents).len()
                ==> block_listed(
                efs,
                image,
                #[trigger] block_seq(
                    spec_read_dir(efs, image, inode)->Ok_0.directory_inode.extents,
                )[j],
                spec_read_dir(efs, image, inode)->Ok_0.entries,
            ),
{
    let directory_inode = efs.spec_read_inode(image, inode)->Ok_0;
    lemma_list_blocks_names(efs, image, block_seq(directory_inode.extents));
}

} // verus!
