//! A forward-only cursor over the basic blocks of an inode.

use vstd::prelude::*;
use crate::efs::extents::{block_of, block_seq, lemma_block_seq_front, run};
use crate::efs::inode::Inode;
use crate::efs::raw_inode::Extent;

verus! {

/// Walks the basic blocks that hold an inode's content, in the order of the
/// content.
pub struct InodeBlockIter<'a> {
    inode: &'a Inode,
    /// Extent within the inode
    extent: usize,
    /// Block within the extent
    block: usize,
}

/// The blocks of a list are those of the part that begins at its first
/// extent that holds a block.
pub proof fn lemma_block_seq_skips_empty(s: Seq<Extent>, from: int, to: int)
    requires
        0 <= from <= to <= s.len(),
        forall|j: int| from <= j < to ==> s[j].ex_length == 0,
    ensures
        block_seq(s.skip(from)) == block_seq(s.skip(to)),
    decreases to - from,
{
    if from < to {
        lemma_block_seq_front(s.skip(from));
        assert(s.skip(from)[0] == s[from]);
        assert(s.skip(from).skip(1) == s.skip(from + 1));
        assert(run(s[from]) =~= Seq::<u64>::empty());
        assert(run(s[from]) + block_seq(s.skip(from + 1)) == block_seq(s.skip(from + 1)));
        lemma_block_seq_skips_empty(s, from + 1, to);
    }
}

/// Finds the first extent at or behind `from` that holds a block.
fn first_live(extents: &Vec<Extent>, from: usize) -> (r: usize)
    requires
        from <= extents@.len(),
    ensures
        from <= r <= extents@.len(),
        r < extents@.len() ==> extents@[r as int].ex_length > 0,
        block_seq(extents@.skip(from as int)) == block_seq(extents@.skip(r as int)),
{
    let mut r: usize = from;
    while r < extents.len() && extents[r].ex_length == 0
        invariant
            from <= r <= extents@.len(),
            forall|j: int| from <= j < r ==> extents@[j].ex_length == 0,
        decreases extents@.len() - r,
    {
        r += 1;
    }
    proof {
        lemma_block_seq_skips_empty(extents@, from as int, r as int);
    }
    r
}

impl<'a> InodeBlockIter<'a> {
    #[verifier::type_invariant]
    spec fn inv(self) -> bool {
        &&& self.extent <= self.inode.extents@.len()
        &&& self.extent < self.inode.extents@.len() ==> self.block
            < self.inode.extents@[self.extent as int].ex_length
    }

    /// The numbers of the blocks that are still to come, in their order.
    pub closed spec fn remaining(self) -> Seq<u64> {
        if self.extent >= self.inode.extents@.len() {
            Seq::empty()
        } else {
            run(self.inode.extents@[self.extent as int]).skip(self.block as int) + block_seq(
                self.inode.extents@.skip(self.extent + 1),
            )
        }
    }

    /// Places a cursor before the first block of `inode`.
    pub fn new(inode: &'a Inode) -> (it: InodeBlockIter<'a>)
        ensures
            it.remaining() == block_seq(inode@.extents),
    {
        let extent: usize = first_live(&inode.extents, 0);
        proof {
            let s = inode.extents@;
            assert(s.skip(0) == s);
            if extent < s.len() {
                lemma_block_seq_front(s.skip(extent as int));
                assert(s.skip(extent as int)[0] == s[extent as int]);
                assert(s.skip(extent as int).skip(1) == s.skip(extent + 1));
                assert(run(s[extent as int]).skip(0) == run(s[extent as int]));
            } else {
                assert(s.skip(extent as int) =~= Seq::<Extent>::empty());
            }
        }
        InodeBlockIter { inode, extent, block: 0 }
    }

    /// Hands out the number of the next block and moves behind it, or hands
    /// out nothing when no block is left.
    pub fn next(&mut self) -> (r: Option<u64>)
        ensures
            old(self).remaining().len() == 0 ==> r is None,
            old(self).remaining().len() == 0 ==> final(self).remaining() == old(self).remaining(),
            old(self).remaining().len() > 0 ==> r == Some(old(self).remaining()[0]),
            old(self).remaining().len() > 0 ==> final(self).remaining() == old(self).remaining().skip(
                1,
            ),
    {
        proof {
            use_type_invariant(&*self);
        }
        if self.extent >= self.inode.extents.len() {
            return None;
        }
        let extent: Extent = self.inode.extents[self.extent];
        let block_num: u64 = extent.ex_bn as u64 + self.block as u64;
        let ghost s = self.inode.extents@;
        let ghost rest = block_seq(s.skip(self.extent + 1));
        let ghost before = run(extent).skip(self.block as int);
        assert(before[0] == block_of(extent, self.block as int));
        if self.block + 1 >= extent.ex_length as usize {
            let following: usize = first_live(&self.inode.extents, self.extent + 1);
            proof {
                assert(before.skip(1) =~= Seq::<u64>::empty());
                assert((before + rest).skip(1) =~= rest);
                if following < s.len() {
                    lemma_block_seq_front(s.skip(following as int));
                    assert(s.skip(following as int)[0] == s[following as int]);
                    assert(s.skip(following as int).skip(1) == s.skip(following + 1));
                    assert(run(s[following as int]).skip(0) == run(s[following as int]));
                } else {
                    assert(s.skip(following as int) =~= Seq::<Extent>::empty());
                }
            }
            self.block = 0;
            self.extent = following;
        } else {
            proof {
                assert((before + rest).skip(1) =~= run(extent).skip(self.block + 1) + rest);
            }
            self.block = self.block + 1;
        }
        Some(block_num)
    }
}

impl Inode {
    /// A cursor over the blocks that hold the inode's content.
    pub fn iter(&self) -> (it: InodeBlockIter<'_>)
        ensures
            it.remaining() == block_seq(self@.extents),
    {
        InodeBlockIter::new(self)
    }

    /// The numbers of the blocks that hold the inode's content, in the order
    /// of the content.
    pub fn blocks(&self) -> (r: Vec<u64>)
        ensures
            r@ == block_seq(self@.extents),
    {
        let mut it = self.iter();
        let mut out: Vec<u64> = Vec::new();
        loop
            invariant
                out@ + it.remaining() == block_seq(self@.extents),
            decreases it.remaining().len(),
        {
            let ghost before = it.remaining();
            match it.next() {
                Some(block) => {
                    proof {
                        assert(out@.push(block) + before.skip(1) =~= out@ + before);
                    }
                    out.push(block);
                },
                None => {
                    assert(out@ + before =~= out@);
                    return out;
                },
            }
        }
    }
}

} // verus!
