//! Lists of extents: how long they are together, when they cover a file
//! without a gap, how they are ordered, and which blocks they name.

use vstd::prelude::*;
use vstd::seq_lib::{to_multiset_build, to_multiset_insert};
use crate::efs::raw_inode::Extent;
use crate::error::{SgidiskLibReadError, ValueError};

verus! {

/// The number of basic blocks that the extents of `s` hold together.
pub open spec fn total_length(s: Seq<Extent>) -> nat
    decreases s.len(),
{
    if s.len() == 0 {
        0
    } else {
        total_length(s.drop_last()) + s.last().ex_length as nat
    }
}

/// Whether extent `i` of `s` begins at the logical block where the ones
/// before it end.
pub open spec fn joins(s: Seq<Extent>, i: int) -> bool {
    s[i].ex_offset == total_length(s.take(i))
}

/// Whether each extent of `s` begins at the logical block where the ones
/// before it end, the first at block 0.
pub open spec fn contiguous(s: Seq<Extent>) -> bool {
    forall|i: int| 0 <= i < s.len() ==> #[trigger] joins(s, i)
}

/// Whether the extents of `s` are in ascending order of their logical offset.
pub open spec fn sorted_by_offset(s: Seq<Extent>) -> bool {
    forall|i: int, j: int| 0 <= i < j < s.len() ==> s[i].ex_offset <= s[j].ex_offset
}

/// The outcome of walking `s` from its start and holding each extent's
/// logical offset against the blocks counted so far: the failure is that of
/// the first extent that begins elsewhere.
pub open spec fn spec_check_extents(s: Seq<Extent>) -> Result<(), SgidiskLibReadError>
    decreases s.len(),
{
    if s.len() == 0 {
        Ok(())
    } else {
        match spec_check_extents(s.drop_last()) {
            Err(e) => Err(e),
            Ok(()) => if s.last().ex_offset == total_length(s.drop_last()) {
                Ok(())
            } else {
                Err(
                    SgidiskLibReadError::Value(
                        ValueError::NotContiguous {
                            expected: total_length(s.drop_last()) as u64,
                            offset: s.last().ex_offset,
                        },
                    ),
                )
            },
        }
    }
}

/// Where `x` goes in `s` when it is put behind the last extent whose logical
/// offset is not greater than its own.
pub open spec fn insert_position(s: Seq<Extent>, x: Extent) -> int
    decreases s.len(),
{
    if s.len() == 0 {
        0
    } else if s.last().ex_offset <= x.ex_offset {
        s.len() as int
    } else {
        insert_position(s.drop_last(), x)
    }
}

/// `s` in ascending order of logical offset, extents of equal offset in the
/// order in which `s` has them.
pub open spec fn sort_by_offset(s: Seq<Extent>) -> Seq<Extent>
    decreases s.len(),
{
    if s.len() == 0 {
        s
    } else {
        let before = sort_by_offset(s.drop_last());
        before.insert(insert_position(before, s.last()), s.last())
    }
}

/// The number of the block that lies `k` blocks behind the first of `e`.
pub open spec fn block_of(e: Extent, k: int) -> int {
    e.ex_bn + k
}

/// The numbers of the basic blocks of one extent, in ascending order.
pub open spec fn run(e: Extent) -> Seq<u64> {
    Seq::new(e.ex_length as nat, |k: int| block_of(e, k) as u64)
}

/// The numbers of the basic blocks that hold a file, in the order of the
/// file's bytes: the runs of its extents one behind the other.
pub open spec fn block_seq(s: Seq<Extent>) -> Seq<u64>
    decreases s.len(),
{
    if s.len() == 0 {
        Seq::empty()
    } else {
        block_seq(s.drop_last()) + run(s.last())
    }
}

/// The blocks before extent `i` are those before extent `i - 1` and its own.
pub proof fn lemma_total_length_step(s: Seq<Extent>, i: int)
    requires
        0 <= i < s.len(),
    ensures
        total_length(s.take(i + 1)) == total_length(s.take(i)) + s[i].ex_length,
{
    assert(s.take(i + 1).drop_last() == s.take(i));
}

/// The blocks counted grow with the part of the list that is counted.
pub proof fn lemma_total_length_monotone(s: Seq<Extent>, i: int, j: int)
    requires
        0 <= i <= j <= s.len(),
    ensures
        total_length(s.take(i)) <= total_length(s.take(j)),
        i < j ==> total_length(s.take(i)) + s[i].ex_length <= total_length(s.take(j)),
    decreases j - i,
{
    if i < j {
        lemma_total_length_step(s, j - 1);
        lemma_total_length_monotone(s, i, j - 1);
    }
}

/// Where a part of the list from its start fails the walk, the whole list
/// fails it in the same way.
pub proof fn lemma_check_prefix_fails(s: Seq<Extent>, n: int)
    requires
        0 <= n <= s.len(),
        spec_check_extents(s.take(n)) is Err,
    ensures
        spec_check_extents(s) == spec_check_extents(s.take(n)),
    decreases s.len(),
{
    if n < s.len() {
        assert(s.drop_last().take(n) == s.take(n));
        lemma_check_prefix_fails(s.drop_last(), n);
    } else {
        assert(s.take(n) == s);
    }
}

/// The walk succeeds on exactly the lists that cover a file without a gap.
pub proof fn lemma_check_is_contiguous(s: Seq<Extent>)
    ensures
        spec_check_extents(s) is Ok <==> contiguous(s),
    decreases s.len(),
{
    if s.len() > 0 {
        let init = s.drop_last();
        let n = s.len() - 1;
        lemma_check_is_contiguous(init);
        assert(s.take(n) == init);
        if contiguous(s) {
            assert forall|i: int| 0 <= i < init.len() implies #[trigger] joins(init, i) by {
                assert(init.take(i) == s.take(i));
                assert(joins(s, i));
            }
            assert(joins(s, n));
        }
        if spec_check_extents(s) is Ok {
            assert forall|i: int| 0 <= i < s.len() implies #[trigger] joins(s, i) by {
                if i < n {
                    assert(init.take(i) == s.take(i));
                    assert(joins(init, i));
                }
            }
        }
    }
}

/// In a list that covers a file without a gap, an extent ends where or
/// before every later one begins: offsets never decrease, no two extents
/// overlap, and an extent that holds a block lies strictly before all that
/// follow it.
pub proof fn lemma_contiguous_ordered(s: Seq<Extent>, i: int, j: int)
    requires
        contiguous(s),
        0 <= i < j < s.len(),
    ensures
        s[i].ex_offset + s[i].ex_length <= s[j].ex_offset,
        s[i].ex_offset <= s[j].ex_offset,
        s[i].ex_length > 0 ==> s[i].ex_offset < s[j].ex_offset,
{
    lemma_total_length_monotone(s, i, j);
    assert(joins(s, i) && joins(s, j));
}

/// A list that covers a file without a gap is in ascending order.
pub proof fn lemma_contiguous_sorted(s: Seq<Extent>)
    requires
        contiguous(s),
    ensures
        sorted_by_offset(s),
{
    assert forall|i: int, j: int| 0 <= i < j < s.len() implies s[i].ex_offset
        <= s[j].ex_offset by {
        lemma_contiguous_ordered(s, i, j);
    }
}

/// The place of insertion lies in the list, behind an extent that is not
/// greater and before none but greater ones.
pub proof fn lemma_insert_position(s: Seq<Extent>, x: Extent)
    ensures
        0 <= insert_position(s, x) <= s.len(),
        insert_position(s, x) > 0 ==> s[insert_position(s, x) - 1].ex_offset <= x.ex_offset,
        forall|j: int| insert_position(s, x) <= j < s.len() ==> s[j].ex_offset > x.ex_offset,
    decreases s.len(),
{
    if s.len() > 0 && s.last().ex_offset > x.ex_offset {
        let init = s.drop_last();
        lemma_insert_position(init, x);
        assert forall|j: int| insert_position(s, x) <= j < s.len() implies s[j].ex_offset
            > x.ex_offset by {
            if j < init.len() {
                assert(init[j] == s[j]);
            }
        }
    }
}

/// A place that lies behind an extent that is not greater and before none
/// but greater ones is the place of insertion.
pub proof fn lemma_insert_position_unique(s: Seq<Extent>, x: Extent, p: int)
    requires
        0 <= p <= s.len(),
        p > 0 ==> s[p - 1].ex_offset <= x.ex_offset,
        forall|j: int| p <= j < s.len() ==> s[j].ex_offset > x.ex_offset,
    ensures
        insert_position(s, x) == p,
    decreases s.len(),
{
    if s.len() > 0 && p < s.len() {
        assert(s[s.len() - 1].ex_offset > x.ex_offset);
        lemma_insert_position_unique(s.drop_last(), x, p);
    }
}

/// Sorting keeps the length and yields an ascending list.
pub proof fn lemma_sort_sorted(s: Seq<Extent>)
    ensures
        sort_by_offset(s).len() == s.len(),
        sorted_by_offset(sort_by_offset(s)),
    decreases s.len(),
{
    if s.len() > 0 {
        let before = sort_by_offset(s.drop_last());
        lemma_sort_sorted(s.drop_last());
        lemma_insert_position(before, s.last());
        let p = insert_position(before, s.last());
        let after = before.insert(p, s.last());
        assert forall|i: int, j: int| 0 <= i < j < after.len() implies after[i].ex_offset
            <= after[j].ex_offset by {
            if i < p {
                assert(after[i] == before[i]);
                assert(before[i].ex_offset <= before[p - 1].ex_offset);
            }
            if j > p {
                assert(after[j] == before[j - 1]);
            }
        }
    }
}

/// Sorting neither adds nor drops an extent.
pub proof fn lemma_sort_permutes(s: Seq<Extent>)
    ensures
        sort_by_offset(s).to_multiset() == s.to_multiset(),
    decreases s.len(),
{
    if s.len() > 0 {
        let before = sort_by_offset(s.drop_last());
        lemma_sort_permutes(s.drop_last());
        lemma_insert_position(before, s.last());
        to_multiset_insert(before, insert_position(before, s.last()), s.last());
        to_multiset_build(s.drop_last(), s.last());
        assert(s.drop_last().push(s.last()) == s);
    }
}

/// Sorting leaves an ascending list as it is.
pub proof fn lemma_sort_of_sorted(s: Seq<Extent>)
    requires
        sorted_by_offset(s),
    ensures
        sort_by_offset(s) == s,
    decreases s.len(),
{
    if s.len() > 0 {
        let init = s.drop_last();
        lemma_sort_of_sorted(init);
        lemma_insert_position_unique(init, s.last(), init.len() as int);
        assert(init.insert(init.len() as int, s.last()) == s);
    }
}

/// A file has as many blocks as its extents are long together.
pub proof fn lemma_block_seq_len(s: Seq<Extent>)
    ensures
        block_seq(s).len() == total_length(s),
    decreases s.len(),
{
    if s.len() > 0 {
        lemma_block_seq_len(s.drop_last());
    }
}

/// Each block of a file is a block of one of its extents: that extent's
/// first block and an offset below its length.
pub proof fn lemma_block_seq_members(s: Seq<Extent>, j: int)
    requires
        0 <= j < block_seq(s).len(),
    ensures
        exists|i: int, k: int|
            0 <= i < s.len() && 0 <= k < s[i].ex_length && block_seq(s)[j] == #[trigger] block_of(
                s[i],
                k,
            ),
    decreases s.len(),
{
    lemma_block_seq_len(s.drop_last());
    let init = s.drop_last();
    if j < block_seq(init).len() {
        lemma_block_seq_members(init, j);
        let (i, k) = choose|i: int, k: int|
            0 <= i < init.len() && 0 <= k < init[i].ex_length && block_seq(init)[j]
                == #[trigger] block_of(init[i], k);
        assert(s[i] == init[i]);
        assert(block_seq(s)[j] == block_of(s[i], k));
    } else {
        let k = j - block_seq(init).len();
        let i = s.len() - 1;
        assert(block_seq(s)[j] == run(s.last())[k]);
        assert(block_seq(s)[j] == block_of(s[i], k));
    }
}

/// The blocks of a list are those of its first extent and then those of the
/// rest.
pub proof fn lemma_block_seq_front(s: Seq<Extent>)
    requires
        s.len() > 0,
    ensures
        block_seq(s) == run(s[0]) + block_seq(s.skip(1)),
    decreases s.len(),
{
    if s.len() == 1 {
        assert(s.skip(1) =~= Seq::<Extent>::empty());
        assert(s.drop_last() =~= Seq::<Extent>::empty());
        assert(block_seq(s) =~= run(s[0]) + block_seq(s.skip(1)));
    } else {
        lemma_block_seq_front(s.drop_last());
        assert(s.drop_last().skip(1) == s.skip(1).drop_last());
        assert(s.drop_last()[0] == s[0]);
        assert(s.skip(1).last() == s.last());
        assert(block_seq(s) =~= run(s[0]) + block_seq(s.skip(1)));
    }
}

/// Walks the list and holds each extent's logical offset against the
/// blocks counted so far.
pub fn check_extent_list(extents: &Vec<Extent>) -> (r: Result<(), SgidiskLibReadError>)
    ensures
        r == spec_check_extents(extents@),
        r is Ok <==> contiguous(extents@),
{
    let mut offset: u64 = 0;
    let mut i: usize = 0;
    assert(extents@.take(0) =~= Seq::<Extent>::empty());
    while i < extents.len()
        invariant
            i <= extents@.len(),
            offset == total_length(extents@.take(i as int)),
            offset <= 0x1_0000_0100,
            spec_check_extents(extents@.take(i as int)) == Ok::<(), SgidiskLibReadError>(()),
        decreases extents@.len() - i,
    {
        let ext: Extent = extents[i];
        proof {
            assert(extents@.take(i + 1).drop_last() == extents@.take(i as int));
        }
        if offset != ext.ex_offset as u64 {
            proof {
                lemma_check_prefix_fails(extents@, i + 1);
                lemma_check_is_contiguous(extents@);
            }
            return Err(
                SgidiskLibReadError::Value(
                    ValueError::NotContiguous { expected: offset, offset: ext.ex_offset },
                ),
            );
        }
        offset = offset + ext.ex_length as u64;
        i += 1;
    }
    proof {
        assert(extents@.take(i as int) == extents@);
        lemma_check_is_contiguous(extents@);
    }
    Ok(())
}

/// Sorts the list by logical offset, ascending; extents of equal offset
/// keep their order.
pub fn sort_extent_list(extents: &mut Vec<Extent>)
    ensures
        final(extents)@ == sort_by_offset(old(extents)@),
{
    let count: usize = extents.len();
    let mut sorted: Vec<Extent> = Vec::with_capacity(count);
    let mut i: usize = 0;
    assert(extents@.take(0) =~= Seq::<Extent>::empty());
    while i < count
        invariant
            i <= count,
            count == extents@.len(),
            extents@ == old(extents)@,
            sorted@ == sort_by_offset(extents@.take(i as int)),
            sorted@.len() == i,
        decreases count - i,
    {
        let x: Extent = extents[i];
        let mut p: usize = sorted.len();
        while p > 0 && sorted[p - 1].ex_offset > x.ex_offset
            invariant
                p <= sorted@.len(),
                forall|j: int| p <= j < sorted@.len() ==> sorted@[j].ex_offset > x.ex_offset,
            decreases p,
        {
            p -= 1;
        }
        proof {
            lemma_insert_position_unique(sorted@, x, p as int);
            assert(extents@.take(i + 1).drop_last() == extents@.take(i as int));
            lemma_sort_sorted(extents@.take(i + 1));
        }
        sorted.insert(p, x);
        i += 1;
    }
    assert(extents@.take(i as int) == extents@);
    *extents = sorted;
}

} // verus!
