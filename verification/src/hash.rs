//! Hashing of a disk image and of the ranges that its volume header names:
//! every range is hashed with SHA-256 and with BLAKE3 in one pass.

use vstd::prelude::*;
use sha2::{Digest, Sha256};
use vstd::string::*;
use vstd::seq_lib::{to_multiset_build, to_multiset_insert};
use crate::codec::lemma_join;
use crate::volhdr::{Partition, SgidiskVolume, SgidiskVolumeView, VolumeFile, VolumeFileView, VOLUME_BLOCK_SZ};
use crate::text::{
    bytes_to_hex, decimal, decimal_digits, hex_digits, signed_decimal_digits, signed_decimal_wide,
};

verus! {

/// blake3's `Hasher`, carried as it is.
#[verifier::external_type_specification]
#[verifier::external_body]
pub struct ExBlake3Hasher(blake3::Hasher);

/// sha2's `Sha256`, carried as it is. The type is an instance of a generic
/// type of the `digest` crate whose parameters are bound by traits of
/// `typenum`; it is held in a field that is hidden from Verus, which cannot
/// take such a declaration.
#[verifier::external_body]
pub struct Sha256State {
    inner: Sha256,
}

/// The bytes that a BLAKE3 hasher has been given so far, in their order.
pub uninterp spec fn blake3_absorbed(h: blake3::Hasher) -> Seq<u8>;

/// Whether a BLAKE3 hasher is as `blake3::Hasher::new` makes it: for the
/// plain hash function, without a key, and counting its input from the start.
pub uninterp spec fn blake3_plain(h: blake3::Hasher) -> bool;

/// The bytes that a SHA-256 hasher has been given so far, in their order.
pub uninterp spec fn sha256_absorbed(h: Sha256State) -> Seq<u8>;

/// The BLAKE3 hash of `data`, 32 bytes.
pub uninterp spec fn blake3_digest(data: Seq<u8>) -> Seq<u8>;

/// The SHA-256 hash of `data`, 32 bytes.
pub uninterp spec fn sha256_digest(data: Seq<u8>) -> Seq<u8>;

/// `blake3::Hasher::new`: a hasher for the plain hash function that has been
/// given nothing yet.
#[verifier::external_body]
fn blake3_new() -> (h: blake3::Hasher)
    ensures
        blake3_plain(h),
        blake3_absorbed(h) == Seq::<u8>::empty(),
{
    blake3::Hasher::new()
}

/// `blake3::Hasher::update`: the hasher is given `input` behind what it was
/// given before, and stays a plain one. A hasher that counts its input from
/// elsewhere takes no more input than is left of its subtree, and `update`
/// panics on more: the hasher is to be a plain one.
#[verifier::external_body]
fn blake3_update(h: &mut blake3::Hasher, input: &[u8])
    requires
        blake3_plain(*old(h)),
    ensures
        blake3_plain(*final(h)),
        blake3_absorbed(*final(h)) == blake3_absorbed(*old(h)) + input@,
{
    h.update(input);
}

/// `blake3::Hasher::finalize`: the 32 bytes of the BLAKE3 hash of all that
/// the hasher was given. Of a hasher with a key the hash is another, and of
/// one that counts its input from elsewhere `finalize` panics: the hasher is
/// to be a plain one.
#[verifier::external_body]
fn blake3_finalize(h: &blake3::Hasher) -> (digest: Vec<u8>)
    requires
        blake3_plain(*h),
    ensures
        digest@ == blake3_digest(blake3_absorbed(*h)),
        digest@.len() == 32,
{
    h.finalize().as_bytes().to_vec()
}

/// `sha2::Sha256::new`: a hasher that has been given nothing yet.
#[verifier::external_body]
fn sha256_new() -> (h: Sha256State)
    ensures
        sha256_absorbed(h) == Seq::<u8>::empty(),
{
    Sha256State { inner: Sha256::new() }
}

/// `sha2::Sha256::update`: the hasher is given `input` behind what it was
/// given before.
#[verifier::external_body]
fn sha256_update(h: &mut Sha256State, input: &[u8])
    ensures
        sha256_absorbed(*final(h)) == sha256_absorbed(*old(h)) + input@,
{
    h.inner.update(input);
}

/// `sha2::Sha256::finalize`: the 32 bytes of the SHA-256 hash of all that
/// the hasher was given.
#[verifier::external_body]
fn sha256_finalize(h: Sha256State) -> (digest: Vec<u8>)
    ensures
        digest@ == sha256_digest(sha256_absorbed(h)),
        digest@.len() == 32,
{
    h.inner.finalize().to_vec()
}

/// Hashes one stream of bytes with BLAKE3 and with SHA-256.
pub struct MultiHash {
    blake3: blake3::Hasher,
    sha256: Sha256State,
}

/// The two hashes of one stream of bytes, each as upper-case hexadecimal
/// digits.
#[derive(Debug, Clone, PartialEq, Eq)]
pub struct MultiHashResult {
    pub blake3: String,
    pub sha256: String,
}

/// The mathematical value of a [`MultiHashResult`].
pub ghost struct MultiHashResultView {
    pub blake3: Seq<char>,
    pub sha256: Seq<char>,
}

impl View for MultiHashResult {
    type V = MultiHashResultView;

    open spec fn view(&self) -> MultiHashResultView {
        MultiHashResultView { blake3: self.blake3@, sha256: self.sha256@ }
    }
}

/// The two hashes of `data`, as they are handed out.
pub open spec fn spec_multi_hash(data: Seq<u8>) -> MultiHashResultView {
    MultiHashResultView {
        blake3: hex_digits(blake3_digest(data)),
        sha256: hex_digits(sha256_digest(data)),
    }
}

impl MultiHash {
    /// Whether both hashers have been given the same bytes, and the BLAKE3
    /// hasher is one for the plain hash function.
    pub closed spec fn wf(self) -> bool {
        blake3_plain(self.blake3) && blake3_absorbed(self.blake3) == sha256_absorbed(self.sha256)
    }

    /// The bytes that have been hashed so far.
    pub closed spec fn fed(self) -> Seq<u8> {
        blake3_absorbed(self.blake3)
    }

    /// A hasher that has been given nothing yet.
    pub fn new() -> (h: MultiHash)
        ensures
            h.wf(),
            h.fed() == Seq::<u8>::empty(),
    {
        let blake3 = blake3_new();
        let sha256 = sha256_new();
        MultiHash { blake3, sha256 }
    }

    /// Hashes `b` behind what was hashed before.
    pub fn update(&mut self, b: &[u8])
        requires
            old(self).wf(),
        ensures
            final(self).wf(),
            final(self).fed() == old(self).fed() + b@,
    {
        blake3_update(&mut self.blake3, b);
        sha256_update(&mut self.sha256, b);
    }

    /// The two hashes of all that was hashed.
    pub fn finalize(self) -> (r: MultiHashResult)
        requires
            self.wf(),
        ensures
            r@ == spec_multi_hash(self.fed()),
            r@.blake3.len() == 64,
            r@.sha256.len() == 64,
    {
        let blake3_bytes = blake3_finalize(&self.blake3);
        let sha256_bytes = sha256_finalize(self.sha256);
        MultiHashResult {
            blake3: bytes_to_hex(blake3_bytes.as_slice()),
            sha256: bytes_to_hex(sha256_bytes.as_slice()),
        }
    }
}


/// How many bytes of an image are read and hashed at a time.
pub const HASH_BUF_SZ: usize = 16384;

/// What a hashed range of an image is.
#[derive(Debug, Copy, Clone, PartialEq, Eq, Structural)]
pub enum HashItemType {
    Partition,
    VolumeFile,
}

/// A range of an image that is hashed while the image is read.
pub struct HashItem {
    /// Name of the range for a table
    pub name_display: String,
    /// Name of the range for a JSON document
    pub name_json: String,
    /// What the range is
    pub item_type: HashItemType,
    /// First byte of the range
    pub start: i64,
    /// Byte behind the last byte of the range
    pub end: i64,
    /// Number of bytes hashed so far
    pub hashed: u64,
    /// The hashers, until the range is done
    pub hash: Option<MultiHash>,
    /// The hashes, once the range is done
    pub hash_result: Option<MultiHashResult>,
}

/// `x` moved into the part of an image that has `hi` bytes.
pub open spec fn clip(x: int, hi: int) -> int {
    if x < 0 {
        0
    } else if x > hi {
        hi
    } else {
        x
    }
}

/// What the range from `item_start` to `item_end` and the window from
/// `start` to `end` have in common, counted from the start of the window;
/// nothing where they have no byte in common.
pub open spec fn spec_window_overlap(item_start: int, item_end: int, start: int, end: int) -> Option<
    (int, int),
> {
    if item_end <= start || item_start >= end {
        None
    } else {
        Some(
            (
                if item_start > start {
                    item_start - start
                } else {
                    0
                },
                if item_end < end {
                    item_end - start
                } else {
                    end - start
                },
            ),
        )
    }
}

/// Whether `after` is `before` with the part of the window `chunk` hashed in
/// that belongs to the range, where the window begins at byte `pos` of the
/// image; or, where the range is passed over, with nothing hashed in.
pub open spec fn absorbed(before: HashItem, after: HashItem, passed_over: bool, pos: int, chunk: Seq<u8>) -> bool {
    match spec_window_overlap(before.start as int, before.end as int, pos, pos + chunk.len()) {
        Some((from, to)) => if passed_over {
            after.fed() == before.fed() && after.hashed == before.hashed
        } else {
            after.fed() == before.fed() + chunk.subrange(from, to) && after.hashed == before.hashed
                + (to - from)
        },
        None => after.fed() == before.fed() && after.hashed == before.hashed,
    }
}

impl HashItem {
    /// Whether the range is still being hashed, and is a range.
    pub open spec fn live(self) -> bool {
        &&& self.hash is Some
        &&& self.hash->Some_0.wf()
        &&& 0 <= self.start <= self.end
    }

    /// The bytes of the range that have been hashed so far.
    pub open spec fn fed(self) -> Seq<u8> {
        self.hash->Some_0.fed()
    }

    /// Whether `other` is the same range under the same names.
    pub open spec fn same_range(self, other: HashItem) -> bool {
        &&& self.name_display@ == other.name_display@
        &&& self.name_json@ == other.name_json@
        &&& self.item_type == other.item_type
        &&& self.start == other.start
        &&& self.end == other.end
    }

    /// Whether the range has been hashed as far as the first `pos` bytes of
    /// `image` hold it.
    pub open spec fn covers(self, image: Seq<u8>, pos: int) -> bool {
        &&& self.live()
        &&& self.fed() == image.subrange(clip(self.start as int, pos), clip(self.end as int, pos))
        &&& self.hashed == clip(self.end as int, pos) - clip(self.start as int, pos)
    }

    /// Whether the range is done, with the hashes of what `image` holds of
    /// it.
    pub open spec fn done(self, image: Seq<u8>) -> bool {
        let from = clip(self.start as int, image.len() as int);
        let to = clip(self.end as int, image.len() as int);
        &&& self.hash is None
        &&& self.hash_result is Some
        &&& self.hash_result->Some_0@ == spec_multi_hash(image.subrange(from, to))
        &&& self.hashed == to - from
    }

    /// A range that has not been hashed yet.
    pub fn new(name_display: String, name_json: String, item_type: HashItemType, start: i64, end: i64) -> (item: HashItem)
        requires
            0 <= start <= end,
        ensures
            item.live(),
            item.fed() == Seq::<u8>::empty(),
            item.hashed == 0,
            item.hash_result is None,
            item.name_display@ == name_display@,
            item.name_json@ == name_json@,
            item.item_type == item_type,
            item.start == start,
            item.end == end,
    {
        HashItem {
            name_display,
            name_json,
            item_type,
            start,
            end,
            hashed: 0,
            hash: Some(MultiHash::new()),
            hash_result: None,
        }
    }

    /// Where in a window of an image the range lies: the part of the window
    /// from `start` to `end` that belongs to the range, counted from the
    /// start of the window.
    pub fn window_overlap(&self, start: i64, end: i64) -> (r: Option<(usize, usize)>)
        requires
            self.start <= self.end,
            start <= end,
            end - start <= usize::MAX,
        ensures
            match spec_window_overlap(self.start as int, self.end as int, start as int, end as int) {
                None => r is None,
                Some((from, to)) => r == Some((from as usize, to as usize)) && from <= to <= end
                    - start,
            },
    {
        if self.end <= start || self.start >= end {
            return None;
        }
        let ovr_start: usize = if self.start > start {
            (self.start as i128 - start as i128) as usize
        } else {
            0
        };
        let ovr_end: usize = if self.end < end {
            (self.end as i128 - start as i128) as usize
        } else {
            (end as i128 - start as i128) as usize
        };
        Some((ovr_start, ovr_end))
    }

    /// Hashes what the window `chunk`, which begins at byte `pos` of an
    /// image, holds of the range.
    pub fn absorb(&mut self, pos: i64, chunk: &[u8])
        requires
            old(self).live(),
            0 <= pos,
            pos + chunk@.len() <= i64::MAX,
            old(self).hashed + chunk@.len() <= u64::MAX,
        ensures
            final(self).live(),
            final(self).same_range(*old(self)),
            final(self).hash_result == old(self).hash_result,
            absorbed(*old(self), *final(self), false, pos as int, chunk@),
    {
        let size: usize = chunk.len();
        let end: i64 = pos + size as i64;
        if let Some((from, to)) = self.window_overlap(pos, end) {
            self.hashed = self.hashed + (to - from) as u64;
            match &mut self.hash {
                Some(h) => {
                    h.update(&chunk[from..to]);
                },
                None => {},
            }
        }
    }

    /// Ends the hashing of the range and keeps its hashes.
    pub fn finalize(&mut self)
        requires
            old(self).live(),
        ensures
            final(self).hash is None,
            final(self).hash_result is Some,
            final(self).hash_result->Some_0@ == spec_multi_hash(old(self).fed()),
            final(self).hashed == old(self).hashed,
            final(self).same_range(*old(self)),
    {
        let hash = self.hash.take().unwrap();
        self.hash_result = Some(hash.finalize());
    }

    /// By how many bytes the hashed part falls short of the range, where the
    /// two differ: less than nothing where more was hashed than the range
    /// holds.
    pub open spec fn spec_short_by(self) -> Option<i128> {
        if self.end - self.start - self.hashed != 0 {
            Some((self.end - self.start - self.hashed) as i128)
        } else {
            None
        }
    }

    /// By how many bytes the hashed part falls short of the range, where it
    /// does.
    pub fn short_by(&self) -> (r: Option<i128>)
        ensures
            r == self.spec_short_by(),
    {
        let short: i128 = self.end as i128 - self.start as i128 - self.hashed as i128;
        if short != 0 {
            Some(short)
        } else {
            None
        }
    }

    /// The text that says by how many bytes the hashed part falls short.
    pub open spec fn spec_short_by_str(self) -> Seq<char> {
        if self.end - self.start - self.hashed != 0 {
            signed_decimal_digits(self.end - self.start - self.hashed) + " bytes!"@
        } else {
            "No"@
        }
    }

    /// Says by how many bytes the hashed part falls short of the range.
    pub fn short_by_str(&self) -> (r: String)
        ensures
            r@ == self.spec_short_by_str(),
    {
        match self.short_by() {
            None => String::from_str("No"),
            Some(n) => {
                let mut text = signed_decimal_wide(n);
                text.append(" bytes!");
                text
            },
        }
    }
}

/// A range that has been hashed as far as the first `pos` bytes of an image
/// hold it, and then takes in the next `n` bytes of the image, has been
/// hashed as far as the first `pos + n` bytes hold it.
pub proof fn lemma_covers_step(before: HashItem, after: HashItem, image: Seq<u8>, pos: int, n: int)
    requires
        0 <= pos,
        0 <= n,
        pos + n <= image.len(),
        before.covers(image, pos),
        after.live(),
        after.start == before.start,
        after.end == before.end,
        absorbed(before, after, before.end < pos, pos, image.subrange(pos, pos + n)),
    ensures
        after.covers(image, pos + n),
{
    let s = before.start as int;
    let e = before.end as int;
    match spec_window_overlap(s, e, pos, pos + n) {
        None => {
            if s >= pos + n {
                assert(image.subrange(pos, pos) =~= image.subrange(pos + n, pos + n));
            }
        },
        Some((from, to)) => {
            assert(image.subrange(pos, pos + n).subrange(from, to) =~= image.subrange(
                pos + from,
                pos + to,
            ));
            if s <= pos {
                lemma_join(image, s, pos, pos + to);
            } else {
                assert(image.subrange(pos, pos) + image.subrange(pos + from, pos + to)
                    =~= image.subrange(pos + from, pos + to));
            }
        },
    }
}

/// Hashes the window `chunk`, which begins at byte `pos` of an image, into
/// every range that is not finished, and marks as finished the ranges that
/// end before the window.
pub fn absorb_chunk(items: &mut Vec<HashItem>, finished: &mut Vec<bool>, pos: i64, chunk: &[u8])
    requires
        old(finished)@.len() == old(items)@.len(),
        0 <= pos,
        pos + chunk@.len() <= i64::MAX,
        forall|i: int| 0 <= i < old(items)@.len() ==> (#[trigger] old(items)@[i]).live(),
        forall|i: int|
            0 <= i < old(items)@.len() ==> (#[trigger] old(items)@[i]).hashed + chunk@.len()
                <= u64::MAX,
    ensures
        final(items)@.len() == old(items)@.len(),
        final(finished)@.len() == old(finished)@.len(),
        forall|i: int|
            0 <= i < old(items)@.len() ==> (#[trigger] final(finished)@[i]) == (old(finished)@[i]
                || old(items)@[i].end < pos),
        forall|i: int| 0 <= i < old(items)@.len() ==> (#[trigger] final(items)@[i]).live(),
        forall|i: int|
            0 <= i < old(items)@.len() ==> (#[trigger] final(items)@[i]).same_range(old(items)@[i])
                && final(items)@[i].hash_result == old(items)@[i].hash_result,
        forall|i: int|
            0 <= i < old(items)@.len() ==> absorbed(
                old(items)@[i],
                #[trigger] final(items)@[i],
                final(finished)@[i],
                pos as int,
                chunk@,
            ),
{
    let len: usize = items.len();
    let mut i: usize = 0;
    while i < len
        invariant
            i <= len,
            len == items@.len(),
            len == old(items)@.len(),
            finished@.len() == len,
            old(finished)@.len() == len,
            0 <= pos,
            pos + chunk@.len() <= i64::MAX,
            forall|j: int| 0 <= j < len ==> (#[trigger] items@[j]).live(),
            forall|j: int| i <= j < len ==> items@[j] == old(items)@[j],
            forall|j: int| i <= j < len ==> finished@[j] == old(finished)@[j],
            forall|j: int|
                0 <= j < len ==> (#[trigger] old(items)@[j]).hashed + chunk@.len() <= u64::MAX,
            forall|j: int|
                0 <= j < i ==> (#[trigger] finished@[j]) == (old(finished)@[j] || old(items)@[j].end
                    < pos),
            forall|j: int|
                0 <= j < i ==> (#[trigger] items@[j]).same_range(old(items)@[j])
                    && items@[j].hash_result == old(items)@[j].hash_result,
            forall|j: int|
                0 <= j < i ==> absorbed(
                    old(items)@[j],
                    #[trigger] items@[j],
                    finished@[j],
                    pos as int,
                    chunk@,
                ),
        decreases len - i,
    {
        if !finished[i] {
            if items[i].end < pos {
                finished[i] = true;
            } else {
                let ghost before = items@;
                items[i].absorb(pos, chunk);
                assert(forall|j: int| 0 <= j < len && j != i ==> items@[j] == before[j]);
            }
        }
        i += 1;
    }
}

/// Hashes an image and, within the same pass, every range of `items`.
/// Afterwards each range is done: it holds the hashes of the bytes that the
/// image holds of it, and their number.
pub fn fill_hashes(image: &[u8], items: &mut Vec<HashItem>) -> (r: MultiHashResult)
    requires
        image@.len() <= i64::MAX,
        forall|i: int| 0 <= i < old(items)@.len() ==> (#[trigger] old(items)@[i]).fresh(),
    ensures
        r@ == spec_multi_hash(image@),
        final(items)@.len() == old(items)@.len(),
        forall|i: int| 0 <= i < old(items)@.len() ==> (#[trigger] final(items)@[i]).done(image@),
        forall|i: int|
            0 <= i < old(items)@.len() ==> (#[trigger] final(items)@[i]).same_range(old(items)@[i]),
{
    let len: usize = items.len();
    let total: usize = image.len();
    let mut finished: Vec<bool> = Vec::with_capacity(len);
    let mut k: usize = 0;
    while k < len
        invariant
            k <= len,
            finished@.len() == k,
            forall|i: int| 0 <= i < k ==> !(#[trigger] finished@[i]),
        decreases len - k,
    {
        finished.push(false);
        k += 1;
    }
    let mut image_hash = MultiHash::new();
    let mut pos: usize = 0;
    assert(image@.subrange(0, 0) =~= Seq::<u8>::empty());
    proof {
        assert forall|i: int| 0 <= i < len implies (#[trigger] items@[i]).covers(image@, 0) by {
            lemma_fresh_covers(items@[i], image@);
        }
    }
    while pos < total
        invariant
            pos <= total,
            total == image@.len(),
            total <= i64::MAX,
            len == items@.len(),
            len == old(items)@.len(),
            finished@.len() == len,
            image_hash.wf(),
            image_hash.fed() == image@.subrange(0, pos as int),
            forall|i: int| 0 <= i < len ==> (#[trigger] finished@[i]) ==> items@[i].end < pos,
            forall|i: int| 0 <= i < len ==> (#[trigger] items@[i]).covers(image@, pos as int),
            forall|i: int| 0 <= i < len ==> (#[trigger] items@[i]).same_range(old(items)@[i]),
        decreases total - pos,
    {
        let n: usize = if total - pos < HASH_BUF_SZ {
            total - pos
        } else {
            HASH_BUF_SZ
        };
        let chunk = &image[pos..pos + n];
        image_hash.update(chunk);
        proof {
            lemma_join(image@, 0, pos as int, pos + n);
        }
        let ghost before = items@;
        let ghost marked = finished@;
        absorb_chunk(items, &mut finished, pos as i64, chunk);
        proof {
            assert forall|i: int| 0 <= i < len implies (#[trigger] items@[i]).covers(
                image@,
                pos + n,
            ) by {
                assert(before[i].covers(image@, pos as int));
                assert(items@[i].same_range(before[i]));
                assert(marked[i] ==> before[i].end < pos);
                assert(finished@[i] == (marked[i] || before[i].end < pos));
                lemma_covers_step(before[i], items@[i], image@, pos as int, n as int);
            }
            assert forall|i: int| 0 <= i < len && #[trigger] finished@[i] implies items@[i].end < pos
                + n by {
                assert(items@[i].same_range(before[i]));
                assert(marked[i] ==> before[i].end < pos);
            }
            assert forall|i: int| 0 <= i < len implies (#[trigger] items@[i]).same_range(
                old(items)@[i],
            ) by {
                assert(items@[i].same_range(before[i]));
                assert(before[i].same_range(old(items)@[i]));
            }
        }
        pos = pos + n;
    }
    assert(image@.subrange(0, pos as int) == image@);
    let mut j: usize = 0;
    while j < len
        invariant
            j <= len,
            len == items@.len(),
            len == old(items)@.len(),
            total == image@.len(),
            forall|i: int| j <= i < len ==> (#[trigger] items@[i]).covers(image@, total as int),
            forall|i: int| 0 <= i < j ==> (#[trigger] items@[i]).done(image@),
            forall|i: int| 0 <= i < len ==> (#[trigger] items@[i]).same_range(old(items)@[i]),
        decreases len - j,
    {
        let ghost before = items@;
        items[j].finalize();
        proof {
            assert(forall|i: int| 0 <= i < len && i != j ==> items@[i] == before[i]);
            assert(before[j as int].covers(image@, total as int));
            assert(before[j as int].same_range(old(items)@[j as int]));
        }
        j += 1;
    }
    image_hash.finalize()
}


/// What is to be hashed as one range: its names, what it is, and where it
/// lies.
pub ghost struct HashSpan {
    pub name_display: Seq<char>,
    pub name_json: Seq<char>,
    pub item_type: HashItemType,
    pub start: i64,
    pub end: i64,
}

impl HashItem {
    /// Whether nothing has been hashed into the range yet.
    pub open spec fn fresh(self) -> bool {
        &&& self.live()
        &&& self.fed() == Seq::<u8>::empty()
        &&& self.hashed == 0
        &&& self.hash_result is None
    }

    /// What the range is, apart from what has been hashed of it.
    pub open spec fn span(self) -> HashSpan {
        HashSpan {
            name_display: self.name_display@,
            name_json: self.name_json@,
            item_type: self.item_type,
            start: self.start,
            end: self.end,
        }
    }
}

/// What each range of a list is.
pub open spec fn spans(items: Seq<HashItem>) -> Seq<HashSpan> {
    Seq::new(items.len(), |i: int| items[i].span())
}

/// A range into which nothing has been hashed has been hashed as far as no
/// bytes of an image hold it.
pub proof fn lemma_fresh_covers(item: HashItem, image: Seq<u8>)
    requires
        item.fresh(),
    ensures
        item.covers(image, 0),
{
    assert(image.subrange(0, 0) =~= Seq::<u8>::empty());
}

/// Where a range that ends at `end` goes in a list that is ordered by end,
/// the later end first: behind the last range that ends no earlier.
pub open spec fn span_position(s: Seq<HashSpan>, end: i64) -> int
    decreases s.len(),
{
    if s.len() == 0 {
        0
    } else if s.last().end >= end {
        s.len() as int
    } else {
        span_position(s.drop_last(), end)
    }
}

/// `s` with `x` where it goes.
pub open spec fn span_insert(s: Seq<HashSpan>, x: HashSpan) -> Seq<HashSpan> {
    s.insert(span_position(s, x.end), x)
}

/// Whether the ranges of `s` are in the order of their ends, the later end
/// first.
pub open spec fn ends_descend(s: Seq<HashSpan>) -> bool {
    forall|i: int, j: int| 0 <= i < j < s.len() ==> s[i].end >= s[j].end
}

/// `text` moved to the right in a field of two characters.
pub open spec fn pad_two(text: Seq<char>) -> Seq<char> {
    if text.len() < 2 {
        seq![' '] + text
    } else {
        text
    }
}

/// The range of a file of the volume directory.
pub open spec fn file_span(f: VolumeFileView) -> HashSpan {
    HashSpan {
        name_display: f.file_name->Some_0,
        name_json: f.file_name->Some_0,
        item_type: HashItemType::VolumeFile,
        start: (f.block_start * VOLUME_BLOCK_SZ) as i64,
        end: (f.block_start * VOLUME_BLOCK_SZ + f.file_sz) as i64,
    }
}

/// The range of the partition `p`, index `id` of the partition table.
pub open spec fn partition_span(id: usize, p: Partition) -> HashSpan {
    HashSpan {
        name_display: pad_two(decimal_digits(id as nat)) + seq![' ', '('] + p.partition_type.spec_name()
            + seq![')'],
        name_json: decimal_digits(id as nat),
        item_type: HashItemType::Partition,
        start: (p.block_start * VOLUME_BLOCK_SZ) as i64,
        end: ((p.block_start + p.block_sz) * VOLUME_BLOCK_SZ) as i64,
    }
}

/// The ranges of the first `n` files of `files` that are in use, in the
/// order of their ends, the later end first; of equal ends the earlier file
/// first.
pub open spec fn spec_file_spans(files: Seq<VolumeFileView>, n: nat) -> Seq<HashSpan>
    decreases n,
{
    if n == 0 {
        Seq::empty()
    } else if files[n - 1].spec_in_use() {
        span_insert(spec_file_spans(files, (n - 1) as nat), file_span(files[n - 1]))
    } else {
        spec_file_spans(files, (n - 1) as nat)
    }
}

/// The ranges of all files of `vol` and of its first `n` partitions that
/// are in use, in the order of their ends, the later end first; of equal
/// ends files before partitions, and each kind in its own order.
pub open spec fn spec_volume_spans(vol: SgidiskVolumeView, n: nat) -> Seq<HashSpan>
    decreases n,
{
    if n == 0 {
        spec_file_spans(vol.files, vol.files.len())
    } else if vol.partitions[n - 1].spec_in_use() {
        span_insert(
            spec_volume_spans(vol, (n - 1) as nat),
            partition_span((n - 1) as usize, vol.partitions[n - 1]),
        )
    } else {
        spec_volume_spans(vol, (n - 1) as nat)
    }
}

/// The ranges of a volume that are hashed: its files and its partitions
/// that are in use.
pub open spec fn spec_hashed_items(vol: SgidiskVolumeView) -> Seq<HashSpan> {
    spec_volume_spans(vol, vol.partitions.len())
}

/// The place where a range goes lies in the list, behind a range that ends
/// no earlier and before none but ranges that end earlier.
pub proof fn lemma_span_position(s: Seq<HashSpan>, end: i64)
    ensures
        0 <= span_position(s, end) <= s.len(),
        span_position(s, end) > 0 ==> s[span_position(s, end) - 1].end >= end,
        forall|j: int| span_position(s, end) <= j < s.len() ==> s[j].end < end,
    decreases s.len(),
{
    if s.len() > 0 && s.last().end < end {
        let init = s.drop_last();
        lemma_span_position(init, end);
        assert forall|j: int| span_position(s, end) <= j < s.len() implies s[j].end < end by {
            if j < init.len() {
                assert(init[j] == s[j]);
            }
        }
    }
}

/// A place that lies behind a range that ends no earlier and before none
/// but ranges that end earlier is the place where the range goes.
pub proof fn lemma_span_position_unique(s: Seq<HashSpan>, end: i64, p: int)
    requires
        0 <= p <= s.len(),
        p > 0 ==> s[p - 1].end >= end,
        forall|j: int| p <= j < s.len() ==> s[j].end < end,
    ensures
        span_position(s, end) == p,
    decreases s.len(),
{
    if s.len() > 0 && p < s.len() {
        assert(s[s.len() - 1].end < end);
        lemma_span_position_unique(s.drop_last(), end, p);
    }
}

/// A list in the order of its ends stays in that order when a range is put
/// where it goes.
pub proof fn lemma_span_insert_descends(s: Seq<HashSpan>, x: HashSpan)
    requires
        ends_descend(s),
    ensures
        ends_descend(span_insert(s, x)),
{
    lemma_span_position(s, x.end);
    let p = span_position(s, x.end);
    let after = span_insert(s, x);
    assert forall|i: int, j: int| 0 <= i < j < after.len() implies after[i].end
        >= after[j].end by {
        if i < p {
            assert(after[i] == s[i]);
            assert(s[i].end >= s[p - 1].end);
        }
        if j > p {
            assert(after[j] == s[j - 1]);
        }
    }
}

/// The ranges of a volume that are hashed are in the order of their ends,
/// the later end first.
pub proof fn lemma_hashed_items_descend(vol: SgidiskVolumeView)
    ensures
        ends_descend(spec_hashed_items(vol)),
{
    lemma_volume_spans_descend(vol, vol.partitions.len());
}

/// The ranges of the first `n` files are in the order of their ends.
pub proof fn lemma_file_spans_descend(files: Seq<VolumeFileView>, n: nat)
    ensures
        ends_descend(spec_file_spans(files, n)),
    decreases n,
{
    if n > 0 {
        lemma_file_spans_descend(files, (n - 1) as nat);
        if files[n - 1].spec_in_use() {
            lemma_span_insert_descends(
                spec_file_spans(files, (n - 1) as nat),
                file_span(files[n - 1]),
            );
        }
    }
}

/// The ranges of all files and of the first `n` partitions are in the
/// order of their ends.
pub proof fn lemma_volume_spans_descend(vol: SgidiskVolumeView, n: nat)
    ensures
        ends_descend(spec_volume_spans(vol, n)),
    decreases n,
{
    if n == 0 {
        lemma_file_spans_descend(vol.files, vol.files.len());
    } else {
        lemma_volume_spans_descend(vol, (n - 1) as nat);
        if vol.partitions[n - 1].spec_in_use() {
            lemma_span_insert_descends(
                spec_volume_spans(vol, (n - 1) as nat),
                partition_span((n - 1) as usize, vol.partitions[n - 1]),
            );
        }
    }
}

/// The ranges of the first `n` files of `files` that are in use, in the
/// order of the files.
pub open spec fn spec_file_span_list(files: Seq<VolumeFileView>, n: nat) -> Seq<HashSpan>
    decreases n,
{
    if n == 0 {
        Seq::empty()
    } else if files[n - 1].spec_in_use() {
        spec_file_span_list(files, (n - 1) as nat).push(file_span(files[n - 1]))
    } else {
        spec_file_span_list(files, (n - 1) as nat)
    }
}

/// The ranges of the first `n` partitions of `partitions` that are in use,
/// in the order of the partitions.
pub open spec fn spec_partition_span_list(partitions: Seq<Partition>, n: nat) -> Seq<HashSpan>
    decreases n,
{
    if n == 0 {
        Seq::empty()
    } else if partitions[n - 1].spec_in_use() {
        spec_partition_span_list(partitions, (n - 1) as nat).push(
            partition_span((n - 1) as usize, partitions[n - 1]),
        )
    } else {
        spec_partition_span_list(partitions, (n - 1) as nat)
    }
}

/// Putting a range where it goes adds that range to the list, once, and
/// nothing else.
pub proof fn lemma_span_insert_permutes(s: Seq<HashSpan>, x: HashSpan)
    ensures
        span_insert(s, x).to_multiset() == s.to_multiset().insert(x),
{
    lemma_span_position(s, x.end);
    to_multiset_insert(s, span_position(s, x.end), x);
}

/// The ordered ranges of the first `n` files are the ranges of those files,
/// each as often as it occurs among them.
pub proof fn lemma_file_spans_permute(files: Seq<VolumeFileView>, n: nat)
    ensures
        spec_file_spans(files, n).to_multiset() == spec_file_span_list(files, n).to_multiset(),
    decreases n,
{
    if n > 0 {
        lemma_file_spans_permute(files, (n - 1) as nat);
        if files[n - 1].spec_in_use() {
            lemma_span_insert_permutes(
                spec_file_spans(files, (n - 1) as nat),
                file_span(files[n - 1]),
            );
            to_multiset_build(spec_file_span_list(files, (n - 1) as nat), file_span(files[n - 1]));
        }
    }
}

/// The ordered ranges of all files and of the first `n` partitions are the
/// ranges of those files and partitions, each as often as it occurs among
/// them.
pub proof fn lemma_volume_spans_permute(vol: SgidiskVolumeView, n: nat)
    ensures
        spec_volume_spans(vol, n).to_multiset() == (spec_file_span_list(
            vol.files,
            vol.files.len(),
        ) + spec_partition_span_list(vol.partitions, n)).to_multiset(),
    decreases n,
{
    let files = spec_file_span_list(vol.files, vol.files.len());
    if n == 0 {
        lemma_file_spans_permute(vol.files, vol.files.len());
        assert(files + Seq::<HashSpan>::empty() =~= files);
    } else {
        lemma_volume_spans_permute(vol, (n - 1) as nat);
        if vol.partitions[n - 1].spec_in_use() {
            let before = spec_partition_span_list(vol.partitions, (n - 1) as nat);
            let x = partition_span((n - 1) as usize, vol.partitions[n - 1]);
            lemma_span_insert_permutes(spec_volume_spans(vol, (n - 1) as nat), x);
            to_multiset_build(files + before, x);
            assert((files + before).push(x) =~= files + before.push(x));
        }
    }
}

/// What is hashed of a volume is each file and each partition that is in
/// use, once, and nothing else.
pub proof fn lemma_hashed_items_permute(vol: SgidiskVolumeView)
    ensures
        spec_hashed_items(vol).to_multiset() == (spec_file_span_list(
            vol.files,
            vol.files.len(),
        ) + spec_partition_span_list(vol.partitions, vol.partitions.len())).to_multiset(),
{
    lemma_volume_spans_permute(vol, vol.partitions.len());
}

/// Puts `item` into the list where it goes by its end.
fn insert_by_end(items: &mut Vec<HashItem>, item: HashItem)
    requires
        item.fresh(),
        forall|i: int| 0 <= i < old(items)@.len() ==> (#[trigger] old(items)@[i]).fresh(),
    ensures
        spans(final(items)@) == span_insert(spans(old(items)@), item.span()),
        forall|i: int| 0 <= i < final(items)@.len() ==> (#[trigger] final(items)@[i]).fresh(),
{
    let ghost before = spans(items@);
    let mut p: usize = items.len();
    while p > 0 && items[p - 1].end < item.end
        invariant
            p <= items@.len(),
            items@ == old(items)@,
            before == spans(items@),
            forall|j: int| p <= j < before.len() ==> before[j].end < item.end,
        decreases p,
    {
        p -= 1;
    }
    proof {
        if p > 0 {
            assert(before[p - 1].end == items@[p - 1].end);
        }
        lemma_span_position_unique(before, item.end, p as int);
    }
    let ghost old_items = items@;
    items.insert(p, item);
    assert(spans(items@) =~= before.insert(p as int, item.span()));
    assert forall|i: int| 0 <= i < items@.len() implies (#[trigger] items@[i]).fresh() by {
        if i < p {
            assert(items@[i] == old_items[i]);
        } else if i > p {
            assert(items@[i] == old_items[i - 1]);
        }
    }
}

/// The name under which partition `id` is shown: its index, moved to the
/// right in a field of two characters, and the name of its type in
/// parentheses.
fn partition_display_name(id: usize, p: &Partition) -> (r: String)
    ensures
        r@ == partition_span(id, *p).name_display,
{
    proof {
        reveal_strlit(" ");
        reveal_strlit(" (");
        reveal_strlit(")");
    }
    let digits = decimal(id as u64);
    let mut name = if id < 10 {
        let mut padded = String::from_str(" ");
        padded.append(digits.as_str());
        padded
    } else {
        digits
    };
    proof {
        lemma_decimal_len(id as nat);
        assert(" "@ =~= seq![' ']);
        assert(name@ =~= pad_two(decimal_digits(id as nat)));
    }
    name.append(" (");
    name.append(p.partition_type.name());
    name.append(")");
    assert(" ("@ =~= seq![' ', '(']);
    assert(")"@ =~= seq![')']);
    name
}

/// A number below ten is written with one digit, any other with more.
pub proof fn lemma_decimal_len(n: nat)
    ensures
        n < 10 <==> decimal_digits(n).len() < 2,
        decimal_digits(n).len() >= 1,
    decreases n,
{
    if n >= 10 {
        lemma_decimal_len(n / 10);
    }
}

/// Lists what is hashed of a volume beside the image itself: each file and
/// each partition that is in use, with nothing hashed yet, in the order of
/// their ends, the later end first.
pub fn hashed_items(vh: &SgidiskVolume) -> (items: Vec<HashItem>)
    requires
        vh@.spans_fit(),
    ensures
        spans(items@) == spec_hashed_items(vh@),
        forall|i: int| 0 <= i < items@.len() ==> (#[trigger] items@[i]).fresh(),
{
    let mut items: Vec<HashItem> = Vec::new();
    let mut i: usize = 0;
    assert(spans(items@) =~= Seq::<HashSpan>::empty());
    while i < vh.files.len()
        invariant
            i <= vh.files@.len(),
            vh@.spans_fit(),
            spans(items@) == spec_file_spans(vh@.files, i as nat),
            forall|j: int| 0 <= j < items@.len() ==> (#[trigger] items@[j]).fresh(),
        decreases vh.files@.len() - i,
    {
        let f = &vh.files[i];
        assert(vh@.files[i as int].spec_fits());
        assert(vh@.files[i as int] == f@);
        if let Some(name) = &f.file_name {
            let start: i64 = (f.block_start * 512) as i64;
            let end: i64 = (f.block_start * 512 + f.file_sz) as i64;
            let item = HashItem::new(name.clone(), name.clone(), HashItemType::VolumeFile, start, end);
            assert(item.span() == file_span(f@));
            insert_by_end(&mut items, item);
        }
        i += 1;
    }
    let mut k: usize = 0;
    while k < vh.partitions.len()
        invariant
            k <= vh.partitions@.len(),
            vh@.spans_fit(),
            spans(items@) == spec_volume_spans(vh@, k as nat),
            forall|j: int| 0 <= j < items@.len() ==> (#[trigger] items@[j]).fresh(),
        decreases vh.partitions@.len() - k,
    {
        let p = &vh.partitions[k];
        assert(vh@.partitions[k as int].spec_fits());
        if p.in_use() {
            let start: i64 = (p.block_start * 512) as i64;
            let end: i64 = ((p.block_start + p.block_sz) * 512) as i64;
            let item = HashItem::new(
                partition_display_name(k, p),
                decimal(k as u64),
                HashItemType::Partition,
                start,
                end,
            );
            assert(item.span() == partition_span(k, *p));
            insert_by_end(&mut items, item);
        }
        k += 1;
    }
    items
}

} // verus!
