//! Big-endian primitives over byte sequences: what the bytes mean, readers
//! that compute it, writers that produce the bytes again.

use vstd::prelude::*;
use crate::error::{IoError, SgidiskLibReadError};

verus! {

/// The unsigned 16-bit number stored big-endian at `at`.
pub open spec fn be16(b: Seq<u8>, at: int) -> int {
    b[at] as int * 0x100 + b[at + 1] as int
}

/// The unsigned 24-bit number stored big-endian at `at`.
pub open spec fn be24(b: Seq<u8>, at: int) -> int {
    b[at] as int * 0x1_0000 + b[at + 1] as int * 0x100 + b[at + 2] as int
}

/// The unsigned 32-bit number stored big-endian at `at`.
pub open spec fn be32(b: Seq<u8>, at: int) -> int {
    b[at] as int * 0x100_0000 + b[at + 1] as int * 0x1_0000 + b[at + 2] as int * 0x100 + b[at
        + 3] as int
}

/// The two's-complement reading of a 16-bit pattern.
pub open spec fn signed16(u: int) -> int {
    if u >= 0x8000 {
        u - 0x1_0000
    } else {
        u
    }
}

/// The two's-complement reading of a 32-bit pattern.
pub open spec fn signed32(u: int) -> int {
    if u >= 0x8000_0000 {
        u - 0x1_0000_0000
    } else {
        u
    }
}

/// The 16-bit pattern of a signed number.
pub open spec fn pattern16(v: int) -> int {
    if v < 0 {
        v + 0x1_0000
    } else {
        v
    }
}

/// The 32-bit pattern of a signed number.
pub open spec fn pattern32(v: int) -> int {
    if v < 0 {
        v + 0x1_0000_0000
    } else {
        v
    }
}

/// The two bytes that store `v` big-endian.
pub open spec fn be16_bytes(v: int) -> Seq<u8> {
    seq![(v / 0x100) as u8, (v % 0x100) as u8]
}

/// The three bytes that store `v` big-endian.
pub open spec fn be24_bytes(v: int) -> Seq<u8> {
    seq![(v / 0x1_0000) as u8, (v / 0x100 % 0x100) as u8, (v % 0x100) as u8]
}

/// The four bytes that store `v` big-endian.
pub open spec fn be32_bytes(v: int) -> Seq<u8> {
    seq![
        (v / 0x100_0000) as u8,
        (v / 0x1_0000 % 0x100) as u8,
        (v / 0x100 % 0x100) as u8,
        (v % 0x100) as u8,
    ]
}

/// `n` zero bytes: what reserved padding is written as.
pub open spec fn zeros(n: nat) -> Seq<u8> {
    Seq::new(n, |i: int| 0u8)
}

/// Whether `b` is zero from `from` up to `to`.
pub open spec fn all_zero(b: Seq<u8>, from: int, to: int) -> bool {
    forall|i: int| from <= i < to ==> b[i] == 0
}

/// What a read of `len` bytes at `offset` of a byte source yields: the bytes,
/// or the failure of a source that ends too early.
pub open spec fn spec_fetch(image: Seq<u8>, offset: int, len: int) -> Result<
    Seq<u8>,
    SgidiskLibReadError,
> {
    if 0 <= offset && 0 <= len && offset + len <= image.len() {
        Ok(image.subrange(offset, offset + len))
    } else {
        Err(SgidiskLibReadError::Io(IoError::UnexpectedEof))
    }
}

/// Reads `len` bytes at `offset` of an in-memory byte source.
pub fn fetch<'a>(image: &'a [u8], offset: u64, len: usize) -> (r: Result<
    &'a [u8],
    SgidiskLibReadError,
>)
    ensures
        match r {
            Ok(bytes) => spec_fetch(image@, offset as int, len as int) == Ok::<
                Seq<u8>,
                SgidiskLibReadError,
            >(bytes@),
            Err(e) => spec_fetch(image@, offset as int, len as int) == Err::<
                Seq<u8>,
                SgidiskLibReadError,
            >(e),
        },
{
    let total: usize = image.len();
    if offset > total as u64 || len > total - offset as usize {
        return Err(SgidiskLibReadError::Io(IoError::UnexpectedEof));
    }
    let start: usize = offset as usize;
    Ok(&image[start..start + len])
}

/// Reads the byte at `at`.
pub fn read_u8(b: &[u8], at: usize) -> (r: u8)
    requires
        at < b@.len(),
    ensures
        r == b@[at as int],
{
    b[at]
}

/// Reads the unsigned 16-bit number stored big-endian at `at`.
pub fn read_u16(b: &[u8], at: usize) -> (r: u16)
    requires
        at + 2 <= b@.len(),
    ensures
        r == be16(b@, at as int),
{
    (b[at] as u16) * 0x100 + (b[at + 1] as u16)
}

/// Reads the unsigned 24-bit number stored big-endian at `at` into the low
/// bits of a 32-bit one.
pub fn read_u24(b: &[u8], at: usize) -> (r: u32)
    requires
        at + 3 <= b@.len(),
    ensures
        r == be24(b@, at as int),
        r < 0x100_0000,
{
    (b[at] as u32) * 0x1_0000 + (b[at + 1] as u32) * 0x100 + (b[at + 2] as u32)
}

/// Reads the unsigned 32-bit number stored big-endian at `at`.
pub fn read_u32(b: &[u8], at: usize) -> (r: u32)
    requires
        at + 4 <= b@.len(),
    ensures
        r == be32(b@, at as int),
{
    (b[at] as u32) * 0x100_0000 + (b[at + 1] as u32) * 0x1_0000 + (b[at + 2] as u32) * 0x100 + (
    b[at + 3] as u32)
}

/// Reads the signed 16-bit number stored big-endian at `at`.
pub fn read_i16(b: &[u8], at: usize) -> (r: i16)
    requires
        at + 2 <= b@.len(),
    ensures
        r == signed16(be16(b@, at as int)),
{
    let u: u16 = read_u16(b, at);
    if u >= 0x8000 {
        (u as i32 - 0x1_0000) as i16
    } else {
        u as i16
    }
}

/// Reads the signed 32-bit number stored big-endian at `at`.
pub fn read_i32(b: &[u8], at: usize) -> (r: i32)
    requires
        at + 4 <= b@.len(),
    ensures
        r == signed32(be32(b@, at as int)),
{
    let u: u32 = read_u32(b, at);
    if u >= 0x8000_0000 {
        (u as i64 - 0x1_0000_0000) as i32
    } else {
        u as i32
    }
}

/// Copies the `len` bytes at `at` out of `b`.
pub fn read_bytes(b: &[u8], at: usize, len: usize) -> (r: Vec<u8>)
    requires
        at + len <= b@.len(),
    ensures
        r@ == b@.subrange(at as int, at + len),
{
    let total: usize = b.len();
    let mut out: Vec<u8> = Vec::with_capacity(len);
    let mut i: usize = 0;
    while i < len
        invariant
            i <= len,
            at + len <= total,
            total == b@.len(),
            out@ == b@.subrange(at as int, at + i),
        decreases len - i,
    {
        out.push(b[at + i]);
        i += 1;
    }
    out
}

/// Appends the two bytes that store `v` big-endian.
pub fn put_u16(out: &mut Vec<u8>, v: u16)
    ensures
        final(out)@ == old(out)@ + be16_bytes(v as int),
{
    out.push((v / 0x100) as u8);
    out.push((v % 0x100) as u8);
}

/// Appends the three bytes that store the low 24 bits of `v` big-endian.
pub fn put_u24(out: &mut Vec<u8>, v: u32)
    requires
        v < 0x100_0000,
    ensures
        final(out)@ == old(out)@ + be24_bytes(v as int),
{
    out.push((v / 0x1_0000) as u8);
    out.push((v / 0x100 % 0x100) as u8);
    out.push((v % 0x100) as u8);
}

/// Appends the four bytes that store `v` big-endian.
pub fn put_u32(out: &mut Vec<u8>, v: u32)
    ensures
        final(out)@ == old(out)@ + be32_bytes(v as int),
{
    out.push((v / 0x100_0000) as u8);
    out.push((v / 0x1_0000 % 0x100) as u8);
    out.push((v / 0x100 % 0x100) as u8);
    out.push((v % 0x100) as u8);
}

/// Appends the two bytes that store the signed `v` big-endian.
pub fn put_i16(out: &mut Vec<u8>, v: i16)
    ensures
        final(out)@ == old(out)@ + be16_bytes(pattern16(v as int)),
{
    let u: u16 = if v < 0 {
        (v as i32 + 0x1_0000) as u16
    } else {
        v as u16
    };
    put_u16(out, u);
}

/// Appends the four bytes that store the signed `v` big-endian.
pub fn put_i32(out: &mut Vec<u8>, v: i32)
    ensures
        final(out)@ == old(out)@ + be32_bytes(pattern32(v as int)),
{
    let u: u32 = if v < 0 {
        (v as i64 + 0x1_0000_0000) as u32
    } else {
        v as u32
    };
    put_u32(out, u);
}

/// Appends a copy of `bytes`.
pub fn put_bytes(out: &mut Vec<u8>, bytes: &[u8])
    ensures
        final(out)@ == old(out)@ + bytes@,
{
    let mut i: usize = 0;
    while i < bytes.len()
        invariant
            i <= bytes@.len(),
            out@ == old(out)@ + bytes@.subrange(0, i as int),
        decreases bytes@.len() - i,
    {
        out.push(bytes[i]);
        i += 1;
    }
    assert(bytes@.subrange(0, i as int) == bytes@);
}

/// Appends `n` zero bytes.
pub fn put_zeros(out: &mut Vec<u8>, n: usize)
    ensures
        final(out)@ == old(out)@ + zeros(n as nat),
{
    let mut i: usize = 0;
    while i < n
        invariant
            i <= n,
            out@ == old(out)@ + zeros(i as nat),
        decreases n - i,
    {
        out.push(0u8);
        i += 1;
    }
}

/// Reading back what was written gives the number that was written.
pub proof fn lemma_be_read_written(v: int)
    ensures
        0 <= v < 0x1_0000 ==> be16(be16_bytes(v), 0) == v,
        0 <= v < 0x100_0000 ==> be24(be24_bytes(v), 0) == v,
        0 <= v < 0x1_0000_0000 ==> be32(be32_bytes(v), 0) == v,
{
}

/// Writing what was read gives the bytes that were read.
pub proof fn lemma_be_written_read(b: Seq<u8>, at: int)
    requires
        0 <= at,
    ensures
        at + 2 <= b.len() ==> be16_bytes(be16(b, at)) == b.subrange(at, at + 2),
        at + 3 <= b.len() ==> be24_bytes(be24(b, at)) == b.subrange(at, at + 3),
        at + 4 <= b.len() ==> be32_bytes(be32(b, at)) == b.subrange(at, at + 4),
{
    if at + 2 <= b.len() {
        assert(be16_bytes(be16(b, at)) =~= b.subrange(at, at + 2));
    }
    if at + 3 <= b.len() {
        assert(be24_bytes(be24(b, at)) =~= b.subrange(at, at + 3));
    }
    if at + 4 <= b.len() {
        assert(be32_bytes(be32(b, at)) =~= b.subrange(at, at + 4));
    }
}

/// Two neighbouring ranges of a sequence join into the range that spans both.
pub proof fn lemma_join(b: Seq<u8>, i: int, j: int, k: int)
    requires
        0 <= i <= j <= k <= b.len(),
    ensures
        b.subrange(i, j) + b.subrange(j, k) == b.subrange(i, k),
{
    assert(b.subrange(i, j) + b.subrange(j, k) =~= b.subrange(i, k));
}

/// Where `b` begins with `p` followed by `f`, it begins with `p`, and `f`
/// lies right behind that.
pub proof fn lemma_peel(b: Seq<u8>, p: Seq<u8>, f: Seq<u8>)
    requires
        p.len() + f.len() <= b.len(),
        b.take((p.len() + f.len()) as int) == p + f,
    ensures
        b.take(p.len() as int) == p,
        b.subrange(p.len() as int, (p.len() + f.len()) as int) == f,
{
    let n = p.len() as int;
    let m = n + f.len();
    assert(b.take(n) =~= b.take(m).take(n));
    assert((p + f).take(n) =~= p);
    assert(b.subrange(n, m) =~= b.take(m).subrange(n, m));
    assert((p + f).subrange(n, m) =~= f);
}

/// A number read at `at` is the number read at the start of what begins there.
pub proof fn lemma_be_at(b: Seq<u8>, at: int)
    requires
        0 <= at,
    ensures
        at + 2 <= b.len() ==> be16(b, at) == be16(b.subrange(at, at + 2), 0),
        at + 3 <= b.len() ==> be24(b, at) == be24(b.subrange(at, at + 3), 0),
        at + 4 <= b.len() ==> be32(b, at) == be32(b.subrange(at, at + 4), 0),
{
}

/// A number read inside a part of `b` is the number read at the same place
/// of `b` itself.
pub proof fn lemma_be_within(b: Seq<u8>, at: int, len: int, o: int)
    requires
        0 <= at,
        0 <= o,
        at + len <= b.len(),
    ensures
        o + 2 <= len ==> be16(b, at + o) == be16(b.subrange(at, at + len), o),
        o + 3 <= len ==> be24(b, at + o) == be24(b.subrange(at, at + len), o),
        o + 4 <= len ==> be32(b, at + o) == be32(b.subrange(at, at + len), o),
{
}

/// A number and its two's-complement pattern determine each other.
pub proof fn lemma_signed_pattern(v: int)
    ensures
        -0x8000 <= v < 0x8000 ==> signed16(pattern16(v)) == v && 0 <= pattern16(v) < 0x1_0000,
        0 <= v < 0x1_0000 ==> pattern16(signed16(v)) == v,
        -0x8000_0000 <= v < 0x8000_0000 ==> signed32(pattern32(v)) == v && 0 <= pattern32(v)
            < 0x1_0000_0000,
        0 <= v < 0x1_0000_0000 ==> pattern32(signed32(v)) == v,
{
}

} // verus!
