use vstd::prelude::*;

verus! {

/// The eight big-endian bytes of `v`.
pub open spec fn spec_u64_to_be(v: u64) -> Seq<u8> {
    seq![
        (v >> 56u64) as u8, (v >> 48u64) as u8, (v >> 40u64) as u8, (v >> 32u64) as u8,
        (v >> 24u64) as u8, (v >> 16u64) as u8, (v >> 8u64) as u8, v as u8,
    ]
}

/// The value of eight big-endian bytes.
pub open spec fn spec_u64_from_be(b: Seq<u8>) -> u64 {
    (b[0] as u64) << 56u64 | (b[1] as u64) << 48u64 | (b[2] as u64) << 40u64 | (b[3] as u64) << 32u64
        | (b[4] as u64) << 24u64 | (b[5] as u64) << 16u64 | (b[6] as u64) << 8u64 | (b[7] as u64)
}

/// Decoding the big-endian bytes of a value gives the value back.
pub proof fn lemma_u64_be_value_roundtrip(v: u64)
    ensures
        spec_u64_from_be(spec_u64_to_be(v)) == v,
{
    let b = spec_u64_to_be(v);
    let (b0, b1, b2, b3, b4, b5, b6, b7) = (b[0], b[1], b[2], b[3], b[4], b[5], b[6], b[7]);
    assert(((b0 as u64) << 56u64 | (b1 as u64) << 48u64 | (b2 as u64) << 40u64 | (b3 as u64) << 32u64
        | (b4 as u64) << 24u64 | (b5 as u64) << 16u64 | (b6 as u64) << 8u64 | (b7 as u64)) == v)
        by (bit_vector)
        requires
            b0 == (v >> 56u64) as u8, b1 == (v >> 48u64) as u8, b2 == (v >> 40u64) as u8,
            b3 == (v >> 32u64) as u8, b4 == (v >> 24u64) as u8, b5 == (v >> 16u64) as u8,
            b6 == (v >> 8u64) as u8, b7 == v as u8,
    ;
}

/// Encoding the value of eight bytes gives the bytes back.
pub proof fn lemma_u64_be_bytes_roundtrip(b: Seq<u8>)
    requires
        b.len() == 8,
    ensures
        spec_u64_to_be(spec_u64_from_be(b)) == b,
{
    let v = spec_u64_from_be(b);
    let (b0, b1, b2, b3, b4, b5, b6, b7) = (b[0], b[1], b[2], b[3], b[4], b[5], b[6], b[7]);
    assert(b0 == (v >> 56u64) as u8 && b1 == (v >> 48u64) as u8 && b2 == (v >> 40u64) as u8
        && b3 == (v >> 32u64) as u8 && b4 == (v >> 24u64) as u8 && b5 == (v >> 16u64) as u8
        && b6 == (v >> 8u64) as u8 && b7 == v as u8) by (bit_vector)
        requires
            v == (b0 as u64) << 56u64 | (b1 as u64) << 48u64 | (b2 as u64) << 40u64 | (b3 as u64) << 32u64
                | (b4 as u64) << 24u64 | (b5 as u64) << 16u64 | (b6 as u64) << 8u64 | (b7 as u64),
    ;
    assert(spec_u64_to_be(v) =~= b);
}

/// Big-endian encoding of a `u64`.
pub fn u64_to_bytes(v: u64) -> (r: [u8; 8])
    ensures
        r@ == spec_u64_to_be(v),
{
    let r = [
        (v >> 56u64) as u8, (v >> 48u64) as u8, (v >> 40u64) as u8, (v >> 32u64) as u8,
        (v >> 24u64) as u8, (v >> 16u64) as u8, (v >> 8u64) as u8, v as u8,
    ];
    assert(r@ =~= spec_u64_to_be(v));
    r
}

/// Big-endian decoding of a `u64` from eight bytes.
pub fn u64_from_bytes(b: &[u8]) -> (r: u64)
    requires
        b@.len() == 8,
    ensures
        r == spec_u64_from_be(b@),
{
    (b[0] as u64) << 56u64 | (b[1] as u64) << 48u64 | (b[2] as u64) << 40u64 | (b[3] as u64) << 32u64
        | (b[4] as u64) << 24u64 | (b[5] as u64) << 16u64 | (b[6] as u64) << 8u64 | (b[7] as u64)
}


/// Copies `src` into `dst` from position `offset` on; the other bytes of
/// `dst` are kept.
pub fn write_at<const N: usize>(dst: &mut [u8; N], offset: usize, src: &[u8])
    requires
        offset + src@.len() <= N,
    ensures
        final(dst)@ == old(dst)@.subrange(0, offset as int) + src@ + old(dst)@.subrange(
            offset + src@.len(),
            N as int,
        ),
{
    let ghost start = dst@;
    let mut i: usize = 0;
    while i < src.len()
        invariant
            offset + src@.len() <= N,
            i <= src@.len(),
            dst@.len() == N,
            forall|j: int| 0 <= j < offset ==> dst@[j] == start[j],
            forall|j: int| offset + src@.len() <= j < N ==> dst@[j] == start[j],
            forall|j: int| 0 <= j < i ==> dst@[offset + j] == src@[j],
            forall|j: int| offset + i <= j < offset + src@.len() ==> dst@[j] == start[j],
        decreases src@.len() - i,
    {
        dst[offset + i] = src[i];
        i = i + 1;
    }
    assert(dst@ =~= start.subrange(0, offset as int) + src@ + start.subrange(offset + src@.len(), N as int));
}

/// The `N` bytes of `src` from position `offset` on.
pub fn read_array<const N: usize>(src: &[u8], offset: usize) -> (r: [u8; N])
    requires
        offset + N <= src@.len(),
    ensures
        r@ == src@.subrange(offset as int, offset + N),
{
    let mut r: [u8; N] = [0u8; N];
    let len = src.len();
    let mut i: usize = 0;
    while i < N
        invariant
            offset + N <= src@.len(),
            len == src@.len(),
            i <= N,
            r@.len() == N,
            forall|j: int| 0 <= j < i ==> r@[j] == src@[offset + j],
        decreases N - i,
    {
        r[i] = src[offset + i];
        i = i + 1;
    }
    assert(r@ =~= src@.subrange(offset as int, offset + N));
    r
}

/// Big-endian decoding of the `u64` held by the eight bytes of `b` from
/// position `offset` on.
pub fn u64_from_bytes_at(b: &[u8], offset: usize) -> (r: u64)
    requires
        offset + 8 <= b@.len(),
    ensures
        r == spec_u64_from_be(b@.subrange(offset as int, offset + 8)),
{
    let len = b.len();
    assert(offset + 8 <= len);
    let s = vstd::slice::slice_subrange(b, offset, offset + 8);
    u64_from_bytes(s)
}


/// The four big-endian bytes of `v`.
pub open spec fn spec_u32_to_be(v: u32) -> Seq<u8> {
    seq![(v >> 24u32) as u8, (v >> 16u32) as u8, (v >> 8u32) as u8, v as u8]
}

/// The value of four big-endian bytes.
pub open spec fn spec_u32_from_be(b: Seq<u8>) -> u32 {
    (b[0] as u32) << 24u32 | (b[1] as u32) << 16u32 | (b[2] as u32) << 8u32 | (b[3] as u32)
}

/// Decoding the big-endian bytes of a `u32` gives the value back.
pub proof fn lemma_u32_be_value_roundtrip(v: u32)
    ensures
        spec_u32_from_be(spec_u32_to_be(v)) == v,
{
    let b = spec_u32_to_be(v);
    let (b0, b1, b2, b3) = (b[0], b[1], b[2], b[3]);
    assert(((b0 as u32) << 24u32 | (b1 as u32) << 16u32 | (b2 as u32) << 8u32 | (b3 as u32)) == v)
        by (bit_vector)
        requires
            b0 == (v >> 24u32) as u8, b1 == (v >> 16u32) as u8, b2 == (v >> 8u32) as u8, b3 == v as u8,
    ;
}

/// Encoding the value of four bytes gives the bytes back.
pub proof fn lemma_u32_be_bytes_roundtrip(b: Seq<u8>)
    requires
        b.len() == 4,
    ensures
        spec_u32_to_be(spec_u32_from_be(b)) == b,
{
    let v = spec_u32_from_be(b);
    let (b0, b1, b2, b3) = (b[0], b[1], b[2], b[3]);
    assert(b0 == (v >> 24u32) as u8 && b1 == (v >> 16u32) as u8 && b2 == (v >> 8u32) as u8 && b3 == v as u8)
        by (bit_vector)
        requires
            v == (b0 as u32) << 24u32 | (b1 as u32) << 16u32 | (b2 as u32) << 8u32 | (b3 as u32),
    ;
    assert(spec_u32_to_be(v) =~= b);
}

/// Big-endian encoding of a `u32`.
pub fn u32_to_bytes(v: u32) -> (r: [u8; 4])
    ensures
        r@ == spec_u32_to_be(v),
{
    let r = [(v >> 24u32) as u8, (v >> 16u32) as u8, (v >> 8u32) as u8, v as u8];
    assert(r@ =~= spec_u32_to_be(v));
    r
}

/// Big-endian decoding of the `u32` held by the four bytes of `b` from
/// position `offset` on.
pub fn u32_from_bytes_at(b: &[u8], offset: usize) -> (r: u32)
    requires
        offset + 4 <= b@.len(),
    ensures
        r == spec_u32_from_be(b@.subrange(offset as int, offset + 4)),
{
    (b[offset] as u32) << 24u32 | (b[offset + 1] as u32) << 16u32 | (b[offset + 2] as u32) << 8u32
        | (b[offset + 3] as u32)
}


/// Fills `dst` with the bytes of `src` from position `offset` on.
pub fn read_into(src: &[u8], offset: usize, dst: &mut [u8])
    requires
        offset + old(dst)@.len() <= src@.len(),
    ensures
        final(dst)@ == src@.subrange(offset as int, offset + old(dst)@.len()),
{
    let n = dst.len();
    let m = src.len();
    let mut i: usize = 0;
    while i < n
        invariant
            n == dst@.len(),
            offset + n <= m,
            m == src@.len(),
            i <= n,
            forall|j: int| 0 <= j < i ==> dst@[j] == src@[offset + j],
        decreases n - i,
    {
        dst[i] = src[offset + i];
        i = i + 1;
    }
    assert(dst@ =~= src@.subrange(offset as int, offset + n));
}


/// The two big-endian bytes of `v`.
pub open spec fn spec_u16_to_be(v: u16) -> Seq<u8> {
    seq![(v >> 8u16) as u8, v as u8]
}

/// The value of two big-endian bytes.
pub open spec fn spec_u16_from_be(b: Seq<u8>) -> u16 {
    (b[0] as u16) << 8u16 | (b[1] as u16)
}

/// Decoding the big-endian bytes of a `u16` gives the value back.
pub proof fn lemma_u16_be_value_roundtrip(v: u16)
    ensures
        spec_u16_from_be(spec_u16_to_be(v)) == v,
{
    let b = spec_u16_to_be(v);
    let (b0, b1) = (b[0], b[1]);
    assert(((b0 as u16) << 8u16 | (b1 as u16)) == v) by (bit_vector)
        requires
            b0 == (v >> 8u16) as u8,
            b1 == v as u8,
    ;
}

/// Big-endian encoding of a `u16`.
pub fn u16_to_bytes(v: u16) -> (r: [u8; 2])
    ensures
        r@ == spec_u16_to_be(v),
{
    let r = [(v >> 8u16) as u8, v as u8];
    assert(r@ =~= spec_u16_to_be(v));
    r
}

/// Big-endian decoding of the `u16` held by the first two bytes of `b`.
pub fn u16_from_bytes(b: &[u8]) -> (r: u16)
    requires
        b@.len() >= 2,
    ensures
        r == spec_u16_from_be(b@),
{
    (b[0] as u16) << 8u16 | (b[1] as u16)
}

/// Copies `src` into the slice `dst` from position `offset` on; the other
/// bytes of `dst` are kept.
pub fn write_at_slice(dst: &mut [u8], offset: usize, src: &[u8])
    requires
        offset + src@.len() <= old(dst)@.len(),
    ensures
        final(dst)@ == old(dst)@.subrange(0, offset as int) + src@ + old(dst)@.subrange(
            offset + src@.len(),
            old(dst)@.len() as int,
        ),
{
    let ghost start = dst@;
    let n = src.len();
    let m = dst.len();
    let mut i: usize = 0;
    while i < n
        invariant
            n == src@.len(),
            m == start.len(),
            offset + n <= start.len(),
            i <= n,
            dst@.len() == start.len(),
            forall|j: int| 0 <= j < offset ==> dst@[j] == start[j],
            forall|j: int| offset + n <= j < start.len() ==> dst@[j] == start[j],
            forall|j: int| 0 <= j < i ==> dst@[offset + j] == src@[j],
            forall|j: int| offset + i <= j < offset + n ==> dst@[j] == start[j],
        decreases n - i,
    {
        dst[offset + i] = src[i];
        i = i + 1;
    }
    assert(dst@ =~= start.subrange(0, offset as int) + src@ + start.subrange(offset + n, start.len() as int));
}

} // verus!
