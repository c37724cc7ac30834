//! Little-endian field encoding and the rotating checksum shared by the
//! on-disk formats (WAL records and sosfs superblocks).
use vstd::prelude::*;

verus! {

/// The little-endian bytes of a `u16`.
pub open spec fn le16(x: u16) -> Seq<u8> {
    seq![x as u8, (x >> 8u16) as u8]
}

/// The little-endian bytes of a `u32`.
pub open spec fn le32(x: u32) -> Seq<u8> {
    seq![x as u8, (x >> 8u32) as u8, (x >> 16u32) as u8, (x >> 24u32) as u8]
}

/// The little-endian bytes of a `u64`.
pub open spec fn le64(x: u64) -> Seq<u8> {
    seq![
        x as u8,
        (x >> 8u64) as u8,
        (x >> 16u64) as u8,
        (x >> 24u64) as u8,
        (x >> 32u64) as u8,
        (x >> 40u64) as u8,
        (x >> 48u64) as u8,
        (x >> 56u64) as u8,
    ]
}

/// The `u16` stored little-endian at `at`.
pub open spec fn read16(s: Seq<u8>, at: int) -> u16 {
    (s[at] as u16) | ((s[at + 1] as u16) << 8u16)
}

/// The `u32` stored little-endian at `at`.
pub open spec fn read32(s: Seq<u8>, at: int) -> u32 {
    (s[at] as u32) | ((s[at + 1] as u32) << 8u32) | ((s[at + 2] as u32) << 16u32) | ((s[at + 3] as u32) << 24u32)
}

/// The `u64` stored little-endian at `at`.
pub open spec fn read64(s: Seq<u8>, at: int) -> u64 {
    (s[at] as u64) | ((s[at + 1] as u64) << 8u64) | ((s[at + 2] as u64) << 16u64) | ((s[at + 3] as u64) << 24u64)
        | ((s[at + 4] as u64) << 32u64) | ((s[at + 5] as u64) << 40u64) | ((s[at + 6] as u64) << 48u64)
        | ((s[at + 7] as u64) << 56u64)
}

/// Reading back what `le16` wrote gives the value.
pub proof fn lemma_le16_roundtrip(x: u16)
    ensures
        read16(le16(x), 0) == x,
{
    let b0 = x as u8;
    let b1 = (x >> 8u16) as u8;
    assert((b0 as u16) | ((b1 as u16) << 8u16) == x) by (bit_vector)
        requires b0 == x as u8, b1 == (x >> 8u16) as u8;
}

/// Reading back what `le32` wrote gives the value.
pub proof fn lemma_le32_roundtrip(x: u32)
    ensures
        read32(le32(x), 0) == x,
{
    let b0 = x as u8;
    let b1 = (x >> 8u32) as u8;
    let b2 = (x >> 16u32) as u8;
    let b3 = (x >> 24u32) as u8;
    assert((b0 as u32) | ((b1 as u32) << 8u32) | ((b2 as u32) << 16u32) | ((b3 as u32) << 24u32) == x) by (bit_vector)
        requires b0 == x as u8, b1 == (x >> 8u32) as u8, b2 == (x >> 16u32) as u8, b3 == (x >> 24u32) as u8;
}

/// Reading back what `le64` wrote gives the value.
pub proof fn lemma_le64_roundtrip(x: u64)
    ensures
        read64(le64(x), 0) == x,
{
    let b0 = x as u8;
    let b1 = (x >> 8u64) as u8;
    let b2 = (x >> 16u64) as u8;
    let b3 = (x >> 24u64) as u8;
    let b4 = (x >> 32u64) as u8;
    let b5 = (x >> 40u64) as u8;
    let b6 = (x >> 48u64) as u8;
    let b7 = (x >> 56u64) as u8;
    assert((b0 as u64) | ((b1 as u64) << 8u64) | ((b2 as u64) << 16u64) | ((b3 as u64) << 24u64)
        | ((b4 as u64) << 32u64) | ((b5 as u64) << 40u64) | ((b6 as u64) << 48u64) | ((b7 as u64) << 56u64) == x)
        by (bit_vector)
        requires
            b0 == x as u8, b1 == (x >> 8u64) as u8, b2 == (x >> 16u64) as u8, b3 == (x >> 24u64) as u8,
            b4 == (x >> 32u64) as u8, b5 == (x >> 40u64) as u8, b6 == (x >> 48u64) as u8, b7 == (x >> 56u64) as u8;
}

/// One checksum step: add the byte (mod 2^32), then rotate left by 3.
pub open spec fn checksum_step(s: u32, b: u8) -> u32 {
    let t = ((s as int + b as int) % 0x1_0000_0000) as u32;
    (t << 3u32) | (t >> 29u32)
}

/// The rotating additive checksum of `data`.
pub open spec fn checksum_spec(data: Seq<u8>) -> u32
    decreases data.len(),
{
    if data.len() == 0 {
        0
    } else {
        checksum_step(checksum_spec(data.drop_last()), data.last())
    }
}

/// The checksum of the first `n` bytes of `data`.
pub fn checksum32(data: &[u8], n: usize) -> (r: u32)
    requires
        n <= data@.len(),
    ensures
        r == checksum_spec(data@.take(n as int)),
{
    let mut s: u32 = 0;
    let mut i: usize = 0;
    while i < n
        invariant
            i <= n,
            n <= data@.len(),
            s == checksum_spec(data@.take(i as int)),
        decreases n - i,
    {
        let sum: u64 = s as u64 + data[i] as u64;
        let t: u32 = (sum % 0x1_0000_0000u64) as u32;
        s = (t << 3u32) | (t >> 29u32);
        assert(data@.take(i as int + 1).drop_last() =~= data@.take(i as int));
        i = i + 1;
    }
    s
}


/// Writes `x` little-endian at `at`.
pub fn put16<const N: usize>(out: &mut [u8; N], at: usize, x: u16)
    requires
        at + 2 <= N,
    ensures
        final(out)@ == old(out)@.take(at as int) + le16(x) + old(out)@.skip(at + 2),
{
    out[at] = x as u8;
    out[at + 1] = (x >> 8u16) as u8;
    assert(out@ =~= old(out)@.take(at as int) + le16(x) + old(out)@.skip(at + 2));
}

/// Writes `x` little-endian at `at`.
pub fn put32<const N: usize>(out: &mut [u8; N], at: usize, x: u32)
    requires
        at + 4 <= N,
    ensures
        final(out)@ == old(out)@.take(at as int) + le32(x) + old(out)@.skip(at + 4),
{
    out[at] = x as u8;
    out[at + 1] = (x >> 8u32) as u8;
    out[at + 2] = (x >> 16u32) as u8;
    out[at + 3] = (x >> 24u32) as u8;
    assert(out@ =~= old(out)@.take(at as int) + le32(x) + old(out)@.skip(at + 4));
}

/// Writes `x` little-endian at `at`.
pub fn put64<const N: usize>(out: &mut [u8; N], at: usize, x: u64)
    requires
        at + 8 <= N,
    ensures
        final(out)@ == old(out)@.take(at as int) + le64(x) + old(out)@.skip(at + 8),
{
    out[at] = x as u8;
    out[at + 1] = (x >> 8u64) as u8;
    out[at + 2] = (x >> 16u64) as u8;
    out[at + 3] = (x >> 24u64) as u8;
    out[at + 4] = (x >> 32u64) as u8;
    out[at + 5] = (x >> 40u64) as u8;
    out[at + 6] = (x >> 48u64) as u8;
    out[at + 7] = (x >> 56u64) as u8;
    assert(out@ =~= old(out)@.take(at as int) + le64(x) + old(out)@.skip(at + 8));
}

/// Copies `src` into `out` at `at`.
pub fn put_bytes<const N: usize, const M: usize>(out: &mut [u8; N], at: usize, src: &[u8; M])
    requires
        at + M <= N,
    ensures
        final(out)@ == old(out)@.take(at as int) + src@ + old(out)@.skip(at + M),
{
    let mut i: usize = 0;
    while i < M
        invariant
            i <= M,
            at + M <= N,
            out@.len() == N,
            forall|j: int| 0 <= j < at ==> out@[j] == old(out)@[j],
            forall|j: int| at <= j < at + i ==> out@[j] == src@[j - at],
            forall|j: int| at + i <= j < N ==> out@[j] == old(out)@[j],
        decreases M - i,
    {
        out[at + i] = src[i];
        i = i + 1;
    }
    assert(out@ =~= old(out)@.take(at as int) + src@ + old(out)@.skip(at + M));
}

/// The `u16` stored little-endian at `at`.
pub fn get16(buf: &[u8], at: usize) -> (r: u16)
    requires
        at + 2 <= buf@.len(),
    ensures
        r == read16(buf@, at as int),
{
    (buf[at] as u16) | ((buf[at + 1] as u16) << 8u16)
}

/// The `u32` stored little-endian at `at`.
pub fn get32(buf: &[u8], at: usize) -> (r: u32)
    requires
        at + 4 <= buf@.len(),
    ensures
        r == read32(buf@, at as int),
{
    (buf[at] as u32) | ((buf[at + 1] as u32) << 8u32) | ((buf[at + 2] as u32) << 16u32) | ((buf[at + 3] as u32) << 24u32)
}

/// The `u64` stored little-endian at `at`.
pub fn get64(buf: &[u8], at: usize) -> (r: u64)
    requires
        at + 8 <= buf@.len(),
    ensures
        r == read64(buf@, at as int),
{
    (buf[at] as u64) | ((buf[at + 1] as u64) << 8u64) | ((buf[at + 2] as u64) << 16u64) | ((buf[at + 3] as u64) << 24u64)
        | ((buf[at + 4] as u64) << 32u64) | ((buf[at + 5] as u64) << 40u64) | ((buf[at + 6] as u64) << 48u64)
        | ((buf[at + 7] as u64) << 56u64)
}

} // verus!
