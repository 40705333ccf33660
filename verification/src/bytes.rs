//! Integers as bytes, in the two byte orders.

use vstd::prelude::*;

verus! {

/// A 16-bit integer, most significant byte first.
pub open spec fn be16(n: u16) -> Seq<u8> {
    seq![(n / 0x100) as u8, (n % 0x100) as u8]
}

/// A 32-bit integer, most significant byte first.
pub open spec fn be32(n: u32) -> Seq<u8> {
    seq![
        (n / 0x100_0000) as u8,
        (n / 0x1_0000 % 0x100) as u8,
        (n / 0x100 % 0x100) as u8,
        (n % 0x100) as u8,
    ]
}

/// The 32-bit integer that four bytes hold, most significant byte first.
pub open spec fn be32_value(b: Seq<u8>) -> u32 {
    (b[0] * 0x100_0000 + b[1] * 0x1_0000 + b[2] * 0x100 + b[3]) as u32
}

/// A 32-bit integer, least significant byte first.
pub open spec fn le32(n: u32) -> Seq<u8> {
    be32(n).reverse()
}

/// A 64-bit integer, least significant byte first.
pub open spec fn le64(n: u64) -> Seq<u8> {
    le32((n % 0x1_0000_0000) as u32) + le32((n / 0x1_0000_0000) as u32)
}

/// The 32-bit integer that four bytes hold, least significant byte first.
pub open spec fn le32_value(b: Seq<u8>) -> u32 {
    (b[3] * 0x100_0000 + b[2] * 0x1_0000 + b[1] * 0x100 + b[0]) as u32
}

/// The 64-bit integer that eight bytes hold, least significant byte first.
pub open spec fn le64_value(b: Seq<u8>) -> u64 {
    (le32_value(b.subrange(4, 8)) * 0x1_0000_0000 + le32_value(b.subrange(0, 4))) as u64
}

/// Append bytes.
pub fn append(out: &mut Vec<u8>, more: &[u8])
    ensures
        final(out)@ == old(out)@ + more@,
{
    out.extend_from_slice(more);
    assert(out@ =~= old(out)@ + more@);
}

/// Append a 16-bit integer, most significant byte first.
pub fn append_be16(out: &mut Vec<u8>, n: u16)
    ensures
        final(out)@ == old(out)@ + be16(n),
{
    out.push((n / 0x100) as u8);
    out.push((n % 0x100) as u8);
    assert(out@ =~= old(out)@ + be16(n));
}

/// Append a 32-bit integer, most significant byte first.
pub fn append_be32(out: &mut Vec<u8>, n: u32)
    ensures
        final(out)@ == old(out)@ + be32(n),
{
    out.push((n / 0x100_0000) as u8);
    out.push((n / 0x1_0000 % 0x100) as u8);
    out.push((n / 0x100 % 0x100) as u8);
    out.push((n % 0x100) as u8);
    assert(out@ =~= old(out)@ + be32(n));
}

/// Append a 32-bit integer, least significant byte first.
pub fn append_le32(out: &mut Vec<u8>, n: u32)
    ensures
        final(out)@ == old(out)@ + le32(n),
{
    out.push((n % 0x100) as u8);
    out.push((n / 0x100 % 0x100) as u8);
    out.push((n / 0x1_0000 % 0x100) as u8);
    out.push((n / 0x100_0000) as u8);
    assert(out@ =~= old(out)@ + le32(n));
}

/// Append a 64-bit integer, least significant byte first.
pub fn append_le64(out: &mut Vec<u8>, n: u64)
    ensures
        final(out)@ == old(out)@ + le64(n),
{
    append_le32(out, (n % 0x1_0000_0000) as u32);
    append_le32(out, (n / 0x1_0000_0000) as u32);
    assert(out@ =~= old(out)@ + le64(n));
}

/// Put four bytes together, most significant first.
pub fn join_be32(a: u8, b: u8, c: u8, d: u8) -> (n: u32)
    ensures
        n == be32_value(seq![a, b, c, d]),
        n == a * 0x100_0000 + b * 0x1_0000 + c * 0x100 + d,
{
    a as u32 * 0x100_0000 + b as u32 * 0x1_0000 + c as u32 * 0x100 + d as u32
}

/// The 32-bit integer at `at`, least significant byte first.
pub fn read_le32(data: &[u8], at: usize) -> (n: u32)
    requires
        at + 4 <= data@.len(),
    ensures
        n == le32_value(data@.subrange(at as int, at + 4)),
{
    assert(at + 4 <= data.len());
    join_be32(data[at + 3], data[at + 2], data[at + 1], data[at])
}

/// The 64-bit integer at `at`, least significant byte first.
pub fn read_le64(data: &[u8], at: usize) -> (n: u64)
    requires
        at + 8 <= data@.len(),
    ensures
        n == le64_value(data@.subrange(at as int, at + 8)),
{
    assert(at + 8 <= data.len());
    let low: u32 = read_le32(data, at);
    let high: u32 = read_le32(data, at + 4);
    let ghost eight = data@.subrange(at as int, at + 8);
    assert(eight.subrange(0, 4) =~= data@.subrange(at as int, at + 4));
    assert(eight.subrange(4, 8) =~= data@.subrange(at + 4, at + 8));
    high as u64 * 0x1_0000_0000 + low as u64
}

/// What an integer is written as, it is read back from.
pub proof fn law_be32_reads_back(n: u32)
    ensures
        be32(n).len() == 4,
        be32_value(be32(n)) == n,
{
}

/// What an integer is written as, it is read back from.
pub proof fn law_le32_reads_back(n: u32)
    ensures
        le32(n).len() == 4,
        le32_value(le32(n)) == n,
{
    let b = be32(n);
    assert(le32(n) =~= seq![b[3], b[2], b[1], b[0]]);
}

/// What an integer is written as, it is read back from.
pub proof fn law_le64_reads_back(n: u64)
    ensures
        le64(n).len() == 8,
        le64_value(le64(n)) == n,
{
    let low = (n % 0x1_0000_0000) as u32;
    let high = (n / 0x1_0000_0000) as u32;
    law_le32_reads_back(low);
    law_le32_reads_back(high);
    assert(le64(n).subrange(0, 4) =~= le32(low));
    assert(le64(n).subrange(4, 8) =~= le32(high));
    assert(high * 0x1_0000_0000 + low == n);
}

/// Most significant first means that each byte counts 256 times the one behind
/// it.
pub proof fn law_first_byte_counts_most(n: u32, m: u16)
    ensures
        be16(m).len() == 2,
        be16(m)[0] * 256 + be16(m)[1] == m,
        ((be32(n)[0] * 256 + be32(n)[1]) * 256 + be32(n)[2]) * 256 + be32(n)[3] == n,
{
}

/// Least significant first means that each byte counts 256 times the one before
/// it.
pub proof fn law_last_byte_counts_most(n: u32, m: u64)
    ensures
        ((le32(n)[3] * 256 + le32(n)[2]) * 256 + le32(n)[1]) * 256 + le32(n)[0] == n,
        le64(m).len() == 8,
        ((((((le64(m)[7] * 256 + le64(m)[6]) * 256 + le64(m)[5]) * 256 + le64(m)[4]) * 256
            + le64(m)[3]) * 256 + le64(m)[2]) * 256 + le64(m)[1]) * 256 + le64(m)[0] == m,
{
    let low = (m % 0x1_0000_0000) as u32;
    let high = (m / 0x1_0000_0000) as u32;
    lemma_le32_counts(n);
    lemma_le32_counts(low);
    lemma_le32_counts(high);
    let a = le32(low);
    let b = le32(high);
    let all = le64(m);
    assert(all =~= seq![a[0], a[1], a[2], a[3], b[0], b[1], b[2], b[3]]);
    assert(m == high * 0x1_0000_0000 + low);
}

/// What the bytes of a word count, least significant first.
proof fn lemma_le32_counts(n: u32)
    ensures
        le32(n).len() == 4,
        ((le32(n)[3] * 256 + le32(n)[2]) * 256 + le32(n)[1]) * 256 + le32(n)[0] == n,
{
    let b = be32(n);
    assert(le32(n) =~= seq![b[3], b[2], b[1], b[0]]);
}

} // verus!
