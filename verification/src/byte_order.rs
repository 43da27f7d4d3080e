//! Big-endian encoding of the 64-bit item count that heads a page.

use byteorder::{BigEndian, ByteOrder};
use vstd::prelude::*;

verus! {

/// The number that eight bytes spell when the first byte is the most
/// significant one.
pub open spec fn be_u64(bytes: Seq<u8>) -> int
    recommends
        bytes.len() == 8,
{
    ((((((bytes[0] as int * 256 + bytes[1] as int) * 256 + bytes[2] as int) * 256
        + bytes[3] as int) * 256 + bytes[4] as int) * 256 + bytes[5] as int) * 256
        + bytes[6] as int) * 256 + bytes[7] as int
}

/// The eight bytes of `n`, most significant first.
pub open spec fn u64_be_bytes(n: u64) -> Seq<u8> {
    seq![
        (n / 0x100_0000_0000_0000) as u8,
        (n / 0x1_0000_0000_0000 % 256) as u8,
        (n / 0x100_0000_0000 % 256) as u8,
        (n / 0x1_0000_0000 % 256) as u8,
        (n / 0x100_0000 % 256) as u8,
        (n / 0x1_0000 % 256) as u8,
        (n / 0x100 % 256) as u8,
        (n % 256) as u8,
    ]
}

/// Decoding the encoding of `n` gives `n` back.
pub proof fn lemma_be_u64_of_bytes(n: u64)
    ensures
        u64_be_bytes(n).len() == 8,
        be_u64(u64_be_bytes(n)) == n,
{
    let q1 = n / 0x100;
    let q2 = n / 0x1_0000;
    let q3 = n / 0x100_0000;
    let q4 = n / 0x1_0000_0000;
    let q5 = n / 0x100_0000_0000;
    let q6 = n / 0x1_0000_0000_0000;
    let q7 = n / 0x100_0000_0000_0000;
    assert(q2 == q1 / 256 && q3 == q2 / 256 && q4 == q3 / 256 && q5 == q4 / 256 && q6 == q5
        / 256 && q7 == q6 / 256) by (bit_vector)
        requires
            q1 == n / 0x100,
            q2 == n / 0x1_0000,
            q3 == n / 0x100_0000,
            q4 == n / 0x1_0000_0000,
            q5 == n / 0x100_0000_0000,
            q6 == n / 0x1_0000_0000_0000,
            q7 == n / 0x100_0000_0000_0000,
    ;
    assert(q7 < 256) by (bit_vector)
        requires
            q7 == n / 0x100_0000_0000_0000,
    ;
    let b = u64_be_bytes(n);
    assert(b[0] == q7);
    assert(b[0] as int * 256 + b[1] as int == q6);
    assert(q6 * 256 + b[2] as int == q5);
    assert(q5 * 256 + b[3] as int == q4);
    assert(q4 * 256 + b[4] as int == q3);
    assert(q3 * 256 + b[5] as int == q2);
    assert(q2 * 256 + b[6] as int == q1);
    assert(q1 * 256 + b[7] as int == n);
}

/// Calls `byteorder::ByteOrder::read_u64` of `byteorder::BigEndian` on the
/// first eight bytes of `bytes`. The crate documents that it reads an unsigned
/// 64-bit integer from the buffer and panics when the buffer is shorter than
/// eight bytes; for `BigEndian` the first byte is the most significant. That
/// reading is what the contract claims.
#[verifier::external_body]
pub(crate) fn read_be_u64(bytes: &[u8]) -> (n: u64)
    requires
        bytes@.len() >= 8,
    ensures
        n == be_u64(bytes@.subrange(0, 8)),
{
    BigEndian::read_u64(&bytes[0..8])
}

/// Calls `byteorder::ByteOrder::write_u64` of `byteorder::BigEndian` on the
/// first eight bytes of `buf`. The crate documents that it writes the unsigned
/// 64-bit integer into the buffer and panics when the buffer is shorter than
/// eight bytes; for `BigEndian` the most significant byte comes first. The
/// contract claims that these eight bytes now spell `n` and that every later
/// byte is as it was.
#[verifier::external_body]
pub(crate) fn write_be_u64(buf: &mut Vec<u8>, n: u64)
    requires
        old(buf)@.len() >= 8,
    ensures
        final(buf)@ == u64_be_bytes(n) + old(buf)@.skip(8),
{
    BigEndian::write_u64(&mut buf[0..8], n);
}

} // verus!
