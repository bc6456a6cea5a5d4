//! Big-endian encoding of 64-bit integers.
use vstd::prelude::*;

verus! {

/// The eight bytes of `x`, most significant first.
pub open spec fn be_bytes(x: u64) -> Seq<u8> {
    let q1 = x / 256;
    let q2 = q1 / 256;
    let q3 = q2 / 256;
    let q4 = q3 / 256;
    let q5 = q4 / 256;
    let q6 = q5 / 256;
    let q7 = q6 / 256;
    seq![
        (q7 % 256) as u8,
        (q6 % 256) as u8,
        (q5 % 256) as u8,
        (q4 % 256) as u8,
        (q3 % 256) as u8,
        (q2 % 256) as u8,
        (q1 % 256) as u8,
        (x % 256) as u8,
    ]
}

/// The integer whose big-endian bytes are the first eight entries of `s`.
pub open spec fn be_value(s: Seq<u8>) -> u64
    recommends
        s.len() >= 8,
{
    (((((((s[0] * 256 + s[1]) * 256 + s[2]) * 256 + s[3]) * 256 + s[4]) * 256 + s[5]) * 256
        + s[6]) * 256 + s[7]) as u64
}

/// Decoding undoes encoding.
pub proof fn lemma_be_value_of_bytes(x: u64)
    ensures
        be_bytes(x).len() == 8,
        be_value(be_bytes(x)) == x,
{
    let q1 = x / 256;
    let q2 = q1 / 256;
    let q3 = q2 / 256;
    let q4 = q3 / 256;
    let q5 = q4 / 256;
    let q6 = q5 / 256;
    let q7 = q6 / 256;
    assert(q7 < 256);
    let s = be_bytes(x);
    assert(s[0] == q7);
    assert(s[0] * 256 + s[1] == q6);
    assert(q6 * 256 + s[2] == q5);
    assert(q5 * 256 + s[3] == q4);
    assert(q4 * 256 + s[4] == q3);
    assert(q3 * 256 + s[5] == q2);
    assert(q2 * 256 + s[6] == q1);
    assert(q1 * 256 + s[7] == x);
}

/// Encoding undoes decoding of any eight bytes.
pub proof fn lemma_be_bytes_of_value(s: Seq<u8>)
    requires
        s.len() == 8,
    ensures
        be_bytes(be_value(s)) == s,
{
    let h1 = s[0] as int;
    let h2 = h1 * 256 + s[1];
    let h3 = h2 * 256 + s[2];
    let h4 = h3 * 256 + s[3];
    let h5 = h4 * 256 + s[4];
    let h6 = h5 * 256 + s[5];
    let h7 = h6 * 256 + s[6];
    let h8 = h7 * 256 + s[7];
    assert(h2 < 0x1_0000);
    assert(h3 < 0x100_0000);
    assert(h4 < 0x1_0000_0000);
    assert(h5 < 0x100_0000_0000);
    assert(h6 < 0x1_0000_0000_0000);
    assert(h7 < 0x100_0000_0000_0000);
    assert(h8 < 0x1_0000_0000_0000_0000);
    let x = be_value(s);
    assert(x == h8);
    assert(x / 256 == h7 && x % 256 == s[7]);
    assert(h7 / 256 == h6 && h7 % 256 == s[6]);
    assert(h6 / 256 == h5 && h6 % 256 == s[5]);
    assert(h5 / 256 == h4 && h5 % 256 == s[4]);
    assert(h4 / 256 == h3 && h4 % 256 == s[3]);
    assert(h3 / 256 == h2 && h3 % 256 == s[2]);
    assert(h2 / 256 == h1 && h2 % 256 == s[1]);
    assert(h1 % 256 == s[0]);
    assert(be_bytes(x) =~= s);
}

/// Appends the big-endian encoding of `x` to `out`.
pub fn push_u64_be(out: &mut Vec<u8>, x: u64)
    ensures
        final(out)@ == old(out)@ + be_bytes(x),
{
    let q1: u64 = x / 256;
    let q2: u64 = q1 / 256;
    let q3: u64 = q2 / 256;
    let q4: u64 = q3 / 256;
    let q5: u64 = q4 / 256;
    let q6: u64 = q5 / 256;
    let q7: u64 = q6 / 256;
    out.push((q7 % 256) as u8);
    out.push((q6 % 256) as u8);
    out.push((q5 % 256) as u8);
    out.push((q4 % 256) as u8);
    out.push((q3 % 256) as u8);
    out.push((q2 % 256) as u8);
    out.push((q1 % 256) as u8);
    out.push((x % 256) as u8);
    assert(out@ =~= old(out)@ + be_bytes(x));
}

/// Reads the big-endian integer stored in `bytes[at..at + 8]`.
pub fn read_u64_be(bytes: &[u8], at: usize) -> (x: u64)
    requires
        at + 8 <= bytes@.len(),
    ensures
        x == be_value(bytes@.subrange(at as int, at + 8)),
{
    let h1: u64 = bytes[at] as u64;
    let h2: u64 = h1 * 256 + bytes[at + 1] as u64;
    let h3: u64 = h2 * 256 + bytes[at + 2] as u64;
    let h4: u64 = h3 * 256 + bytes[at + 3] as u64;
    let h5: u64 = h4 * 256 + bytes[at + 4] as u64;
    let h6: u64 = h5 * 256 + bytes[at + 5] as u64;
    let h7: u64 = h6 * 256 + bytes[at + 6] as u64;
    let h8: u64 = h7 * 256 + bytes[at + 7] as u64;
    h8
}

} // verus!
