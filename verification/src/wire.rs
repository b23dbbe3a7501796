//! Big-endian 64-bit integers on the wire: every length, size, version and
//! verdict the protocol exchanges is encoded this way.

use vstd::prelude::*;

verus! {

/// Byte `i` (0 = most significant) of the big-endian encoding of `x`.
pub open spec fn u64_be_byte(x: u64, i: int) -> u8 {
    (((x >> (((7 - i) * 8) as u64)) & 0xff) as u8)
}

/// The 8-byte big-endian encoding of `x`.
pub open spec fn spec_u64_be(x: u64) -> Seq<u8> {
    Seq::new(8, |i: int| u64_be_byte(x, i))
}

/// Appends the big-endian encoding of `x`.
pub fn write_u64_be(out: &mut Vec<u8>, x: u64)
    ensures
        final(out)@ == old(out)@ + spec_u64_be(x),
{
    proof {
        assert((x >> 56) & 0xff < 256 && (x >> 48) & 0xff < 256 && (x >> 40) & 0xff < 256 && (x
            >> 32) & 0xff < 256 && (x >> 24) & 0xff < 256 && (x >> 16) & 0xff < 256 && (x >> 8)
            & 0xff < 256 && x & 0xff < 256) by (bit_vector);
    }
    let b0: u8 = ((x >> 56) & 0xff) as u8;
    let b1: u8 = ((x >> 48) & 0xff) as u8;
    let b2: u8 = ((x >> 40) & 0xff) as u8;
    let b3: u8 = ((x >> 32) & 0xff) as u8;
    let b4: u8 = ((x >> 24) & 0xff) as u8;
    let b5: u8 = ((x >> 16) & 0xff) as u8;
    let b6: u8 = ((x >> 8) & 0xff) as u8;
    let b7: u8 = (x & 0xff) as u8;
    out.push(b0);
    out.push(b1);
    out.push(b2);
    out.push(b3);
    out.push(b4);
    out.push(b5);
    out.push(b6);
    out.push(b7);
    proof {
        assert(x & 0xff == (x >> (0 as u64)) & 0xff) by (bit_vector);
        assert(final(out)@ =~= old(out)@ + spec_u64_be(x));
    }
}

/// Reads the big-endian integer at `off`.
pub fn read_u64_be(data: &[u8], off: usize) -> (v: u64)
    requires
        off + 8 <= data@.len(),
    ensures
        spec_u64_be(v) == data@.subrange(off as int, off as int + 8),
{
    let b0 = data[off];
    let b1 = data[off + 1];
    let b2 = data[off + 2];
    let b3 = data[off + 3];
    let b4 = data[off + 4];
    let b5 = data[off + 5];
    let b6 = data[off + 6];
    let b7 = data[off + 7];
    let v: u64 = ((b0 as u64) << 56) | ((b1 as u64) << 48) | ((b2 as u64) << 40) | ((b3 as u64)
        << 32) | ((b4 as u64) << 24) | ((b5 as u64) << 16) | ((b6 as u64) << 8) | (b7 as u64);
    proof {
        assert(((v >> 56) & 0xff) as u8 == b0 && ((v >> 48) & 0xff) as u8 == b1 && ((v >> 40)
            & 0xff) as u8 == b2 && ((v >> 32) & 0xff) as u8 == b3 && ((v >> 24) & 0xff) as u8
            == b4 && ((v >> 16) & 0xff) as u8 == b5 && ((v >> 8) & 0xff) as u8 == b6 && ((v >> (
        0 as u64)) & 0xff) as u8 == b7) by (bit_vector)
            requires
                v == ((b0 as u64) << 56) | ((b1 as u64) << 48) | ((b2 as u64) << 40) | ((
                b3 as u64) << 32) | ((b4 as u64) << 24) | ((b5 as u64) << 16) | ((b6 as u64)
                    << 8) | (b7 as u64),
        ;
        assert(spec_u64_be(v) =~= data@.subrange(off as int, off as int + 8));
    }
    v
}

/// The integer an 8-byte big-endian run denotes.
pub open spec fn be_val8(s: Seq<u8>) -> u64
    recommends
        s.len() == 8,
{
    ((s[0] as u64) << 56) | ((s[1] as u64) << 48) | ((s[2] as u64) << 40) | ((s[3] as u64) << 32)
        | ((s[4] as u64) << 24) | ((s[5] as u64) << 16) | ((s[6] as u64) << 8) | (s[7] as u64)
}

/// Decoding inverts encoding.
pub proof fn lemma_be_val8_of_u64_be(x: u64)
    ensures
        be_val8(spec_u64_be(x)) == x,
{
    let s = spec_u64_be(x);
    assert(s[0] == u64_be_byte(x, 0) && s[1] == u64_be_byte(x, 1) && s[2] == u64_be_byte(x, 2)
        && s[3] == u64_be_byte(x, 3) && s[4] == u64_be_byte(x, 4) && s[5] == u64_be_byte(x, 5)
        && s[6] == u64_be_byte(x, 6) && s[7] == u64_be_byte(x, 7));
    let b0 = u64_be_byte(x, 0);
    let b1 = u64_be_byte(x, 1);
    let b2 = u64_be_byte(x, 2);
    let b3 = u64_be_byte(x, 3);
    let b4 = u64_be_byte(x, 4);
    let b5 = u64_be_byte(x, 5);
    let b6 = u64_be_byte(x, 6);
    let b7 = u64_be_byte(x, 7);
    assert(((b0 as u64) << 56) | ((b1 as u64) << 48) | ((b2 as u64) << 40) | ((b3 as u64) << 32)
        | ((b4 as u64) << 24) | ((b5 as u64) << 16) | ((b6 as u64) << 8) | (b7 as u64) == x)
        by (bit_vector)
        requires
            b0 == ((x >> 56) & 0xff) as u8,
            b1 == ((x >> 48) & 0xff) as u8,
            b2 == ((x >> 40) & 0xff) as u8,
            b3 == ((x >> 32) & 0xff) as u8,
            b4 == ((x >> 24) & 0xff) as u8,
            b5 == ((x >> 16) & 0xff) as u8,
            b6 == ((x >> 8) & 0xff) as u8,
            b7 == ((x >> (0 as u64)) & 0xff) as u8,
    ;
}

} // verus!
