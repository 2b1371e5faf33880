//! Little-endian integer encodings and the Bitcoin variable-length integer
//! (compact size), as byte sequences.

use vstd::prelude::*;

verus! {

/// The four bytes of `n`, least significant first.
pub open spec fn spec_le4(n: u32) -> Seq<u8> {
    seq![
        (n % 256) as u8,
        ((n / 256) % 256) as u8,
        ((n / 65536) % 256) as u8,
        ((n / 16777216) % 256) as u8,
    ]
}

/// The value read back from four little-endian bytes.
pub open spec fn spec_le4_val(b: Seq<u8>) -> int
    recommends
        b.len() == 4,
{
    b[0] + 256 * b[1] + 65536 * b[2] + 16777216 * b[3]
}

/// The two bytes of `n`, least significant first.
pub open spec fn spec_le2(n: u16) -> Seq<u8> {
    seq![(n % 256) as u8, ((n / 256) % 256) as u8]
}

/// The value read back from two little-endian bytes.
pub open spec fn spec_le2_val(b: Seq<u8>) -> int
    recommends
        b.len() == 2,
{
    b[0] + 256 * b[1]
}

/// The eight bytes of `n`, least significant first.
pub open spec fn spec_le8(n: u64) -> Seq<u8> {
    seq![
        (n % 256) as u8,
        ((n / 256) % 256) as u8,
        ((n / 65536) % 256) as u8,
        ((n / 16777216) % 256) as u8,
        ((n / 4294967296) % 256) as u8,
        ((n / 1099511627776) % 256) as u8,
        ((n / 281474976710656) % 256) as u8,
        ((n / 72057594037927936) % 256) as u8,
    ]
}

/// The value read back from eight little-endian bytes.
pub open spec fn spec_le8_val(b: Seq<u8>) -> int
    recommends
        b.len() == 8,
{
    b[0] + 256 * b[1] + 65536 * b[2] + 16777216 * b[3] + 4294967296 * b[4]
        + 1099511627776 * b[5] + 281474976710656 * b[6] + 72057594037927936 * b[7]
}

/// Reading back the little-endian bytes of a `u32` gives the value itself.
pub proof fn lemma_le4_val(n: u32)
    ensures
        spec_le4_val(spec_le4(n)) == n,
{
}

/// Reading back the little-endian bytes of a `u16` gives the value itself.
pub proof fn lemma_le2_val(n: u16)
    ensures
        spec_le2_val(spec_le2(n)) == n,
{
}

/// Reading back the little-endian bytes of a `u64` gives the value itself.
pub proof fn lemma_le8_val(n: u64)
    ensures
        spec_le8_val(spec_le8(n)) == n,
{
    let x = n as int;
    vstd::arithmetic::div_mod::lemma_div_denominator(x, 256, 256);
    vstd::arithmetic::div_mod::lemma_div_denominator(x, 65536, 256);
    vstd::arithmetic::div_mod::lemma_div_denominator(x, 16777216, 256);
    vstd::arithmetic::div_mod::lemma_div_denominator(x, 4294967296, 256);
    vstd::arithmetic::div_mod::lemma_div_denominator(x, 1099511627776, 256);
    vstd::arithmetic::div_mod::lemma_div_denominator(x, 281474976710656, 256);
    assert(x / 65536 == (x / 256) / 256);
    assert(x / 16777216 == (x / 65536) / 256);
    assert(x / 4294967296 == (x / 16777216) / 256);
    assert(x / 1099511627776 == (x / 4294967296) / 256);
    assert(x / 281474976710656 == (x / 1099511627776) / 256);
    assert(x / 72057594037927936 == (x / 281474976710656) / 256);
    assert(x / 72057594037927936 % 256 == x / 72057594037927936) by {
        assert(x / 72057594037927936 < 256);
    };
}

/// Appends the four little-endian bytes of `n`.
pub fn push_le4(out: &mut Vec<u8>, n: u32)
    ensures
        final(out)@ == old(out)@ + spec_le4(n),
{
    out.push((n % 256) as u8);
    out.push(((n / 256) % 256) as u8);
    out.push(((n / 65536) % 256) as u8);
    out.push(((n / 16777216) % 256) as u8);
    proof {
        assert(out@ =~= old(out)@ + spec_le4(n));
    }
}

/// Appends the two little-endian bytes of `n`.
pub fn push_le2(out: &mut Vec<u8>, n: u16)
    ensures
        final(out)@ == old(out)@ + spec_le2(n),
{
    out.push((n % 256) as u8);
    out.push(((n / 256) % 256) as u8);
    proof {
        assert(out@ =~= old(out)@ + spec_le2(n));
    }
}

/// Appends the eight little-endian bytes of `n`.
pub fn push_le8(out: &mut Vec<u8>, n: u64)
    ensures
        final(out)@ == old(out)@ + spec_le8(n),
{
    out.push((n % 256) as u8);
    out.push(((n / 256) % 256) as u8);
    out.push(((n / 65536) % 256) as u8);
    out.push(((n / 16777216) % 256) as u8);
    out.push(((n / 4294967296) % 256) as u8);
    out.push(((n / 1099511627776) % 256) as u8);
    out.push(((n / 281474976710656) % 256) as u8);
    out.push(((n / 72057594037927936) % 256) as u8);
    proof {
        assert(out@ =~= old(out)@ + spec_le8(n));
    }
}

/// The Bitcoin compact-size encoding of `n`: one byte below 0xFD, otherwise a
/// marker byte followed by the smallest little-endian width that holds `n`.
pub open spec fn spec_varint(n: u64) -> Seq<u8> {
    if n < 0xFD {
        seq![n as u8]
    } else if n <= 0xFFFF {
        seq![0xFDu8] + spec_le2(n as u16)
    } else if n <= 0xFFFFFFFF {
        seq![0xFEu8] + spec_le4(n as u32)
    } else {
        seq![0xFFu8] + spec_le8(n)
    }
}

/// Appends the compact-size encoding of `n`.
pub fn push_varint(out: &mut Vec<u8>, n: u64)
    ensures
        final(out)@ == old(out)@ + spec_varint(n),
{
    if n < 0xFD {
        out.push(n as u8);
        proof {
            assert(out@ =~= old(out)@ + spec_varint(n));
        }
    } else if n <= 0xFFFF {
        out.push(0xFD);
        push_le2(out, n as u16);
        proof {
            assert(out@ =~= old(out)@ + spec_varint(n));
        }
    } else if n <= 0xFFFFFFFF {
        out.push(0xFE);
        push_le4(out, n as u32);
        proof {
            assert(out@ =~= old(out)@ + spec_varint(n));
        }
    } else {
        out.push(0xFF);
        push_le8(out, n);
        proof {
            assert(out@ =~= old(out)@ + spec_varint(n));
        }
    }
}

/// Appends every byte of `data`.
pub fn push_bytes(out: &mut Vec<u8>, data: &Vec<u8>)
    ensures
        final(out)@ == old(out)@ + data@,
{
    let mut i: usize = 0;
    while i < data.len()
        invariant
            i <= data.len(),
            out@ == old(out)@ + data@.subrange(0, i as int),
        decreases data.len() - i,
    {
        out.push(data[i]);
        i = i + 1;
        proof {
            assert(out@ =~= old(out)@ + data@.subrange(0, i as int));
        }
    }
    proof {
        assert(data@.subrange(0, data@.len() as int) =~= data@);
    }
}

/// A fresh vector holding the same bytes.
pub fn copy_bytes(v: &Vec<u8>) -> (r: Vec<u8>)
    ensures
        r@ == v@,
{
    let mut out: Vec<u8> = Vec::new();
    push_bytes(&mut out, v);
    out
}

/// True when the two byte vectors hold the same bytes.
pub fn bytes_eq(a: &Vec<u8>, b: &Vec<u8>) -> (r: bool)
    ensures
        r == (a@ == b@),
{
    if a.len() != b.len() {
        proof {
            assert(a@ != b@);
        }
        return false;
    }
    let mut i: usize = 0;
    while i < a.len()
        invariant
            i <= a.len(),
            a@.len() == b@.len(),
            forall|j: int| 0 <= j < i ==> a@[j] == b@[j],
        decreases a.len() - i,
    {
        if a[i] != b[i] {
            return false;
        }
        i = i + 1;
    }
    proof {
        assert(a@ =~= b@);
    }
    true
}

} // verus!
