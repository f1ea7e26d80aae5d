//! Little-endian byte encodings used on the wire, and small byte-vector
//! helpers shared by the pipeline stages.

use vstd::prelude::*;

verus! {

/// The `i`-th little-endian byte of a 32-bit value.
pub open spec fn u32_le_byte(x: u32, i: int) -> u8 {
    (((x as int) / vstd::arithmetic::power::pow(256, i as nat)) % 256) as u8
}

/// The four little-endian bytes of a 32-bit value.
pub open spec fn u32_le(x: u32) -> Seq<u8> {
    seq![u32_le_byte(x, 0), u32_le_byte(x, 1), u32_le_byte(x, 2), u32_le_byte(x, 3)]
}

/// The 32-bit value read back from four little-endian bytes.
pub open spec fn u32_from_le(b: Seq<u8>) -> u32 {
    (b[0] + 256 * (b[1] + 256 * (b[2] + 256 * (b[3] as nat)))) as u32
}

proof fn lemma_pow256_small()
    ensures
        vstd::arithmetic::power::pow(256, 0) == 1,
        vstd::arithmetic::power::pow(256, 1) == 256,
        vstd::arithmetic::power::pow(256, 2) == 65536,
        vstd::arithmetic::power::pow(256, 3) == 16777216,
{
    reveal_with_fuel(vstd::arithmetic::power::pow, 4);
}

/// Writing a `u32` to four little-endian bytes and reading them back is the
/// identity.
pub proof fn lemma_u32_le_round_trip(x: u32)
    ensures
        u32_from_le(u32_le(x)) == x,
{
    lemma_pow256_small();
    let b = u32_le(x);
    assert(b[0] + 256 * (b[1] + 256 * (b[2] + 256 * (b[3] as nat))) == x) by (nonlinear_arith)
        requires
            b[0] == ((x as nat) % 256) as u8,
            b[1] == (((x as nat) / 256) % 256) as u8,
            b[2] == (((x as nat) / 65536) % 256) as u8,
            b[3] == (((x as nat) / 16777216) % 256) as u8,
    ;
}

/// The eight little-endian bytes of a 64-bit value: its low word followed by
/// its high word.
pub open spec fn u64_le(x: u64) -> Seq<u8> {
    u32_le((x % 0x1_0000_0000) as u32) + u32_le((x / 0x1_0000_0000) as u32)
}

/// Two 32-bit values with the same little-endian bytes are equal.
pub proof fn lemma_u32_le_injective(x: u32, y: u32)
    requires
        u32_le(x) == u32_le(y),
    ensures
        x == y,
{
    lemma_u32_le_round_trip(x);
    lemma_u32_le_round_trip(y);
}

/// Two 64-bit values with the same little-endian bytes are equal.
pub proof fn lemma_u64_le_injective(x: u64, y: u64)
    requires
        u64_le(x) == u64_le(y),
    ensures
        x == y,
{
    let xl = (x % 0x1_0000_0000) as u32;
    let xh = (x / 0x1_0000_0000) as u32;
    let yl = (y % 0x1_0000_0000) as u32;
    let yh = (y / 0x1_0000_0000) as u32;
    assert(u64_le(x).subrange(0, 4) =~= u32_le(xl));
    assert(u64_le(x).subrange(4, 8) =~= u32_le(xh));
    assert(u64_le(y).subrange(0, 4) =~= u32_le(yl));
    assert(u64_le(y).subrange(4, 8) =~= u32_le(yh));
    lemma_u32_le_injective(xl, yl);
    lemma_u32_le_injective(xh, yh);
    vstd::arithmetic::div_mod::lemma_fundamental_div_mod(x as int, 0x1_0000_0000);
    vstd::arithmetic::div_mod::lemma_fundamental_div_mod(y as int, 0x1_0000_0000);
}

/// Appends the eight little-endian bytes of `x` to `out`.
pub fn push_u64_le(out: &mut Vec<u8>, x: u64)
    ensures
        final(out)@ == old(out)@ + u64_le(x),
{
    let lo: u32 = (x % 0x1_0000_0000) as u32;
    let hi: u32 = (x / 0x1_0000_0000) as u32;
    push_u32_le(out, lo);
    push_u32_le(out, hi);
    proof {
        assert(out@ =~= old(out)@ + u64_le(x));
    }
}

/// Appends the four little-endian bytes of `x` to `out`.
pub fn push_u32_le(out: &mut Vec<u8>, x: u32)
    ensures
        final(out)@ == old(out)@ + u32_le(x),
{
    proof {
        lemma_pow256_small();
    }
    let b0: u8 = (x % 256) as u8;
    let b1: u8 = ((x / 256) % 256) as u8;
    let b2: u8 = ((x / 65536) % 256) as u8;
    let b3: u8 = ((x / 16777216) % 256) as u8;
    out.push(b0);
    out.push(b1);
    out.push(b2);
    out.push(b3);
    proof {
        assert(out@ =~= old(out)@ + u32_le(x));
    }
}

/// Reads a `u32` from four little-endian bytes of `data` starting at `at`.
pub fn read_u32_le(data: &[u8], at: usize) -> (r: u32)
    requires
        at + 4 <= data@.len(),
    ensures
        r == u32_from_le(data@.subrange(at as int, at + 4)),
{
    let b0: u32 = data[at] as u32;
    let b1: u32 = data[at + 1] as u32;
    let b2: u32 = data[at + 2] as u32;
    let b3: u32 = data[at + 3] as u32;
    let r: u32 = b0 + 256 * b1 + 65536 * b2 + 16777216 * b3;
    proof {
        let s = data@.subrange(at as int, at + 4);
        assert(s[0] == data@[at as int]);
        assert(s[1] == data@[at as int + 1]);
        assert(s[2] == data@[at as int + 2]);
        assert(s[3] == data@[at as int + 3]);
    }
    r
}

/// Appends every byte of `src` to `dst`.
pub fn extend_bytes(dst: &mut Vec<u8>, src: &[u8])
    ensures
        final(dst)@ == old(dst)@ + src@,
{
    let mut i: usize = 0;
    while i < src.len()
        invariant
            i <= src@.len(),
            dst@ == old(dst)@ + src@.subrange(0, i as int),
        decreases src@.len() - i,
    {
        dst.push(src[i]);
        i = i + 1;
        proof {
            assert(dst@ =~= old(dst)@ + src@.subrange(0, i as int));
        }
    }
    proof {
        assert(src@.subrange(0, src@.len() as int) =~= src@);
    }
}

/// Whether two byte strings hold the same bytes.
pub fn bytes_eq(a: &[u8], b: &[u8]) -> (r: bool)
    ensures
        r <==> a@ == b@,
{
    if a.len() != b.len() {
        return false;
    }
    let mut i: usize = 0;
    while i < a.len()
        invariant
            i <= a@.len(),
            a@.len() == b@.len(),
            forall|j: int| 0 <= j < i ==> a@[j] == b@[j],
        decreases a@.len() - i,
    {
        if a[i] != b[i] {
            proof {
                assert(a@[i as int] != b@[i as int]);
            }
            return false;
        }
        i = i + 1;
    }
    proof {
        assert(a@ =~= b@);
    }
    true
}

/// Whether two 32-byte identifiers hold the same bytes.
pub fn bytes32_eq(a: &[u8; 32], b: &[u8; 32]) -> (r: bool)
    ensures
        r <==> a@ == b@,
{
    let mut i: usize = 0;
    while i < 32
        invariant
            i <= 32,
            forall|j: int| 0 <= j < i ==> a@[j] == b@[j],
        decreases 32 - i,
    {
        if a[i] != b[i] {
            proof {
                assert(a@[i as int] != b@[i as int]);
            }
            return false;
        }
        i = i + 1;
    }
    proof {
        assert(a@ =~= b@);
    }
    true
}

} // verus!
