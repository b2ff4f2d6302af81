//! Fixed-width unsigned integers that are always read as big-endian,
//! whatever the byte order of the host.

use vstd::prelude::*;

verus! {

/// The big-endian 32-bit word held by `b[off..off + 4]`.
pub open spec fn be_u32_at(b: Seq<u8>, off: int) -> u32 {
    (b[off] as int * 0x100_0000 + b[off + 1] as int * 0x1_0000 + b[off + 2] as int * 0x100
        + b[off + 3] as int) as u32
}

/// The big-endian 64-bit word held by `b[off..off + 8]`.
pub open spec fn be_u64_at(b: Seq<u8>, off: int) -> u64 {
    (be_u32_at(b, off) as int * 0x1_0000_0000 + be_u32_at(b, off + 4) as int) as u64
}

/// The four bytes that encode `v` most significant first.
pub open spec fn be_bytes_u32(v: u32) -> Seq<u8> {
    seq![
        (v / 0x100_0000) as u8,
        (v / 0x1_0000 % 0x100) as u8,
        (v / 0x100 % 0x100) as u8,
        (v % 0x100) as u8,
    ]
}

/// The eight bytes that encode `v` most significant first.
pub open spec fn be_bytes_u64(v: u64) -> Seq<u8> {
    be_bytes_u32((v / 0x1_0000_0000) as u32) + be_bytes_u32((v % 0x1_0000_0000) as u32)
}

/// Decoding the encoding of a word gives the word back.
pub proof fn lemma_be_u32_round_trip(v: u32)
    ensures
        be_u32_at(be_bytes_u32(v), 0) == v,
{
    let b = be_bytes_u32(v);
    assert(b[0] as int * 0x100_0000 + b[1] as int * 0x1_0000 + b[2] as int * 0x100 + b[3] as int
        == v) by (nonlinear_arith)
        requires
            b[0] == v / 0x100_0000,
            b[1] == v / 0x1_0000 % 0x100,
            b[2] == v / 0x100 % 0x100,
            b[3] == v % 0x100,
    ;
}

/// Encoding the word that four bytes decode to gives those bytes back.
pub proof fn lemma_be_bytes_u32_round_trip(b: Seq<u8>)
    requires
        b.len() == 4,
    ensures
        be_bytes_u32(be_u32_at(b, 0)) == b,
{
    let v = be_u32_at(b, 0);
    let (b0, b1, b2, b3) = (b[0], b[1], b[2], b[3]);
    assert(v / 0x100_0000 == b0 && v / 0x1_0000 % 0x100 == b1 && v / 0x100 % 0x100 == b2 && v
        % 0x100 == b3) by (nonlinear_arith)
        requires
            v == b0 as int * 0x100_0000 + b1 as int * 0x1_0000 + b2 as int * 0x100 + b3 as int,
            b0 < 0x100,
            b1 < 0x100,
            b2 < 0x100,
            b3 < 0x100,
    ;
    assert(be_bytes_u32(v) =~= b);
}

/// A 32-bit unsigned integer stored big-endian.
#[derive(Clone, Copy, PartialEq, Eq, Structural, Debug)]
pub struct BEu32(u32);

impl View for BEu32 {
    type V = u32;

    closed spec fn view(&self) -> u32 {
        self.0
    }
}

impl BEu32 {
    /// Read four bytes, most significant first.
    pub fn new(bytes: [u8; 4]) -> (r: Self)
        ensures
            r@ == be_u32_at(bytes@, 0),
    {
        let v: u32 = bytes[0] as u32 * 0x100_0000 + bytes[1] as u32 * 0x1_0000 + bytes[2] as u32
            * 0x100 + bytes[3] as u32;
        BEu32(v)
    }

    /// The value as a native integer.
    pub fn get(self) -> (r: u32)
        ensures
            r == self@,
    {
        self.0
    }

    /// The four bytes that encode the value, most significant first.
    pub fn raw(self) -> (r: [u8; 4])
        ensures
            r@ == be_bytes_u32(self@),
            be_u32_at(r@, 0) == self@,
    {
        let v = self.0;
        let r = [(v / 0x100_0000) as u8, (v / 0x1_0000 % 0x100) as u8, (v / 0x100 % 0x100) as u8, (
        v % 0x100) as u8];
        assert(r@ =~= be_bytes_u32(v));
        proof {
            lemma_be_u32_round_trip(v);
        }
        r
    }
}

/// A 64-bit unsigned integer stored big-endian.
#[derive(Clone, Copy, PartialEq, Eq, Structural, Debug)]
pub struct BEu64(u64);

impl View for BEu64 {
    type V = u64;

    closed spec fn view(&self) -> u64 {
        self.0
    }
}

impl BEu64 {
    /// Read eight bytes, most significant first.
    pub fn new(bytes: [u8; 8]) -> (r: Self)
        ensures
            r@ == be_u64_at(bytes@, 0),
    {
        let hi = BEu32::new([bytes[0], bytes[1], bytes[2], bytes[3]]).get();
        let lo = BEu32::new([bytes[4], bytes[5], bytes[6], bytes[7]]).get();
        BEu64(hi as u64 * 0x1_0000_0000 + lo as u64)
    }

    /// The value as a native integer.
    pub fn get(self) -> (r: u64)
        ensures
            r == self@,
    {
        self.0
    }

    /// The eight bytes that encode the value, most significant first.
    pub fn raw(self) -> (r: [u8; 8])
        ensures
            r@ == be_bytes_u64(self@),
            be_u64_at(r@, 0) == self@,
    {
        let v = self.0;
        let hi = BEu32((v / 0x1_0000_0000) as u32).raw();
        let lo = BEu32((v % 0x1_0000_0000) as u32).raw();
        let r = [hi[0], hi[1], hi[2], hi[3], lo[0], lo[1], lo[2], lo[3]];
        assert(r@ =~= be_bytes_u64(v));
        assert(r@.subrange(0, 4) =~= hi@);
        assert(r@.subrange(4, 8) =~= lo@);
        r
    }
}

} // verus!
