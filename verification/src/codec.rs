//! The fixed-width byte codec capability, and the cell types that carry it:
//! `Voxel` (an RGBA color with reserved trailing bytes) and `u32`
//! (little-endian, handy for plain integer grids).

use vstd::bytes::spec_u32_from_le_bytes;
use vstd::bytes::spec_u32_to_le_bytes;
use vstd::prelude::*;

verus! {

/// A type that can be viewed as, and rebuilt from, a byte window of a fixed
/// width between 1 and 255 bytes.
///
/// `encoded` is the mathematical byte image of a value; it is injective, so a
/// value decoded from another value's image is that value again.
pub trait Codec: Sized {
    /// The fixed byte width of one encoded value.
    spec fn size_spec() -> nat;

    /// The byte image of this value, always exactly `size_spec()` bytes.
    spec fn encoded(self) -> Seq<u8>;

    /// The width lies in the supported range.
    proof fn lemma_size()
        ensures
            1 <= Self::size_spec() <= 255,
    ;

    /// Every byte image has exactly the fixed width.
    proof fn lemma_encoded_len(v: Self)
        ensures
            v.encoded().len() == Self::size_spec(),
    ;

    /// Distinct values have distinct byte images, so decoding is exact.
    proof fn lemma_encoded_injective(a: Self, b: Self)
        requires
            a.encoded() == b.encoded(),
        ensures
            a == b,
    ;

    /// The fixed byte width, as a runtime value.
    fn size() -> (r: u8)
        ensures
            r as nat == Self::size_spec(),
    ;

    /// The byte image of this value.
    fn as_slice(&self) -> (r: Vec<u8>)
        ensures
            r@ == self.encoded(),
    ;

    /// Rebuilds the value whose byte image is `bytes`. The window must be
    /// exactly `size_spec()` bytes wide.
    fn from_slice(bytes: &[u8]) -> (r: Self)
        requires
            bytes@.len() == Self::size_spec(),
        ensures
            r.encoded() == bytes@,
    ;
}

/// A grid cell: an 8-byte record whose first 4 bytes are an RGBA color and
/// whose last 4 bytes are reserved, zero-filled metadata. Alpha 0 marks an
/// empty cell.
#[derive(Clone, Copy, Debug, Eq, PartialEq)]
pub struct Voxel([u8; 8]);

impl View for Voxel {
    type V = Seq<u8>;

    closed spec fn view(&self) -> Seq<u8> {
        self.0@
    }
}

/// The byte record of a voxel is always exactly 8 bytes wide.
pub broadcast proof fn lemma_voxel_view_len(v: Voxel)
    ensures
        #[trigger] v@.len() == 8,
{
}

impl Voxel {
    /// Builds a voxel from a 4-byte RGBA color, zero-padding the reserved
    /// bytes.
    pub fn from_rgba(rgba: &[u8]) -> (v: Voxel)
        requires
            rgba@.len() == 4,
        ensures
            v@ == rgba@ + Seq::new(4, |i: int| 0u8),
    {
        let v = Voxel([rgba[0], rgba[1], rgba[2], rgba[3], 0, 0, 0, 0]);
        proof {
            assert(v@ =~= rgba@ + Seq::new(4, |i: int| 0u8));
        }
        v
    }

    /// The first 4 bytes of the record: red, green, blue, alpha.
    pub fn as_rgba(&self) -> (r: [u8; 4])
        ensures
            r@ == self@.subrange(0, 4),
    {
        let r = [self.0[0], self.0[1], self.0[2], self.0[3]];
        proof {
            assert(r@ =~= self@.subrange(0, 4));
        }
        r
    }
}

impl Codec for Voxel {
    open spec fn size_spec() -> nat {
        8
    }

    open spec fn encoded(self) -> Seq<u8> {
        self@
    }

    proof fn lemma_size() {
    }

    proof fn lemma_encoded_len(v: Self) {
    }

    proof fn lemma_encoded_injective(a: Self, b: Self) {
        assert(a.0 =~= b.0);
    }

    fn size() -> (r: u8) {
        8
    }

    fn as_slice(&self) -> (r: Vec<u8>) {
        let mut r: Vec<u8> = Vec::new();
        let mut i: usize = 0;
        while i < 8
            invariant
                i <= 8,
                r@ == self@.subrange(0, i as int),
            decreases 8 - i,
        {
            r.push(self.0[i]);
            i = i + 1;
            proof {
                assert(r@ =~= self@.subrange(0, i as int));
            }
        }
        proof {
            assert(r@ =~= self@);
        }
        r
    }

    fn from_slice(bytes: &[u8]) -> (r: Self) {
        let v = Voxel(
            [bytes[0], bytes[1], bytes[2], bytes[3], bytes[4], bytes[5], bytes[6], bytes[7]],
        );
        proof {
            assert(v@ =~= bytes@);
        }
        v
    }
}

impl Codec for u32 {
    open spec fn size_spec() -> nat {
        4
    }

    open spec fn encoded(self) -> Seq<u8> {
        spec_u32_to_le_bytes(self)
    }

    proof fn lemma_size() {
    }

    proof fn lemma_encoded_len(v: Self) {
        vstd::bytes::lemma_auto_spec_u32_to_from_le_bytes();
    }

    proof fn lemma_encoded_injective(a: Self, b: Self) {
        vstd::bytes::lemma_auto_spec_u32_to_from_le_bytes();
        assert(spec_u32_to_le_bytes(a).len() == 4);
        assert(spec_u32_to_le_bytes(b).len() == 4);
        assert(spec_u32_from_le_bytes(spec_u32_to_le_bytes(a)) == a);
        assert(spec_u32_from_le_bytes(spec_u32_to_le_bytes(b)) == b);
    }

    fn size() -> (r: u8) {
        4
    }

    fn as_slice(&self) -> (r: Vec<u8>) {
        vstd::bytes::u32_to_le_bytes(*self)
    }

    fn from_slice(bytes: &[u8]) -> (r: Self) {
        let r = vstd::bytes::u32_from_le_bytes(bytes);
        proof {
            vstd::bytes::lemma_auto_spec_u32_to_from_le_bytes();
        }
        r
    }
}

/// A voxel built from a 4-byte color reproduces that color exactly through
/// `as_rgba`, and its reserved trailing bytes are all zero.
pub proof fn lemma_voxel_rgba_round_trip(v: Voxel, rgba: Seq<u8>)
    requires
        rgba.len() == 4,
        v@ == rgba + Seq::new(4, |i: int| 0u8),
    ensures
        v@.subrange(0, 4) == rgba,
        forall|i: int| 4 <= i < 8 ==> v@[i] == 0,
{
    assert(v@.subrange(0, 4) =~= rgba);
}

} // verus!
