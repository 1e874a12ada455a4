use vstd::prelude::*;

verus! {

/// The packed value of four channels: alpha in the highest byte, then red,
/// green and blue in the lowest.
pub open spec fn pack(r: u8, g: u8, b: u8, a: u8) -> u32 {
    (a as int * 0x100_0000 + r as int * 0x1_0000 + g as int * 0x100 + b as int) as u32
}

/// One byte of a packed value: byte 0 is the lowest.
pub open spec fn byte_of(c: u32, k: nat) -> u8 {
    ((c as nat / pow256(k)) % 256) as u8
}

pub open spec fn pow256(k: nat) -> nat
    decreases k,
{
    if k == 0 {
        1
    } else {
        256 * pow256((k - 1) as nat)
    }
}

/// A color as four independent byte channels.
#[derive(Debug, Copy, Clone, PartialEq, Eq, Structural)]
pub struct rgba {
    pub r: u8,
    pub g: u8,
    pub b: u8,
    pub a: u8,
}

impl rgba {
    /// The packed pixel value of this color.
    pub open spec fn packed(self) -> u32 {
        pack(self.r, self.g, self.b, self.a)
    }

    pub fn new(r: u8, g: u8, b: u8, a: u8) -> (c: rgba)
        ensures
            c == (rgba { r, g, b, a }),
    {
        rgba { r, g, b, a }
    }

    /// Packs the channels into one value: alpha, red, green, blue from the
    /// highest byte down.
    #[inline]
    pub fn convert_to_u32(self) -> (v: u32)
        ensures
            v == self.packed(),
            byte_of(v, 3) == self.a,
            byte_of(v, 2) == self.r,
            byte_of(v, 1) == self.g,
            byte_of(v, 0) == self.b,
    {
        let v = ((self.a as u32) << 24) | ((self.r as u32) << 16) | ((self.g as u32) << 8)
            | (self.b as u32);
        proof {
            lemma_pack_bits(self.r, self.g, self.b, self.a);
            lemma_bytes_of_pack(self.r, self.g, self.b, self.a);
        }
        v
    }

    /// Splits a packed value into its four channels.
    pub fn from_u32(color: u32) -> (c: rgba)
        ensures
            c.a == byte_of(color, 3),
            c.r == byte_of(color, 2),
            c.g == byte_of(color, 1),
            c.b == byte_of(color, 0),
            c.packed() == color,
    {
        let a = ((color >> 24) & 0xFF) as u8;
        let r = ((color >> 16) & 0xFF) as u8;
        let g = ((color >> 8) & 0xFF) as u8;
        let b = (color & 0xFF) as u8;
        proof {
            lemma_unpack_bits(color);
        }
        rgba::new(r, g, b, a)
    }
}

proof fn lemma_pack_bits(r: u8, g: u8, b: u8, a: u8)
    ensures
        ((a as u32) << 24) | ((r as u32) << 16) | ((g as u32) << 8) | (b as u32) == pack(r, g, b, a),
{
    assert(((a as u32) << 24) | ((r as u32) << 16) | ((g as u32) << 8) | (b as u32)
        == ((a as u32) * 0x100_0000 + (r as u32) * 0x1_0000 + (g as u32) * 0x100 + (b as u32)) as u32)
        by (bit_vector);
}

proof fn lemma_unpack_bits(c: u32)
    ensures
        ((c >> 24) & 0xFF) as u8 == byte_of(c, 3),
        ((c >> 16) & 0xFF) as u8 == byte_of(c, 2),
        ((c >> 8) & 0xFF) as u8 == byte_of(c, 1),
        (c & 0xFF) as u8 == byte_of(c, 0),
        pack(
            ((c >> 16) & 0xFF) as u8,
            ((c >> 8) & 0xFF) as u8,
            (c & 0xFF) as u8,
            ((c >> 24) & 0xFF) as u8,
        ) == c,
{
    reveal_with_fuel(pow256, 4);
    assert(((c >> 24) & 0xFF) == (c / 0x100_0000) % 256) by (bit_vector);
    assert(((c >> 16) & 0xFF) == (c / 0x1_0000) % 256) by (bit_vector);
    assert(((c >> 8) & 0xFF) == (c / 0x100) % 256) by (bit_vector);
    assert((c & 0xFF) == c % 256) by (bit_vector);
    assert(pow256(0) == 1);
    assert(c as nat / 1 == c as nat);
    assert(((c >> 24) & 0xFF) * 0x100_0000 + ((c >> 16) & 0xFF) * 0x1_0000 + ((c >> 8) & 0xFF)
        * 0x100 + (c & 0xFF) == c) by (bit_vector);
}

proof fn lemma_bytes_of_pack(r: u8, g: u8, b: u8, a: u8)
    ensures
        byte_of(pack(r, g, b, a), 3) == a,
        byte_of(pack(r, g, b, a), 2) == r,
        byte_of(pack(r, g, b, a), 1) == g,
        byte_of(pack(r, g, b, a), 0) == b,
{
    let c = pack(r, g, b, a);
    lemma_pack_bits(r, g, b, a);
    lemma_unpack_bits(c);
    assert(((((a as u32) << 24) | ((r as u32) << 16) | ((g as u32) << 8) | (b as u32)) >> 24)
        & 0xFF == a) by (bit_vector);
    assert(((((a as u32) << 24) | ((r as u32) << 16) | ((g as u32) << 8) | (b as u32)) >> 16)
        & 0xFF == r) by (bit_vector);
    assert(((((a as u32) << 24) | ((r as u32) << 16) | ((g as u32) << 8) | (b as u32)) >> 8)
        & 0xFF == g) by (bit_vector);
    assert((((a as u32) << 24) | ((r as u32) << 16) | ((g as u32) << 8) | (b as u32)) & 0xFF
        == b) by (bit_vector);
}

/// Unpacking a packed color gives back its four channels, for every choice
/// of the four bytes.
pub proof fn lemma_pack_unpack(r: u8, g: u8, b: u8, a: u8)
    ensures
        byte_of(pack(r, g, b, a), 2) == r,
        byte_of(pack(r, g, b, a), 1) == g,
        byte_of(pack(r, g, b, a), 0) == b,
        byte_of(pack(r, g, b, a), 3) == a,
{
    lemma_bytes_of_pack(r, g, b, a);
}

/// Packing the channels of an unpacked value gives back that value, for
/// every 32-bit value.
pub proof fn lemma_unpack_pack(c: u32)
    ensures
        pack(byte_of(c, 2), byte_of(c, 1), byte_of(c, 0), byte_of(c, 3)) == c,
{
    lemma_unpack_bits(c);
}

} // verus!
