//! Bit-packed 3-D coordinates.
//!
//! A block coordinate `{x, y, z}` is stored as a single 64-bit signed
//! integer: 26 bits for `x`, 12 bits for `y`, 26 bits for `z`, packed as
//! `x << 38 | y << 26 | z`.  `x` and `z` are kept in two's complement and
//! restored by sign extension; `y` is unsigned.  Packing a coordinate
//! outside the documented ranges silently truncates, so callers must
//! validate first if that matters to them.

use vstd::prelude::*;

verus! {

/// A 3-D integer coordinate.  The packed form is faithful for
/// `x` and `z` in `[-2^25, 2^25 - 1]` and `y` in `[0, 4095]`.
#[derive(Clone, Copy, Debug, PartialEq, Eq, Structural)]
pub struct Position {
    pub x: i64,
    pub y: i64,
    pub z: i64,
}

/// The packed form of three coordinates, before the final cast to `i64`:
/// each component is truncated to its field width and shifted into place.
pub open spec fn pack_bits(x: i64, y: i64, z: i64) -> u64 {
    (((x as u64) & 0x3FF_FFFF) << 38) | (((y as u64) & 0xFFF) << 26) | ((z as u64) & 0x3FF_FFFF)
}

/// The `x` coordinate encoded in a packed value: bits 38..64, sign-extended.
pub open spec fn unpack_x(v: i64) -> i64 {
    let field = ((v as u64) >> 38) & 0x3FF_FFFF;
    if field >= 0x200_0000 {
        (field - 0x400_0000) as i64
    } else {
        field as i64
    }
}

/// The `y` coordinate encoded in a packed value: bits 26..38, unsigned.
pub open spec fn unpack_y(v: i64) -> i64 {
    (((v as u64) >> 26) & 0xFFF) as i64
}

/// The `z` coordinate encoded in a packed value: bits 0..26, sign-extended.
pub open spec fn unpack_z(v: i64) -> i64 {
    let field = (v as u64) & 0x3FF_FFFF;
    if field >= 0x200_0000 {
        (field - 0x400_0000) as i64
    } else {
        field as i64
    }
}

impl Position {
    /// The coordinate ranges on which packing loses nothing.
    pub open spec fn in_range(self) -> bool {
        &&& -0x200_0000 <= self.x < 0x200_0000
        &&& 0 <= self.y < 0x1000
        &&& -0x200_0000 <= self.z < 0x200_0000
    }

    /// Packs the coordinate into one signed 64-bit value.
    pub fn as_i64(&self) -> (r: i64)
        ensures
            r == pack_bits(self.x, self.y, self.z) as i64,
    {
        let xu: u64 = #[verifier::truncate] (self.x as u64) & 0x3FF_FFFF;
        let yu: u64 = #[verifier::truncate] (self.y as u64) & 0xFFF;
        let zu: u64 = #[verifier::truncate] (self.z as u64) & 0x3FF_FFFF;
        #[verifier::truncate] (((xu << 38) | (yu << 26) | zu) as i64)
    }

    /// Unpacks a signed 64-bit value into the coordinate it encodes.
    pub fn from_i64(v: i64) -> (p: Position)
        ensures
            p.x == unpack_x(v),
            p.y == unpack_y(v),
            p.z == unpack_z(v),
    {
        let u: u64 = #[verifier::truncate] (v as u64);
        let xf: u64 = (u >> 38) & 0x3FF_FFFF;
        let yf: u64 = (u >> 26) & 0xFFF;
        let zf: u64 = u & 0x3FF_FFFF;
        assert(xf < 0x400_0000 && yf < 0x1000 && zf < 0x400_0000) by (bit_vector)
            requires
                xf == (u >> 38) & 0x3FF_FFFF,
                yf == (u >> 26) & 0xFFF,
                zf == u & 0x3FF_FFFF,
        ;
        let x: i64 = if xf >= 0x200_0000 {
            (xf as i64) - 0x400_0000
        } else {
            xf as i64
        };
        let z: i64 = if zf >= 0x200_0000 {
            (zf as i64) - 0x400_0000
        } else {
            zf as i64
        };
        Position { x, y: yf as i64, z }
    }
}

/// Packing then unpacking restores every coordinate that lies in the
/// documented ranges: the two conversions are a bijection there.
pub proof fn lemma_pack_unpack(p: Position)
    requires
        p.in_range(),
    ensures
        unpack_x(pack_bits(p.x, p.y, p.z) as i64) == p.x,
        unpack_y(pack_bits(p.x, p.y, p.z) as i64) == p.y,
        unpack_z(pack_bits(p.x, p.y, p.z) as i64) == p.z,
{
    let x = p.x;
    let y = p.y;
    let z = p.z;
    assert(unpack_x(pack_bits(x, y, z) as i64) == x && unpack_y(pack_bits(x, y, z) as i64) == y
        && unpack_z(pack_bits(x, y, z) as i64) == z) by (bit_vector)
        requires
            -0x200_0000 <= x < 0x200_0000,
            0 <= y < 0x1000,
            -0x200_0000 <= z < 0x200_0000,
    ;
}

/// The other direction of the bijection: every packed value unpacks to
/// a coordinate inside the documented ranges, and that coordinate packs
/// back to the same value.
pub proof fn lemma_unpack_pack(v: i64)
    ensures
        (Position { x: unpack_x(v), y: unpack_y(v), z: unpack_z(v) }).in_range(),
        pack_bits(unpack_x(v), unpack_y(v), unpack_z(v)) as i64 == v,
{
    assert(-0x200_0000 <= unpack_x(v) < 0x200_0000 && 0 <= unpack_y(v) < 0x1000 && -0x200_0000
        <= unpack_z(v) < 0x200_0000 && pack_bits(unpack_x(v), unpack_y(v), unpack_z(v)) as i64
        == v) by (bit_vector);
}

} // verus!
