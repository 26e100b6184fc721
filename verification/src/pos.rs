//! A bounded 3D block coordinate, packed losslessly into one 64-bit word.
//!
//! The packed layout is a fixed contract: bits 38..64 hold `x`, bits 12..38
//! hold `z`, bits 0..12 hold `y`, each field in two's complement. Equality of
//! packed words therefore coincides with equality of the logical `(x, y, z)`
//! triples, which makes the word usable as a hash or set key.

use vstd::prelude::*;

verus! {

/// Largest magnitude accepted for the `x` coordinate (26-bit field).
pub const X_ABS_MAX: i32 = 0x1FF_FFFF;

/// Largest magnitude accepted for the `y` coordinate (12-bit field).
pub const Y_ABS_MAX: i16 = 0x7FF;

/// Largest magnitude accepted for the `z` coordinate (26-bit field).
pub const Z_ABS_MAX: i32 = 0x1FF_FFFF;

/// Whether the triple `(x, y, z)` lies inside the representable domain.
pub open spec fn in_domain(x: int, y: int, z: int) -> bool {
    &&& -(X_ABS_MAX as int) <= x <= X_ABS_MAX as int
    &&& -(Y_ABS_MAX as int) <= y <= Y_ABS_MAX as int
    &&& -(Z_ABS_MAX as int) <= z <= Z_ABS_MAX as int
}

/// The packed word for a triple: 26 bits of `x`, 26 bits of `z`, 12 bits of
/// `y`, each truncated to its field in two's complement.
pub open spec fn encode(x: i32, y: i16, z: i32) -> u64 {
    ((((x as i64) & 0x3FF_FFFF) << 38) | (((z as i64) & 0x3FF_FFFF) << 12) | ((y as i64)
        & 0xFFF)) as u64
}

/// The `x` field of a packed word, sign-extended from its 26 bits.
pub open spec fn decode_x(repr: u64) -> i32 {
    ((repr as i64) >> 38) as i32
}

/// The `y` field of a packed word, sign-extended from its 12 bits.
pub open spec fn decode_y(repr: u64) -> i16 {
    (((repr << 52) as i64) >> 52) as i16
}

/// The `z` field of a packed word, sign-extended from its 26 bits.
pub open spec fn decode_z(repr: u64) -> i32 {
    (((repr << 26) as i64) >> 38) as i32
}

/// One cell of the 3D integer lattice, held as its packed 64-bit word.
#[derive(Eq, PartialEq, Copy, Clone, Hash, Debug, Structural)]
pub struct BlockPos {
    repr: u64,
}

impl View for BlockPos {
    type V = (int, int, int);

    /// The logical `(x, y, z)` triple of the coordinate.
    closed spec fn view(&self) -> (int, int, int) {
        (decode_x(self.repr) as int, decode_y(self.repr) as int, decode_z(self.repr) as int)
    }
}

/// Decoding inverts encoding on every in-domain triple.
proof fn lemma_decode_encode(x: i32, y: i16, z: i32)
    requires
        in_domain(x as int, y as int, z as int),
    ensures
        decode_x(encode(x, y, z)) == x,
        decode_y(encode(x, y, z)) == y,
        decode_z(encode(x, y, z)) == z,
{
    assert(decode_x(encode(x, y, z)) == x && decode_y(encode(x, y, z)) == y && decode_z(
        encode(x, y, z),
    ) == z) by (bit_vector)
        requires
            -0x1FF_FFFF <= x <= 0x1FF_FFFF,
            -0x7FF <= y <= 0x7FF,
            -0x1FF_FFFF <= z <= 0x1FF_FFFF,
    ;
}

impl BlockPos {
    /// The packed 64-bit word itself.
    pub closed spec fn spec_packed(self) -> u64 {
        self.repr
    }

    /// Returns the packed 64-bit word: the canonical, hashable representation.
    #[verifier::when_used_as_spec(spec_packed)]
    pub fn packed(self) -> (r: u64)
        ensures
            r == self.spec_packed(),
    {
        self.repr
    }

    /// Validates the bounds and packs the triple; rejects (with `None`) any
    /// coordinate whose magnitude exceeds its axis bound, without truncation.
    pub fn from_xyz(x: i32, y: i16, z: i32) -> (r: Option<Self>)
        ensures
            r is Some <==> in_domain(x as int, y as int, z as int),
            r matches Some(p) ==> p@ == (x as int, y as int, z as int),
            r matches Some(p) ==> p.packed() == encode(x, y, z),
    {
        if -X_ABS_MAX <= x && x <= X_ABS_MAX && -Y_ABS_MAX <= y && y <= Y_ABS_MAX && -Z_ABS_MAX
            <= z && z <= Z_ABS_MAX {
            let repr = #[verifier::truncate] (((((x as i64) & 0x3FF_FFFF) << 38) | (((z as i64)
                & 0x3FF_FFFF) << 12) | ((y as i64) & 0xFFF)) as u64);
            proof {
                lemma_decode_encode(x, y, z);
            }
            Some(BlockPos { repr })
        } else {
            None
        }
    }

    /// The `x` coordinate; exact inverse of construction.
    pub fn x(self) -> (r: i32)
        ensures
            r as int == self@.0,
    {
        #[verifier::truncate] (((self.repr as i64) >> 38) as i32)
    }

    /// The `y` coordinate; exact inverse of construction.
    pub fn y(self) -> (r: i16)
        ensures
            r as int == self@.1,
    {
        #[verifier::truncate] ((((self.repr << 52) as i64) >> 52) as i16)
    }

    /// The `z` coordinate; exact inverse of construction.
    pub fn z(self) -> (r: i32)
        ensures
            r as int == self@.2,
    {
        #[verifier::truncate] ((((self.repr << 26) as i64) >> 38) as i32)
    }

    /// The neighbor one step along `+y`; `None` when that leaves the domain.
    pub fn up(self) -> (r: Option<Self>)
        ensures
            r is Some <==> in_domain(self@.0, self@.1 + 1, self@.2),
            r matches Some(q) ==> q@ == (self@.0, self@.1 + 1, self@.2),
    {
        let y = self.y();
        // The step is overflow-checked on the machine integer first, so a
        // wrapped value can never spuriously pass the range validation that
        // from_xyz performs afterwards.
        if y == i16::MAX {
            None
        } else {
            Self::from_xyz(self.x(), y + 1, self.z())
        }
    }

    /// The neighbor one step along `-y`; `None` when that leaves the domain.
    pub fn down(self) -> (r: Option<Self>)
        ensures
            r is Some <==> in_domain(self@.0, self@.1 - 1, self@.2),
            r matches Some(q) ==> q@ == (self@.0, self@.1 - 1, self@.2),
    {
        let y = self.y();
        if y == i16::MIN {
            None
        } else {
            Self::from_xyz(self.x(), y - 1, self.z())
        }
    }

    /// The neighbor one step along `+x`; `None` when that leaves the domain.
    pub fn east(self) -> (r: Option<Self>)
        ensures
            r is Some <==> in_domain(self@.0 + 1, self@.1, self@.2),
            r matches Some(q) ==> q@ == (self@.0 + 1, self@.1, self@.2),
    {
        let x = self.x();
        if x == i32::MAX {
            None
        } else {
            Self::from_xyz(x + 1, self.y(), self.z())
        }
    }

    /// The neighbor one step along `-x`; `None` when that leaves the domain.
    pub fn west(self) -> (r: Option<Self>)
        ensures
            r is Some <==> in_domain(self@.0 - 1, self@.1, self@.2),
            r matches Some(q) ==> q@ == (self@.0 - 1, self@.1, self@.2),
    {
        let x = self.x();
        if x == i32::MIN {
            None
        } else {
            Self::from_xyz(x - 1, self.y(), self.z())
        }
    }

    /// The neighbor one step along `+z`; `None` when that leaves the domain.
    pub fn south(self) -> (r: Option<Self>)
        ensures
            r is Some <==> in_domain(self@.0, self@.1, self@.2 + 1),
            r matches Some(q) ==> q@ == (self@.0, self@.1, self@.2 + 1),
    {
        let z = self.z();
        if z == i32::MAX {
            None
        } else {
            Self::from_xyz(self.x(), self.y(), z + 1)
        }
    }

    /// The neighbor one step along `-z`; `None` when that leaves the domain.
    pub fn north(self) -> (r: Option<Self>)
        ensures
            r is Some <==> in_domain(self@.0, self@.1, self@.2 - 1),
            r matches Some(q) ==> q@ == (self@.0, self@.1, self@.2 - 1),
    {
        let z = self.z();
        if z == i32::MIN {
            None
        } else {
            Self::from_xyz(self.x(), self.y(), z - 1)
        }
    }
}

/// The packed word determines the coordinate: two coordinates are equal
/// exactly when their packed words are equal.
pub proof fn lemma_packed_injective(a: BlockPos, b: BlockPos)
    ensures
        a == b <==> a.packed() == b.packed(),
{
}

/// Two coordinates are equal exactly when their logical triples are equal:
/// the packed word never aliases two distinct triples, and two equal triples
/// never pack to distinct words.
pub proof fn lemma_no_alias(a: BlockPos, b: BlockPos)
    ensures
        a == b <==> a@ == b@,
{
    let ar = a.repr;
    let br = b.repr;
    if a@ == b@ {
        assert(ar == br) by (bit_vector)
            requires
                decode_x(ar) == decode_x(br),
                decode_y(ar) == decode_y(br),
                decode_z(ar) == decode_z(br),
        ;
    }
}

/// Directional duality: a step up followed by a step down returns to the
/// starting coordinate (so `p.up()` then `.down()` gives back `p` whenever
/// both succeed).
pub proof fn lemma_up_down_dual(p: BlockPos, u: BlockPos, d: BlockPos)
    requires
        u@ == (p@.0, p@.1 + 1, p@.2),
        d@ == (u@.0, u@.1 - 1, u@.2),
    ensures
        d == p,
{
    lemma_no_alias(d, p);
}

/// Directional duality: a step west followed by a step east returns to the
/// starting coordinate.
pub proof fn lemma_west_east_dual(p: BlockPos, w: BlockPos, e: BlockPos)
    requires
        w@ == (p@.0 - 1, p@.1, p@.2),
        e@ == (w@.0 + 1, w@.1, w@.2),
    ensures
        e == p,
{
    lemma_no_alias(e, p);
}

/// Directional duality: a step south followed by a step north returns to the
/// starting coordinate.
pub proof fn lemma_south_north_dual(p: BlockPos, s: BlockPos, n: BlockPos)
    requires
        s@ == (p@.0, p@.1, p@.2 + 1),
        n@ == (s@.0, s@.1, s@.2 - 1),
    ensures
        n == p,
{
    lemma_no_alias(n, p);
}

} // verus!
