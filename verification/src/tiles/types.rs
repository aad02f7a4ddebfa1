//! Chunk coordinates and the conversions from pixel and tile space.
use vstd::arithmetic::div_mod::{
    lemma_div_multiples_vanish_fancy, lemma_fundamental_div_mod,
    lemma_fundamental_div_mod_converse, lemma_mod_pos_bound,
};
use vstd::prelude::*;

verus! {

/// Tile identifier. Zero means "empty" on every layer.
pub type TileId = u16;

/// Position of a chunk in chunk coordinates (not pixels, not tiles).
#[derive(Debug, Clone, Copy, PartialEq, Eq, Hash, Structural)]
pub struct ChunkPos {
    pub x: i32,
    pub y: i32,
}

/// The value nearest to `v` that an `i32` can hold.
pub open spec fn clamp_i32(v: int) -> int {
    if v < i32::MIN {
        i32::MIN as int
    } else if v > i32::MAX {
        i32::MAX as int
    } else {
        v
    }
}

/// Distance between two integers on the number line.
pub open spec fn abs_diff(a: int, b: int) -> int {
    if a >= b {
        a - b
    } else {
        b - a
    }
}

/// The larger of two integers.
pub open spec fn max_int(a: int, b: int) -> int {
    if a >= b {
        a
    } else {
        b
    }
}

/// Floor division of a negative number, written with the division of a
/// non-negative one.
pub proof fn lemma_floor_div_negative(x: int, d: int)
    requires
        x < 0,
        d > 0,
    ensures
        x / d == -((-(x + 1)) / d) - 1,
        x % d == d - 1 - ((-(x + 1)) % d),
{
    let n = -(x + 1);
    lemma_fundamental_div_mod(n, d);
    lemma_mod_pos_bound(n, d);
    let q = -(n / d) - 1;
    let r = d - 1 - (n % d);
    assert(x == q * d + r) by (nonlinear_arith)
        requires
            n == d * (n / d) + (n % d),
            x == -(n + 1),
            q == -(n / d) - 1,
            r == d - 1 - (n % d),
    ;
    lemma_fundamental_div_mod_converse(x, d, q, r);
}

/// Floor division: the quotient rounded towards negative infinity.
pub fn floor_div(x: i64, d: i64) -> (q: i64)
    requires
        d > 0,
    ensures
        q == x as int / d as int,
{
    if x >= 0 {
        x / d
    } else {
        let n: i64 = -(x + 1);
        let qn: i64 = n / d;
        proof {
            lemma_floor_div_negative(x as int, d as int);
            vstd::arithmetic::div_mod::lemma_div_pos_is_pos(n as int, d as int);
            assert(qn <= n) by (nonlinear_arith)
                requires
                    qn == n as int / d as int,
                    n >= 0,
                    d > 0,
            ;
        }
        -qn - 1
    }
}

/// The remainder that goes with `floor_div`: always in `0..d`.
pub fn floor_mod(x: i64, d: i64) -> (r: i64)
    requires
        d > 0,
    ensures
        r == x as int % d as int,
        0 <= r < d,
{
    if x >= 0 {
        proof {
            lemma_mod_pos_bound(x as int, d as int);
        }
        x % d
    } else {
        let n: i64 = -(x + 1);
        let rn: i64 = n % d;
        proof {
            lemma_floor_div_negative(x as int, d as int);
            lemma_mod_pos_bound(n as int, d as int);
        }
        d - 1 - rn
    }
}

/// Narrows to `i32`, stopping at the ends of its range.
pub fn saturate_i32(v: i64) -> (r: i32)
    ensures
        r == clamp_i32(v as int),
{
    if v < -2147483648 {
        -2147483648
    } else if v > 2147483647 {
        2147483647
    } else {
        v as i32
    }
}

impl ChunkPos {
    /// The position with the given chunk coordinates.
    pub fn new(x: i32, y: i32) -> (pos: Self)
        ensures
            pos == (ChunkPos { x, y }),
    {
        Self { x, y }
    }

    /// The chunk that holds the pixel `(world_x, world_y)`, for chunks
    /// `chunk_pixel_size` pixels wide: floor division, so that pixel -1 lies
    /// in chunk -1. A quotient outside `i32` stops at the end of its range.
    pub open spec fn spec_from_world(world_x: int, world_y: int, chunk_pixel_size: int) -> ChunkPos {
        ChunkPos {
            x: clamp_i32(world_x / chunk_pixel_size) as i32,
            y: clamp_i32(world_y / chunk_pixel_size) as i32,
        }
    }

    /// Convert from world position (in pixels) to chunk position.
    pub fn from_world(world_x: i64, world_y: i64, chunk_pixel_size: i32) -> (pos: Self)
        requires
            chunk_pixel_size > 0,
        ensures
            pos == Self::spec_from_world(world_x as int, world_y as int, chunk_pixel_size as int),
    {
        Self {
            x: saturate_i32(floor_div(world_x, chunk_pixel_size as i64)),
            y: saturate_i32(floor_div(world_y, chunk_pixel_size as i64)),
        }
    }

    /// The chunk that holds the tile `(tile_x, tile_y)`, for chunks
    /// `chunk_size` tiles wide: floor division, so that tile -1 lies in
    /// chunk -1.
    pub open spec fn spec_from_tile(tile_x: int, tile_y: int, chunk_size: int) -> ChunkPos {
        ChunkPos { x: (tile_x / chunk_size) as i32, y: (tile_y / chunk_size) as i32 }
    }

    /// Convert from tile position to chunk position.
    pub fn from_tile(tile_x: i32, tile_y: i32, chunk_size: i32) -> (pos: Self)
        requires
            chunk_size > 0,
        ensures
            pos == Self::spec_from_tile(tile_x as int, tile_y as int, chunk_size as int),
            pos.x == tile_x as int / chunk_size as int,
            pos.y == tile_y as int / chunk_size as int,
    {
        let qx: i64 = floor_div(tile_x as i64, chunk_size as i64);
        let qy: i64 = floor_div(tile_y as i64, chunk_size as i64);
        proof {
            lemma_quotient_in_range(tile_x as int, chunk_size as int);
            lemma_quotient_in_range(tile_y as int, chunk_size as int);
        }
        Self { x: qx as i32, y: qy as i32 }
    }

    /// World position (in pixels) of the chunk's corner with the smallest
    /// coordinates.
    pub open spec fn spec_to_world(self, chunk_pixel_size: int) -> (int, int) {
        (self.x * chunk_pixel_size, self.y * chunk_pixel_size)
    }

    /// Get world position of chunk's bottom-left corner (in pixels).
    pub fn to_world(&self, chunk_pixel_size: i32) -> (world: (i64, i64))
        ensures
            world.0 == self.spec_to_world(chunk_pixel_size as int).0,
            world.1 == self.spec_to_world(chunk_pixel_size as int).1,
    {
        let sx: i64 = self.x as i64;
        let sy: i64 = self.y as i64;
        let size: i64 = chunk_pixel_size as i64;
        proof {
            lemma_product_fits(sx as int, size as int);
            lemma_product_fits(sy as int, size as int);
        }
        (sx * size, sy * size)
    }

    /// Manhattan distance: the sum of the coordinate-wise distances.
    pub open spec fn spec_manhattan_distance(self, other: ChunkPos) -> int {
        abs_diff(self.x as int, other.x as int) + abs_diff(self.y as int, other.y as int)
    }

    /// Manhattan distance between two chunk positions.
    pub fn manhattan_distance(&self, other: &ChunkPos) -> (d: i32)
        requires
            self.spec_manhattan_distance(*other) <= i32::MAX,
        ensures
            d == self.spec_manhattan_distance(*other),
    {
        let dx: i64 = abs_diff_i64(self.x, other.x);
        let dy: i64 = abs_diff_i64(self.y, other.y);
        (dx + dy) as i32
    }

    /// Chebyshev distance: the larger of the coordinate-wise distances, which
    /// is the number of moves to reach `other` when diagonal moves are
    /// allowed. A square of chunks around a centre is a ball in it.
    pub open spec fn spec_chebyshev_distance(self, other: ChunkPos) -> int {
        max_int(abs_diff(self.x as int, other.x as int), abs_diff(self.y as int, other.y as int))
    }

    /// Chebyshev distance (square/max distance) between two chunk positions.
    pub fn chebyshev_distance(&self, other: &ChunkPos) -> (d: i32)
        requires
            self.spec_chebyshev_distance(*other) <= i32::MAX,
        ensures
            d == self.spec_chebyshev_distance(*other),
    {
        self.chebyshev_distance_wide(other) as i32
    }

    /// Chebyshev distance in a type wide enough for any two positions.
    pub fn chebyshev_distance_wide(&self, other: &ChunkPos) -> (d: i64)
        ensures
            d == self.spec_chebyshev_distance(*other),
            0 <= d <= 0xffff_ffff,
    {
        let dx: i64 = abs_diff_i64(self.x, other.x);
        let dy: i64 = abs_diff_i64(self.y, other.y);
        if dx >= dy {
            dx
        } else {
            dy
        }
    }
}

/// Distance between two `i32` values, which always fits in an `i64`.
pub fn abs_diff_i64(a: i32, b: i32) -> (d: i64)
    ensures
        d == abs_diff(a as int, b as int),
        0 <= d <= 0xffff_ffff,
{
    if a >= b {
        a as i64 - b as i64
    } else {
        b as i64 - a as i64
    }
}

/// The floor quotient by a positive number lies between zero and the
/// number divided.
pub proof fn lemma_floor_div_bounds(x: int, d: int)
    requires
        d > 0,
    ensures
        x >= 0 ==> 0 <= x / d <= x,
        x < 0 ==> x <= x / d < 0,
{
    lemma_fundamental_div_mod(x, d);
    vstd::arithmetic::div_mod::lemma_mod_bound(x, d);
    let q = x / d;
    if x >= 0 {
        if q < 0 {
            assert(d * q <= -d) by (nonlinear_arith)
                requires
                    d >= 1,
                    q <= -1,
            ;
        }
        if q > x {
            assert(d * q >= q) by (nonlinear_arith)
                requires
                    d >= 1,
                    q >= 0,
            ;
        }
    } else {
        if q >= 0 {
            assert(d * q >= 0) by (nonlinear_arith)
                requires
                    d >= 1,
                    q >= 0,
            ;
        }
        if q < x {
            assert(d * q + d <= q + 1) by (nonlinear_arith)
                requires
                    d >= 1,
                    q + 1 <= 0,
            ;
        }
    }
}

/// The floor quotient of an `i32` by a positive number is an `i32`.
pub proof fn lemma_quotient_in_range(x: int, d: int)
    requires
        i32::MIN <= x <= i32::MAX,
        d > 0,
    ensures
        i32::MIN <= x / d <= i32::MAX,
{
    lemma_fundamental_div_mod(x, d);
    vstd::arithmetic::div_mod::lemma_mod_bound(x, d);
    let q = x / d;
    let r = x % d;
    if q > i32::MAX {
        assert(d * q >= q) by (nonlinear_arith)
            requires
                d >= 1,
                q >= 0,
        ;
    }
    if q < i32::MIN {
        assert(d * q <= q) by (nonlinear_arith)
            requires
                d >= 1,
                q <= 0,
        ;
        assert(d * q + r < d * q + d);
        assert(d * q + d == d * (q + 1)) by (nonlinear_arith);
        assert(d * (q + 1) <= q + 1) by (nonlinear_arith)
            requires
                d >= 1,
                q + 1 <= 0,
        ;
    }
}

/// The product of two `i32` values fits in an `i64`.
pub proof fn lemma_product_fits(a: int, b: int)
    requires
        i32::MIN <= a <= i32::MAX,
        i32::MIN <= b <= i32::MAX,
    ensures
        i64::MIN <= a * b <= i64::MAX,
{
    assert(-0x8000_0000 * 0x8000_0000 <= a * b <= 0x8000_0000 * 0x8000_0000) by (nonlinear_arith)
        requires
            -0x8000_0000 <= a <= 0x8000_0000,
            -0x8000_0000 <= b <= 0x8000_0000,
    ;
}

/// Side of the square of chunks within `radius` of a centre; no chunk lies
/// within a negative radius.
pub open spec fn square_side(radius: int) -> int {
    if radius < 0 {
        0
    } else {
        2 * radius + 1
    }
}

impl ChunkPos {
    /// The chunk at place `k` of the square around `self`, row by row from
    /// the smallest `y`, within a row from the smallest `x`.
    pub open spec fn radius_entry(self, radius: int, k: int) -> ChunkPos {
        ChunkPos {
            x: (self.x - radius + k % square_side(radius)) as i32,
            y: (self.y - radius + k / square_side(radius)) as i32,
        }
    }

    /// All chunks within Chebyshev distance `radius` of `self`: a square of
    /// `2 * radius + 1` chunks a side.
    pub open spec fn spec_chunks_in_radius(self, radius: int) -> Seq<ChunkPos> {
        Seq::new(
            (square_side(radius) * square_side(radius)) as nat,
            |k: int| self.radius_entry(radius, k),
        )
    }

    /// The square of that radius lies within the coordinates an `i32` can
    /// hold, and the number of its chunks is a length a vector can have.
    pub open spec fn radius_in_range(self, radius: int) -> bool {
        radius >= 0 ==> {
            &&& i32::MIN <= self.x - radius
            &&& self.x + radius <= i32::MAX
            &&& i32::MIN <= self.y - radius
            &&& self.y + radius <= i32::MAX
            &&& square_side(radius) * square_side(radius) <= usize::MAX
        }
    }

    /// Get all chunks in a square radius around this chunk.
    pub fn chunks_in_radius(&self, radius: i32) -> (chunks: Vec<ChunkPos>)
        requires
            self.radius_in_range(radius as int),
        ensures
            chunks@ == self.spec_chunks_in_radius(radius as int),
            chunks@.len() == square_side(radius as int) * square_side(radius as int),
            chunks@.no_duplicates(),
            forall|i: int|
                0 <= i < chunks@.len() ==> self.spec_chebyshev_distance(#[trigger] chunks@[i])
                    <= radius,
            forall|p: ChunkPos|
                self.spec_chebyshev_distance(p) <= radius ==> #[trigger] chunks@.contains(p),
    {
        let mut chunks: Vec<ChunkPos> = Vec::new();
        proof {
            self.lemma_chunks_in_radius(radius as int);
        }
        if radius < 0 {
            assert(chunks@ =~= self.spec_chunks_in_radius(radius as int));
            return chunks;
        }
        let side: i64 = 2 * (radius as i64) + 1;
        let low_x: i64 = self.x as i64 - radius as i64;
        let low_y: i64 = self.y as i64 - radius as i64;
        let mut row: i64 = 0;
        while row < side
            invariant
                0 <= row <= side,
                radius >= 0,
                side == square_side(radius as int),
                low_x == self.x - radius,
                low_y == self.y - radius,
                self.radius_in_range(radius as int),
                chunks@.len() == row * side,
                forall|k: int|
                    0 <= k < chunks@.len() ==> #[trigger] chunks@[k] == self.radius_entry(
                        radius as int,
                        k,
                    ),
            decreases side - row,
        {
            let mut col: i64 = 0;
            while col < side
                invariant
                    0 <= col <= side,
                    0 <= row < side,
                    radius >= 0,
                    side == square_side(radius as int),
                    low_x == self.x - radius,
                    low_y == self.y - radius,
                    self.radius_in_range(radius as int),
                    chunks@.len() == row * side + col,
                    forall|k: int|
                        0 <= k < chunks@.len() ==> #[trigger] chunks@[k] == self.radius_entry(
                            radius as int,
                            k,
                        ),
                decreases side - col,
            {
                proof {
                    lemma_fundamental_div_mod_converse(
                        row * side + col,
                        side as int,
                        row as int,
                        col as int,
                    );
                }
                chunks.push(ChunkPos { x: (low_x + col) as i32, y: (low_y + row) as i32 });
                col += 1;
            }
            proof {
                assert((row + 1) * side == row * side + side) by (nonlinear_arith);
            }
            row += 1;
        }
        assert(chunks@ =~= self.spec_chunks_in_radius(radius as int));
        chunks
    }

    /// The square around `self` holds `(2 * radius + 1)^2` chunks, none of
    /// them twice: exactly the chunks within Chebyshev distance `radius`.
    pub proof fn lemma_chunks_in_radius(self, radius: int)
        requires
            self.radius_in_range(radius),
        ensures
            self.spec_chunks_in_radius(radius).len() == square_side(radius) * square_side(radius),
            radius >= 0 ==> self.spec_chunks_in_radius(radius).len() == (2 * radius + 1) * (2
                * radius + 1),
            self.spec_chunks_in_radius(radius).no_duplicates(),
            forall|i: int|
                0 <= i < self.spec_chunks_in_radius(radius).len() ==> self.spec_chebyshev_distance(
                    #[trigger] self.spec_chunks_in_radius(radius)[i],
                ) <= radius,
            forall|p: ChunkPos|
                self.spec_chebyshev_distance(p) <= radius
                    ==> #[trigger] self.spec_chunks_in_radius(radius).contains(p),
    {
        let side = square_side(radius);
        let all = self.spec_chunks_in_radius(radius);
        assert(side * side >= 0) by (nonlinear_arith);
        if radius >= 0 {
            assert forall|k: int| 0 <= k < side * side implies 0 <= #[trigger] (k % side) < side
                && 0 <= k / side < side by {
                lemma_fundamental_div_mod(k, side);
                lemma_mod_pos_bound(k, side);
                vstd::arithmetic::div_mod::lemma_div_pos_is_pos(k, side);
                if k / side >= side {
                    assert(side * (k / side) >= side * side) by (nonlinear_arith)
                        requires
                            k / side >= side,
                            side > 0,
                    ;
                }
            }
            assert forall|i: int| 0 <= i < all.len() implies self.spec_chebyshev_distance(
                #[trigger] all[i],
            ) <= radius by {
                assert(0 <= i % side < side && 0 <= i / side < side);
            }
            assert forall|i: int, j: int| 0 <= i < all.len() && 0 <= j < all.len() && i != j implies all[i] != all[j] by {
                assert(0 <= i % side < side && 0 <= i / side < side);
                assert(0 <= j % side < side && 0 <= j / side < side);
                lemma_fundamental_div_mod(i, side);
                lemma_fundamental_div_mod(j, side);
            }
            assert forall|p: ChunkPos| self.spec_chebyshev_distance(p) <= radius implies #[trigger] all.contains(p) by {
                let col = p.x - self.x + radius;
                let row = p.y - self.y + radius;
                let k = row * side + col;
                assert(0 <= row * side && row * side + side <= side * side) by (nonlinear_arith)
                    requires
                        0 <= row < side,
                ;
                lemma_fundamental_div_mod_converse(k, side, row, col);
                assert(all[k] == p);
            }
        } else {
            assert forall|p: ChunkPos| self.spec_chebyshev_distance(p) <= radius implies #[trigger] all.contains(p) by {
            }
        }
    }

    /// Every pixel of a chunk leads back to that chunk: the chunk of a pixel
    /// that lies `off_x` and `off_y` pixels from the chunk's corner, both
    /// within the chunk's width, is the chunk itself.
    pub proof fn lemma_pixel_in_chunk(self, chunk_pixel_size: int, off_x: int, off_y: int)
        requires
            chunk_pixel_size > 0,
            0 <= off_x < chunk_pixel_size,
            0 <= off_y < chunk_pixel_size,
        ensures
            Self::spec_from_world(
                self.spec_to_world(chunk_pixel_size).0 + off_x,
                self.spec_to_world(chunk_pixel_size).1 + off_y,
                chunk_pixel_size,
            ) == self,
    {
        lemma_div_multiples_vanish_fancy(self.x as int, off_x, chunk_pixel_size);
        lemma_div_multiples_vanish_fancy(self.y as int, off_y, chunk_pixel_size);
        assert(self.x * chunk_pixel_size == chunk_pixel_size * self.x) by (nonlinear_arith);
        assert(self.y * chunk_pixel_size == chunk_pixel_size * self.y) by (nonlinear_arith);
    }

    /// From a pixel to its chunk and back to the chunk's corner stays in the
    /// same chunk; and where the chunk's coordinates did not stop at the end
    /// of the `i32` range, the pixel lies within one chunk width of that
    /// corner.
    pub proof fn lemma_world_round_trip(world_x: int, world_y: int, chunk_pixel_size: int)
        requires
            chunk_pixel_size > 0,
        ensures
            ({
                let c = Self::spec_from_world(world_x, world_y, chunk_pixel_size);
                let corner = c.spec_to_world(chunk_pixel_size);
                &&& Self::spec_from_world(corner.0, corner.1, chunk_pixel_size) == c
                &&& i32::MIN <= world_x / chunk_pixel_size <= i32::MAX ==> corner.0 <= world_x
                    < corner.0 + chunk_pixel_size
                &&& i32::MIN <= world_y / chunk_pixel_size <= i32::MAX ==> corner.1 <= world_y
                    < corner.1 + chunk_pixel_size
            }),
    {
        let c = Self::spec_from_world(world_x, world_y, chunk_pixel_size);
        c.lemma_pixel_in_chunk(chunk_pixel_size, 0, 0);
        lemma_fundamental_div_mod(world_x, chunk_pixel_size);
        lemma_fundamental_div_mod(world_y, chunk_pixel_size);
        vstd::arithmetic::div_mod::lemma_mod_bound(world_x, chunk_pixel_size);
        vstd::arithmetic::div_mod::lemma_mod_bound(world_y, chunk_pixel_size);
        assert(c.x * chunk_pixel_size == chunk_pixel_size * c.x) by (nonlinear_arith);
        assert(c.y * chunk_pixel_size == chunk_pixel_size * c.y) by (nonlinear_arith);
    }

    /// Every tile of a chunk leads back to that chunk: the chunk of the tile
    /// at local place `(local_x, local_y)` of chunk `self` is `self`.
    pub proof fn lemma_tile_in_chunk(self, chunk_size: int, local_x: int, local_y: int)
        requires
            chunk_size > 0,
            0 <= local_x < chunk_size,
            0 <= local_y < chunk_size,
        ensures
            Self::spec_from_tile(
                self.x * chunk_size + local_x,
                self.y * chunk_size + local_y,
                chunk_size,
            ) == self,
    {
        lemma_div_multiples_vanish_fancy(self.x as int, local_x, chunk_size);
        lemma_div_multiples_vanish_fancy(self.y as int, local_y, chunk_size);
        assert(self.x * chunk_size == chunk_size * self.x) by (nonlinear_arith);
        assert(self.y * chunk_size == chunk_size * self.y) by (nonlinear_arith);
    }
}

impl From<(i32, i32)> for ChunkPos {
    fn from(pair: (i32, i32)) -> (pos: Self) {
        Self::new(pair.0, pair.1)
    }
}

impl vstd::std_specs::convert::FromSpecImpl<(i32, i32)> for ChunkPos {
    open spec fn obeys_from_spec() -> bool {
        true
    }

    open spec fn from_spec(pair: (i32, i32)) -> Self {
        ChunkPos { x: pair.0, y: pair.1 }
    }
}

} // verus!
