use vstd::prelude::*;

verus! {

/// Radius within which a chunk is kept at full detail, in thousandths of a chunk edge.
pub const ACTIVE_RADIUS_MILLI: i64 = 2500;

/// Radius within which a chunk is kept at low detail, in thousandths of a chunk edge.
pub const LOD_RADIUS_MILLI: i64 = 5000;

/// Radius beyond which a chunk leaves the store, in thousandths of a chunk edge.
pub const UNLOAD_RADIUS_MILLI: i64 = 8000;

/// Squared length of the vector from `a` to `b`.
pub open spec fn dist_sq(a: (int, int, int), b: (int, int, int)) -> int {
    (a.0 - b.0) * (a.0 - b.0) + (a.1 - b.1) * (a.1 - b.1) + (a.2 - b.2) * (a.2 - b.2)
}

/// A chunk coordinate as a vector of integers.
pub open spec fn as_ints(p: (i64, i64, i64)) -> (int, int, int) {
    (p.0 as int, p.1 as int, p.2 as int)
}

/// Centre of chunk `pos` in thousandths of a world unit.
pub open spec fn chunk_center(pos: (i64, i64, i64)) -> (int, int, int) {
    (pos.0 * 8000 + 4000, pos.1 * 8000 + 4000, pos.2 * 8000 + 4000)
}

/// The chunk that holds the world position `p`, given in thousandths of a
/// world unit: each coordinate divided by the chunk edge and rounded down.
pub open spec fn chunk_of(p: (i64, i64, i64)) -> (i64, i64, i64) {
    ((p.0 as int / 8000) as i64, (p.1 as int / 8000) as i64, (p.2 as int / 8000) as i64)
}

/// Whether two chunk coordinates are at most `radius_milli` thousandths of a
/// chunk edge apart, measured between the coordinates themselves.
pub open spec fn chunks_within(a: (i64, i64, i64), b: (i64, i64, i64), radius_milli: int) -> bool {
    dist_sq(as_ints(a), as_ints(b)) * 1000000 <= radius_milli * radius_milli
}

/// Whether the centre of chunk `pos` is at most `radius_milli` thousandths
/// of a chunk edge away from the world position `observer`.
pub open spec fn center_within(pos: (i64, i64, i64), observer: (i64, i64, i64), radius_milli: int) -> bool {
    dist_sq(chunk_center(pos), as_ints(observer)) <= 64 * (radius_milli * radius_milli)
}

/// A square is at most the square of a bound exactly when its root is
/// within the bound.
pub proof fn lemma_square_bounds(d: int, bound: int)
    requires
        0 <= bound,
    ensures
        -bound <= d <= bound ==> 0 <= d * d <= bound * bound,
        (d > bound || d < -bound) ==> d * d > bound * bound,
        0 <= d * d,
{
    assert(-bound <= d <= bound ==> 0 <= d * d <= bound * bound) by (nonlinear_arith)
        requires
            0 <= bound,
    ;
    assert((d > bound || d < -bound) ==> d * d > bound * bound) by (nonlinear_arith)
        requires
            0 <= bound,
    ;
    assert(0 <= d * d) by (nonlinear_arith);
}

/// Whether `dx² + dy² + dz²` is at most `limit`.
pub fn squares_at_most(dx: i128, dy: i128, dz: i128, limit: i128) -> (within: bool)
    requires
        0 <= limit <= 0x4000_0000_0000_0000,
    ensures
        within == (dx * dx + dy * dy + dz * dz <= limit),
{
    proof {
        lemma_square_bounds(dx as int, 0x8000_0000);
        lemma_square_bounds(dy as int, 0x8000_0000);
        lemma_square_bounds(dz as int, 0x8000_0000);
        assert(0x8000_0000int * 0x8000_0000int == 0x4000_0000_0000_0000int);
    }
    if dx > 0x8000_0000 || dx < -0x8000_0000 || dy > 0x8000_0000 || dy < -0x8000_0000 || dz
        > 0x8000_0000 || dz < -0x8000_0000 {
        false
    } else {
        dx * dx + dy * dy + dz * dz <= limit
    }
}

/// The chunk coordinate that holds a world coordinate given in thousandths
/// of a world unit.
pub fn chunk_coordinate(p: i64) -> (c: i64)
    ensures
        c == p as int / 8000,
{
    if p >= 0 {
        p / 8000
    } else {
        let q = (-(p + 1)) / 8000;
        -q - 1
    }
}

/// The chunk that holds the world position `p`.
pub fn observer_chunk(p: (i64, i64, i64)) -> (c: (i64, i64, i64))
    ensures
        c == chunk_of(p),
        -0x4000_0000_0000_0000 <= c.0 <= 0x4000_0000_0000_0000,
        -0x4000_0000_0000_0000 <= c.1 <= 0x4000_0000_0000_0000,
        -0x4000_0000_0000_0000 <= c.2 <= 0x4000_0000_0000_0000,
{
    (chunk_coordinate(p.0), chunk_coordinate(p.1), chunk_coordinate(p.2))
}

/// Whether chunk coordinates `a` and `b` are at most `radius_milli` apart.
pub fn chunks_are_within(a: (i64, i64, i64), b: (i64, i64, i64), radius_milli: i64) -> (within: bool)
    requires
        0 <= radius_milli <= 1000000,
    ensures
        within == chunks_within(a, b, radius_milli as int),
{
    let r = radius_milli as i128;
    assert(r * r <= 1000000 * 1000000) by (nonlinear_arith)
        requires
            0 <= r <= 1000000,
    ;
    assert(0 <= r * r) by (nonlinear_arith);
    let limit = (r * r) / 1000000;
    let dx = a.0 as i128 - b.0 as i128;
    let dy = a.1 as i128 - b.1 as i128;
    let dz = a.2 as i128 - b.2 as i128;
    squares_at_most(dx, dy, dz, limit)
}

/// Whether the centre of chunk `pos` is at most `radius_milli` away from `observer`.
pub fn center_is_within(pos: (i64, i64, i64), observer: (i64, i64, i64), radius_milli: i64) -> (within: bool)
    requires
        0 <= radius_milli <= 1000000,
    ensures
        within == center_within(pos, observer, radius_milli as int),
{
    let r = radius_milli as i128;
    assert(r * r <= 1000000 * 1000000) by (nonlinear_arith)
        requires
            0 <= r <= 1000000,
    ;
    assert(0 <= r * r) by (nonlinear_arith);
    let limit = 64 * (r * r);
    let dx = pos.0 as i128 * 8000 + 4000 - observer.0 as i128;
    let dy = pos.1 as i128 * 8000 + 4000 - observer.1 as i128;
    let dz = pos.2 as i128 * 8000 + 4000 - observer.2 as i128;
    squares_at_most(dx, dy, dz, limit)
}

/// Whether chunk coordinates `a` and `b` are at most `radius` chunks apart.
pub open spec fn within_chunks(a: (i64, i64, i64), b: (i64, i64, i64), radius: int) -> bool {
    dist_sq(as_ints(a), as_ints(b)) <= radius * radius
}

/// Whether chunk coordinates `a` and `b` are at most `radius` chunks apart.
pub fn is_within_chunks(a: (i64, i64, i64), b: (i64, i64, i64), radius: i64) -> (within: bool)
    requires
        0 <= radius <= 0x8000_0000,
    ensures
        within == within_chunks(a, b, radius as int),
{
    let r = radius as i128;
    assert(r * r <= 0x8000_0000 * 0x8000_0000) by (nonlinear_arith)
        requires
            0 <= r <= 0x8000_0000,
    ;
    assert(0 <= r * r) by (nonlinear_arith);
    let dx = a.0 as i128 - b.0 as i128;
    let dy = a.1 as i128 - b.1 as i128;
    let dz = a.2 as i128 - b.2 as i128;
    squares_at_most(dx, dy, dz, r * r)
}

/// World position of the lowest corner of chunk `pos`, in thousandths of
/// a world unit: the coordinate times the edge of a chunk.
pub open spec fn chunk_origin(pos: (i64, i64, i64)) -> (int, int, int) {
    (pos.0 * 8000, pos.1 * 8000, pos.2 * 8000)
}

/// World position of the lowest corner of chunk `pos`.
pub fn chunk_world_origin(pos: (i64, i64, i64)) -> (origin: (i128, i128, i128))
    ensures
        origin.0 == chunk_origin(pos).0,
        origin.1 == chunk_origin(pos).1,
        origin.2 == chunk_origin(pos).2,
{
    (pos.0 as i128 * 8000, pos.1 as i128 * 8000, pos.2 as i128 * 8000)
}

/// Every world position inside the cube of a chunk lies in that chunk, the
/// lowest corner of the chunk included and the highest excluded.
pub proof fn lemma_positions_of_a_chunk(pos: (i64, i64, i64), p: (i64, i64, i64))
    requires
        chunk_origin(pos).0 <= p.0 < chunk_origin(pos).0 + 8000,
        chunk_origin(pos).1 <= p.1 < chunk_origin(pos).1 + 8000,
        chunk_origin(pos).2 <= p.2 < chunk_origin(pos).2 + 8000,
    ensures
        chunk_of(p) == pos,
{
}

} // verus!
