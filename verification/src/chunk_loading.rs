use vstd::prelude::*;
use crate::terrain::Chunk;
use crate::chunk::{
    ChunkManager, ManagedChunk, ManagedChunkView, ChunkState, holds, place_of, entries_map,
    distinct_positions, lemma_place_of, lemma_swap_remove, initial_state, initial_state_for,
    generated_entry,
};
use crate::space::{
    chunk_of, observer_chunk, chunks_within, chunks_are_within, within_chunks, is_within_chunks,
    lemma_square_bounds, UNLOAD_RADIUS_MILLI,
};
use crate::worldgen::{WorldGen, ChunkNoise, generated_grid, world_fits, world_coordinates_fit};

verus! {

/// Most chunks that one tick may generate.
pub const MAX_CHUNKS_PER_TICK: usize = 5;

/// The coordinates that stay in the store while the observer is in `observer_chunk`.
pub open spec fn kept_positions(observer_chunk: (i64, i64, i64)) -> Set<(i64, i64, i64)> {
    Set::new(|p: (i64, i64, i64)| chunks_within(p, observer_chunk, UNLOAD_RADIUS_MILLI as int))
}

/// Step of the look direction along one axis, from the component of the
/// direction in thousandths: one chunk ahead beyond three tenths, one
/// chunk back below minus three tenths, none in between.
pub open spec fn look_step(component: int) -> int {
    if component > 300 {
        1
    } else if component < -300 {
        -1
    } else {
        0
    }
}

/// `n` steps of `step`, where `step` is -1, 0 or 1.
pub open spec fn steps(step: int, n: int) -> int {
    if step > 0 {
        n
    } else if step < 0 {
        -n
    } else {
        0
    }
}

/// A chunk coordinate from three integers.
pub open spec fn coord(x: int, y: int, z: int) -> (i64, i64, i64) {
    (x as i64, y as i64, z as i64)
}

/// The two chunks `d` steps ahead of `c` along the look direction `(lx, lz)`
/// and `offset` chunks to its left and to its right, `dy` layers up.
pub open spec fn ahead_pair(c: (i64, i64, i64), lx: int, lz: int, d: int, dy: int, offset: int) -> Seq<
    (i64, i64, i64),
> {
    seq![
        coord(
            c.0 + steps(lx, d) - steps(lz, offset),
            c.1 + dy,
            c.2 + steps(lz, d) + steps(lx, offset),
        ),
        coord(
            c.0 + steps(lx, d) + steps(lz, offset),
            c.1 + dy,
            c.2 + steps(lz, d) - steps(lx, offset),
        ),
    ]
}

/// The pairs for the offsets below `offsets`, nearest first.
pub open spec fn ahead_row(
    c: (i64, i64, i64),
    lx: int,
    lz: int,
    d: int,
    dy: int,
    offsets: nat,
) -> Seq<(i64, i64, i64)>
    decreases offsets,
{
    if offsets == 0 {
        Seq::empty()
    } else {
        ahead_row(c, lx, lz, d, dy, (offsets - 1) as nat) + ahead_pair(c, lx, lz, d, dy, offsets - 1)
    }
}

/// The rows of the lowest `rows` layers at depth `d`, from `half` layers below the observer up.
pub open spec fn ahead_layer(
    c: (i64, i64, i64),
    lx: int,
    lz: int,
    half: int,
    d: int,
    rows: nat,
) -> Seq<(i64, i64, i64)>
    decreases rows,
{
    if rows == 0 {
        Seq::empty()
    } else {
        ahead_layer(c, lx, lz, half, d, (rows - 1) as nat) + ahead_row(
            c,
            lx,
            lz,
            d,
            rows - 1 - half,
            3,
        )
    }
}

/// The chunks ahead of the observer up to `depth` steps away, nearest first;
/// at each depth every layer within `half` of the observer, lowest first.
pub open spec fn ahead_upto(c: (i64, i64, i64), lx: int, lz: int, half: int, depth: nat) -> Seq<
    (i64, i64, i64),
>
    decreases depth,
{
    if depth == 0 {
        Seq::empty()
    } else {
        ahead_upto(c, lx, lz, half, (depth - 1) as nat) + ahead_layer(
            c,
            lx,
            lz,
            half,
            depth as int,
            (2 * half + 1) as nat,
        )
    }
}

/// The chunks in the cone ahead of an observer in chunk `c` who looks
/// along `(lx, lz)`, for streaming radius `radius`, in the order in which
/// they are to be loaded. A negative radius gives none.
pub open spec fn ahead_candidates(c: (i64, i64, i64), lx: int, lz: int, radius: int) -> Seq<
    (i64, i64, i64),
> {
    if radius < 0 {
        Seq::empty()
    } else {
        ahead_upto(c, lx, lz, radius / 2, radius as nat)
    }
}

/// The first `n` chunks of the line through `(c.0 + dx, c.1 + dy)`, from `radius` behind `c.2`.
pub open spec fn box_row(c: (i64, i64, i64), radius: int, dx: int, dy: int, n: nat) -> Seq<
    (i64, i64, i64),
>
    decreases n,
{
    if n == 0 {
        Seq::empty()
    } else {
        box_row(c, radius, dx, dy, (n - 1) as nat).push(
            coord(c.0 + dx, c.1 + dy, c.2 + n - 1 - radius),
        )
    }
}

/// The lines of the lowest `rows` layers of the slice at `c.0 + dx`, from
/// `half` layers below `c.1` up.
pub open spec fn box_slice(c: (i64, i64, i64), radius: int, half: int, dx: int, rows: nat) -> Seq<
    (i64, i64, i64),
>
    decreases rows,
{
    if rows == 0 {
        Seq::empty()
    } else {
        box_slice(c, radius, half, dx, (rows - 1) as nat) + box_row(
            c,
            radius,
            dx,
            rows - 1 - half,
            (2 * radius + 1) as nat,
        )
    }
}

/// The first `slices` slices of the box around `c`.
pub open spec fn box_upto(c: (i64, i64, i64), radius: int, half: int, slices: nat) -> Seq<
    (i64, i64, i64),
>
    decreases slices,
{
    if slices == 0 {
        Seq::empty()
    } else {
        box_upto(c, radius, half, (slices - 1) as nat) + box_slice(
            c,
            radius,
            half,
            slices - 1 - radius,
            (2 * half + 1) as nat,
        )
    }
}

/// Every chunk of the box around `c` that reaches `radius` chunks along x
/// and z and half as far along y, with x outermost and z innermost. A
/// negative radius gives none.
pub open spec fn box_candidates(c: (i64, i64, i64), radius: int) -> Seq<(i64, i64, i64)> {
    if radius < 0 {
        Seq::empty()
    } else {
        box_upto(c, radius, radius / 2, (2 * radius + 1) as nat)
    }
}

/// Every chunk of the cube that reaches `radius` chunks from `c` along each
/// axis, with x outermost and z innermost. A negative radius gives none.
pub open spec fn cube_candidates(c: (i64, i64, i64), radius: int) -> Seq<(i64, i64, i64)> {
    if radius < 0 {
        Seq::empty()
    } else {
        box_upto(c, radius, radius, (2 * radius + 1) as nat)
    }
}

/// The test for a coordinate that the store does not hold.
pub open spec fn is_missing(loaded: Map<(i64, i64, i64), ManagedChunkView>) -> spec_fn(
    (i64, i64, i64),
) -> bool {
    |p: (i64, i64, i64)| !loaded.contains_key(p)
}

/// The test for a coordinate that is due to be loaded: the store does not
/// hold it, and it is within `radius` chunks of `c`.
pub open spec fn is_due(
    loaded: Map<(i64, i64, i64), ManagedChunkView>,
    c: (i64, i64, i64),
    radius: int,
) -> spec_fn((i64, i64, i64)) -> bool {
    |p: (i64, i64, i64)| !loaded.contains_key(p) && within_chunks(p, c, radius)
}

/// The coordinates among the first `n` candidates that pass the test `due`,
/// in their order, each where it first occurs.
pub open spec fn due_upto(
    candidates: Seq<(i64, i64, i64)>,
    due: spec_fn((i64, i64, i64)) -> bool,
    n: nat,
) -> Seq<(i64, i64, i64)>
    decreases n,
{
    if n == 0 {
        Seq::empty()
    } else {
        let before = due_upto(candidates, due, (n - 1) as nat);
        let p = candidates[n - 1];
        if due(p) && !before.contains(p) {
            before.push(p)
        } else {
            before
        }
    }
}

/// The coordinates that a tick considers, in loading order: the chunks in
/// the cone ahead of the observer first, then the whole streaming box.
pub open spec fn load_candidates(c: (i64, i64, i64), lx: int, lz: int, radius: int) -> Seq<
    (i64, i64, i64),
> {
    ahead_candidates(c, lx, lz, radius) + box_candidates(c, radius)
}

/// Every chunk that is due to be loaded, each once: the missing chunks
/// ahead of the observer that lie within the streaming radius first, then
/// the other missing chunks within the streaming radius.
pub open spec fn load_order(
    loaded: Map<(i64, i64, i64), ManagedChunkView>,
    c: (i64, i64, i64),
    lx: int,
    lz: int,
    radius: int,
) -> Seq<(i64, i64, i64)> {
    due_upto(
        load_candidates(c, lx, lz, radius),
        is_due(loaded, c, radius),
        load_candidates(c, lx, lz, radius).len(),
    )
}

/// What one tick generates: the head of the load order, as far as the budget goes.
pub open spec fn load_plan(
    loaded: Map<(i64, i64, i64), ManagedChunkView>,
    c: (i64, i64, i64),
    lx: int,
    lz: int,
    radius: int,
) -> Seq<(i64, i64, i64)> {
    let order = load_order(loaded, c, lx, lz, radius);
    if order.len() <= MAX_CHUNKS_PER_TICK {
        order
    } else {
        order.take(MAX_CHUNKS_PER_TICK as int)
    }
}

/// What `due_upto` keeps: no coordinate twice, only candidates that pass
/// the test, and every candidate that passes it.
pub proof fn lemma_due_upto(
    candidates: Seq<(i64, i64, i64)>,
    due: spec_fn((i64, i64, i64)) -> bool,
    n: nat,
)
    requires
        n <= candidates.len(),
    ensures
        due_upto(candidates, due, n).no_duplicates(),
        due_upto(candidates, due, n).len() <= n,
        forall|k: int|
            0 <= k < due_upto(candidates, due, n).len() ==> due(
                #[trigger] due_upto(candidates, due, n)[k],
            ) && candidates.take(n as int).contains(due_upto(candidates, due, n)[k]),
        forall|i: int|
            0 <= i < n && due(candidates[i]) ==> due_upto(candidates, due, n).contains(
                #[trigger] candidates[i],
            ),
    decreases n,
{
    if n > 0 {
        let before = due_upto(candidates, due, (n - 1) as nat);
        let now = due_upto(candidates, due, n);
        let p = candidates[n - 1];
        lemma_due_upto(candidates, due, (n - 1) as nat);
        assert(candidates.take(n as int)[n - 1] == p);
        assert forall|k: int| 0 <= k < now.len() implies due(#[trigger] now[k]) && candidates.take(
            n as int,
        ).contains(now[k]) by {
            if k < before.len() {
                assert(now[k] == before[k]);
                let shorter = candidates.take((n - 1) as int);
                assert(shorter.contains(before[k]));
                let i = choose|i: int| 0 <= i < shorter.len() && shorter[i] == before[k];
                assert(candidates.take(n as int)[i] == before[k]);
            }
        }
        assert forall|i: int| 0 <= i < n && due(candidates[i]) implies now.contains(
            #[trigger] candidates[i],
        ) by {
            if i < n - 1 {
                assert(before.contains(candidates[i]));
                let k = choose|k: int| 0 <= k < before.len() && before[k] == candidates[i];
                assert(now[k] == candidates[i]);
            } else if before.contains(p) {
                let k = choose|k: int| 0 <= k < before.len() && before[k] == p;
                assert(now[k] == p);
            } else {
                assert(now[before.len() as int] == p);
            }
        }
    }
}

/// Step of the look direction along one axis.
pub fn look_delta(component: i32) -> (step: i64)
    ensures
        step == look_step(component as int),
{
    if component > 300 {
        1
    } else if component < -300 {
        -1
    } else {
        0
    }
}

fn scaled(step: i64, n: i64) -> (r: i64)
    requires
        -1 <= step <= 1,
        -0x8000_0000 <= n <= 0x8000_0000,
    ensures
        r == steps(step as int, n as int),
{
    if step > 0 {
        n
    } else if step < 0 {
        -n
    } else {
        0
    }
}

/// Whether every coordinate of `c` leaves room for a whole streaming box around it.
pub open spec fn roomy(c: (i64, i64, i64)) -> bool {
    &&& -0x4000_0000_0000_0000 <= c.0 <= 0x4000_0000_0000_0000
    &&& -0x4000_0000_0000_0000 <= c.1 <= 0x4000_0000_0000_0000
    &&& -0x4000_0000_0000_0000 <= c.2 <= 0x4000_0000_0000_0000
}

/// Whether every coordinate of `c` leaves room for a whole streaming box around it.
pub fn is_roomy(c: (i64, i64, i64)) -> (ok: bool)
    ensures
        ok == roomy(c),
{
    let bound: i64 = 0x4000_0000_0000_0000;
    -bound <= c.0 && c.0 <= bound && -bound <= c.1 && c.1 <= bound && -bound <= c.2 && c.2 <= bound
}

fn push_ahead_row(out: &mut Vec<(i64, i64, i64)>, c: (i64, i64, i64), lx: i64, lz: i64, d: i64, dy: i64)
    requires
        roomy(c),
        -1 <= lx <= 1,
        -1 <= lz <= 1,
        0 <= d <= 0x8000_0000,
        -0x8000_0000 <= dy <= 0x8000_0000,
    ensures
        final(out)@ == old(out)@ + ahead_row(c, lx as int, lz as int, d as int, dy as int, 3),
{
    let ghost start = out@;
    let mut offset: i64 = 0;
    while offset < 3
        invariant
            roomy(c),
            -1 <= lx <= 1,
            -1 <= lz <= 1,
            0 <= d <= 0x8000_0000,
            -0x8000_0000 <= dy <= 0x8000_0000,
            0 <= offset <= 3,
            out@ == start + ahead_row(c, lx as int, lz as int, d as int, dy as int, offset as nat),
        decreases 3 - offset,
    {
        let ahead_x = scaled(lx, d);
        let ahead_z = scaled(lz, d);
        let side_x = scaled(lz, offset);
        let side_z = scaled(lx, offset);
        let left = (c.0 + ahead_x - side_x, c.1 + dy, c.2 + ahead_z + side_z);
        let right = (c.0 + ahead_x + side_x, c.1 + dy, c.2 + ahead_z - side_z);
        out.push(left);
        out.push(right);
        proof {
            let pair = ahead_pair(c, lx as int, lz as int, d as int, dy as int, offset as int);
            assert(pair[0] == left && pair[1] == right);
            assert(out@ =~= start + (ahead_row(
                c,
                lx as int,
                lz as int,
                d as int,
                dy as int,
                offset as nat,
            ) + pair));
        }
        offset += 1;
    }
}

fn push_ahead_layer(out: &mut Vec<(i64, i64, i64)>, c: (i64, i64, i64), lx: i64, lz: i64, half: i64, d: i64)
    requires
        roomy(c),
        -1 <= lx <= 1,
        -1 <= lz <= 1,
        0 <= d <= 0x8000_0000,
        0 <= half <= 0x4000_0000,
    ensures
        final(out)@ == old(out)@ + ahead_layer(
            c,
            lx as int,
            lz as int,
            half as int,
            d as int,
            (2 * half + 1) as nat,
        ),
{
    let ghost start = out@;
    let mut row: i64 = 0;
    while row < 2 * half + 1
        invariant
            roomy(c),
            -1 <= lx <= 1,
            -1 <= lz <= 1,
            0 <= d <= 0x8000_0000,
            0 <= half <= 0x4000_0000,
            0 <= row <= 2 * half + 1,
            out@ == start + ahead_layer(c, lx as int, lz as int, half as int, d as int, row as nat),
        decreases 2 * half + 1 - row,
    {
        push_ahead_row(out, c, lx, lz, d, row - half);
        proof {
            assert(out@ =~= start + (ahead_layer(
                c,
                lx as int,
                lz as int,
                half as int,
                d as int,
                row as nat,
            ) + ahead_row(c, lx as int, lz as int, d as int, row - half, 3)));
        }
        row += 1;
    }
}

/// The chunks in the cone ahead of the observer, in loading order.
pub fn ahead_of(c: (i64, i64, i64), lx: i64, lz: i64, radius: i32) -> (out: Vec<(i64, i64, i64)>)
    requires
        roomy(c),
        -1 <= lx <= 1,
        -1 <= lz <= 1,
    ensures
        out@ == ahead_candidates(c, lx as int, lz as int, radius as int),
{
    let mut out: Vec<(i64, i64, i64)> = Vec::new();
    if radius < 0 {
        return out;
    }
    let r = radius as i64;
    let half = r / 2;
    let mut d: i64 = 1;
    while d <= r
        invariant
            roomy(c),
            -1 <= lx <= 1,
            -1 <= lz <= 1,
            0 <= r <= 0x7fff_ffff,
            half == r / 2,
            1 <= d <= r + 1,
            out@ == ahead_upto(c, lx as int, lz as int, half as int, (d - 1) as nat),
        decreases r + 1 - d,
    {
        push_ahead_layer(&mut out, c, lx, lz, half, d);
        d += 1;
    }
    out
}

fn push_box_row(out: &mut Vec<(i64, i64, i64)>, c: (i64, i64, i64), r: i64, dx: i64, dy: i64)
    requires
        roomy(c),
        0 <= r <= 0x7fff_ffff,
        -r <= dx <= r,
        -r <= dy <= r,
    ensures
        final(out)@ == old(out)@ + box_row(c, r as int, dx as int, dy as int, (2 * r + 1) as nat),
{
    let ghost start = out@;
    let mut n: i64 = 0;
    while n < 2 * r + 1
        invariant
            roomy(c),
            0 <= r <= 0x7fff_ffff,
            -r <= dx <= r,
            -r <= dy <= r,
            0 <= n <= 2 * r + 1,
            out@ == start + box_row(c, r as int, dx as int, dy as int, n as nat),
        decreases 2 * r + 1 - n,
    {
        out.push((c.0 + dx, c.1 + dy, c.2 + (n - r)));
        proof {
            assert(out@ =~= start + box_row(c, r as int, dx as int, dy as int, (n + 1) as nat));
        }
        n += 1;
    }
}

fn push_box_slice(out: &mut Vec<(i64, i64, i64)>, c: (i64, i64, i64), r: i64, half: i64, dx: i64)
    requires
        roomy(c),
        0 <= r <= 0x7fff_ffff,
        0 <= half <= r,
        -r <= dx <= r,
    ensures
        final(out)@ == old(out)@ + box_slice(
            c,
            r as int,
            half as int,
            dx as int,
            (2 * half + 1) as nat,
        ),
{
    let ghost start = out@;
    let mut row: i64 = 0;
    while row < 2 * half + 1
        invariant
            roomy(c),
            0 <= r <= 0x7fff_ffff,
            0 <= half <= r,
            -r <= dx <= r,
            0 <= row <= 2 * half + 1,
            out@ == start + box_slice(c, r as int, half as int, dx as int, row as nat),
        decreases 2 * half + 1 - row,
    {
        push_box_row(out, c, r, dx, row - half);
        proof {
            assert(out@ =~= start + (box_slice(c, r as int, half as int, dx as int, row as nat)
                + box_row(c, r as int, dx as int, row - half, (2 * r + 1) as nat)));
        }
        row += 1;
    }
}

fn push_box(out: &mut Vec<(i64, i64, i64)>, c: (i64, i64, i64), r: i64, half: i64)
    requires
        roomy(c),
        0 <= r <= 0x7fff_ffff,
        0 <= half <= r,
    ensures
        final(out)@ == old(out)@ + box_upto(c, r as int, half as int, (2 * r + 1) as nat),
{
    let ghost start = out@;
    let mut slice: i64 = 0;
    assert(out@ =~= start + box_upto(c, r as int, half as int, 0));
    while slice < 2 * r + 1
        invariant
            roomy(c),
            0 <= r <= 0x7fff_ffff,
            0 <= half <= r,
            0 <= slice <= 2 * r + 1,
            out@ == start + box_upto(c, r as int, half as int, slice as nat),
        decreases 2 * r + 1 - slice,
    {
        push_box_slice(out, c, r, half, slice - r);
        proof {
            assert(out@ =~= start + (box_upto(c, r as int, half as int, slice as nat) + box_slice(
                c,
                r as int,
                half as int,
                slice - r,
                (2 * half + 1) as nat,
            )));
        }
        slice += 1;
    }
}

/// Every chunk of the streaming box around `c`, with x outermost and z innermost.
pub fn box_around(c: (i64, i64, i64), radius: i32) -> (out: Vec<(i64, i64, i64)>)
    requires
        roomy(c),
    ensures
        out@ == box_candidates(c, radius as int),
{
    let mut out: Vec<(i64, i64, i64)> = Vec::new();
    if radius >= 0 {
        push_box(&mut out, c, radius as i64, (radius as i64) / 2);
    }
    out
}

/// Every chunk of the cube around `c`, with x outermost and z innermost.
pub fn cube_around(c: (i64, i64, i64), radius: i32) -> (out: Vec<(i64, i64, i64)>)
    requires
        roomy(c),
    ensures
        out@ == cube_candidates(c, radius as int),
{
    let mut out: Vec<(i64, i64, i64)> = Vec::new();
    if radius >= 0 {
        push_box(&mut out, c, radius as i64, radius as i64);
    }
    out
}

/// Whether `list` holds `pos`.
pub fn list_contains(list: &Vec<(i64, i64, i64)>, pos: (i64, i64, i64)) -> (found: bool)
    ensures
        found == list@.contains(pos),
{
    let mut i: usize = 0;
    while i < list.len()
        invariant
            i <= list@.len(),
            forall|k: int| 0 <= k < i ==> list@[k] != pos,
        decreases list@.len() - i,
    {
        let p = list[i];
        if p.0 == pos.0 && p.1 == pos.1 && p.2 == pos.2 {
            return true;
        }
        i += 1;
    }
    false
}

impl ChunkManager {
    /// Removes every entry whose coordinate is farther from the chunk of the
    /// observer than the unload radius; the other entries stay as they are.
    pub fn evict_far_chunks(&mut self, observer_chunk: (i64, i64, i64))
        requires
            old(self).wf(),
        ensures
            final(self).wf(),
            final(self).radius == old(self).radius,
            final(self)@ == old(self)@.restrict(kept_positions(observer_chunk)),
    {
        let ghost before = self.loaded_chunks@;
        let mut i: usize = self.loaded_chunks.len();
        while i > 0
            invariant
                distinct_positions(before),
                self.radius == old(self).radius,
                i <= self.loaded_chunks@.len() <= before.len(),
                self.wf(),
                forall|k: int| 0 <= k < i ==> self.loaded_chunks@[k] == before[k],
                forall|k: int|
                    0 <= k < self.loaded_chunks@.len() ==> holds(
                        before,
                        (#[trigger] self.loaded_chunks@[k]).pos,
                    ) && self.loaded_chunks@[k] == before[place_of(before, self.loaded_chunks@[k].pos)],
                forall|k: int|
                    i <= k < self.loaded_chunks@.len() ==> chunks_within(
                        (#[trigger] self.loaded_chunks@[k]).pos,
                        observer_chunk,
                        UNLOAD_RADIUS_MILLI as int,
                    ),
                forall|j: int|
                    0 <= j < before.len() && (j < i || chunks_within(
                        before[j].pos,
                        observer_chunk,
                        UNLOAD_RADIUS_MILLI as int,
                    )) ==> holds(self.loaded_chunks@, (#[trigger] before[j]).pos),
            decreases i,
        {
            i -= 1;
            let pos = self.loaded_chunks[i].pos;
            if !chunks_are_within(pos, observer_chunk, UNLOAD_RADIUS_MILLI) {
                let ghost current = self.loaded_chunks@;
                self.loaded_chunks.swap_remove(i);
                proof {
                    let after = self.loaded_chunks@;
                    lemma_swap_remove(current, i as int);
                    assert forall|k: int| 0 <= k < after.len() implies holds(
                        before,
                        (#[trigger] after[k]).pos,
                    ) && after[k] == before[place_of(before, after[k].pos)] by {
                        let c = place_of(current, after[k].pos);
                        assert(after[k] == current[c]);
                    }
                    assert forall|k: int| i <= k < after.len() implies chunks_within(
                        (#[trigger] after[k]).pos,
                        observer_chunk,
                        UNLOAD_RADIUS_MILLI as int,
                    ) by {
                        if k == i {
                            assert(after[k] == current[current.len() - 1]);
                        } else {
                            assert(after[k] == current[k]);
                        }
                    }
                    assert forall|j: int|
                        0 <= j < before.len() && (j < i || chunks_within(
                            before[j].pos,
                            observer_chunk,
                            UNLOAD_RADIUS_MILLI as int,
                        )) implies holds(after, (#[trigger] before[j]).pos) by {
                        assert(holds(current, before[j].pos));
                        let c = place_of(current, before[j].pos);
                        assert(current[c].pos == before[j].pos);
                        assert(current[i as int] == before[i as int]);
                        if c == i {
                            lemma_place_of(before, i as int);
                            lemma_place_of(before, j);
                        }
                        assert(holds(after, current[c].pos));
                    }
                    assert forall|k: int| 0 <= k < after.len() implies (#[trigger] after[k]).wf() by {
                        let c = place_of(current, after[k].pos);
                        assert(after[k] == current[c]);
                    }
                }
            }
        }
        proof {
            let after = self.loaded_chunks@;
            assert(self@ =~= old(self)@.restrict(kept_positions(observer_chunk))) by {
                assert forall|p: (i64, i64, i64)|
                    holds(after, p) == (holds(before, p) && kept_positions(observer_chunk).contains(
                        p,
                    )) by {
                    if holds(after, p) {
                        let k = place_of(after, p);
                        assert(holds(before, after[k].pos));
                    }
                    if holds(before, p) && kept_positions(observer_chunk).contains(p) {
                        let j = place_of(before, p);
                        assert(holds(after, before[j].pos));
                    }
                }
                assert forall|p: (i64, i64, i64)| holds(after, p) implies entries_map(after)[p]
                    == entries_map(before)[p] by {
                    let k = place_of(after, p);
                    assert(after[k] == before[place_of(before, after[k].pos)]);
                }
            }
        }
    }

    /// The coordinates of `candidates` that the store does not hold, in their order.
    pub fn missing_among(&self, candidates: &Vec<(i64, i64, i64)>) -> (missing: Vec<(i64, i64, i64)>)
        ensures
            missing@ == candidates@.filter(is_missing(self@)),
    {
        let mut missing: Vec<(i64, i64, i64)> = Vec::new();
        let mut i: usize = 0;
        proof {
            reveal(Seq::filter);
            assert(candidates@.take(0).filter(is_missing(self@)) =~= Seq::empty());
        }
        while i < candidates.len()
            invariant
                i <= candidates@.len(),
                missing@ == candidates@.take(i as int).filter(is_missing(self@)),
            decreases candidates@.len() - i,
        {
            let pos = candidates[i];
            proof {
                candidates@.lemma_take_succ_push(i as int);
                candidates@.take(i as int).lemma_filter_push(pos, is_missing(self@));
            }
            if !self.contains_key(pos) {
                missing.push(pos);
            }
            i += 1;
        }
        proof {
            candidates@.lemma_take_len();
        }
        missing
    }

    /// The coordinates of `candidates` that are due to be loaded around `c`,
    /// those that the store does not hold and that lie within the streaming
    /// radius, in their order and each once.
    pub fn due_among(&self, candidates: &Vec<(i64, i64, i64)>, c: (i64, i64, i64)) -> (due: Vec<
        (i64, i64, i64),
    >)
        requires
            0 <= self.radius,
        ensures
            due@ == due_upto(
                candidates@,
                is_due(self@, c, self.radius as int),
                candidates@.len(),
            ),
    {
        let ghost test = is_due(self@, c, self.radius as int);
        let mut due: Vec<(i64, i64, i64)> = Vec::new();
        let mut i: usize = 0;
        while i < candidates.len()
            invariant
                0 <= self.radius,
                test == is_due(self@, c, self.radius as int),
                i <= candidates@.len(),
                due@ == due_upto(candidates@, test, i as nat),
            decreases candidates@.len() - i,
        {
            let pos = candidates[i];
            if !self.contains_key(pos) && is_within_chunks(pos, c, self.radius as i64)
                && !list_contains(&due, pos) {
                due.push(pos);
            }
            i += 1;
        }
        due
    }

    /// Puts the chunk generated for `pos` into the store, in the state that
    /// its distance from the chunk of the observer gives it, in place of
    /// an entry for the same coordinate if there is one.
    pub fn insert_generated(&mut self, pos: (i64, i64, i64), chunk: Chunk, observer_chunk: (i64, i64, i64))
        requires
            old(self).wf(),
            chunk.wf(),
        ensures
            final(self).wf(),
            final(self).radius == old(self).radius,
            final(self)@ == old(self)@.insert(
                pos,
                generated_entry(pos, initial_state(pos, observer_chunk), chunk@),
            ),
            final(self).loaded_chunks@.len() <= old(self).loaded_chunks@.len() + 1,
    {
        let state = initial_state_for(pos, observer_chunk);
        let entry = ManagedChunk::generated(pos, state, chunk);
        self.insert(entry);
    }
}

/// The store after the chunks `positions[0]`, ..., `positions[n - 1]` went
/// into it at full detail, each with the grid generated from its samples.
pub open spec fn with_active(
    loaded: Map<(i64, i64, i64), ManagedChunkView>,
    positions: Seq<(i64, i64, i64)>,
    noise: Seq<ChunkNoise>,
    n: nat,
) -> Map<(i64, i64, i64), ManagedChunkView>
    decreases n,
{
    if n == 0 {
        loaded
    } else {
        with_active(loaded, positions, noise, (n - 1) as nat).insert(
            positions[n - 1],
            generated_entry(
                positions[n - 1],
                ChunkState::Active,
                generated_grid(positions[n - 1], noise[n - 1].columns@, noise[n - 1].voxels@),
            ),
        )
    }
}

/// Whether the world coordinates of every voxel of the cube of `radius`
/// chunks around `center` fit in 64 bits.
pub open spec fn cube_fits(center: (i64, i64, i64), radius: int) -> bool {
    radius >= 0 ==> world_fits(coord(center.0 - radius, center.1 - radius, center.2 - radius))
        && world_fits(coord(center.0 + radius, center.1 + radius, center.2 + radius))
}

/// Whether the world coordinates of every voxel of the cube of `radius`
/// chunks around `center` fit in 64 bits.
pub fn cube_coordinates_fit(center: (i64, i64, i64), radius: i32) -> (ok: bool)
    requires
        roomy(center),
    ensures
        ok == cube_fits(center, radius as int),
{
    if radius < 0 {
        true
    } else {
        let r = radius as i64;
        world_coordinates_fit((center.0 - r, center.1 - r, center.2 - r)) && world_coordinates_fit(
            (center.0 + r, center.1 + r, center.2 + r),
        )
    }
}

/// A sequence that is made of two holds what one of the two holds.
pub proof fn lemma_contains_add(a: Seq<(i64, i64, i64)>, b: Seq<(i64, i64, i64)>, p: (i64, i64, i64))
    ensures
        (a + b).contains(p) <==> a.contains(p) || b.contains(p),
{
    if a.contains(p) {
        let i = choose|i: int| 0 <= i < a.len() && a[i] == p;
        assert((a + b)[i] == p);
    }
    if b.contains(p) {
        let i = choose|i: int| 0 <= i < b.len() && b[i] == p;
        assert((a + b)[a.len() + i] == p);
    }
    if (a + b).contains(p) {
        let i = choose|i: int| 0 <= i < (a + b).len() && (a + b)[i] == p;
        if i < a.len() {
            assert(a[i] == p);
        } else {
            assert(b[i - a.len()] == p);
        }
    }
}

/// The first `n` chunks of a line are those of the line whose z lies in
/// the first `n` places from `radius` behind `c.2`.
pub proof fn lemma_box_row_members(
    c: (i64, i64, i64),
    radius: int,
    dx: int,
    dy: int,
    n: nat,
    p: (i64, i64, i64),
)
    requires
        roomy(c),
        0 <= radius <= 0x7fff_ffff,
        -radius <= dx <= radius,
        -radius <= dy <= radius,
        n <= 2 * radius + 1,
    ensures
        box_row(c, radius, dx, dy, n).contains(p) <==> p.0 == c.0 + dx && p.1 == c.1 + dy && c.2
            - radius <= p.2 < c.2 - radius + n,
    decreases n,
{
    if n > 0 {
        let before = box_row(c, radius, dx, dy, (n - 1) as nat);
        let last = coord(c.0 + dx, c.1 + dy, c.2 + n - 1 - radius);
        lemma_box_row_members(c, radius, dx, dy, (n - 1) as nat, p);
        assert(before.push(last) =~= before + seq![last]);
        lemma_contains_add(before, seq![last], p);
        assert(seq![last].contains(p) <==> p == last) by {
            if p == last {
                assert(seq![last][0] == p);
            }
        }
    }
}

/// The lowest `rows` layers of a slice are the chunks of the slice whose y
/// lies in the first `rows` places from `half` below `c.1`.
pub proof fn lemma_box_slice_members(
    c: (i64, i64, i64),
    radius: int,
    half: int,
    dx: int,
    rows: nat,
    p: (i64, i64, i64),
)
    requires
        roomy(c),
        0 <= half <= radius <= 0x7fff_ffff,
        -radius <= dx <= radius,
        rows <= 2 * half + 1,
    ensures
        box_slice(c, radius, half, dx, rows).contains(p) <==> p.0 == c.0 + dx && c.1 - half <= p.1
            < c.1 - half + rows && c.2 - radius <= p.2 <= c.2 + radius,
    decreases rows,
{
    if rows > 0 {
        let before = box_slice(c, radius, half, dx, (rows - 1) as nat);
        let row = box_row(c, radius, dx, rows - 1 - half, (2 * radius + 1) as nat);
        lemma_box_slice_members(c, radius, half, dx, (rows - 1) as nat, p);
        lemma_box_row_members(c, radius, dx, rows - 1 - half, (2 * radius + 1) as nat, p);
        lemma_contains_add(before, row, p);
    }
}

/// The first `slices` slices of a box are the chunks of the box whose x
/// lies in the first `slices` places from `radius` behind `c.0`.
pub proof fn lemma_box_members(
    c: (i64, i64, i64),
    radius: int,
    half: int,
    slices: nat,
    p: (i64, i64, i64),
)
    requires
        roomy(c),
        0 <= half <= radius <= 0x7fff_ffff,
        slices <= 2 * radius + 1,
    ensures
        box_upto(c, radius, half, slices).contains(p) <==> c.0 - radius <= p.0 < c.0 - radius
            + slices && c.1 - half <= p.1 <= c.1 + half && c.2 - radius <= p.2 <= c.2 + radius,
    decreases slices,
{
    if slices > 0 {
        let before = box_upto(c, radius, half, (slices - 1) as nat);
        let slice = box_slice(c, radius, half, slices - 1 - radius, (2 * half + 1) as nat);
        lemma_box_members(c, radius, half, (slices - 1) as nat, p);
        lemma_box_slice_members(c, radius, half, slices - 1 - radius, (2 * half + 1) as nat, p);
        lemma_contains_add(before, slice, p);
    }
}

/// Whether `p` lies in the cube that reaches `radius` chunks from `c` along each axis.
pub open spec fn in_cube(p: (i64, i64, i64), c: (i64, i64, i64), radius: int) -> bool {
    &&& c.0 - radius <= p.0 <= c.0 + radius
    &&& c.1 - radius <= p.1 <= c.1 + radius
    &&& c.2 - radius <= p.2 <= c.2 + radius
}

/// The candidates of a cube are exactly the chunks of the cube.
pub proof fn lemma_cube_members(c: (i64, i64, i64), radius: int, p: (i64, i64, i64))
    requires
        roomy(c),
        radius <= 0x7fff_ffff,
    ensures
        cube_candidates(c, radius).contains(p) <==> in_cube(p, c, radius),
{
    if radius >= 0 {
        lemma_box_members(c, radius, radius, (2 * radius + 1) as nat, p);
    }
}

/// The keys of the store after chunks went in at full detail are its keys
/// before and the coordinates of those chunks; an entry whose key is none of
/// those coordinates is as it was, and each of the others is an active
/// entry with the grid generated from the samples of its chunk.
pub proof fn lemma_with_active(
    loaded: Map<(i64, i64, i64), ManagedChunkView>,
    positions: Seq<(i64, i64, i64)>,
    noise: Seq<ChunkNoise>,
    n: nat,
    p: (i64, i64, i64),
)
    requires
        n <= positions.len(),
    ensures
        with_active(loaded, positions, noise, n).contains_key(p) <==> loaded.contains_key(p)
            || positions.take(n as int).contains(p),
        !positions.take(n as int).contains(p) && loaded.contains_key(p) ==> with_active(
            loaded,
            positions,
            noise,
            n,
        )[p] == loaded[p],
        positions.take(n as int).contains(p) ==> exists|k: int|
            0 <= k < n && #[trigger] positions[k] == p && with_active(loaded, positions, noise, n)[p]
                == generated_entry(
                p,
                ChunkState::Active,
                generated_grid(p, noise[k].columns@, noise[k].voxels@),
            ),
    decreases n,
{
    if n > 0 {
        lemma_with_active(loaded, positions, noise, (n - 1) as nat, p);
        let shorter = positions.take((n - 1) as int);
        let longer = positions.take(n as int);
        assert(longer =~= shorter + seq![positions[n - 1]]);
        lemma_contains_add(shorter, seq![positions[n - 1]], p);
        assert(seq![positions[n - 1]].contains(p) <==> positions[n - 1] == p) by {
            if positions[n - 1] == p {
                assert(seq![positions[n - 1]][0] == p);
            }
        }
        if positions[n - 1] == p {
            assert(positions[n - 1] == p && with_active(loaded, positions, noise, n)[p]
                == generated_entry(
                p,
                ChunkState::Active,
                generated_grid(p, noise[n - 1].columns@, noise[n - 1].voxels@),
            ));
        } else if longer.contains(p) {
            let k = choose|k: int|
                0 <= k < n - 1 && #[trigger] positions[k] == p && with_active(
                    loaded,
                    positions,
                    noise,
                    (n - 1) as nat,
                )[p] == generated_entry(
                    p,
                    ChunkState::Active,
                    generated_grid(p, noise[k].columns@, noise[k].voxels@),
                );
            assert(0 <= k < n && positions[k] == p);
        }
    }
}

/// Filling the cube around `center`: afterwards the keys of the store are
/// its keys before and every chunk of the cube; the entries from before are
/// as they were; and each chunk of the cube that was missing is an active
/// entry with the grid generated from the samples of that chunk.
pub proof fn lemma_cube_is_filled(
    loaded: Map<(i64, i64, i64), ManagedChunkView>,
    center: (i64, i64, i64),
    radius: int,
    noise: Seq<ChunkNoise>,
    p: (i64, i64, i64),
)
    requires
        roomy(center),
        radius <= 0x7fff_ffff,
        noise.len() == cube_candidates(center, radius).filter(is_missing(loaded)).len(),
    ensures
        ({
            let missing = cube_candidates(center, radius).filter(is_missing(loaded));
            let after = with_active(loaded, missing, noise, missing.len());
            &&& after.contains_key(p) <==> loaded.contains_key(p) || in_cube(p, center, radius)
            &&& loaded.contains_key(p) ==> after[p] == loaded[p]
            &&& !loaded.contains_key(p) && in_cube(p, center, radius) ==> exists|k: int|
                0 <= k < missing.len() && #[trigger] missing[k] == p && after[p] == generated_entry(
                    p,
                    ChunkState::Active,
                    generated_grid(p, noise[k].columns@, noise[k].voxels@),
                )
        }),
{
    let cube = cube_candidates(center, radius);
    let missing = cube.filter(is_missing(loaded));
    lemma_cube_members(center, radius, p);
    lemma_with_active(loaded, missing, noise, missing.len(), p);
    assert(missing.take(missing.len() as int) =~= missing);
    if missing.contains(p) {
        cube.lemma_filter_contains_rev(is_missing(loaded), p);
        let k = choose|k: int| 0 <= k < missing.len() && missing[k] == p;
        cube.lemma_filter_pred(is_missing(loaded), k);
        assert(is_missing(loaded)(missing[k]));
    }
    if cube.contains(p) && !loaded.contains_key(p) {
        let i = choose|i: int| 0 <= i < cube.len() && cube[i] == p;
        assert(is_missing(loaded)(cube[i]));
        cube.lemma_filter_contains(is_missing(loaded), i);
    }
}

impl ChunkManager {
    /// The chunks of the cube around `center` that the store does not hold,
    /// with x outermost and z innermost.
    pub fn chunks_to_load_around(&self, center: (i64, i64, i64)) -> (missing: Vec<(i64, i64, i64)>)
        requires
            roomy(center),
        ensures
            missing@ == cube_candidates(center, self.radius as int).filter(is_missing(self@)),
    {
        let cube = cube_around(center, self.radius);
        self.missing_among(&cube)
    }

    /// Fills the cube around `center`: every chunk of it that the store
    /// does not hold is generated and goes in at full detail. `noise` holds
    /// the samples of the chunks that [`ChunkManager::chunks_to_load_around`]
    /// names, in the same order.
    pub fn load_chunks_around(&mut self, center: (i64, i64, i64), worldgen: &WorldGen, noise: &Vec<ChunkNoise>)
        requires
            old(self).wf(),
            roomy(center),
            cube_fits(center, old(self).radius as int),
            noise@.len() == cube_candidates(center, old(self).radius as int).filter(
                is_missing(old(self)@),
            ).len(),
            forall|k: int| 0 <= k < noise@.len() ==> (#[trigger] noise@[k]).wf(),
        ensures
            final(self).wf(),
            final(self).radius == old(self).radius,
            final(self)@ == with_active(
                old(self)@,
                cube_candidates(center, old(self).radius as int).filter(is_missing(old(self)@)),
                noise@,
                noise@.len(),
            ),
            forall|p: (i64, i64, i64)| #[trigger]
                final(self)@.contains_key(p) <==> old(self)@.contains_key(p) || in_cube(
                    p,
                    center,
                    old(self).radius as int,
                ),
            forall|p: (i64, i64, i64)|
                old(self)@.contains_key(p) ==> #[trigger] final(self)@[p] == old(self)@[p],
    {
        let positions = self.chunks_to_load_around(center);
        let mut i: usize = 0;
        while i < positions.len()
            invariant
                roomy(center),
                cube_fits(center, old(self).radius as int),
                positions@ == cube_candidates(center, old(self).radius as int).filter(
                    is_missing(old(self)@),
                ),
                i <= positions@.len(),
                noise@.len() == positions@.len(),
                forall|k: int| 0 <= k < noise@.len() ==> (#[trigger] noise@[k]).wf(),
                self.wf(),
                self.radius == old(self).radius,
                self@ == with_active(old(self)@, positions@, noise@, i as nat),
            decreases positions@.len() - i,
        {
            let pos = positions[i];
            proof {
                let cube = cube_candidates(center, old(self).radius as int);
                assert(positions@.contains(pos));
                cube.lemma_filter_contains_rev(is_missing(old(self)@), pos);
                lemma_cube_members(center, old(self).radius as int, pos);
            }
            let chunk = Chunk::from_worldgen(worldgen, pos, &noise[i]);
            let entry = ManagedChunk::generated(pos, ChunkState::Active, chunk);
            self.insert(entry);
            i += 1;
        }
        proof {
            assert forall|p: (i64, i64, i64)| #[trigger]
                self@.contains_key(p) <==> old(self)@.contains_key(p) || in_cube(
                    p,
                    center,
                    old(self).radius as int,
                ) by {
                lemma_cube_is_filled(old(self)@, center, old(self).radius as int, noise@, p);
            }
            assert forall|p: (i64, i64, i64)| old(self)@.contains_key(p) implies #[trigger] self@[p]
                == old(self)@[p] by {
                lemma_cube_is_filled(old(self)@, center, old(self).radius as int, noise@, p);
            }
        }
    }
}

/// A chunk within the streaming radius of the chunk of an observer is one
/// whose world coordinates fit in 64 bits.
pub proof fn lemma_chunks_near_the_observer_fit(
    p: (i64, i64, i64),
    observer: (i64, i64, i64),
    radius: int,
)
    requires
        0 <= radius <= 0x7fff_ffff,
        within_chunks(p, chunk_of(observer), radius),
    ensures
        world_fits(p),
{
    let c = chunk_of(observer);
    lemma_square_bounds(p.0 - c.0, radius);
    lemma_square_bounds(p.1 - c.1, radius);
    lemma_square_bounds(p.2 - c.2, radius);
}

/// The first part of a tick of streaming, for an observer at the world
/// position `observer` who looks along `look`: evicts the chunks beyond
/// the unload radius and names the chunks to generate in this tick, at most
/// [`MAX_CHUNKS_PER_TICK`] of them, those ahead of the observer first.
/// Every chunk named is missing from the store and within the streaming
/// radius of the chunk of the observer, and none is named twice.
pub fn manage_chunk_loading(
    chunk_manager: &mut ChunkManager,
    observer: (i64, i64, i64),
    look: (i32, i32, i32),
) -> (plan: Vec<(i64, i64, i64)>)
    requires
        old(chunk_manager).wf(),
    ensures
        final(chunk_manager).wf(),
        final(chunk_manager).radius == old(chunk_manager).radius,
        final(chunk_manager)@ == old(chunk_manager)@.restrict(kept_positions(chunk_of(observer))),
        plan@ == load_plan(
            final(chunk_manager)@,
            chunk_of(observer),
            look_step(look.0 as int),
            look_step(look.2 as int),
            final(chunk_manager).radius as int,
        ),
        plan@.len() <= MAX_CHUNKS_PER_TICK,
        plan@.no_duplicates(),
        forall|k: int| 0 <= k < plan@.len() ==> !final(chunk_manager)@.contains_key(#[trigger] plan@[k]),
        forall|k: int|
            0 <= k < plan@.len() ==> within_chunks(
                #[trigger] plan@[k],
                chunk_of(observer),
                final(chunk_manager).radius as int,
            ),
        forall|k: int| 0 <= k < plan@.len() ==> world_fits(#[trigger] plan@[k]),
{
    let c = observer_chunk(observer);
    let lx = look_delta(look.0);
    let lz = look_delta(look.2);
    chunk_manager.evict_far_chunks(c);
    let mut plan: Vec<(i64, i64, i64)> = Vec::new();
    if chunk_manager.radius >= 0 {
        let mut candidates = ahead_of(c, lx, lz, chunk_manager.radius);
        let mut around = box_around(c, chunk_manager.radius);
        candidates.append(&mut around);
        plan = chunk_manager.due_among(&candidates, c);
    }
    if plan.len() > MAX_CHUNKS_PER_TICK {
        plan.truncate(MAX_CHUNKS_PER_TICK);
    }
    proof {
        lemma_plan_is_due(
            chunk_manager@,
            c,
            lx as int,
            lz as int,
            chunk_manager.radius as int,
        );
        assert forall|k: int| 0 <= k < plan@.len() implies world_fits(#[trigger] plan@[k]) by {
            lemma_chunks_near_the_observer_fit(plan@[k], observer, chunk_manager.radius as int);
        }
    }
    plan
}

/// The store after the chunks `plan[0]`, ..., `plan[n - 1]` were generated
/// from their samples and went into it in that order, each in the state
/// that its distance from the chunk of the observer gives it.
pub open spec fn with_generated(
    loaded: Map<(i64, i64, i64), ManagedChunkView>,
    observer_chunk: (i64, i64, i64),
    plan: Seq<(i64, i64, i64)>,
    noise: Seq<ChunkNoise>,
    n: nat,
) -> Map<(i64, i64, i64), ManagedChunkView>
    decreases n,
{
    if n == 0 {
        loaded
    } else {
        with_generated(loaded, observer_chunk, plan, noise, (n - 1) as nat).insert(
            plan[n - 1],
            generated_entry(
                plan[n - 1],
                initial_state(plan[n - 1], observer_chunk),
                generated_grid(plan[n - 1], noise[n - 1].columns@, noise[n - 1].voxels@),
            ),
        )
    }
}

/// The second part of a tick of streaming: the chunks that
/// [`manage_chunk_loading`] named are generated and go into the store,
/// `noise` being their samples in the same order, each in the state that its
/// distance from the chunk of the observer gives it.
pub fn complete_chunk_loading(
    chunk_manager: &mut ChunkManager,
    worldgen: &WorldGen,
    observer: (i64, i64, i64),
    plan: &Vec<(i64, i64, i64)>,
    noise: &Vec<ChunkNoise>,
)
    requires
        old(chunk_manager).wf(),
        noise@.len() == plan@.len(),
        forall|k: int| 0 <= k < noise@.len() ==> (#[trigger] noise@[k]).wf(),
        forall|k: int| 0 <= k < plan@.len() ==> world_fits(#[trigger] plan@[k]),
    ensures
        final(chunk_manager).wf(),
        final(chunk_manager).radius == old(chunk_manager).radius,
        final(chunk_manager)@ == with_generated(
            old(chunk_manager)@,
            chunk_of(observer),
            plan@,
            noise@,
            plan@.len(),
        ),
        final(chunk_manager).loaded_chunks@.len() <= old(chunk_manager).loaded_chunks@.len()
            + plan@.len(),
{
    let c = observer_chunk(observer);
    let mut i: usize = 0;
    while i < plan.len()
        invariant
            i <= plan@.len(),
            noise@.len() == plan@.len(),
            forall|k: int| 0 <= k < noise@.len() ==> (#[trigger] noise@[k]).wf(),
            forall|k: int| 0 <= k < plan@.len() ==> world_fits(#[trigger] plan@[k]),
            c == chunk_of(observer),
            chunk_manager.wf(),
            chunk_manager.radius == old(chunk_manager).radius,
            chunk_manager@ == with_generated(old(chunk_manager)@, c, plan@, noise@, i as nat),
            chunk_manager.loaded_chunks@.len() <= old(chunk_manager).loaded_chunks@.len() + i,
        decreases plan@.len() - i,
    {
        let chunk = Chunk::from_worldgen(worldgen, plan[i], &noise[i]);
        chunk_manager.insert_generated(plan[i], chunk, c);
        i += 1;
    }
}

/// The keys of the store after the planned chunks went in are its keys
/// before and the coordinates of the plan, and nothing else.
pub proof fn lemma_with_generated_keys(
    loaded: Map<(i64, i64, i64), ManagedChunkView>,
    observer_chunk: (i64, i64, i64),
    plan: Seq<(i64, i64, i64)>,
    noise: Seq<ChunkNoise>,
    n: nat,
    p: (i64, i64, i64),
)
    requires
        n <= plan.len(),
    ensures
        with_generated(loaded, observer_chunk, plan, noise, n).contains_key(p) <==> loaded.contains_key(
            p,
        ) || exists|k: int| 0 <= k < n && #[trigger] plan[k] == p,
    decreases n,
{
    if n > 0 {
        lemma_with_generated_keys(loaded, observer_chunk, plan, noise, (n - 1) as nat, p);
        if plan[n - 1] == p {
        }
    }
}

/// What a tick names: at most [`MAX_CHUNKS_PER_TICK`] chunks, none twice,
/// none that the store holds, all within the streaming radius of the chunk
/// of the observer; and so, with a streaming radius of at most eight
/// chunks, all within the unload radius.
pub proof fn lemma_plan_is_due(
    loaded: Map<(i64, i64, i64), ManagedChunkView>,
    c: (i64, i64, i64),
    lx: int,
    lz: int,
    radius: int,
)
    ensures
        load_plan(loaded, c, lx, lz, radius).len() <= MAX_CHUNKS_PER_TICK,
        load_plan(loaded, c, lx, lz, radius).no_duplicates(),
        radius < 0 ==> load_plan(loaded, c, lx, lz, radius).len() == 0,
        forall|k: int|
            0 <= k < load_plan(loaded, c, lx, lz, radius).len() ==> !loaded.contains_key(
                #[trigger] load_plan(loaded, c, lx, lz, radius)[k],
            ) && within_chunks(load_plan(loaded, c, lx, lz, radius)[k], c, radius),
        radius <= 8 ==> forall|k: int|
            0 <= k < load_plan(loaded, c, lx, lz, radius).len() ==> chunks_within(
                #[trigger] load_plan(loaded, c, lx, lz, radius)[k],
                c,
                UNLOAD_RADIUS_MILLI as int,
            ),
{
    let candidates = load_candidates(c, lx, lz, radius);
    let due = is_due(loaded, c, radius);
    let order = load_order(loaded, c, lx, lz, radius);
    let plan = load_plan(loaded, c, lx, lz, radius);
    lemma_due_upto(candidates, due, candidates.len());
    assert forall|k: int| 0 <= k < plan.len() implies !loaded.contains_key(#[trigger] plan[k])
        && within_chunks(plan[k], c, radius) && (radius <= 8 ==> chunks_within(
        plan[k],
        c,
        UNLOAD_RADIUS_MILLI as int,
    )) by {
        assert(plan[k] == order[k]);
        assert(due(order[k]));
        if radius <= 8 {
            assert(0 <= radius);
            assert(radius * radius <= 64) by (nonlinear_arith)
                requires
                    0 <= radius <= 8,
            ;
        }
    }
    assert forall|i: int, j: int| 0 <= i < plan.len() && 0 <= j < plan.len() && i != j implies plan[i]
        != plan[j] by {
        assert(plan[i] == order[i] && plan[j] == order[j]);
    }
}

/// The chunk of any world position leaves room for a streaming box around it.
pub proof fn lemma_observer_chunk_is_roomy(observer: (i64, i64, i64))
    ensures
        roomy(chunk_of(observer)),
{
}

/// The streaming budget: whatever the store holds and wherever the observer
/// stands and looks, a tick names at most [`MAX_CHUNKS_PER_TICK`] chunks,
/// none of them in the store, and after the tick every key of the store
/// is a key from before the tick or one of the chunks named; so every new
/// key lies within the streaming radius of the chunk of the observer.
pub proof fn lemma_tick_stays_within_budget(
    loaded: Map<(i64, i64, i64), ManagedChunkView>,
    observer: (i64, i64, i64),
    look: (i32, i32, i32),
    radius: int,
    noise: Seq<ChunkNoise>,
)
    ensures
        ({
            let c = chunk_of(observer);
            let kept = loaded.restrict(kept_positions(c));
            let plan = load_plan(kept, c, look_step(look.0 as int), look_step(look.2 as int), radius);
            let after = with_generated(kept, c, plan, noise, plan.len());
            &&& plan.len() <= MAX_CHUNKS_PER_TICK
            &&& plan.no_duplicates()
            &&& forall|k: int| 0 <= k < plan.len() ==> !kept.contains_key(#[trigger] plan[k])
            &&& forall|p: (i64, i64, i64)| #[trigger]
                after.contains_key(p) ==> loaded.contains_key(p) || plan.contains(p)
            &&& forall|p: (i64, i64, i64)| #[trigger]
                after.contains_key(p) && !loaded.contains_key(p) ==> within_chunks(p, c, radius)
        }),
{
    let c = chunk_of(observer);
    let kept = loaded.restrict(kept_positions(c));
    let plan = load_plan(kept, c, look_step(look.0 as int), look_step(look.2 as int), radius);
    let after = with_generated(kept, c, plan, noise, plan.len());
    lemma_plan_is_due(kept, c, look_step(look.0 as int), look_step(look.2 as int), radius);
    assert forall|p: (i64, i64, i64)| #[trigger] after.contains_key(p) implies (loaded.contains_key(p)
        || plan.contains(p)) && (!loaded.contains_key(p) ==> within_chunks(p, c, radius)) by {
        lemma_with_generated_keys(kept, c, plan, noise, plan.len(), p);
    }
}

/// Eviction holds for the whole tick: with a streaming radius of at most
/// eight chunks, which is the unload radius, a chunk that is farther from
/// the chunk of the observer than the unload radius is not in the store
/// after the tick, whatever the store held before and whatever was generated.
pub proof fn lemma_far_chunk_is_absent_after_tick(
    loaded: Map<(i64, i64, i64), ManagedChunkView>,
    observer: (i64, i64, i64),
    look: (i32, i32, i32),
    radius: int,
    noise: Seq<ChunkNoise>,
    p: (i64, i64, i64),
)
    requires
        radius <= 8,
        !chunks_within(p, chunk_of(observer), UNLOAD_RADIUS_MILLI as int),
    ensures
        ({
            let c = chunk_of(observer);
            let kept = loaded.restrict(kept_positions(c));
            let plan = load_plan(kept, c, look_step(look.0 as int), look_step(look.2 as int), radius);
            !kept.contains_key(p) && !with_generated(kept, c, plan, noise, plan.len()).contains_key(p)
        }),
{
    let c = chunk_of(observer);
    let kept = loaded.restrict(kept_positions(c));
    let plan = load_plan(kept, c, look_step(look.0 as int), look_step(look.2 as int), radius);
    lemma_plan_is_due(kept, c, look_step(look.0 as int), look_step(look.2 as int), radius);
    lemma_with_generated_keys(kept, c, plan, noise, plan.len(), p);
}

} // verus!
