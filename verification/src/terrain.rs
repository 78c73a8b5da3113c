use vstd::prelude::*;
use crate::voxel::{Voxel, ChunkLodState, CHUNK_SIZE, CHUNK_VOLUME};

verus! {

/// Position of voxel `(x, y, z)` in the flat buffer of a chunk.
pub open spec fn flat_index(x: int, y: int, z: int) -> int {
    x + y * 32 + z * 1024
}

/// Whether `(x, y, z)` lies inside a chunk.
pub open spec fn in_grid(x: int, y: int, z: int) -> bool {
    0 <= x < 32 && 0 <= y < 32 && 0 <= z < 32
}

/// The voxel of `grid` at `(x, y, z)`; outside the chunk there is only air.
pub open spec fn voxel_at(grid: Seq<Voxel>, x: int, y: int, z: int) -> Voxel {
    if in_grid(x, y, z) {
        grid[flat_index(x, y, z)]
    } else {
        Voxel::Air
    }
}

/// The coordinates of a voxel can be read back from its place in the buffer.
pub proof fn lemma_flat_index(x: int, y: int, z: int)
    requires
        in_grid(x, y, z),
    ensures
        0 <= flat_index(x, y, z) < CHUNK_VOLUME,
        flat_index(x, y, z) % 32 == x,
        (flat_index(x, y, z) / 32) % 32 == y,
        flat_index(x, y, z) / 1024 == z,
{
    let i = x + y * 32 + z * 1024;
    assert(i / 32 == y + z * 32 && i % 32 == x);
    assert((y + z * 32) % 32 == y && (y + z * 32) / 32 == z);
    assert(i / 1024 == z);
}

/// Every place of the buffer is the place of one voxel of the grid.
pub proof fn lemma_place_in_grid(i: int)
    requires
        0 <= i < CHUNK_VOLUME,
    ensures
        in_grid(i % 32, (i / 32) % 32, i / 1024),
        i == flat_index(i % 32, (i / 32) % 32, i / 1024),
{
    let r = i / 32;
    assert(i == 32 * r + i % 32);
    assert(r == 32 * (r / 32) + r % 32);
    assert(r / 32 == i / 1024);
}

/// The highest layer below `limit` at which column `(x, z)` is solid, if any.
pub open spec fn top_solid_below(grid: Seq<Voxel>, x: int, z: int, limit: nat) -> Option<int>
    decreases limit,
{
    if limit == 0 {
        None
    } else if voxel_at(grid, x, limit - 1, z).solid() {
        Some(limit - 1)
    } else {
        top_solid_below(grid, x, z, (limit - 1) as nat)
    }
}

/// The layer of the topmost solid voxel of column `(x, z)`, if the column has one.
pub open spec fn column_top(grid: Seq<Voxel>, x: int, z: int) -> Option<int> {
    top_solid_below(grid, x, z, 32)
}

/// `top_solid_below` finds the greatest solid layer below the limit.
pub proof fn lemma_top_solid_below(grid: Seq<Voxel>, x: int, z: int, limit: nat)
    ensures
        match top_solid_below(grid, x, z, limit) {
            Some(y) => 0 <= y < limit && voxel_at(grid, x, y, z).solid() && forall|h: int|
                y < h < limit ==> !voxel_at(grid, x, h, z).solid(),
            None => forall|h: int| 0 <= h < limit ==> !voxel_at(grid, x, h, z).solid(),
        },
    decreases limit,
{
    if limit > 0 {
        lemma_top_solid_below(grid, x, z, (limit - 1) as nat);
    }
}

/// Number of solid layers of a column whose height sample is `sample`
/// thousandths: the sample runs from minus one for an empty column to one
/// for a full one, and the count is rounded down.
pub open spec fn column_layers(sample: int) -> int {
    if sample <= -1000 {
        0
    } else {
        ((sample + 1000) * 16) / 1000
    }
}

/// The voxel at layer `y` of a column with height sample `sample`, in a
/// chunk that starts `y_offset` layers above the ground.
pub open spec fn heightmap_voxel(sample: int, y_offset: int, y: int) -> Voxel {
    if y + y_offset < column_layers(sample) {
        Voxel::Solid
    } else {
        Voxel::Air
    }
}

/// The grid of plain solid ground under `heightmap`, `heightmap[z][x]`
/// being the height sample of column `(x, z)`.
pub open spec fn heightmap_grid(heightmap: Seq<Vec<i32>>, y_offset: int) -> Seq<Voxel> {
    Seq::new(
        CHUNK_VOLUME as nat,
        |i: int| heightmap_voxel(heightmap[i / 1024]@[i % 32] as int, y_offset, (i / 32) % 32),
    )
}

/// Whether `heightmap` has a sample for each column of a chunk.
pub open spec fn covers_chunk(heightmap: Seq<Vec<i32>>) -> bool {
    heightmap.len() >= 32 && forall|z: int| 0 <= z < 32 ==> (#[trigger] heightmap[z])@.len() >= 32
}

/// A cubic block of `CHUNK_SIZE`³ voxels in one flat buffer.
pub struct Chunk {
    pub voxels: Vec<Voxel>,
    pub lod_state: ChunkLodState,
}

impl View for Chunk {
    type V = Seq<Voxel>;

    open spec fn view(&self) -> Seq<Voxel> {
        self.voxels@
    }
}

impl Chunk {
    /// The buffer holds exactly one voxel per cell.
    pub open spec fn wf(&self) -> bool {
        self.voxels@.len() == CHUNK_VOLUME
    }

    /// Whether the buffer holds exactly one voxel per cell.
    pub fn is_well_formed(&self) -> (ok: bool)
        ensures
            ok == self.wf(),
    {
        self.voxels.len() == CHUNK_VOLUME
    }

    /// A chunk in which every voxel is `voxel`.
    pub fn new_filled(voxel: Voxel) -> (chunk: Chunk)
        ensures
            chunk.wf(),
            chunk.lod_state == ChunkLodState::Active,
            forall|i: int| 0 <= i < CHUNK_VOLUME ==> chunk@[i] == voxel,
    {
        let mut voxels: Vec<Voxel> = Vec::with_capacity(CHUNK_VOLUME);
        let mut i: usize = 0;
        while i < CHUNK_VOLUME
            invariant
                i <= CHUNK_VOLUME,
                voxels@.len() == i,
                forall|j: int| 0 <= j < i ==> voxels@[j] == voxel,
            decreases CHUNK_VOLUME - i,
        {
            voxels.push(voxel);
            i += 1;
        }
        Chunk { voxels, lod_state: ChunkLodState::Active }
    }

    /// The voxel at `(x, y, z)`.
    pub fn get(&self, x: usize, y: usize, z: usize) -> (voxel: Voxel)
        requires
            self.wf(),
            x < CHUNK_SIZE,
            y < CHUNK_SIZE,
            z < CHUNK_SIZE,
        ensures
            voxel == voxel_at(self@, x as int, y as int, z as int),
    {
        self.voxels[x + y * 32 + z * 1024]
    }

    /// The voxel at `(x, y, z)`, or air when the position is outside the chunk.
    pub fn get_or_air(&self, x: i32, y: i32, z: i32) -> (voxel: Voxel)
        requires
            self.wf(),
        ensures
            voxel == voxel_at(self@, x as int, y as int, z as int),
    {
        if 0 <= x && x < 32 && 0 <= y && y < 32 && 0 <= z && z < 32 {
            self.voxels[(x + y * 32 + z * 1024) as usize]
        } else {
            Voxel::Air
        }
    }

    /// The layer of the topmost solid voxel of column `(x, z)`: `Some(y)`
    /// when layer `y` is solid and every layer above it is not, `None` when
    /// the whole column is air.
    pub fn top_solid(&self, x: usize, z: usize) -> (top: Option<usize>)
        requires
            self.wf(),
            x < CHUNK_SIZE,
            z < CHUNK_SIZE,
        ensures
            match top {
                Some(y) => column_top(self@, x as int, z as int) == Some(y as int) && y < CHUNK_SIZE
                    && voxel_at(self@, x as int, y as int, z as int).solid() && forall|h: int|
                    y < h < 32 ==> !voxel_at(self@, x as int, h, z as int).solid(),
                None => column_top(self@, x as int, z as int).is_none() && forall|h: int|
                    0 <= h < 32 ==> !voxel_at(self@, x as int, h, z as int).solid(),
            },
    {
        let mut y: usize = CHUNK_SIZE;
        while y > 0
            invariant
                self.wf(),
                x < CHUNK_SIZE,
                z < CHUNK_SIZE,
                y <= CHUNK_SIZE,
                column_top(self@, x as int, z as int) == top_solid_below(
                    self@,
                    x as int,
                    z as int,
                    y as nat,
                ),
            decreases y,
        {
            if self.get(x, y - 1, z).is_solid() {
                proof {
                    lemma_top_solid_below(self@, x as int, z as int, 32);
                }
                return Some(y - 1);
            }
            y -= 1;
        }
        proof {
            lemma_top_solid_below(self@, x as int, z as int, 32);
        }
        None
    }

    /// A chunk of plain solid ground under a height map: `heightmap[z][x]`
    /// is the height sample of column `(x, z)` in thousandths, and the
    /// chunk starts `y_offset` layers above the ground.
    pub fn from_heightmap(heightmap: &Vec<Vec<i32>>, y_offset: usize) -> (chunk: Chunk)
        requires
            covers_chunk(heightmap@),
            y_offset + 32 <= usize::MAX,
        ensures
            chunk.wf(),
            chunk.lod_state == ChunkLodState::Active,
            chunk@ == heightmap_grid(heightmap@, y_offset as int),
    {
        let mut chunk = Chunk::new_filled(Voxel::Air);
        let ghost goal = heightmap_grid(heightmap@, y_offset as int);
        let mut z: usize = 0;
        while z < CHUNK_SIZE
            invariant
                covers_chunk(heightmap@),
                y_offset + 32 <= usize::MAX,
                goal == heightmap_grid(heightmap@, y_offset as int),
                z <= CHUNK_SIZE,
                chunk.wf(),
                chunk.lod_state == ChunkLodState::Active,
                forall|i: int| 0 <= i < z * 1024 ==> chunk@[i] == goal[i],
            decreases CHUNK_SIZE - z,
        {
            let mut y: usize = 0;
            while y < CHUNK_SIZE
                invariant
                    covers_chunk(heightmap@),
                    y_offset + 32 <= usize::MAX,
                    goal == heightmap_grid(heightmap@, y_offset as int),
                    z < CHUNK_SIZE,
                    y <= CHUNK_SIZE,
                    chunk.wf(),
                    chunk.lod_state == ChunkLodState::Active,
                    forall|i: int| 0 <= i < z * 1024 + y * 32 ==> chunk@[i] == goal[i],
                decreases CHUNK_SIZE - y,
            {
                let mut x: usize = 0;
                while x < CHUNK_SIZE
                    invariant
                        covers_chunk(heightmap@),
                        y_offset + 32 <= usize::MAX,
                        goal == heightmap_grid(heightmap@, y_offset as int),
                        z < CHUNK_SIZE,
                        y < CHUNK_SIZE,
                        x <= CHUNK_SIZE,
                        chunk.wf(),
                        chunk.lod_state == ChunkLodState::Active,
                        forall|i: int| 0 <= i < z * 1024 + y * 32 + x ==> chunk@[i] == goal[i],
                    decreases CHUNK_SIZE - x,
                {
                    let sample = heightmap[z][x];
                    let layers: i64 = if sample <= -1000 {
                        0
                    } else {
                        ((sample as i64 + 1000) * 16) / 1000
                    };
                    let voxel = if ((y + y_offset) as i128) < layers as i128 {
                        Voxel::Solid
                    } else {
                        Voxel::Air
                    };
                    let index = x + y * 32 + z * 1024;
                    proof {
                        lemma_flat_index(x as int, y as int, z as int);
                        assert(voxel == goal[index as int]);
                    }
                    chunk.voxels[index] = voxel;
                    x += 1;
                }
                y += 1;
            }
            z += 1;
        }
        assert(chunk@ =~= goal);
        chunk
    }
}

} // verus!
