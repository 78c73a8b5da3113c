use vstd::prelude::*;
use crate::voxel::Voxel;
use crate::terrain::{Chunk, column_top};
use crate::chunk::{ChunkManager, ChunkState, ManagedChunk, ManagedChunkView};
use crate::meshing::COLUMNS;
use crate::chunk_loading::{cube_candidates, is_missing, with_active, in_cube};
use crate::worldgen::{WorldGen, ChunkNoise};

verus! {

/// Ground height, in thousandths of a world unit, that is assumed where the
/// chunk at the origin is not in the store.
pub const DEFAULT_GROUND_MILLI: i64 = 10000;

/// Number of chunks in the cube that reaches `radius` chunks along each axis.
pub open spec fn expected_chunks(radius: int) -> int {
    (2 * radius + 1) * (2 * radius + 1) * (2 * radius + 1)
}

/// Share of the expected chunks that is loaded, in thousandths and rounded
/// down, at most one thousand; nought where the expected number is negative.
pub open spec fn progress(loaded: int, total: int) -> int {
    if total <= 0 {
        0
    } else if loaded >= total {
        1000
    } else {
        (1000 * loaded) / total
    }
}

/// Number of chunks in the cube that reaches `radius` chunks along each axis.
pub fn total_expected(radius: i32) -> (total: i128)
    ensures
        total == expected_chunks(radius as int),
{
    let edge: i128 = 2 * (radius as i128) + 1;
    assert(-0x1_0000_0000 * 0x1_0000_0000 <= edge * edge <= 0x1_0000_0000 * 0x1_0000_0000)
        by (nonlinear_arith)
        requires
            -0x1_0000_0000 <= edge <= 0x1_0000_0000,
    ;
    let face: i128 = edge * edge;
    assert(-0x1_0000_0000 * 0x1_0000_0000 * 0x1_0000_0000 <= face * edge <= 0x1_0000_0000
        * 0x1_0000_0000 * 0x1_0000_0000) by (nonlinear_arith)
        requires
            -0x1_0000_0000 <= edge <= 0x1_0000_0000,
            -0x1_0000_0000 * 0x1_0000_0000 <= face <= 0x1_0000_0000 * 0x1_0000_0000,
    ;
    face * edge
}

/// Number of entries among the first `n` that are in state `state`.
pub open spec fn count_in_state(entries: Seq<ManagedChunk>, state: ChunkState, n: nat) -> nat
    decreases n,
{
    if n == 0 {
        0
    } else {
        count_in_state(entries, state, (n - 1) as nat) + if entries[n - 1].state == state {
            1nat
        } else {
            0nat
        }
    }
}

/// The greatest layer that holds the top of one of the first `n` columns
/// of the grid; nought where those columns are empty.
pub open spec fn highest_ground_upto(grid: Seq<Voxel>, n: nat) -> int
    decreases n,
{
    if n == 0 {
        0
    } else {
        let before = highest_ground_upto(grid, (n - 1) as nat);
        match column_top(grid, (n - 1) / 32, (n - 1) % 32) {
            Some(y) => if y > before {
                y
            } else {
                before
            },
            None => before,
        }
    }
}

/// The layer of the highest solid voxel of the grid; nought for a grid of air.
pub open spec fn highest_ground(grid: Seq<Voxel>) -> int {
    highest_ground_upto(grid, COLUMNS as nat)
}

/// The highest ground is a layer of the chunk, no column rises above it,
/// and unless it is nought some column reaches it.
pub proof fn lemma_highest_ground(grid: Seq<Voxel>, n: nat)
    requires
        n <= COLUMNS,
    ensures
        0 <= highest_ground_upto(grid, n) < 32,
        forall|c: int|
            0 <= c < n ==> match #[trigger] column_top(grid, c / 32, c % 32) {
                Some(y) => y <= highest_ground_upto(grid, n),
                None => true,
            },
        highest_ground_upto(grid, n) == 0 || exists|c: int|
            0 <= c < n && #[trigger] column_top(grid, c / 32, c % 32) == Some(
                highest_ground_upto(grid, n),
            ),
    decreases n,
{
    if n > 0 {
        lemma_highest_ground(grid, (n - 1) as nat);
        let last = n - 1;
        crate::terrain::lemma_top_solid_below(grid, last / 32, last % 32, 32);
        let before = highest_ground_upto(grid, (n - 1) as nat);
        let now = highest_ground_upto(grid, n);
        if now != 0 {
            if now == before {
                let c = choose|c: int|
                    0 <= c < n - 1 && #[trigger] column_top(grid, c / 32, c % 32) == Some(before);
                assert(0 <= c < n && column_top(grid, c / 32, c % 32) == Some(now));
            } else {
                assert(column_top(grid, last / 32, last % 32) == Some(now));
            }
        }
    }
}

/// Height of the ground on which the observer is first placed, in
/// thousandths of a world unit: that of the highest solid voxel of the
/// chunk at the origin; nought where the grid of that chunk is not
/// resident; the default where the store has no entry for that chunk.
pub open spec fn spawn_ground(loaded: Map<(i64, i64, i64), ManagedChunkView>) -> int {
    if !loaded.contains_key((0i64, 0i64, 0i64)) {
        DEFAULT_GROUND_MILLI as int
    } else {
        match loaded[(0i64, 0i64, 0i64)].grid {
            Some(grid) => 250 * highest_ground(grid),
            None => 0,
        }
    }
}

impl Chunk {
    /// The layer of the highest solid voxel of the chunk; nought for a chunk of air.
    pub fn highest_ground(&self) -> (top: usize)
        requires
            self.wf(),
        ensures
            top == highest_ground(self@),
            top < 32,
    {
        let mut top: usize = 0;
        let mut c: usize = 0;
        while c < COLUMNS
            invariant
                self.wf(),
                c <= COLUMNS,
                top == highest_ground_upto(self@, c as nat),
            decreases COLUMNS - c,
        {
            match self.top_solid(c / 32, c % 32) {
                Some(y) => {
                    if y > top {
                        top = y;
                    }
                },
                None => {},
            }
            c += 1;
        }
        proof {
            lemma_highest_ground(self@, COLUMNS as nat);
        }
        top
    }
}

impl ChunkManager {
    /// Number of entries of the store.
    pub fn len(&self) -> (n: usize)
        ensures
            n == self.loaded_chunks@.len(),
    {
        self.loaded_chunks.len()
    }

    /// Number of entries of the store that are in state `state`.
    pub fn count_state(&self, state: ChunkState) -> (n: usize)
        ensures
            n == count_in_state(self.loaded_chunks@, state, self.loaded_chunks@.len()),
    {
        let mut n: usize = 0;
        let mut i: usize = 0;
        while i < self.loaded_chunks.len()
            invariant
                i <= self.loaded_chunks@.len(),
                n == count_in_state(self.loaded_chunks@, state, i as nat),
                n <= i,
            decreases self.loaded_chunks@.len() - i,
        {
            if self.loaded_chunks[i].state == state {
                n += 1;
            }
            i += 1;
        }
        n
    }

    /// Height of the ground on which the observer is first placed.
    pub fn spawn_ground_height(&self) -> (height: i64)
        requires
            self.wf(),
        ensures
            height == spawn_ground(self@),
    {
        match self.get((0, 0, 0)) {
            Some(entry) => match &entry.chunk {
                Some(chunk) => 250 * (chunk.highest_ground() as i64),
                None => 0,
            },
            None => DEFAULT_GROUND_MILLI,
        }
    }
}

/// Progress of loading in thousandths: the share of the chunks of the cube
/// of the streaming radius that the store holds.
pub fn loading_progress_ui(chunk_manager: &ChunkManager) -> (share: u32)
    ensures
        share == progress(
            chunk_manager.loaded_chunks@.len() as int,
            expected_chunks(chunk_manager.radius as int),
        ),
        share <= 1000,
{
    let total = total_expected(chunk_manager.radius);
    let loaded = chunk_manager.loaded_chunks.len() as i128;
    if total <= 0 {
        0
    } else if loaded >= total {
        1000
    } else {
        let scaled: i128 = 1000 * loaded;
        assert(scaled / total < 1000) by (nonlinear_arith)
            requires
                0 <= loaded < total,
                scaled == 1000 * loaded,
        ;
        assert(0 <= scaled / total) by (nonlinear_arith)
            requires
                0 <= scaled,
                0 < total,
        ;
        (scaled / total) as u32
    }
}

/// What the visual layer has to do for one entry of the store.
#[derive(Clone, Copy, PartialEq, Eq, Debug, Structural)]
pub enum VisualAction {
    /// Nothing: the entry is shown as it should be.
    Keep,
    /// Destroy the drawable object with this handle and clear the slot.
    Despawn(u64),
    /// Create a drawable object from the full mesh of the grid.
    SpawnFull,
    /// Create a drawable object from the low-detail mesh.
    SpawnLod,
}

/// Whether an entry has anything to show: its grid when active, its
/// low-detail mesh at low detail, nothing when unloaded.
pub open spec fn shows_something(entry: ManagedChunkView) -> bool {
    match entry.state {
        ChunkState::Active => entry.grid.is_some(),
        ChunkState::LOD => entry.lod_mesh.is_some(),
        ChunkState::Unloaded => false,
    }
}

/// The action for an entry that the observer can see or not: an entry with
/// nothing to show, or out of sight, loses its drawable object; an entry in
/// sight that lacks one gets it, from the mesh that its state keeps.
pub open spec fn visual_action_for(entry: ManagedChunkView, visible: bool) -> VisualAction {
    if shows_something(entry) && visible {
        if entry.entity.is_some() {
            VisualAction::Keep
        } else if entry.state == ChunkState::Active {
            VisualAction::SpawnFull
        } else {
            VisualAction::SpawnLod
        }
    } else {
        match entry.entity {
            Some(handle) => VisualAction::Despawn(handle),
            None => VisualAction::Keep,
        }
    }
}

impl ManagedChunk {
    /// What the visual layer has to do for this entry.
    pub fn visual_action(&self, visible: bool) -> (action: VisualAction)
        ensures
            action == visual_action_for(self@, visible),
    {
        let shows = match self.state {
            ChunkState::Active => self.chunk.is_some(),
            ChunkState::LOD => self.lod_mesh.is_some(),
            ChunkState::Unloaded => false,
        };
        if shows && visible {
            if self.entity.is_some() {
                VisualAction::Keep
            } else if self.state == ChunkState::Active {
                VisualAction::SpawnFull
            } else {
                VisualAction::SpawnLod
            }
        } else {
            match self.entity {
                Some(handle) => VisualAction::Despawn(handle),
                None => VisualAction::Keep,
            }
        }
    }
}

impl ChunkManager {
    /// Fills or clears the slot for the drawable object of the chunk at
    /// `pos`; a store without that chunk is left as it is.
    pub fn set_entity(&mut self, pos: (i64, i64, i64), entity: Option<u64>) -> (found: bool)
        requires
            old(self).wf(),
        ensures
            final(self).wf(),
            final(self).radius == old(self).radius,
            found == old(self)@.contains_key(pos),
            found ==> final(self)@ == old(self)@.insert(
                pos,
                ManagedChunkView { entity, ..old(self)@[pos] },
            ),
            !found ==> final(self)@ == old(self)@,
    {
        match self.remove(pos) {
            Some(entry) => {
                let mut entry = entry;
                entry.entity = entity;
                self.insert(entry);
                assert(self@ =~= old(self)@.insert(pos, ManagedChunkView { entity, ..old(self)@[pos] }));
                true
            },
            None => {
                assert(self@ =~= old(self)@);
                false
            },
        }
    }
}

/// Progress of the first population of the world, which a background
/// worker generates as a whole.
#[derive(Clone, Copy, PartialEq, Eq, Debug, Structural)]
pub enum InitialLoad {
    /// The worker has not handed over its chunks; there is no store yet.
    Waiting,
    /// The chunks of the worker went into the store.
    Published,
}

/// The store that the first population gives: the cube of `radius` chunks
/// around the origin, every chunk at full detail with the grid generated
/// from its samples.
pub open spec fn initial_store(radius: int, noise: Seq<ChunkNoise>) -> Map<
    (i64, i64, i64),
    ManagedChunkView,
> {
    with_active(
        Map::empty(),
        cube_candidates((0i64, 0i64, 0i64), radius).filter(is_missing(Map::empty())),
        noise,
        noise.len(),
    )
}

/// One poll of the first population. `finished` holds the samples of the
/// worker once it is done: those of the cube of `radius` chunks around the
/// origin, with x outermost and z innermost. While the worker runs nothing
/// happens; when its samples arrive the chunks are generated and go into a
/// new store all at once; after that no further samples are taken.
pub fn check_initial_chunk_load_task(
    load: &mut InitialLoad,
    radius: i32,
    worldgen: &WorldGen,
    finished: Option<Vec<ChunkNoise>>,
) -> (published: Option<ChunkManager>)
    requires
        finished.is_some() && *old(load) == InitialLoad::Waiting ==> finished.unwrap()@.len()
            == cube_candidates((0i64, 0i64, 0i64), radius as int).filter(
            is_missing(Map::empty()),
        ).len() && forall|k: int|
            0 <= k < finished.unwrap()@.len() ==> (#[trigger] finished.unwrap()@[k]).wf(),
    ensures
        match published {
            Some(store) => *old(load) == InitialLoad::Waiting && finished.is_some() && *final(load)
                == InitialLoad::Published && store.wf() && store.radius == radius && store@
                == initial_store(radius as int, finished.unwrap()@) && forall|p: (i64, i64, i64)| #[trigger]
                store@.contains_key(p) <==> in_cube(p, (0i64, 0i64, 0i64), radius as int),
            None => (*old(load) == InitialLoad::Published || finished.is_none()) && *final(load)
                == *old(load),
        },
{
    match *load {
        InitialLoad::Published => None,
        InitialLoad::Waiting => match finished {
            None => None,
            Some(noise) => {
                let mut store = ChunkManager::new(radius);
                store.load_chunks_around((0, 0, 0), worldgen, &noise);
                *load = InitialLoad::Published;
                Some(store)
            },
        },
    }
}

/// Symbol of a height sample in a printed height map: water below minus
/// a half, sand below nought, grass below a half, mountain from there on.
pub open spec fn symbol_of(sample: int) -> char {
    if sample < -500 {
        '~'
    } else if sample < 0 {
        '.'
    } else if sample < 500 {
        '^'
    } else {
        'M'
    }
}

/// Symbol of a height sample in thousandths.
pub fn height_symbol(sample: i32) -> (symbol: char)
    ensures
        symbol == symbol_of(sample as int),
{
    if sample < -500 {
        '~'
    } else if sample < 0 {
        '.'
    } else if sample < 500 {
        '^'
    } else {
        'M'
    }
}

/// Prints height maps as rows of symbols.
pub struct Renderer;

impl Renderer {
    /// The rows of symbols of a height map, one symbol for each sample.
    pub fn render(height_map: &Vec<Vec<i32>>) -> (rows: Vec<Vec<char>>)
        ensures
            rows@.len() == height_map@.len(),
            forall|r: int|
                0 <= r < rows@.len() ==> (#[trigger] rows@[r])@.len() == height_map@[r]@.len(),
            forall|r: int, c: int|
                0 <= r < rows@.len() && 0 <= c < height_map@[r]@.len() ==> (#[trigger] rows@[r]@[c])
                    == symbol_of(height_map@[r]@[c] as int),
    {
        let mut rows: Vec<Vec<char>> = Vec::new();
        let mut r: usize = 0;
        while r < height_map.len()
            invariant
                r <= height_map@.len(),
                rows@.len() == r,
                forall|k: int| 0 <= k < r ==> (#[trigger] rows@[k])@.len() == height_map@[k]@.len(),
                forall|k: int, c: int|
                    0 <= k < r && 0 <= c < height_map@[k]@.len() ==> (#[trigger] rows@[k]@[c])
                        == symbol_of(height_map@[k]@[c] as int),
            decreases height_map@.len() - r,
        {
            let mut row: Vec<char> = Vec::new();
            let mut c: usize = 0;
            while c < height_map[r].len()
                invariant
                    r < height_map@.len(),
                    c <= height_map@[r as int]@.len(),
                    row@.len() == c,
                    forall|k: int| 0 <= k < c ==> row@[k] == symbol_of(height_map@[r as int]@[k] as int),
                decreases height_map@[r as int]@.len() - c,
            {
                row.push(height_symbol(height_map[r][c]));
                c += 1;
            }
            rows.push(row);
            r += 1;
        }
        rows
    }
}

} // verus!
