use vstd::prelude::*;
use crate::voxel::Voxel;
use crate::terrain::Chunk;
use crate::mesh::{MeshData, MeshView};
use crate::meshing::lod_mesh;
use crate::worldgen::{WorldGen, ChunkNoise, generated_grid, world_fits};
use crate::space::{
    center_within, center_is_within, chunks_within, chunks_are_within, dist_sq, chunk_center,
    as_ints, ACTIVE_RADIUS_MILLI, LOD_RADIUS_MILLI, UNLOAD_RADIUS_MILLI,
};

verus! {

/// Fidelity at which the store keeps a chunk.
#[derive(Debug, Clone, Copy, PartialEq, Eq, Structural)]
pub enum ChunkState {
    /// The voxel grid is resident.
    Active,
    /// Only the low-detail mesh is resident.
    LOD,
    /// Neither is resident; the entry alone is kept.
    Unloaded,
}

/// One entry of the chunk store.
pub struct ManagedChunk {
    pub pos: (i64, i64, i64),
    pub state: ChunkState,
    /// The voxel grid; present exactly in state `Active`.
    pub chunk: Option<Chunk>,
    /// The low-detail mesh; present exactly in state `LOD`.
    pub lod_mesh: Option<MeshData>,
    /// Handle of the drawable object that shows this chunk, if one exists.
    pub entity: Option<u64>,
}

/// The mathematical content of a [`ManagedChunk`].
pub struct ManagedChunkView {
    pub pos: (i64, i64, i64),
    pub state: ChunkState,
    pub grid: Option<Seq<Voxel>>,
    pub lod_mesh: Option<MeshView>,
    pub entity: Option<u64>,
}

impl ManagedChunkView {
    /// What is resident matches the state: the grid alone when active, the
    /// low-detail mesh alone at low detail, neither when unloaded.
    pub open spec fn consistent(self) -> bool {
        match self.state {
            ChunkState::Active => self.grid.is_some() && self.lod_mesh.is_none(),
            ChunkState::LOD => self.lod_mesh.is_some() && self.grid.is_none(),
            ChunkState::Unloaded => self.grid.is_none() && self.lod_mesh.is_none(),
        }
    }
}

impl View for ManagedChunk {
    type V = ManagedChunkView;

    open spec fn view(&self) -> ManagedChunkView {
        ManagedChunkView {
            pos: self.pos,
            state: self.state,
            grid: match self.chunk {
                Some(c) => Some(c@),
                None => None,
            },
            lod_mesh: match self.lod_mesh {
                Some(m) => Some(m@),
                None => None,
            },
            entity: self.entity,
        }
    }
}

/// The state that the distance between the centre of chunk `pos` and the
/// observer asks for; `None` beyond the unload radius, where the chunk is
/// due to leave the store. Every boundary belongs to the nearer state.
pub open spec fn target_state(pos: (i64, i64, i64), observer: (i64, i64, i64)) -> Option<ChunkState> {
    if center_within(pos, observer, ACTIVE_RADIUS_MILLI as int) {
        Some(ChunkState::Active)
    } else if center_within(pos, observer, LOD_RADIUS_MILLI as int) {
        Some(ChunkState::LOD)
    } else if center_within(pos, observer, UNLOAD_RADIUS_MILLI as int) {
        Some(ChunkState::Unloaded)
    } else {
        None
    }
}

/// The state given to a chunk that has just been generated, from the
/// distance between its coordinate and the chunk of the observer.
pub open spec fn initial_state(pos: (i64, i64, i64), observer_chunk: (i64, i64, i64)) -> ChunkState {
    if chunks_within(pos, observer_chunk, ACTIVE_RADIUS_MILLI as int) {
        ChunkState::Active
    } else if chunks_within(pos, observer_chunk, LOD_RADIUS_MILLI as int) {
        ChunkState::LOD
    } else {
        ChunkState::Unloaded
    }
}

/// Whether the step from `state` to `target` needs the voxel grid to be generated anew.
pub open spec fn needs_fresh_grid(state: ChunkState, target: Option<ChunkState>) -> bool {
    match target {
        Some(ChunkState::Active) => state != ChunkState::Active,
        Some(ChunkState::LOD) => state == ChunkState::Unloaded,
        _ => false,
    }
}

/// The entry after one step of the level-of-detail policy towards `target`,
/// where `fresh` is the grid of the chunk as the terrain generator gives it.
pub open spec fn transitioned(
    entry: ManagedChunkView,
    target: Option<ChunkState>,
    fresh: Seq<Voxel>,
) -> ManagedChunkView {
    match target {
        Some(ChunkState::Active) => if entry.state == ChunkState::Active {
            entry
        } else {
            ManagedChunkView { state: ChunkState::Active, grid: Some(fresh), lod_mesh: None, ..entry }
        },
        Some(ChunkState::LOD) => match entry.state {
            ChunkState::LOD => entry,
            ChunkState::Active => ManagedChunkView {
                state: ChunkState::LOD,
                grid: None,
                lod_mesh: Some(lod_mesh(entry.grid.unwrap())),
                ..entry
            },
            ChunkState::Unloaded => ManagedChunkView {
                state: ChunkState::LOD,
                grid: None,
                lod_mesh: Some(lod_mesh(fresh)),
                ..entry
            },
        },
        Some(ChunkState::Unloaded) => ManagedChunkView {
            state: ChunkState::Unloaded,
            grid: None,
            lod_mesh: None,
            ..entry
        },
        None => entry,
    }
}

/// The entry made for a chunk that has just been generated with grid `grid`.
pub open spec fn generated_entry(pos: (i64, i64, i64), state: ChunkState, grid: Seq<Voxel>) -> ManagedChunkView {
    ManagedChunkView {
        pos,
        state,
        grid: if state == ChunkState::Active {
            Some(grid)
        } else {
            None
        },
        lod_mesh: if state == ChunkState::LOD {
            Some(lod_mesh(grid))
        } else {
            None
        },
        entity: None,
    }
}

/// The grid of a chunk that may be absent; an absent chunk has no voxels.
pub open spec fn grid_of(chunk: Option<Chunk>) -> Seq<Voxel> {
    match chunk {
        Some(c) => c@,
        None => Seq::empty(),
    }
}

/// The state that the policy asks for at this distance.
pub fn target_state_for(pos: (i64, i64, i64), observer: (i64, i64, i64)) -> (target: Option<ChunkState>)
    ensures
        target == target_state(pos, observer),
{
    if center_is_within(pos, observer, ACTIVE_RADIUS_MILLI) {
        Some(ChunkState::Active)
    } else if center_is_within(pos, observer, LOD_RADIUS_MILLI) {
        Some(ChunkState::LOD)
    } else if center_is_within(pos, observer, UNLOAD_RADIUS_MILLI) {
        Some(ChunkState::Unloaded)
    } else {
        None
    }
}

/// The state of a chunk generated at `pos` while the observer is in `observer_chunk`.
pub fn initial_state_for(pos: (i64, i64, i64), observer_chunk: (i64, i64, i64)) -> (state: ChunkState)
    ensures
        state == initial_state(pos, observer_chunk),
{
    if chunks_are_within(pos, observer_chunk, ACTIVE_RADIUS_MILLI) {
        ChunkState::Active
    } else if chunks_are_within(pos, observer_chunk, LOD_RADIUS_MILLI) {
        ChunkState::LOD
    } else {
        ChunkState::Unloaded
    }
}

impl ManagedChunk {
    /// The entry obeys the state invariant, and its grid, if resident, is whole.
    pub open spec fn wf(&self) -> bool {
        &&& self@.consistent()
        &&& match self.chunk {
            Some(c) => c.wf(),
            None => true,
        }
    }

    /// Whether the entry obeys the state invariant and its grid, if resident, is whole.
    pub fn is_well_formed(&self) -> (ok: bool)
        ensures
            ok == self.wf(),
    {
        let grid_ok = match &self.chunk {
            Some(c) => c.is_well_formed(),
            None => true,
        };
        let resident_ok = match self.state {
            ChunkState::Active => self.chunk.is_some() && self.lod_mesh.is_none(),
            ChunkState::LOD => self.lod_mesh.is_some() && self.chunk.is_none(),
            ChunkState::Unloaded => self.chunk.is_none() && self.lod_mesh.is_none(),
        };
        grid_ok && resident_ok
    }

    /// The entry for a chunk that has just been generated: at full detail it
    /// keeps the grid, at low detail it keeps the low-detail mesh of the
    /// grid, and unloaded it keeps neither.
    pub fn generated(pos: (i64, i64, i64), state: ChunkState, chunk: Chunk) -> (entry: ManagedChunk)
        requires
            chunk.wf(),
        ensures
            entry.wf(),
            entry@ == generated_entry(pos, state, chunk@),
    {
        match state {
            ChunkState::Active => ManagedChunk {
                pos,
                state,
                chunk: Some(chunk),
                lod_mesh: None,
                entity: None,
            },
            ChunkState::LOD => {
                let mesh = chunk.to_lod_mesh();
                ManagedChunk { pos, state, chunk: None, lod_mesh: Some(mesh), entity: None }
            },
            ChunkState::Unloaded => ManagedChunk {
                pos,
                state,
                chunk: None,
                lod_mesh: None,
                entity: None,
            },
        }
    }

    /// Whether a step towards `target` needs the grid to be generated anew.
    pub fn needs_grid(&self, target: Option<ChunkState>) -> (needed: bool)
        ensures
            needed == needs_fresh_grid(self.state, target),
    {
        match target {
            Some(ChunkState::Active) => self.state != ChunkState::Active,
            Some(ChunkState::LOD) => self.state == ChunkState::Unloaded,
            _ => false,
        }
    }

    /// One step of the level-of-detail policy towards `target`. `fresh` is
    /// the newly generated grid of this chunk; it is used, and must be
    /// there, only where the step needs it.
    pub fn transition(&mut self, target: Option<ChunkState>, fresh: Option<Chunk>)
        requires
            old(self).wf(),
            needs_fresh_grid(old(self).state, target) ==> fresh.is_some() && fresh.unwrap().wf(),
        ensures
            final(self).wf(),
            final(self)@ == transitioned(old(self)@, target, grid_of(fresh)),
            final(self).pos == old(self).pos,
    {
        match target {
            Some(ChunkState::Active) => {
                if self.state != ChunkState::Active {
                    self.chunk = fresh;
                    self.lod_mesh = None;
                    self.state = ChunkState::Active;
                }
            },
            Some(ChunkState::LOD) => {
                if self.state == ChunkState::Active {
                    let grid = self.chunk.take();
                    let mesh = grid.unwrap().to_lod_mesh();
                    self.lod_mesh = Some(mesh);
                    self.state = ChunkState::LOD;
                } else if self.state == ChunkState::Unloaded {
                    let mesh = fresh.unwrap().to_lod_mesh();
                    self.lod_mesh = Some(mesh);
                    self.state = ChunkState::LOD;
                }
            },
            Some(ChunkState::Unloaded) => {
                self.chunk = None;
                self.lod_mesh = None;
                self.state = ChunkState::Unloaded;
            },
            None => {},
        }
    }
}

/// Whether some entry of `entries` is the chunk at `pos`.
pub open spec fn holds(entries: Seq<ManagedChunk>, pos: (i64, i64, i64)) -> bool {
    exists|i: int| 0 <= i < entries.len() && (#[trigger] entries[i]).pos == pos
}

/// The place in `entries` of the chunk at `pos`.
pub open spec fn place_of(entries: Seq<ManagedChunk>, pos: (i64, i64, i64)) -> int {
    choose|i: int| 0 <= i < entries.len() && (#[trigger] entries[i]).pos == pos
}

/// No two entries are for the same chunk.
pub open spec fn distinct_positions(entries: Seq<ManagedChunk>) -> bool {
    forall|i: int, j: int|
        0 <= i < j < entries.len() ==> (#[trigger] entries[i]).pos != (#[trigger] entries[j]).pos
}

/// The map from chunk coordinate to entry that `entries` stands for.
pub open spec fn entries_map(entries: Seq<ManagedChunk>) -> Map<(i64, i64, i64), ManagedChunkView> {
    Map::new(|p: (i64, i64, i64)| holds(entries, p), |p: (i64, i64, i64)| entries[place_of(entries, p)]@)
}

/// With distinct positions, every entry is found at its own place.
pub proof fn lemma_place_of(entries: Seq<ManagedChunk>, i: int)
    requires
        distinct_positions(entries),
        0 <= i < entries.len(),
    ensures
        holds(entries, entries[i].pos),
        place_of(entries, entries[i].pos) == i,
        entries_map(entries).contains_key(entries[i].pos),
        entries_map(entries)[entries[i].pos] == entries[i]@,
{
    let j = place_of(entries, entries[i].pos);
    assert(entries[j].pos == entries[i].pos);
    if j < i {
        assert(entries[j].pos != entries[i].pos);
    }
    if i < j {
        assert(entries[i].pos != entries[j].pos);
    }
}

/// Taking entry `i` out by moving the last entry into its place keeps the
/// other entries, each still an entry of the sequence before, and keeps
/// the positions distinct.
pub proof fn lemma_swap_remove(before: Seq<ManagedChunk>, i: int)
    requires
        distinct_positions(before),
        0 <= i < before.len(),
    ensures
        ({
            let after = before.update(i, before.last()).drop_last();
            &&& distinct_positions(after)
            &&& forall|k: int|
                0 <= k < after.len() ==> holds(before, (#[trigger] after[k]).pos) && after[k]
                    == before[place_of(before, after[k].pos)] && after[k].pos != before[i].pos
            &&& forall|j: int|
                0 <= j < before.len() && j != i ==> holds(after, (#[trigger] before[j]).pos)
            &&& forall|k: int| 0 <= k < after.len() && k != i ==> after[k] == before[k]
            &&& i < after.len() ==> after[i] == before.last()
        }),
{
    let after = before.update(i, before.last()).drop_last();
    let last = before.len() - 1;
    assert forall|k: int| 0 <= k < after.len() implies holds(before, (#[trigger] after[k]).pos)
        && after[k] == before[place_of(before, after[k].pos)] && after[k].pos != before[i].pos by {
        if k == i {
            assert(after[k] == before[last]);
            lemma_place_of(before, last);
        } else {
            assert(after[k] == before[k]);
            lemma_place_of(before, k);
        }
    }
    assert forall|a: int, b: int| 0 <= a < b < after.len() implies (#[trigger] after[a]).pos != (
    #[trigger] after[b]).pos by {
        let oa = if a == i { last } else { a };
        let ob = if b == i { last } else { b };
        assert(after[a] == before[oa]);
        assert(after[b] == before[ob]);
        if oa < ob {
            assert(before[oa].pos != before[ob].pos);
        } else {
            assert(before[ob].pos != before[oa].pos);
        }
    }
    assert forall|j: int| 0 <= j < before.len() && j != i implies holds(
        after,
        (#[trigger] before[j]).pos,
    ) by {
        if j == last {
            assert(after[i] == before[j]);
        } else {
            assert(after[j] == before[j]);
        }
    }
}

/// The chunk store: at most one entry for each chunk coordinate.
pub struct ChunkManager {
    pub loaded_chunks: Vec<ManagedChunk>,
    /// Streaming radius, in chunks.
    pub radius: i32,
}

impl View for ChunkManager {
    type V = Map<(i64, i64, i64), ManagedChunkView>;

    open spec fn view(&self) -> Map<(i64, i64, i64), ManagedChunkView> {
        entries_map(self.loaded_chunks@)
    }
}

impl ChunkManager {
    /// Every entry is well formed and no coordinate occurs twice.
    pub open spec fn wf(&self) -> bool {
        &&& forall|i: int| 0 <= i < self.loaded_chunks@.len() ==> (#[trigger] self.loaded_chunks@[i]).wf()
        &&& distinct_positions(self.loaded_chunks@)
    }

    /// Whether every entry is well formed and no coordinate occurs twice.
    pub fn is_well_formed(&self) -> (ok: bool)
        ensures
            ok == self.wf(),
    {
        let mut i: usize = 0;
        while i < self.loaded_chunks.len()
            invariant
                i <= self.loaded_chunks@.len(),
                forall|k: int| 0 <= k < i ==> (#[trigger] self.loaded_chunks@[k]).wf(),
                forall|a: int, b: int|
                    0 <= a < b < i ==> (#[trigger] self.loaded_chunks@[a]).pos != (
                    #[trigger] self.loaded_chunks@[b]).pos,
            decreases self.loaded_chunks@.len() - i,
        {
            if !self.loaded_chunks[i].is_well_formed() {
                return false;
            }
            let pos = self.loaded_chunks[i].pos;
            let mut j: usize = 0;
            while j < i
                invariant
                    j <= i < self.loaded_chunks@.len(),
                    pos == self.loaded_chunks@[i as int].pos,
                    forall|a: int| 0 <= a < j ==> (#[trigger] self.loaded_chunks@[a]).pos != pos,
                decreases i - j,
            {
                let other = self.loaded_chunks[j].pos;
                if other.0 == pos.0 && other.1 == pos.1 && other.2 == pos.2 {
                    assert(self.loaded_chunks@[j as int].pos == self.loaded_chunks@[i as int].pos);
                    return false;
                }
                j += 1;
            }
            i += 1;
        }
        true
    }

    /// An empty store with the given streaming radius.
    pub fn new(radius: i32) -> (store: ChunkManager)
        ensures
            store.wf(),
            store@ == Map::<(i64, i64, i64), ManagedChunkView>::empty(),
            store.loaded_chunks@.len() == 0,
            store.radius == radius,
    {
        let store = ChunkManager { loaded_chunks: Vec::new(), radius };
        assert(store@ =~= Map::<(i64, i64, i64), ManagedChunkView>::empty());
        store
    }

    /// The place of the entry for `pos`, if the store has one.
    pub fn find(&self, pos: (i64, i64, i64)) -> (place: Option<usize>)
        ensures
            match place {
                Some(i) => i < self.loaded_chunks@.len() && self.loaded_chunks@[i as int].pos == pos,
                None => !holds(self.loaded_chunks@, pos),
            },
    {
        let mut i: usize = 0;
        while i < self.loaded_chunks.len()
            invariant
                i <= self.loaded_chunks@.len(),
                forall|k: int| 0 <= k < i ==> (#[trigger] self.loaded_chunks@[k]).pos != pos,
            decreases self.loaded_chunks@.len() - i,
        {
            let p = self.loaded_chunks[i].pos;
            if p.0 == pos.0 && p.1 == pos.1 && p.2 == pos.2 {
                return Some(i);
            }
            i += 1;
        }
        None
    }

    /// Whether the store has an entry for `pos`.
    pub fn contains_key(&self, pos: (i64, i64, i64)) -> (found: bool)
        ensures
            found == self@.contains_key(pos),
    {
        self.find(pos).is_some()
    }

    /// The entry for `pos`, if the store has one.
    pub fn get(&self, pos: (i64, i64, i64)) -> (entry: Option<&ManagedChunk>)
        requires
            self.wf(),
        ensures
            match entry {
                Some(e) => self@.contains_key(pos) && e@ == self@[pos] && e.wf() && e.pos == pos,
                None => !self@.contains_key(pos),
            },
    {
        match self.find(pos) {
            Some(i) => {
                proof {
                    lemma_place_of(self.loaded_chunks@, i as int);
                }
                Some(&self.loaded_chunks[i])
            },
            None => None,
        }
    }

    /// Puts `entry` into the store, in place of the entry for the same chunk if there is one.
    pub fn insert(&mut self, entry: ManagedChunk)
        requires
            old(self).wf(),
            entry.wf(),
        ensures
            final(self).wf(),
            final(self)@ == old(self)@.insert(entry.pos, entry@),
            final(self).radius == old(self).radius,
            final(self).loaded_chunks@.len() == old(self).loaded_chunks@.len() + (if old(
                self,
            )@.contains_key(entry.pos) {
                0int
            } else {
                1int
            }),
    {
        let ghost before = self.loaded_chunks@;
        let ghost pos = entry.pos;
        let ghost added = entry@;
        match self.find(entry.pos) {
            Some(i) => {
                self.loaded_chunks[i] = entry;
                let ghost after = self.loaded_chunks@;
                assert(distinct_positions(after)) by {
                    assert forall|a: int, b: int| 0 <= a < b < after.len() implies (#[trigger] after[a]).pos
                        != (#[trigger] after[b]).pos by {
                        assert(after[a].pos == before[a].pos);
                        assert(after[b].pos == before[b].pos);
                    }
                }
                assert(self@ =~= old(self)@.insert(pos, added)) by {
                    assert forall|p: (i64, i64, i64)| holds(after, p) == (p == pos || holds(before, p)) by {
                        if holds(after, p) {
                            let k = place_of(after, p);
                            assert(before[k].pos == p);
                        }
                        if holds(before, p) {
                            let k = place_of(before, p);
                            assert(after[k].pos == p);
                        }
                        if p == pos {
                            assert(after[i as int].pos == p);
                        }
                    }
                    assert forall|p: (i64, i64, i64)| holds(after, p) implies entries_map(after)[p] == (if p
                        == pos {
                        added
                    } else {
                        entries_map(before)[p]
                    }) by {
                        let k = place_of(after, p);
                        lemma_place_of(after, k);
                        if p != pos {
                            assert(before[k].pos == p);
                            lemma_place_of(before, k);
                        } else {
                            lemma_place_of(after, i as int);
                        }
                    }
                }
            },
            None => {
                self.loaded_chunks.push(entry);
                let ghost after = self.loaded_chunks@;
                assert(distinct_positions(after)) by {
                    assert forall|a: int, b: int| 0 <= a < b < after.len() implies (#[trigger] after[a]).pos
                        != (#[trigger] after[b]).pos by {
                        if b == before.len() {
                            assert(before[a].pos != pos);
                        } else {
                            assert(after[a].pos == before[a].pos);
                            assert(after[b].pos == before[b].pos);
                        }
                    }
                }
                assert(self@ =~= old(self)@.insert(pos, added)) by {
                    assert forall|p: (i64, i64, i64)| holds(after, p) == (p == pos || holds(before, p)) by {
                        if holds(after, p) {
                            let k = place_of(after, p);
                            if k < before.len() {
                                assert(before[k].pos == p);
                            }
                        }
                        if holds(before, p) {
                            let k = place_of(before, p);
                            assert(after[k].pos == p);
                        }
                        if p == pos {
                            assert(after[before.len() as int].pos == p);
                        }
                    }
                    assert forall|p: (i64, i64, i64)| holds(after, p) implies entries_map(after)[p] == (if p
                        == pos {
                        added
                    } else {
                        entries_map(before)[p]
                    }) by {
                        let k = place_of(after, p);
                        lemma_place_of(after, k);
                        if p != pos {
                            assert(before[k].pos == p);
                            lemma_place_of(before, k);
                        } else {
                            lemma_place_of(after, before.len() as int);
                        }
                    }
                }
            },
        }
    }

    /// Takes the entry for `pos` out of the store, if there is one.
    pub fn remove(&mut self, pos: (i64, i64, i64)) -> (entry: Option<ManagedChunk>)
        requires
            old(self).wf(),
        ensures
            final(self).wf(),
            final(self).radius == old(self).radius,
            final(self)@ == old(self)@.remove(pos),
            match entry {
                Some(e) => old(self)@.contains_key(pos) && e@ == old(self)@[pos] && e.wf(),
                None => !old(self)@.contains_key(pos),
            },
    {
        let ghost before = self.loaded_chunks@;
        match self.find(pos) {
            Some(i) => {
                proof {
                    lemma_place_of(before, i as int);
                }
                let entry = self.loaded_chunks.swap_remove(i);
                let ghost after = self.loaded_chunks@;
                proof {
                    lemma_swap_remove(before, i as int);
                    assert(self@ =~= old(self)@.remove(pos)) by {
                        assert forall|p: (i64, i64, i64)| holds(after, p) == (p != pos && holds(before, p)) by {
                            if holds(after, p) {
                                let k = place_of(after, p);
                                assert(holds(before, after[k].pos));
                            }
                            if p != pos && holds(before, p) {
                                let k = place_of(before, p);
                                assert(holds(after, before[k].pos));
                            }
                        }
                        assert forall|p: (i64, i64, i64)| holds(after, p) implies entries_map(after)[p]
                            == entries_map(before)[p] by {
                            let k = place_of(after, p);
                            assert(after[k] == before[place_of(before, after[k].pos)]);
                        }
                    }
                }
                Some(entry)
            },
            None => {
                assert(self@ =~= old(self)@.remove(pos));
                None
            },
        }
    }
}

/// The coordinates, among the first `n` entries and in their order, of the
/// chunks whose step of the level-of-detail policy needs a fresh grid.
pub open spec fn regeneration_requests(
    entries: Seq<ManagedChunk>,
    observer: (i64, i64, i64),
    n: nat,
) -> Seq<(i64, i64, i64)>
    decreases n,
{
    if n == 0 {
        Seq::empty()
    } else {
        let before = regeneration_requests(entries, observer, (n - 1) as nat);
        let e = entries[n - 1];
        if needs_fresh_grid(e.state, target_state(e.pos, observer)) {
            before.push(e.pos)
        } else {
            before
        }
    }
}

/// The grid generated for entry `k`: that of its chunk, from the samples
/// at the place of the entry among the requests; no voxels where the entry
/// made no request.
pub open spec fn fresh_grid_for(
    entries: Seq<ManagedChunk>,
    observer: (i64, i64, i64),
    noise: Seq<ChunkNoise>,
    k: int,
) -> Seq<Voxel> {
    if needs_fresh_grid(entries[k].state, target_state(entries[k].pos, observer)) {
        let place = regeneration_requests(entries, observer, k as nat).len() as int;
        generated_grid(entries[k].pos, noise[place].columns@, noise[place].voxels@)
    } else {
        Seq::empty()
    }
}

/// Each entry adds at most one request.
pub proof fn lemma_requests_len(entries: Seq<ManagedChunk>, observer: (i64, i64, i64), m: nat, n: nat)
    requires
        m <= n,
    ensures
        regeneration_requests(entries, observer, m).len() <= regeneration_requests(
            entries,
            observer,
            n,
        ).len() <= regeneration_requests(entries, observer, m).len() + (n - m),
    decreases n,
{
    if m < n {
        lemma_requests_len(entries, observer, m, (n - 1) as nat);
    }
}

/// The requests of the first entries are the first of all requests.
pub proof fn lemma_requests_prefix(
    entries: Seq<ManagedChunk>,
    observer: (i64, i64, i64),
    m: nat,
    n: nat,
    j: int,
)
    requires
        m <= n,
        0 <= j < regeneration_requests(entries, observer, m).len(),
    ensures
        j < regeneration_requests(entries, observer, n).len(),
        regeneration_requests(entries, observer, n)[j] == regeneration_requests(
            entries,
            observer,
            m,
        )[j],
    decreases n,
{
    if m < n {
        lemma_requests_prefix(entries, observer, m, (n - 1) as nat, j);
    }
}

impl ChunkManager {
    /// The chunks whose step of the level-of-detail policy needs a fresh
    /// grid while the observer is at `observer`, in the order of the entries.
    pub fn lod_regeneration_requests(&self, observer: (i64, i64, i64)) -> (requests: Vec<(i64, i64, i64)>)
        ensures
            requests@ == regeneration_requests(
                self.loaded_chunks@,
                observer,
                self.loaded_chunks@.len(),
            ),
    {
        let mut requests: Vec<(i64, i64, i64)> = Vec::new();
        let mut i: usize = 0;
        while i < self.loaded_chunks.len()
            invariant
                i <= self.loaded_chunks@.len(),
                requests@ == regeneration_requests(self.loaded_chunks@, observer, i as nat),
            decreases self.loaded_chunks@.len() - i,
        {
            let pos = self.loaded_chunks[i].pos;
            let target = target_state_for(pos, observer);
            if self.loaded_chunks[i].needs_grid(target) {
                requests.push(pos);
            }
            i += 1;
        }
        requests
    }
}

/// One tick of the level-of-detail policy: every entry of the store takes
/// one step towards the state that its distance from `observer` asks for,
/// and where a step needs the grid of its chunk, the grid is generated
/// anew. `noise` holds the samples of the chunks that
/// [`ChunkManager::lod_regeneration_requests`] names, in the same order.
pub fn update_chunk_lod_system(
    chunk_manager: &mut ChunkManager,
    worldgen: &WorldGen,
    observer: (i64, i64, i64),
    noise: &Vec<ChunkNoise>,
)
    requires
        old(chunk_manager).wf(),
        noise@.len() == regeneration_requests(
            old(chunk_manager).loaded_chunks@,
            observer,
            old(chunk_manager).loaded_chunks@.len(),
        ).len(),
        forall|k: int| 0 <= k < noise@.len() ==> (#[trigger] noise@[k]).wf(),
        forall|k: int|
            0 <= k < noise@.len() ==> world_fits(
                #[trigger] regeneration_requests(
                    old(chunk_manager).loaded_chunks@,
                    observer,
                    old(chunk_manager).loaded_chunks@.len(),
                )[k],
            ),
    ensures
        final(chunk_manager).wf(),
        final(chunk_manager).radius == old(chunk_manager).radius,
        final(chunk_manager).loaded_chunks@.len() == old(chunk_manager).loaded_chunks@.len(),
        forall|k: int|
            0 <= k < old(chunk_manager).loaded_chunks@.len() ==> (#[trigger] final(chunk_manager).loaded_chunks@[k])@
                == transitioned(
                old(chunk_manager).loaded_chunks@[k]@,
                target_state(old(chunk_manager).loaded_chunks@[k].pos, observer),
                fresh_grid_for(old(chunk_manager).loaded_chunks@, observer, noise@, k),
            ),
        final(chunk_manager)@.dom() == old(chunk_manager)@.dom(),
        forall|p: (i64, i64, i64)| #[trigger]
            final(chunk_manager)@.contains_key(p) ==> final(chunk_manager)@[p] == transitioned(
                old(chunk_manager)@[p],
                target_state(p, observer),
                fresh_grid_for(
                    old(chunk_manager).loaded_chunks@,
                    observer,
                    noise@,
                    place_of(old(chunk_manager).loaded_chunks@, p),
                ),
            ),
{
    let ghost before = chunk_manager.loaded_chunks@;
    let ghost requests = regeneration_requests(before, observer, before.len());
    let mut i: usize = 0;
    let mut served: usize = 0;
    while i < chunk_manager.loaded_chunks.len()
        invariant
            i <= before.len(),
            distinct_positions(before),
            chunk_manager.radius == old(chunk_manager).radius,
            chunk_manager.loaded_chunks@.len() == before.len(),
            requests == regeneration_requests(before, observer, before.len()),
            noise@.len() == requests.len(),
            forall|k: int| 0 <= k < noise@.len() ==> (#[trigger] noise@[k]).wf(),
            forall|k: int| 0 <= k < noise@.len() ==> world_fits(#[trigger] requests[k]),
            served == regeneration_requests(before, observer, i as nat).len(),
            served <= i,
            forall|k: int| i <= k < before.len() ==> chunk_manager.loaded_chunks@[k] == before[k],
            forall|k: int| 0 <= k < before.len() ==> (#[trigger] before[k]).wf(),
            forall|k: int|
                0 <= k < before.len() ==> (#[trigger] chunk_manager.loaded_chunks@[k]).wf()
                    && chunk_manager.loaded_chunks@[k].pos == before[k].pos,
            forall|k: int|
                0 <= k < i ==> (#[trigger] chunk_manager.loaded_chunks@[k])@ == transitioned(
                    before[k]@,
                    target_state(before[k].pos, observer),
                    fresh_grid_for(before, observer, noise@, k),
                ),
        decreases before.len() - i,
    {
        assert(chunk_manager.loaded_chunks@[i as int] == before[i as int]);
        let pos = chunk_manager.loaded_chunks[i].pos;
        let target = target_state_for(pos, observer);
        let needed = chunk_manager.loaded_chunks[i].needs_grid(target);
        proof {
            lemma_requests_len(before, observer, (i + 1) as nat, before.len());
            if needed {
                assert(regeneration_requests(before, observer, (i + 1) as nat)[served as int] == pos);
                lemma_requests_prefix(before, observer, (i + 1) as nat, before.len(), served as int);
                assert(requests[served as int] == pos);
            }
        }
        let grid = if needed {
            Some(Chunk::from_worldgen(worldgen, pos, &noise[served]))
        } else {
            None
        };
        let ghost current = chunk_manager.loaded_chunks@;
        chunk_manager.loaded_chunks[i].transition(target, grid);
        proof {
            let after = chunk_manager.loaded_chunks@;
            assert forall|k: int| 0 <= k < before.len() implies (#[trigger] after[k]).wf() && after[k].pos
                == before[k].pos by {
                if k != i {
                    assert(after[k] == current[k]);
                }
            }
            assert forall|k: int| 0 <= k < i + 1 implies (#[trigger] after[k])@ == transitioned(
                before[k]@,
                target_state(before[k].pos, observer),
                fresh_grid_for(before, observer, noise@, k),
            ) by {
                if k != i {
                    assert(after[k] == current[k]);
                }
            }
            assert forall|k: int| i + 1 <= k < before.len() implies after[k] == before[k] by {
                assert(after[k] == current[k]);
            }
        }
        if needed {
            served += 1;
        }
        i += 1;
    }
    proof {
        let after = chunk_manager.loaded_chunks@;
        assert(distinct_positions(after)) by {
            assert forall|a: int, b: int| 0 <= a < b < after.len() implies (#[trigger] after[a]).pos != (
            #[trigger] after[b]).pos by {
                assert(after[a].pos == before[a].pos);
                assert(after[b].pos == before[b].pos);
            }
        }
        assert forall|p: (i64, i64, i64)| holds(after, p) == holds(before, p) by {
            if holds(after, p) {
                let k = place_of(after, p);
                assert(before[k].pos == p);
            }
            if holds(before, p) {
                let k = place_of(before, p);
                assert(after[k].pos == p);
            }
        }
        assert(chunk_manager@.dom() =~= old(chunk_manager)@.dom());
        assert forall|p: (i64, i64, i64)| #[trigger]
            chunk_manager@.contains_key(p) implies chunk_manager@[p] == transitioned(
            old(chunk_manager)@[p],
            target_state(p, observer),
            fresh_grid_for(before, observer, noise@, place_of(before, p)),
        ) by {
            let k = place_of(before, p);
            lemma_place_of(before, k);
            assert(after[k].pos == p);
            lemma_place_of(after, k);
        }
    }
}

/// Every boundary between two states is inclusive: a chunk whose centre is
/// exactly at the active radius is kept at full detail, one exactly at the
/// low-detail radius at low detail, and one exactly at the unload radius
/// stays in the store, unloaded.
pub proof fn lemma_boundaries_are_inclusive(pos: (i64, i64, i64), observer: (i64, i64, i64))
    ensures
        dist_sq(chunk_center(pos), as_ints(observer)) == 64 * (2500 * 2500) ==> target_state(
            pos,
            observer,
        ) == Some(ChunkState::Active),
        dist_sq(chunk_center(pos), as_ints(observer)) == 64 * (5000 * 5000) ==> target_state(
            pos,
            observer,
        ) == Some(ChunkState::LOD),
        dist_sq(chunk_center(pos), as_ints(observer)) == 64 * (8000 * 8000) ==> target_state(
            pos,
            observer,
        ) == Some(ChunkState::Unloaded),
        dist_sq(chunk_center(pos), as_ints(observer)) > 64 * (8000 * 8000) ==> target_state(
            pos,
            observer,
        ).is_none(),
{
}

/// The same holds of a chunk that has just been generated, where the
/// distance is taken between chunk coordinates: at exactly five chunks
/// from the chunk of the observer it starts at low detail.
pub proof fn lemma_initial_boundaries_are_inclusive(pos: (i64, i64, i64), observer_chunk: (i64, i64, i64))
    ensures
        dist_sq(as_ints(pos), as_ints(observer_chunk)) <= 6 <==> initial_state(pos, observer_chunk)
            == ChunkState::Active,
        dist_sq(as_ints(pos), as_ints(observer_chunk)) == 25 ==> initial_state(pos, observer_chunk)
            == ChunkState::LOD,
        dist_sq(as_ints(pos), as_ints(observer_chunk)) > 25 <==> initial_state(pos, observer_chunk)
            == ChunkState::Unloaded,
        dist_sq(as_ints(pos), as_ints(observer_chunk)) == 64 ==> chunks_within(
            pos,
            observer_chunk,
            UNLOAD_RADIUS_MILLI as int,
        ),
{
}

/// The state invariant survives every step of the level-of-detail policy,
/// and every entry made for a generated chunk has it.
pub proof fn lemma_steps_keep_state_invariant(
    entry: ManagedChunkView,
    target: Option<ChunkState>,
    fresh: Seq<Voxel>,
    pos: (i64, i64, i64),
    state: ChunkState,
)
    ensures
        entry.consistent() ==> transitioned(entry, target, fresh).consistent(),
        generated_entry(pos, state, fresh).consistent(),
        match target {
            Some(t) => transitioned(entry, target, fresh).state == t,
            None => transitioned(entry, target, fresh) == entry,
        },
{
}

/// The state invariant holds of every entry of a well-formed store: an
/// active entry has its grid and no low-detail mesh, an entry at low detail
/// has its low-detail mesh and no grid, and an unloaded entry has neither.
pub proof fn lemma_store_keeps_state_invariant(store: ChunkManager)
    requires
        store.wf(),
    ensures
        forall|p: (i64, i64, i64)| #[trigger]
            store@.contains_key(p) ==> store@[p].consistent() && store@[p].pos == p,
{
    assert forall|p: (i64, i64, i64)| #[trigger] store@.contains_key(p) implies store@[p].consistent()
        && store@[p].pos == p by {
        let k = place_of(store.loaded_chunks@, p);
        assert(store.loaded_chunks@[k].wf());
    }
}

/// The entries of a well-formed store are as many as the keys of its map.
pub proof fn lemma_len_counts_keys(store: ChunkManager)
    requires
        store.wf(),
    ensures
        store@.dom().finite(),
        store@.dom().len() == store.loaded_chunks@.len(),
{
    let entries = store.loaded_chunks@;
    let positions = Seq::new(entries.len(), |i: int| entries[i].pos);
    assert(positions.no_duplicates());
    positions.unique_seq_to_set();
    vstd::seq_lib::seq_to_set_is_finite(positions);
    assert(store@.dom() =~= positions.to_set()) by {
        assert forall|p: (i64, i64, i64)| store@.dom().contains(p) == positions.to_set().contains(p) by {
            if store@.dom().contains(p) {
                let k = place_of(entries, p);
                assert(positions[k] == p);
            }
            if positions.to_set().contains(p) {
                let k = choose|k: int| 0 <= k < positions.len() && positions[k] == p;
                assert(entries[k].pos == p);
            }
        }
    }
}

} // verus!
