use voxel_fortress::chunk::{
    initial_state_for, target_state_for, update_chunk_lod_system, ChunkManager, ChunkState,
    ManagedChunk,
};
use voxel_fortress::chunk_loading::{
    ahead_of, box_around, complete_chunk_loading, cube_around, look_delta, manage_chunk_loading,
    MAX_CHUNKS_PER_TICK,
};
use voxel_fortress::space::{
    center_is_within, chunk_coordinate, chunk_world_origin, chunks_are_within, is_within_chunks, observer_chunk,
    squares_at_most, ACTIVE_RADIUS_MILLI, LOD_RADIUS_MILLI, UNLOAD_RADIUS_MILLI,
};
use voxel_fortress::systems::{loading_progress_ui, total_expected, DEFAULT_GROUND_MILLI};
use voxel_fortress::terrain::Chunk;
use voxel_fortress::voxel::Voxel;
use voxel_fortress::worldgen::{ChunkNoise, ColumnNoise, VoxelNoise, WorldGen};

/// World position of the centre of chunk `(x, y, z)`.
fn centre(x: i64, y: i64, z: i64) -> (i64, i64, i64) {
    (x * 8000 + 4000, y * 8000 + 4000, z * 8000 + 4000)
}

/// A chunk whose lowest `layers` layers are desert ground.
fn ground(layers: usize) -> Chunk {
    let mut chunk = Chunk::new_filled(Voxel::Air);
    for z in 0..32 {
        for y in 0..layers {
            for x in 0..32 {
                chunk.voxels[x + y * 32 + z * 1024] = Voxel::Desert;
            }
        }
    }
    chunk
}

/// Samples from which generation gives chunk `pos` the grid `ground(layers)`:
/// a level surface half a voxel below layer `layers` of the chunk, in dry
/// land near the equator.
fn samples(pos: (i64, i64, i64), layers: usize) -> ChunkNoise {
    let hills = 1280 * pos.1 as i32 + 40 * layers as i32 - 2020;
    let column = ColumnNoise { continent: 0, mountains: -1000, ridged: 0, hills, temperature: 0, rainfall: 0 };
    ChunkNoise { columns: vec![column; 1024], voxels: vec![VoxelNoise { cave: 0, detail: 0 }; 32768] }
}

fn worldgen() -> WorldGen {
    WorldGen::new(3, 32, 42)
}

fn active(pos: (i64, i64, i64)) -> ManagedChunk {
    ManagedChunk::generated(pos, ChunkState::Active, ground(4))
}

fn invariant_holds(store: &ChunkManager) -> bool {
    store.loaded_chunks.iter().all(|e| match e.state {
        ChunkState::Active => e.chunk.is_some() && e.lod_mesh.is_none(),
        ChunkState::LOD => e.lod_mesh.is_some() && e.chunk.is_none(),
        ChunkState::Unloaded => e.chunk.is_none() && e.lod_mesh.is_none(),
    })
}

/// Runs the level-of-detail step; regenerated chunks get `layers` layers of ground.
fn lod_tick(store: &mut ChunkManager, observer: (i64, i64, i64), layers: usize) -> usize {
    let requests = store.lod_regeneration_requests(observer);
    let noise: Vec<ChunkNoise> = requests.iter().map(|&p| samples(p, layers)).collect();
    let n = noise.len();
    update_chunk_lod_system(store, &worldgen(), observer, &noise);
    n
}

#[test]
fn radii_are_the_configured_ones() {
    assert_eq!(ACTIVE_RADIUS_MILLI, 2500);
    assert_eq!(LOD_RADIUS_MILLI, 5000);
    assert_eq!(UNLOAD_RADIUS_MILLI, 8000);
    assert_eq!(MAX_CHUNKS_PER_TICK, 5);
}

#[test]
fn chunk_coordinate_rounds_down() {
    assert_eq!(chunk_coordinate(0), 0);
    assert_eq!(chunk_coordinate(7999), 0);
    assert_eq!(chunk_coordinate(8000), 1);
    assert_eq!(chunk_coordinate(-1), -1);
    assert_eq!(chunk_coordinate(-8000), -1);
    assert_eq!(chunk_coordinate(-8001), -2);
    assert_eq!(chunk_coordinate(i64::MAX), 1152921504606846);
    assert_eq!(chunk_coordinate(i64::MIN), -1152921504606847);
    assert_eq!(observer_chunk((12000, -100, 80000)), (1, -1, 10));
}

#[test]
fn squares_are_compared_without_overflow() {
    assert!(squares_at_most(3, 4, 0, 25));
    assert!(!squares_at_most(3, 4, 1, 25));
    assert!(!squares_at_most(i128::MAX, 0, 0, 0x4000_0000_0000_0000));
    assert!(!squares_at_most(0, i128::MIN, 0, 0));
    assert!(squares_at_most(0, 0, 0, 0));
    assert!(squares_at_most(0x8000_0000, 0, 0, 0x4000_0000_0000_0000));
    assert!(!squares_at_most(0x8000_0000, 1, 0, 0x4000_0000_0000_0000));
}

#[test]
fn chunk_distances_against_the_radii() {
    let o = (0, 0, 0);
    assert!(chunks_are_within((2, 1, 1), o, ACTIVE_RADIUS_MILLI));
    assert!(!chunks_are_within((2, 2, 0), o, ACTIVE_RADIUS_MILLI));
    assert!(chunks_are_within((3, 4, 0), o, LOD_RADIUS_MILLI));
    assert!(!chunks_are_within((3, 4, 1), o, LOD_RADIUS_MILLI));
    assert!(chunks_are_within((8, 0, 0), o, UNLOAD_RADIUS_MILLI));
    assert!(!chunks_are_within((8, 1, 0), o, UNLOAD_RADIUS_MILLI));
    assert!(!chunks_are_within((i64::MAX, 0, 0), (i64::MIN, 0, 0), UNLOAD_RADIUS_MILLI));
    assert!(is_within_chunks((3, 4, 0), o, 5));
    assert!(!is_within_chunks((3, 4, 1), o, 5));
    assert!(is_within_chunks((-7, 9, 1), (-7, 9, 1), 0));
}

#[test]
fn active_boundary_is_inclusive() {
    let pos = (0, 0, 0);
    let c = centre(0, 0, 0);
    assert_eq!(target_state_for(pos, c), Some(ChunkState::Active));
    assert_eq!(target_state_for(pos, (c.0 + 20000, c.1, c.2)), Some(ChunkState::Active));
    assert_eq!(target_state_for(pos, (c.0 + 20001, c.1, c.2)), Some(ChunkState::LOD));
    assert_eq!(target_state_for(pos, (c.0 - 12000, c.1 + 16000, c.2)), Some(ChunkState::Active));
    assert!(center_is_within(pos, (c.0, c.1 - 20000, c.2), ACTIVE_RADIUS_MILLI));
    assert!(!center_is_within(pos, (c.0, c.1 - 20000, c.2 + 1), ACTIVE_RADIUS_MILLI));
}

#[test]
fn lod_and_unload_boundaries_are_inclusive() {
    let pos = (3, -2, 7);
    let c = centre(3, -2, 7);
    assert_eq!(target_state_for(pos, (c.0, c.1, c.2 + 40000)), Some(ChunkState::LOD));
    assert_eq!(target_state_for(pos, (c.0, c.1, c.2 + 40001)), Some(ChunkState::Unloaded));
    assert_eq!(target_state_for(pos, (c.0, c.1 + 64000, c.2)), Some(ChunkState::Unloaded));
    assert_eq!(target_state_for(pos, (c.0, c.1 + 64001, c.2)), None);
    assert_eq!(target_state_for(pos, (i64::MAX, i64::MIN, 0)), None);
}

#[test]
fn initial_state_follows_chunk_distance() {
    let o = (10, 10, 10);
    assert_eq!(initial_state_for((10, 10, 10), o), ChunkState::Active);
    assert_eq!(initial_state_for((12, 11, 11), o), ChunkState::Active);
    assert_eq!(initial_state_for((12, 12, 10), o), ChunkState::LOD);
    assert_eq!(initial_state_for((13, 14, 10), o), ChunkState::LOD);
    assert_eq!(initial_state_for((13, 14, 11), o), ChunkState::Unloaded);
    assert_eq!(initial_state_for((10, 10, 19), o), ChunkState::Unloaded);
}

#[test]
fn generated_entries_obey_the_state_invariant() {
    let a = ManagedChunk::generated((1, 2, 3), ChunkState::Active, ground(3));
    assert_eq!(a.pos, (1, 2, 3));
    assert_eq!(a.state, ChunkState::Active);
    assert!(a.chunk.is_some() && a.lod_mesh.is_none() && a.entity.is_none());
    let l = ManagedChunk::generated((1, 2, 3), ChunkState::LOD, ground(3));
    assert_eq!(l.state, ChunkState::LOD);
    assert!(l.chunk.is_none());
    let mesh = l.lod_mesh.as_ref().unwrap();
    assert_eq!(mesh.positions.len(), 4 * 1024);
    assert!(mesh.positions.iter().all(|p| p.y == 750));
    let u = ManagedChunk::generated((1, 2, 3), ChunkState::Unloaded, ground(3));
    assert_eq!(u.state, ChunkState::Unloaded);
    assert!(u.chunk.is_none() && u.lod_mesh.is_none());
    assert!(a.is_well_formed() && l.is_well_formed() && u.is_well_formed());
}

#[test]
fn ill_formed_entries_are_recognised() {
    let mut e = ManagedChunk::generated((0, 0, 0), ChunkState::Active, ground(1));
    e.state = ChunkState::LOD;
    assert!(!e.is_well_formed());
    let mut f = ManagedChunk::generated((0, 0, 0), ChunkState::Active, ground(1));
    f.chunk.as_mut().unwrap().voxels.pop();
    assert!(!f.is_well_formed());
}

#[test]
fn active_to_lod_derives_the_mesh_and_frees_the_grid() {
    let mut e = ManagedChunk::generated((0, 0, 0), ChunkState::Active, ground(5));
    e.entity = Some(77);
    assert!(!e.needs_grid(Some(ChunkState::LOD)));
    e.transition(Some(ChunkState::LOD), None);
    assert_eq!(e.state, ChunkState::LOD);
    assert!(e.chunk.is_none());
    assert!(e.lod_mesh.as_ref().unwrap().positions.iter().all(|p| p.y == 1250));
    assert_eq!(e.entity, Some(77));
    assert_eq!(e.pos, (0, 0, 0));
}

#[test]
fn lod_to_active_regenerates_the_grid() {
    let mut e = ManagedChunk::generated((0, 0, 0), ChunkState::LOD, ground(5));
    assert!(e.needs_grid(Some(ChunkState::Active)));
    e.transition(Some(ChunkState::Active), Some(ground(9)));
    assert_eq!(e.state, ChunkState::Active);
    assert!(e.lod_mesh.is_none());
    assert_eq!(e.chunk.as_ref().unwrap().voxels, ground(9).voxels);
}

#[test]
fn unloaded_to_active_regenerates_the_grid() {
    let mut e = ManagedChunk::generated((0, 0, 0), ChunkState::Unloaded, ground(5));
    assert!(e.needs_grid(Some(ChunkState::Active)));
    e.transition(Some(ChunkState::Active), Some(ground(2)));
    assert_eq!(e.state, ChunkState::Active);
    assert_eq!(e.chunk.as_ref().unwrap().voxels, ground(2).voxels);
    assert!(e.lod_mesh.is_none());
}

#[test]
fn unloaded_to_lod_uses_a_temporary_grid() {
    let mut e = ManagedChunk::generated((0, 0, 0), ChunkState::Unloaded, ground(5));
    assert!(e.needs_grid(Some(ChunkState::LOD)));
    e.transition(Some(ChunkState::LOD), Some(ground(7)));
    assert_eq!(e.state, ChunkState::LOD);
    assert!(e.chunk.is_none());
    assert!(e.lod_mesh.as_ref().unwrap().positions.iter().all(|p| p.y == 1750));
}

#[test]
fn unloading_frees_grid_and_mesh() {
    let mut a = ManagedChunk::generated((0, 0, 0), ChunkState::Active, ground(5));
    a.transition(Some(ChunkState::Unloaded), None);
    assert_eq!(a.state, ChunkState::Unloaded);
    assert!(a.chunk.is_none() && a.lod_mesh.is_none());
    let mut l = ManagedChunk::generated((0, 0, 0), ChunkState::LOD, ground(5));
    l.transition(Some(ChunkState::Unloaded), None);
    assert_eq!(l.state, ChunkState::Unloaded);
    assert!(l.chunk.is_none() && l.lod_mesh.is_none());
}

#[test]
fn steps_to_the_same_state_change_nothing() {
    let mut a = ManagedChunk::generated((0, 0, 0), ChunkState::Active, ground(5));
    assert!(!a.needs_grid(Some(ChunkState::Active)));
    a.transition(Some(ChunkState::Active), Some(ground(1)));
    assert_eq!(a.chunk.as_ref().unwrap().voxels, ground(5).voxels);
    let mut l = ManagedChunk::generated((0, 0, 0), ChunkState::LOD, ground(5));
    l.transition(Some(ChunkState::LOD), None);
    assert!(l.lod_mesh.as_ref().unwrap().positions.iter().all(|p| p.y == 1250));
    let mut beyond = ManagedChunk::generated((0, 0, 0), ChunkState::Active, ground(5));
    assert!(!beyond.needs_grid(None));
    beyond.transition(None, None);
    assert_eq!(beyond.state, ChunkState::Active);
    assert!(beyond.chunk.is_some());
}

#[test]
fn store_insert_get_remove() {
    let mut store = ChunkManager::new(5);
    assert_eq!(store.radius, 5);
    assert_eq!(store.len(), 0);
    assert!(!store.contains_key((0, 0, 0)));
    assert!(store.get((0, 0, 0)).is_none());
    store.insert(active((0, 0, 0)));
    store.insert(active((1, 0, 0)));
    store.insert(ManagedChunk::generated((0, 0, 0), ChunkState::Unloaded, ground(1)));
    assert_eq!(store.len(), 2);
    assert_eq!(store.get((0, 0, 0)).unwrap().state, ChunkState::Unloaded);
    assert_eq!(store.get((1, 0, 0)).unwrap().state, ChunkState::Active);
    assert_eq!(store.find((1, 0, 0)), Some(1));
    assert_eq!(store.find((2, 0, 0)), None);
    let gone = store.remove((0, 0, 0)).unwrap();
    assert_eq!(gone.pos, (0, 0, 0));
    assert!(store.remove((0, 0, 0)).is_none());
    assert_eq!(store.len(), 1);
    assert!(store.contains_key((1, 0, 0)));
    assert!(store.is_well_formed());
}

#[test]
fn duplicate_keys_are_recognised() {
    let mut store = ChunkManager::new(5);
    store.loaded_chunks.push(active((1, 1, 1)));
    store.loaded_chunks.push(active((2, 1, 1)));
    assert!(store.is_well_formed());
    store.loaded_chunks.push(active((1, 1, 1)));
    assert!(!store.is_well_formed());
}

#[test]
fn eviction_removes_exactly_the_far_chunks() {
    let mut store = ChunkManager::new(5);
    for pos in [(0, 0, 0), (8, 0, 0), (8, 1, 0), (0, -9, 0), (4, 4, 4), (5, 5, 4), (-3, 2, 7)] {
        store.insert(active(pos));
    }
    store.evict_far_chunks((0, 0, 0));
    let mut kept: Vec<_> = store.loaded_chunks.iter().map(|e| e.pos).collect();
    kept.sort();
    assert_eq!(kept, vec![(-3, 2, 7), (0, 0, 0), (4, 4, 4), (8, 0, 0)]);
    assert!(store.is_well_formed());
    assert_eq!(store.get((4, 4, 4)).unwrap().chunk.as_ref().unwrap().voxels, ground(4).voxels);
}

#[test]
fn scenario_states_around_the_observer() {
    let observer = centre(0, 0, 0);
    let mut store = ChunkManager::new(5);
    store.insert(active((0, 0, 0)));
    store.insert(active((6, 0, 0)));
    store.insert(active((9, 0, 0)));
    store.insert(active((3, 0, 0)));
    let plan = manage_chunk_loading(&mut store, observer, (0, 0, -1000));
    assert!(plan.len() <= 5);
    assert!(!store.contains_key((9, 0, 0)));
    assert!(store.contains_key((6, 0, 0)));
    let noise: Vec<ChunkNoise> = plan.iter().map(|&p| samples(p, 2)).collect();
    complete_chunk_loading(&mut store, &worldgen(), observer, &plan, &noise);
    lod_tick(&mut store, observer, 2);
    assert_eq!(store.get((0, 0, 0)).unwrap().state, ChunkState::Active);
    assert_eq!(store.get((6, 0, 0)).unwrap().state, ChunkState::Unloaded);
    assert_eq!(store.get((3, 0, 0)).unwrap().state, ChunkState::LOD);
    assert!(store.get((9, 0, 0)).is_none());
    assert!(invariant_holds(&store));
    assert!(store.is_well_formed());
}

#[test]
fn lod_tick_asks_for_the_grids_it_needs() {
    let observer = centre(0, 0, 0);
    let mut store = ChunkManager::new(5);
    store.insert(ManagedChunk::generated((0, 0, 0), ChunkState::LOD, ground(1)));
    store.insert(ManagedChunk::generated((1, 0, 0), ChunkState::Active, ground(1)));
    store.insert(ManagedChunk::generated((4, 0, 0), ChunkState::Unloaded, ground(1)));
    store.insert(ManagedChunk::generated((4, 1, 0), ChunkState::Active, ground(1)));
    store.insert(ManagedChunk::generated((7, 0, 0), ChunkState::LOD, ground(1)));
    store.insert(ManagedChunk::generated((0, 2, 0), ChunkState::Unloaded, ground(1)));
    store.insert(ManagedChunk::generated((20, 0, 0), ChunkState::Active, ground(1)));
    let requests = store.lod_regeneration_requests(observer);
    assert_eq!(requests, vec![(0, 0, 0), (4, 0, 0), (0, 2, 0)]);
    let noise = vec![samples((0, 0, 0), 10), samples((4, 0, 0), 11), samples((0, 2, 0), 12)];
    update_chunk_lod_system(&mut store, &worldgen(), observer, &noise);
    let at = |p| store.get(p).unwrap();
    assert_eq!(at((0, 0, 0)).state, ChunkState::Active);
    assert_eq!(at((0, 0, 0)).chunk.as_ref().unwrap().voxels, ground(10).voxels);
    assert_eq!(at((1, 0, 0)).state, ChunkState::Active);
    assert_eq!(at((1, 0, 0)).chunk.as_ref().unwrap().voxels, ground(1).voxels);
    assert_eq!(at((4, 0, 0)).state, ChunkState::LOD);
    assert!(at((4, 0, 0)).lod_mesh.as_ref().unwrap().positions.iter().all(|p| p.y == 2750));
    assert_eq!(at((4, 1, 0)).state, ChunkState::LOD);
    assert!(at((4, 1, 0)).lod_mesh.as_ref().unwrap().positions.iter().all(|p| p.y == 250));
    assert_eq!(at((7, 0, 0)).state, ChunkState::Unloaded);
    assert_eq!(at((0, 2, 0)).state, ChunkState::Active);
    assert_eq!(at((0, 2, 0)).chunk.as_ref().unwrap().voxels, ground(12).voxels);
    // beyond the unload radius the policy leaves the entry to eviction
    assert_eq!(at((20, 0, 0)).state, ChunkState::Active);
    assert_eq!(store.len(), 7);
    assert!(invariant_holds(&store));
}

#[test]
fn a_second_lod_tick_changes_nothing() {
    let observer = centre(0, 0, 0);
    let mut store = ChunkManager::new(5);
    for pos in [(0, 0, 0), (3, 0, 0), (6, 0, 0)] {
        store.insert(active(pos));
    }
    lod_tick(&mut store, observer, 2);
    assert_eq!(lod_tick(&mut store, observer, 2), 0);
    assert_eq!(store.get((0, 0, 0)).unwrap().state, ChunkState::Active);
    assert_eq!(store.get((3, 0, 0)).unwrap().state, ChunkState::LOD);
    assert_eq!(store.get((6, 0, 0)).unwrap().state, ChunkState::Unloaded);
}

#[test]
fn look_delta_thresholds() {
    assert_eq!(look_delta(301), 1);
    assert_eq!(look_delta(300), 0);
    assert_eq!(look_delta(0), 0);
    assert_eq!(look_delta(-300), 0);
    assert_eq!(look_delta(-301), -1);
    assert_eq!(look_delta(i32::MAX), 1);
    assert_eq!(look_delta(i32::MIN), -1);
}

#[test]
fn chunks_ahead_come_nearest_first() {
    let ahead = ahead_of((10, 20, 30), 1, 0, 5);
    assert_eq!(ahead.len(), 5 * 5 * 3 * 2);
    assert_eq!(
        &ahead[..6],
        &[(11, 18, 30), (11, 18, 30), (11, 18, 31), (11, 18, 29), (11, 18, 32), (11, 18, 28)]
    );
    assert_eq!(ahead[6], (11, 19, 30));
    assert_eq!(ahead[30], (12, 18, 30));
    assert_eq!(ahead[149], (15, 22, 28));
}

#[test]
fn chunks_ahead_follow_a_diagonal_look() {
    let ahead = ahead_of((0, 0, 0), -1, 1, 2);
    assert_eq!(ahead.len(), 2 * 3 * 3 * 2);
    assert_eq!(&ahead[..6], &[(-1, -1, 1), (-1, -1, 1), (-2, -1, 0), (0, -1, 2), (-3, -1, -1), (1, -1, 3)]);
    assert!(ahead_of((0, 0, 0), 1, 1, -3).is_empty());
    assert!(ahead_of((0, 0, 0), 1, 1, 0).is_empty());
}

#[test]
fn box_and_cube_around_the_observer() {
    let around = box_around((0, 0, 0), 1);
    assert_eq!(around.len(), 9);
    assert_eq!(around[0], (-1, 0, -1));
    assert_eq!(around[1], (-1, 0, 0));
    assert_eq!(around[3], (0, 0, -1));
    assert_eq!(around[8], (1, 0, 1));
    assert_eq!(box_around((5, 5, 5), 5).len(), 11 * 5 * 11);
    assert_eq!(box_around((5, 5, 5), 5)[0], (0, 3, 0));
    assert!(box_around((0, 0, 0), -1).is_empty());
    assert_eq!(box_around((7, 8, 9), 0), vec![(7, 8, 9)]);
    let cube = cube_around((0, 0, 0), 1);
    assert_eq!(cube.len(), 27);
    assert_eq!(cube[0], (-1, -1, -1));
    assert_eq!(cube[1], (-1, -1, 0));
    assert_eq!(cube[3], (-1, 0, -1));
    assert_eq!(cube[9], (0, -1, -1));
    assert_eq!(cube[26], (1, 1, 1));
}

#[test]
fn a_tick_plans_the_chunks_ahead_first() {
    let mut store = ChunkManager::new(5);
    let plan = manage_chunk_loading(&mut store, centre(0, 0, 0), (1000, 0, 0));
    assert_eq!(plan, vec![(1, -2, 0), (1, -2, 1), (1, -2, -1), (1, -2, 2), (1, -2, -2)]);
}

#[test]
fn a_tick_skips_the_chunks_it_holds() {
    let mut store = ChunkManager::new(5);
    for pos in [(1, -2, 0), (1, -2, 1), (1, -2, 2)] {
        store.insert(active(pos));
    }
    let plan = manage_chunk_loading(&mut store, centre(0, 0, 0), (1000, 0, 0));
    assert_eq!(plan, vec![(1, -2, -1), (1, -2, -2), (1, -1, 0), (1, -1, 1), (1, -1, -1)]);
    for pos in &plan {
        assert!(!store.contains_key(*pos));
    }
}

#[test]
fn the_rest_of_the_range_follows_the_chunks_ahead() {
    // radius 1: of the chunks ahead only (1, 0, 0) is within the streaming radius
    let mut empty = ChunkManager::new(1);
    let plan = manage_chunk_loading(&mut empty, centre(0, 0, 0), (1000, 0, 0));
    assert_eq!(plan, vec![(1, 0, 0), (-1, 0, 0), (0, 0, -1), (0, 0, 0), (0, 0, 1)]);
    let mut store = ChunkManager::new(1);
    store.insert(active((1, 0, 0)));
    let plan = manage_chunk_loading(&mut store, centre(0, 0, 0), (1000, 0, 0));
    assert_eq!(plan, vec![(-1, 0, 0), (0, 0, -1), (0, 0, 0), (0, 0, 1)]);
}

#[test]
fn a_plan_stays_within_the_streaming_radius() {
    let mut store = ChunkManager::new(1);
    let plan = manage_chunk_loading(&mut store, centre(0, 0, 0), (0, 0, -1000));
    assert_eq!(plan, vec![(0, 0, -1), (-1, 0, 0), (0, 0, 0), (0, 0, 1), (1, 0, 0)]);
    let mut wide = ChunkManager::new(5);
    for _ in 0..200 {
        let plan = manage_chunk_loading(&mut wide, centre(0, 0, 0), (0, 0, -1000));
        for &p in &plan {
            assert!(is_within_chunks(p, (0, 0, 0), 5));
        }
        let noise: Vec<ChunkNoise> = plan.iter().map(|&p| samples(p, 1)).collect();
        complete_chunk_loading(&mut wide, &worldgen(), centre(0, 0, 0), &plan, &noise);
    }
    assert!(!wide.contains_key((2, 2, -5)));
    assert!(wide.contains_key((0, 0, -5)));
    assert!(wide.loaded_chunks.iter().all(|e| is_within_chunks(e.pos, (0, 0, 0), 5)));
}

#[test]
fn a_plan_names_no_chunk_twice() {
    for look in [(0, -1000, 0), (1000, 0, 0), (600, 0, -800), (0, 1000, 0)] {
        let mut store = ChunkManager::new(5);
        let plan = manage_chunk_loading(&mut store, centre(0, 0, 0), look);
        assert_eq!(plan.len(), 5);
        for i in 0..plan.len() {
            for j in 0..i {
                assert_ne!(plan[i], plan[j]);
            }
        }
    }
    // looking straight down, the column of the observer comes first
    let mut store = ChunkManager::new(5);
    let plan = manage_chunk_loading(&mut store, centre(0, 0, 0), (0, -1000, 0));
    assert_eq!(plan, vec![(0, -2, 0), (0, -1, 0), (0, 0, 0), (0, 1, 0), (0, 2, 0)]);
}

#[test]
fn a_tick_with_nothing_missing_plans_nothing() {
    let mut store = ChunkManager::new(0);
    store.insert(active((0, 0, 0)));
    let plan = manage_chunk_loading(&mut store, centre(0, 0, 0), (0, 0, 1000));
    assert!(plan.is_empty());
    let mut negative = ChunkManager::new(-4);
    assert!(manage_chunk_loading(&mut negative, centre(0, 0, 0), (0, 0, 1000)).is_empty());
}

#[test]
fn streaming_never_exceeds_the_budget() {
    let mut store = ChunkManager::new(5);
    let observer = centre(0, 0, 0);
    let w = worldgen();
    let mut ticks = 0;
    loop {
        let before = store.len();
        let plan = manage_chunk_loading(&mut store, observer, (600, 0, 800));
        assert!(plan.len() <= MAX_CHUNKS_PER_TICK);
        if plan.is_empty() {
            break;
        }
        let noise: Vec<ChunkNoise> = plan.iter().map(|&p| samples(p, 1)).collect();
        complete_chunk_loading(&mut store, &w, observer, &plan, &noise);
        assert_eq!(store.len(), before + plan.len());
        assert!(invariant_holds(&store));
        ticks += 1;
        assert!(ticks < 2000);
    }
    // exactly the chunks of the box within five chunks of the observer are loaded
    let mut expected = 0;
    for pos in box_around((0, 0, 0), 5) {
        if is_within_chunks(pos, (0, 0, 0), 5) {
            assert!(store.contains_key(pos));
            expected += 1;
        }
    }
    assert_eq!(store.len(), expected);
    assert_eq!(ticks, (expected + 4) / 5);
    assert!(store.is_well_formed());
}

#[test]
fn generated_chunks_start_in_the_state_of_their_distance() {
    let mut store = ChunkManager::new(5);
    let observer = centre(0, 0, 0);
    let plan = vec![(1, 1, 1), (3, 0, 0), (6, 0, 0), (3, 0, 0)];
    let noise = vec![samples((1, 1, 1), 1), samples((3, 0, 0), 2), samples((6, 0, 0), 3), samples((3, 0, 0), 4)];
    complete_chunk_loading(&mut store, &worldgen(), observer, &plan, &noise);
    assert_eq!(store.len(), 3);
    let near = store.get((1, 1, 1)).unwrap();
    assert_eq!(near.state, ChunkState::Active);
    assert_eq!(near.chunk.as_ref().unwrap().voxels, ground(1).voxels);
    let mid = store.get((3, 0, 0)).unwrap();
    assert_eq!(mid.state, ChunkState::LOD);
    // the later samples for the same coordinate took the place of the earlier ones
    assert!(mid.lod_mesh.as_ref().unwrap().positions.iter().all(|p| p.y == 1000));
    assert_eq!(store.get((6, 0, 0)).unwrap().state, ChunkState::Unloaded);
    assert!(invariant_holds(&store));
}

#[test]
fn insert_generated_replaces_an_entry() {
    let mut store = ChunkManager::new(5);
    store.insert_generated((0, 0, 5), ground(1), (0, 0, 0));
    assert_eq!(store.get((0, 0, 5)).unwrap().state, ChunkState::LOD);
    store.insert_generated((0, 0, 5), ground(1), (0, 0, 4));
    assert_eq!(store.get((0, 0, 5)).unwrap().state, ChunkState::Active);
    assert_eq!(store.len(), 1);
}

#[test]
fn far_chunks_are_gone_after_a_tick() {
    let mut store = ChunkManager::new(5);
    for pos in [(0, 0, 0), (1, 0, 0), (0, 0, 9), (7, 7, 7)] {
        store.insert(active(pos));
    }
    // the observer moves nine chunks along x
    let observer = centre(9, 0, 0);
    let plan = manage_chunk_loading(&mut store, observer, (1000, 0, 0));
    let noise: Vec<ChunkNoise> = plan.iter().map(|&p| samples(p, 1)).collect();
    complete_chunk_loading(&mut store, &worldgen(), observer, &plan, &noise);
    assert!(!store.contains_key((0, 0, 0)));
    assert!(!store.contains_key((0, 0, 9)));
    assert!(!store.contains_key((7, 7, 7)));
    assert!(store.contains_key((1, 0, 0)));
    for e in &store.loaded_chunks {
        assert!(chunks_are_within(e.pos, (9, 0, 0), UNLOAD_RADIUS_MILLI));
    }
}

#[test]
fn load_chunks_around_fills_the_cube() {
    let mut store = ChunkManager::new(1);
    store.insert(ManagedChunk::generated((0, 0, 0), ChunkState::Unloaded, ground(1)));
    let missing = store.chunks_to_load_around((0, 0, 0));
    assert_eq!(missing.len(), 26);
    assert_eq!(missing[0], (-1, -1, -1));
    assert_eq!(missing[11], (0, -1, 1));
    assert_eq!(missing[12], (0, 0, -1));
    assert_eq!(missing[13], (0, 0, 1));
    let noise: Vec<ChunkNoise> = (0..26).map(|k| samples(missing[k], k % 7)).collect();
    store.load_chunks_around((0, 0, 0), &worldgen(), &noise);
    assert_eq!(store.len(), 27);
    for pos in cube_around((0, 0, 0), 1) {
        assert!(store.contains_key(pos));
    }
    assert_eq!(store.get((0, 0, 0)).unwrap().state, ChunkState::Unloaded);
    assert_eq!(store.get((0, 0, 1)).unwrap().state, ChunkState::Active);
    assert_eq!(store.get((0, 0, 1)).unwrap().chunk.as_ref().unwrap().voxels, ground(13 % 7).voxels);
    assert_eq!(store.get((-1, -1, -1)).unwrap().chunk.as_ref().unwrap().voxels, ground(0).voxels);
    assert_eq!(store.get((1, 1, 1)).unwrap().chunk.as_ref().unwrap().voxels, ground(25 % 7).voxels);
    assert!(store.chunks_to_load_around((0, 0, 0)).is_empty());
    assert_eq!(store.count_state(ChunkState::Active), 26);
    assert_eq!(store.count_state(ChunkState::Unloaded), 1);
    assert_eq!(store.count_state(ChunkState::LOD), 0);
}

#[test]
fn samples_give_the_ground_they_are_made_for() {
    let w = worldgen();
    for (pos, layers) in [((0, 0, 0), 0), ((0, 0, 0), 7), ((3, -2, 5), 32), ((-4, 2, -9), 13)] {
        let chunk = Chunk::from_worldgen(&w, pos, &samples(pos, layers));
        assert_eq!(chunk.voxels, ground(layers).voxels);
    }
}

#[test]
fn a_new_store_is_empty() {
    let store = ChunkManager::new(7);
    assert_eq!(store.len(), 0);
    assert!(store.loaded_chunks.is_empty());
    assert_eq!(store.radius, 7);
    assert!(store.is_well_formed());
}

#[test]
fn progress_is_the_share_of_the_expected_chunks() {
    assert_eq!(total_expected(5), 1331);
    assert_eq!(total_expected(0), 1);
    assert_eq!(total_expected(-1), -1);
    assert_eq!(total_expected(i32::MAX), 4294967295i128 * 4294967295 * 4294967295);
    let mut store = ChunkManager::new(1);
    assert_eq!(loading_progress_ui(&store), 0);
    for k in 0..13 {
        store.insert(active((k, 0, 0)));
    }
    assert_eq!(loading_progress_ui(&store), 481);
    for k in 13..27 {
        store.insert(active((k, 0, 0)));
    }
    assert_eq!(loading_progress_ui(&store), 1000);
    store.insert(active((99, 0, 0)));
    assert_eq!(loading_progress_ui(&store), 1000);
    let mut negative = ChunkManager::new(-2);
    negative.insert(active((0, 0, 0)));
    assert_eq!(loading_progress_ui(&negative), 0);
}

#[test]
fn spawn_height_falls_back_to_the_default() {
    let mut store = ChunkManager::new(5);
    assert_eq!(store.spawn_ground_height(), DEFAULT_GROUND_MILLI);
    assert_eq!(DEFAULT_GROUND_MILLI, 10000);
    store.insert(active((1, 0, 0)));
    assert_eq!(store.spawn_ground_height(), 10000);
    store.insert(ManagedChunk::generated((0, 0, 0), ChunkState::LOD, ground(9)));
    assert_eq!(store.spawn_ground_height(), 0);
    store.insert(ManagedChunk::generated((0, 0, 0), ChunkState::Active, ground(9)));
    assert_eq!(store.spawn_ground_height(), 2000);
    store.insert(ManagedChunk::generated((0, 0, 0), ChunkState::Active, ground(0)));
    assert_eq!(store.spawn_ground_height(), 0);
}

#[test]
fn highest_ground_is_the_highest_column_top() {
    let mut chunk = ground(3);
    chunk.voxels[5 + 20 * 32 + 9 * 1024] = Voxel::Snow;
    chunk.voxels[6 + 11 * 32 + 9 * 1024] = Voxel::Snow;
    assert_eq!(chunk.highest_ground(), 20);
    assert_eq!(ground(0).highest_ground(), 0);
    assert_eq!(ground(1).highest_ground(), 0);
    assert_eq!(ground(32).highest_ground(), 31);
}

#[test]
fn chunk_origin_is_coordinate_times_edge() {
    assert_eq!(chunk_world_origin((0, 0, 0)), (0, 0, 0));
    assert_eq!(chunk_world_origin((1, -2, 3)), (8000, -16000, 24000));
    assert_eq!(chunk_world_origin((i64::MAX, i64::MIN, 0)), (i64::MAX as i128 * 8000, i64::MIN as i128 * 8000, 0));
    assert_eq!(observer_chunk((8000, -16000, 24000)), (1, -2, 3));
    assert_eq!(observer_chunk((15999, -8001, 31999)), (1, -2, 3));
}
