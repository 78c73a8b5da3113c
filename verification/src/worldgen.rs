use vstd::prelude::*;
use crate::voxel::{Voxel, ChunkLodState, CHUNK_SIZE, CHUNK_VOLUME};
use crate::terrain::{Chunk, flat_index, in_grid, lemma_flat_index, lemma_place_in_grid};
use crate::meshing::COLUMNS;

verus! {

/// Makes `noise::Perlin` known as an opaque type.
#[verifier::external_type_specification]
#[verifier::external_body]
pub struct ExPerlin(noise::Perlin);

/// Makes `noise::RidgedMulti` known as an opaque type.
#[verifier::external_type_specification]
#[verifier::external_body]
#[verifier::reject_recursive_types(T)]
pub struct ExRidgedMulti<T>(noise::RidgedMulti<T>);

/// The seed that a Perlin generator was built with: the value that it
/// keeps in its `seed` field and that `noise::Seedable::seed` returns.
pub uninterp spec fn perlin_seed(generator: noise::Perlin) -> u32;

/// The seed that a ridged multifractal was built with: the value that it
/// keeps in its `seed` field and that `noise::Seedable::seed` returns.
pub uninterp spec fn ridged_seed(generator: noise::RidgedMulti<noise::Perlin>) -> u32;

/// Calls `noise::Perlin::new`, which builds a Perlin generator whose
/// permutation table is derived from `seed` and which keeps `seed` as its
/// seed. Of the generator that comes back only its seed is claimed.
#[verifier::external_body]
fn perlin_generator(seed: u32) -> (generator: noise::Perlin)
    ensures
        perlin_seed(generator) == seed,
{
    noise::Perlin::new(seed)
}

/// Calls `noise::RidgedMulti::new`, which builds a ridged multifractal of six
/// Perlin octaves, seeds them with `seed`, `seed + 1`, ..., `seed + 5`, and
/// keeps `seed` as its seed; the bound keeps those sums within `u32`. Of
/// the generator that comes back only its seed is claimed.
#[verifier::external_body]
fn ridged_generator(seed: u32) -> (generator: noise::RidgedMulti<noise::Perlin>)
    requires
        seed <= u32::MAX - 5,
    ensures
        ridged_seed(generator) == seed,
{
    noise::RidgedMulti::new(seed)
}

/// Address of a chunk in the hierarchy of chunk levels; level 0 holds the
/// chunks of voxels, each further level their parents.
#[derive(Clone, Copy, Debug, PartialEq, Eq, Hash, Structural)]
pub struct HierarchicalChunkAddr {
    pub level: u8,
    pub x: i64,
    pub y: i64,
    pub z: i64,
}

/// What is known of a chunk of a higher level.
#[derive(Clone, Copy, Debug, PartialEq, Eq, Structural)]
pub struct ChunkSummary {
    /// Biome index.
    pub biome: u8,
    /// Mean height of the surface in thousandths of a voxel.
    pub avg_height: i32,
}

/// A node of the hierarchy of chunks.
pub struct ChunkNode {
    pub addr: HierarchicalChunkAddr,
    /// The children of a node that is not a leaf, once they are generated.
    pub children: Option<Box<[ChunkNode]>>,
    pub summary: Option<ChunkSummary>,
}

/// The terrain generator: a seed and the noise generators derived from it.
///
/// The generators work in floating point and are sampled by the host; the
/// samples enter this library as thousandths, and everything that is
/// computed from them is computed here.
pub struct WorldGen {
    /// Number of chunk levels.
    pub levels: u8,
    /// Edge length of a chunk, in voxels.
    pub chunk_size: usize,
    pub seed: u64,
    pub base_noise: noise::Perlin,
    pub ridged_noise: noise::RidgedMulti<noise::Perlin>,
    pub mountain_noise: noise::Perlin,
    pub detail_noise: noise::Perlin,
    pub cave_noise: noise::Perlin,
    pub warp_x_noise: noise::Perlin,
    pub warp_z_noise: noise::Perlin,
}

/// The seed of noise layer `layer` of a world with seed `seed`: the low 32
/// bits of the world seed plus the number of the layer.
pub open spec fn layer_seed(seed: u64, layer: int) -> int {
    (seed % 0x1_0000_0000) + layer
}

/// One rule of the biome table: it applies where the temperature is above
/// `temperature` and the rainfall above `rainfall`; a rule without a bound
/// asks nothing of that signal.
pub struct BiomeRule {
    pub temperature: Option<int>,
    pub rainfall: Option<int>,
    pub biome: u8,
}

impl BiomeRule {
    /// Whether the rule applies to the two climate signals.
    pub open spec fn applies(self, temperature: int, rainfall: int) -> bool {
        &&& match self.temperature {
            Some(bound) => temperature > bound,
            None => true,
        }
        &&& match self.rainfall {
            Some(bound) => rainfall > bound,
            None => true,
        }
    }
}

/// The biome table, in the order in which its rules are tried. Temperatures
/// are in hundred-thousandths, rainfall in thousandths. Biome 0 is forest,
/// 1 plains, 2 taiga, 3 desert.
pub open spec fn biome_rules() -> Seq<BiomeRule> {
    seq![
        BiomeRule { temperature: Some(70000), rainfall: Some(700), biome: 0 },
        BiomeRule { temperature: Some(70000), rainfall: Some(300), biome: 1 },
        BiomeRule { temperature: Some(70000), rainfall: None, biome: 3 },
        BiomeRule { temperature: Some(40000), rainfall: Some(600), biome: 0 },
        BiomeRule { temperature: Some(40000), rainfall: Some(300), biome: 1 },
        BiomeRule { temperature: Some(40000), rainfall: None, biome: 3 },
        BiomeRule { temperature: Some(20000), rainfall: Some(500), biome: 2 },
        BiomeRule { temperature: Some(20000), rainfall: None, biome: 1 },
        BiomeRule { temperature: None, rainfall: None, biome: 2 },
    ]
}

/// The biome of the first rule, from rule `from` on, that applies.
pub open spec fn first_match(rules: Seq<BiomeRule>, temperature: int, rainfall: int, from: int) -> u8
    decreases rules.len() - from,
{
    if from < 0 || from >= rules.len() {
        2
    } else if rules[from].applies(temperature, rainfall) {
        rules[from].biome
    } else {
        first_match(rules, temperature, rainfall, from + 1)
    }
}

/// Temperature at world latitude `z`, in hundred-thousandths: seven tenths
/// of the closeness to the equator, which falls from one at `z = 0` to zero
/// at ten thousand voxels, and three tenths of the noise sample.
pub open spec fn temperature_at(z: int, noise: int) -> int {
    let latitude = if z < 0 {
        -z
    } else {
        z
    };
    let closeness = 10000 - if latitude < 10000 {
        latitude
    } else {
        10000
    };
    7 * closeness + 30 * noise
}

/// The biome at latitude `z` for the two climate samples.
pub open spec fn biome_at(z: int, temperature_noise: int, rainfall_noise: int) -> u8 {
    first_match(biome_rules(), temperature_at(z, temperature_noise), rainfall_noise, 0)
}

/// Density in ten-thousandths at layer `y` under a surface at
/// `surface_height` thousandths: a fifth of the depth below the surface, or
/// minus one at and above it; minus one more inside a cave, which is where
/// the depth is between ten and eighty and the cave sample above six tenths;
/// and a tenth of the detail sample.
pub open spec fn density_at(y: int, surface_height: int, cave_noise: int, detail_noise: int) -> int {
    let depth = surface_height - 1000 * y;
    let gradient = if depth > 0 {
        2 * depth
    } else {
        -10000
    };
    let carve = if 10000 < depth < 80000 && cave_noise > 600 {
        -10000int
    } else {
        0
    };
    gradient + carve + detail_noise
}

/// Whether `r` is the square root of `n`, rounded down.
pub open spec fn is_root(n: int, r: int) -> bool {
    0 <= r && r * r <= n < (r + 1) * (r + 1)
}

/// The square root of `n`, rounded down.
pub open spec fn isqrt(n: int) -> int {
    choose|r: int| is_root(n, r)
}

/// A number has at most one rounded-down square root.
pub proof fn lemma_root_unique(n: int, a: int, b: int)
    requires
        is_root(n, a),
        is_root(n, b),
    ensures
        a == b,
        isqrt(n) == a,
{
    assert(a < b ==> (a + 1) * (a + 1) <= b * b) by (nonlinear_arith)
        requires
            0 <= a,
    ;
    assert(b < a ==> (b + 1) * (b + 1) <= a * a) by (nonlinear_arith)
        requires
            0 <= b,
    ;
    let c = isqrt(n);
    assert(is_root(n, c));
    assert(a < c ==> (a + 1) * (a + 1) <= c * c) by (nonlinear_arith)
        requires
            0 <= a,
    ;
    assert(c < a ==> (c + 1) * (c + 1) <= a * a) by (nonlinear_arith)
        requires
            0 <= c,
    ;
}

/// How strongly mountains are present, in thousandths: the mountain sample
/// raised by a tenth and held between nought and one.
pub open spec fn mountain_mask(mountains: int) -> int {
    if mountains + 100 < 0 {
        0
    } else if mountains + 100 > 1000 {
        1000
    } else {
        mountains + 100
    }
}

/// Height of the mountains in thousandths of a voxel: the ridged sample
/// times 120, times the mask raised to the power of one and a half. The
/// square root of the mask is taken in thousandths and rounded down, and
/// so is the product.
pub open spec fn mountains_at(mountains: int, ridged: int) -> int {
    let mask = mountain_mask(mountains);
    (120 * ridged * (mask * isqrt(1000 * mask))) / 1000000
}

/// Height of the surface in thousandths of a voxel: a continent between
/// nought and a hundred voxels, the mountains, and hills of up to 25 voxels.
pub open spec fn height_at(continent: int, mountains: int, ridged: int, hills: int) -> int {
    50 * continent + 50000 + mountains_at(mountains, ridged) + 25 * hills
}

/// The material that a solid voxel takes in a biome.
pub open spec fn biome_material(biome: u8) -> Voxel {
    if biome == 0 {
        Voxel::Forest
    } else if biome == 1 {
        Voxel::Plains
    } else if biome == 2 {
        Voxel::Taiga
    } else if biome == 3 {
        Voxel::Desert
    } else {
        Voxel::Stone
    }
}

/// The square root of `n`, rounded down.
pub fn integer_sqrt(n: i64) -> (root: i64)
    requires
        0 <= n <= 1000000,
    ensures
        is_root(n as int, root as int),
        root == isqrt(n as int),
        root <= 1000,
{
    let mut root: i64 = 0;
    loop
        invariant
            0 <= root <= 1000,
            root * root <= n <= 1000000,
        ensures
            0 <= root <= 1000,
            root * root <= n < (root + 1) * (root + 1),
        decreases 1000 - root,
    {
        let next = root + 1;
        assert(next * next <= 1001 * 1001) by (nonlinear_arith)
            requires
                0 <= next <= 1001,
        ;
        if next * next > n {
            break ;
        }
        assert(next <= 1000) by (nonlinear_arith)
            requires
                next * next <= 1000000,
                0 <= next,
        ;
        root = next;
    }
    proof {
        lemma_root_unique(n as int, root as int, root as int);
    }
    root
}

/// `a` divided by `b`, rounded down.
pub fn floor_div(a: i64, b: i64) -> (q: i64)
    requires
        b > 0,
    ensures
        q == a as int / b as int,
{
    if a >= 0 {
        a / b
    } else {
        let q = (-(a + 1)) / b;
        assert((a as int) / (b as int) == -(q as int) - 1) by (nonlinear_arith)
            requires
                a < 0,
                b > 0,
                q == (-(a + 1)) / (b as int),
        ;
        -q - 1
    }
}

impl WorldGen {
    /// A generator for the world with seed `seed`. The seven noise layers
    /// take the seeds `layer_seed(seed, 0)`, ..., `layer_seed(seed, 6)`, which
    /// have to fit in 32 bits: the base layer the first, then the ridged,
    /// mountain, detail and cave layers and the two warp layers.
    pub fn new(levels: u8, chunk_size: usize, seed: u64) -> (worldgen: WorldGen)
        requires
            layer_seed(seed, 6) <= u32::MAX,
        ensures
            worldgen.levels == levels,
            worldgen.chunk_size == chunk_size,
            worldgen.seed == seed,
            perlin_seed(worldgen.base_noise) == layer_seed(seed, 0),
            ridged_seed(worldgen.ridged_noise) == layer_seed(seed, 1),
            perlin_seed(worldgen.mountain_noise) == layer_seed(seed, 2),
            perlin_seed(worldgen.detail_noise) == layer_seed(seed, 3),
            perlin_seed(worldgen.cave_noise) == layer_seed(seed, 4),
            perlin_seed(worldgen.warp_x_noise) == layer_seed(seed, 5),
            perlin_seed(worldgen.warp_z_noise) == layer_seed(seed, 6),
    {
        let low: u32 = (seed % 0x1_0000_0000) as u32;
        WorldGen {
            levels,
            chunk_size,
            seed,
            base_noise: perlin_generator(low),
            ridged_noise: ridged_generator(low + 1),
            mountain_noise: perlin_generator(low + 2),
            detail_noise: perlin_generator(low + 3),
            cave_noise: perlin_generator(low + 4),
            warp_x_noise: perlin_generator(low + 5),
            warp_z_noise: perlin_generator(low + 6),
        }
    }

    /// The biome at world latitude `z`, given the temperature and the
    /// rainfall sample of the column in thousandths: the biome of the first
    /// rule of the biome table that applies.
    pub fn get_biome(&self, z: i64, temperature_noise: i32, rainfall_noise: i32) -> (biome: u8)
        ensures
            biome == biome_at(z as int, temperature_noise as int, rainfall_noise as int),
    {
        let latitude: i128 = if z < 0 {
            -(z as i128)
        } else {
            z as i128
        };
        let closeness: i128 = 10000 - if latitude < 10000 {
            latitude
        } else {
            10000
        };
        let t: i128 = 7 * closeness + 30 * (temperature_noise as i128);
        let r = rainfall_noise;
        proof {
            reveal_with_fuel(first_match, 10);
        }
        if t > 70000 {
            if r > 700 {
                0
            } else if r > 300 {
                1
            } else {
                3
            }
        } else if t > 40000 {
            if r > 600 {
                0
            } else if r > 300 {
                1
            } else {
                3
            }
        } else if t > 20000 {
            if r > 500 {
                2
            } else {
                1
            }
        } else {
            2
        }
    }

    /// Density in ten-thousandths at world layer `y`, under a surface at
    /// `surface_height` thousandths, for the cave and the detail sample of
    /// the voxel in thousandths. A voxel is solid where this is positive.
    pub fn get_density(&self, y: i64, surface_height: i64, cave_noise: i32, detail_noise: i32) -> (density: i128)
        ensures
            density == density_at(
                y as int,
                surface_height as int,
                cave_noise as int,
                detail_noise as int,
            ),
    {
        let depth: i128 = surface_height as i128 - 1000 * (y as i128);
        let gradient: i128 = if depth > 0 {
            2 * depth
        } else {
            -10000
        };
        let carve: i128 = if 10000 < depth && depth < 80000 && cave_noise > 600 {
            -10000
        } else {
            0
        };
        gradient + carve + detail_noise as i128
    }

    /// Height of the surface in thousandths of a voxel, given the four
    /// height samples of the column in thousandths.
    pub fn get_height(&self, continent: i32, mountains: i32, ridged: i32, hills: i32) -> (height: i64)
        ensures
            height == height_at(continent as int, mountains as int, ridged as int, hills as int),
    {
        let mask: i64 = if mountains as i64 + 100 < 0 {
            0
        } else if mountains as i64 + 100 > 1000 {
            1000
        } else {
            mountains as i64 + 100
        };
        let root = integer_sqrt(1000 * mask);
        assert(0 <= mask * root <= 1000000) by (nonlinear_arith)
            requires
                0 <= mask <= 1000,
                0 <= root <= 1000,
        ;
        let weight: i64 = mask * root;
        let slope: i64 = 120 * (ridged as i64);
        assert(-0x8000_0000 * 120 * 1000000 <= slope * weight <= 0x8000_0000 * 120 * 1000000)
            by (nonlinear_arith)
            requires
                -0x8000_0000 * 120 <= slope <= 0x8000_0000 * 120,
                0 <= weight <= 1000000,
        ;
        assert(120 * ridged * weight == slope * weight) by (nonlinear_arith)
            requires
                slope == 120 * ridged,
        ;
        let raised = floor_div(slope * weight, 1000000);
        50 * (continent as i64) + 50000 + raised + 25 * (hills as i64)
    }
}

/// The noise samples of one column of a chunk, in thousandths.
#[derive(Clone, Copy, PartialEq, Eq, Debug, Structural)]
pub struct ColumnNoise {
    /// Continent sample, at the warped position of the column.
    pub continent: i32,
    /// Mountain presence sample.
    pub mountains: i32,
    /// Ridged mountain sample.
    pub ridged: i32,
    /// Hill sample.
    pub hills: i32,
    /// Temperature sample.
    pub temperature: i32,
    /// Rainfall sample.
    pub rainfall: i32,
}

/// The noise samples of one voxel of a chunk, in thousandths.
#[derive(Clone, Copy, PartialEq, Eq, Debug, Structural)]
pub struct VoxelNoise {
    /// Cave sample.
    pub cave: i32,
    /// Detail sample.
    pub detail: i32,
}

/// The noise samples of a chunk: one [`ColumnNoise`] for each column, column
/// `(x, z)` at `x + 32 z`, and one [`VoxelNoise`] for each voxel, in the
/// order of the voxel buffer.
pub struct ChunkNoise {
    pub columns: Vec<ColumnNoise>,
    pub voxels: Vec<VoxelNoise>,
}

impl ChunkNoise {
    /// There is one sample for each column and for each voxel.
    pub open spec fn wf(&self) -> bool {
        self.columns@.len() == COLUMNS && self.voxels@.len() == CHUNK_VOLUME
    }
}

/// Whether the world coordinates of every voxel of chunk `chunk_pos` fit in 64 bits.
pub open spec fn world_fits(chunk_pos: (i64, i64, i64)) -> bool {
    &&& i64::MIN <= chunk_pos.0 * 32 && chunk_pos.0 * 32 + 31 <= i64::MAX
    &&& i64::MIN <= chunk_pos.1 * 32 && chunk_pos.1 * 32 + 31 <= i64::MAX
    &&& i64::MIN <= chunk_pos.2 * 32 && chunk_pos.2 * 32 + 31 <= i64::MAX
}

/// The voxel that generation puts at `(x, y, z)` of chunk `chunk_pos`: the
/// material of the biome of the column where the density is positive, air elsewhere.
pub open spec fn generated_voxel(
    chunk_pos: (i64, i64, i64),
    x: int,
    y: int,
    z: int,
    column: ColumnNoise,
    voxel: VoxelNoise,
) -> Voxel {
    let height = height_at(
        column.continent as int,
        column.mountains as int,
        column.ridged as int,
        column.hills as int,
    );
    let biome = biome_at(chunk_pos.2 * 32 + z, column.temperature as int, column.rainfall as int);
    if density_at(chunk_pos.1 * 32 + y, height, voxel.cave as int, voxel.detail as int) > 0 {
        biome_material(biome)
    } else {
        Voxel::Air
    }
}

/// The grid that generation gives chunk `chunk_pos` for the given samples.
pub open spec fn generated_grid(
    chunk_pos: (i64, i64, i64),
    columns: Seq<ColumnNoise>,
    voxels: Seq<VoxelNoise>,
) -> Seq<Voxel> {
    Seq::new(
        CHUNK_VOLUME as nat,
        |i: int|
            generated_voxel(
                chunk_pos,
                i % 32,
                (i / 32) % 32,
                i / 1024,
                columns[i % 32 + (i / 1024) * 32],
                voxels[i],
            ),
    )
}

/// The material of a solid voxel in biome `biome`.
pub fn material_of(biome: u8) -> (voxel: Voxel)
    ensures
        voxel == biome_material(biome),
{
    if biome == 0 {
        Voxel::Forest
    } else if biome == 1 {
        Voxel::Plains
    } else if biome == 2 {
        Voxel::Taiga
    } else if biome == 3 {
        Voxel::Desert
    } else {
        Voxel::Stone
    }
}

impl Chunk {
    /// Generates the grid of chunk `chunk_pos` from its noise samples, column
    /// by column: the height of the surface and the biome once for each
    /// column, then the density of each voxel of the column.
    pub fn from_worldgen(worldgen: &WorldGen, chunk_pos: (i64, i64, i64), noise: &ChunkNoise) -> (chunk: Chunk)
        requires
            noise.wf(),
            world_fits(chunk_pos),
        ensures
            chunk.wf(),
            chunk.lod_state == ChunkLodState::Active,
            chunk@ == generated_grid(chunk_pos, noise.columns@, noise.voxels@),
    {
        let mut chunk = Chunk::new_filled(Voxel::Air);
        let ghost goal = generated_grid(chunk_pos, noise.columns@, noise.voxels@);
        let base_y = chunk_pos.1 * 32;
        let base_z = chunk_pos.2 * 32;
        let mut c: usize = 0;
        while c < COLUMNS
            invariant
                noise.wf(),
                world_fits(chunk_pos),
                base_y == chunk_pos.1 * 32,
                base_z == chunk_pos.2 * 32,
                goal == generated_grid(chunk_pos, noise.columns@, noise.voxels@),
                c <= COLUMNS,
                chunk.wf(),
                chunk.lod_state == ChunkLodState::Active,
                forall|x: int, y: int, z: int|
                    in_grid(x, y, z) && x + 32 * z < c ==> chunk@[#[trigger] flat_index(x, y, z)]
                        == goal[flat_index(x, y, z)],
            decreases COLUMNS - c,
        {
            let x = c % 32;
            let z = c / 32;
            let column = noise.columns[c];
            let surface_height = worldgen.get_height(
                column.continent,
                column.mountains,
                column.ridged,
                column.hills,
            );
            let biome = worldgen.get_biome(base_z + z as i64, column.temperature, column.rainfall);
            let mut y: usize = 0;
            while y < CHUNK_SIZE
                invariant
                    noise.wf(),
                    world_fits(chunk_pos),
                    base_y == chunk_pos.1 * 32,
                    goal == generated_grid(chunk_pos, noise.columns@, noise.voxels@),
                    c < COLUMNS,
                    x == c % 32,
                    z == c / 32,
                    column == noise.columns@[c as int],
                    surface_height == height_at(
                        column.continent as int,
                        column.mountains as int,
                        column.ridged as int,
                        column.hills as int,
                    ),
                    biome == biome_at(
                        chunk_pos.2 * 32 + z,
                        column.temperature as int,
                        column.rainfall as int,
                    ),
                    y <= CHUNK_SIZE,
                    chunk.wf(),
                    chunk.lod_state == ChunkLodState::Active,
                    forall|x2: int, y2: int, z2: int|
                        in_grid(x2, y2, z2) && x2 + 32 * z2 < c ==> chunk@[#[trigger] flat_index(
                            x2,
                            y2,
                            z2,
                        )] == goal[flat_index(x2, y2, z2)],
                    forall|k: int|
                        0 <= k < y ==> chunk@[#[trigger] flat_index(x as int, k, z as int)]
                            == goal[flat_index(x as int, k, z as int)],
                decreases CHUNK_SIZE - y,
            {
                let index = x + y * 32 + z * 1024;
                let sample = noise.voxels[index];
                let density = worldgen.get_density(
                    base_y + y as i64,
                    surface_height,
                    sample.cave,
                    sample.detail,
                );
                let voxel = if density > 0 {
                    material_of(biome)
                } else {
                    Voxel::Air
                };
                proof {
                    lemma_flat_index(x as int, y as int, z as int);
                    assert(voxel == goal[index as int]);
                }
                chunk.voxels[index] = voxel;
                y += 1;
            }
            proof {
                assert forall|x2: int, y2: int, z2: int|
                    in_grid(x2, y2, z2) && x2 + 32 * z2 < c + 1 implies chunk@[#[trigger] flat_index(
                    x2,
                    y2,
                    z2,
                )] == goal[flat_index(x2, y2, z2)] by {
                    if x2 + 32 * z2 == c {
                        assert(x2 == x && z2 == z);
                    }
                }
            }
            c += 1;
        }
        proof {
            assert forall|i: int| 0 <= i < CHUNK_VOLUME implies chunk@[i] == goal[i] by {
                lemma_place_in_grid(i);
                assert(chunk@[flat_index(i % 32, (i / 32) % 32, i / 1024)] == goal[flat_index(
                    i % 32,
                    (i / 32) % 32,
                    i / 1024,
                )]);
            }
            assert(chunk@ =~= goal);
        }
        chunk
    }
}

/// Generation is idempotent: the grid of a chunk is a function of its
/// coordinate and its noise samples alone, so the same samples give the same
/// grid, voxel for voxel, from whichever generator and however often.
pub proof fn lemma_generation_is_idempotent(
    chunk_pos: (i64, i64, i64),
    first: ChunkNoise,
    second: ChunkNoise,
)
    requires
        first.columns@ == second.columns@,
        first.voxels@ == second.voxels@,
    ensures
        generated_grid(chunk_pos, first.columns@, first.voxels@) == generated_grid(
            chunk_pos,
            second.columns@,
            second.voxels@,
        ),
        generated_grid(chunk_pos, first.columns@, first.voxels@).len() == CHUNK_VOLUME,
{
}

impl ChunkNoise {
    /// Whether there is one sample for each column and for each voxel.
    pub fn is_well_formed(&self) -> (ok: bool)
        ensures
            ok == self.wf(),
    {
        self.columns.len() == COLUMNS && self.voxels.len() == CHUNK_VOLUME
    }
}

/// Whether the world coordinates of every voxel of chunk `chunk_pos` fit in 64 bits.
pub fn world_coordinates_fit(chunk_pos: (i64, i64, i64)) -> (ok: bool)
    ensures
        ok == world_fits(chunk_pos),
{
    let low: i64 = -0x0400_0000_0000_0000;
    let high: i64 = 0x03ff_ffff_ffff_ffff;
    low <= chunk_pos.0 && chunk_pos.0 <= high && low <= chunk_pos.1 && chunk_pos.1 <= high && low
        <= chunk_pos.2 && chunk_pos.2 <= high
}

} // verus!
