use vstd::prelude::*;

verus! {

/// Edge length of a chunk, in voxels.
pub const CHUNK_SIZE: usize = 32;

/// Number of voxels in a chunk.
pub const CHUNK_VOLUME: usize = 32768;

/// Edge length of a voxel, in thousandths of a world unit.
pub const VOXEL_SIZE_MILLI: i64 = 250;

/// Edge length of a chunk, in thousandths of a world unit.
pub const CHUNK_EDGE_MILLI: i64 = 8000;

/// Material of one voxel. `Air` is empty space; every other kind is solid.
#[derive(Clone, Copy, PartialEq, Eq, Debug, Structural)]
pub enum Voxel {
    Air,
    Solid,
    Stone,
    Dirt,
    Grass,
    Sand,
    Forest,
    Plains,
    Taiga,
    Desert,
    Snow,
}

impl Voxel {
    /// A voxel is solid when it holds any material.
    pub open spec fn solid(self) -> bool {
        self != Voxel::Air
    }

    /// Whether the voxel holds any material.
    pub fn is_solid(self) -> (b: bool)
        ensures
            b == self.solid(),
    {
        self != Voxel::Air
    }
}

/// Fidelity at which a chunk is kept.
#[derive(Debug, Clone, Copy, PartialEq, Eq, Structural)]
pub enum ChunkLodState {
    /// High detail, full mesh.
    Active,
    /// Low detail, one quad per column.
    LOD,
    /// Neither grid nor mesh.
    Unloaded,
}

} // verus!
