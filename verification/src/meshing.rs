use vstd::prelude::*;
use crate::voxel::{Voxel, CHUNK_SIZE, CHUNK_VOLUME};
use crate::terrain::{Chunk, voxel_at, in_grid, column_top};
use crate::mesh::{IVec3, Face, MeshData, MeshView, Rgba, face_color, face_color_of, opaque, quad_indices};

verus! {

/// Number of voxel faces in a chunk.
pub const FACE_SLOTS: usize = 196608;

/// Number of columns in a chunk.
pub const COLUMNS: usize = 1024;

/// The full mesher visits the voxels with `x` outermost and `z` innermost,
/// and on each voxel its six faces in the order of [`Face::at`]. A slot is a
/// position in that order; these are the coordinates of slot `s`.
pub open spec fn slot_x(s: int) -> int {
    (s / 6) / 1024
}

/// Layer of the voxel of slot `s`.
pub open spec fn slot_y(s: int) -> int {
    ((s / 6) / 32) % 32
}

/// Depth of the voxel of slot `s`.
pub open spec fn slot_z(s: int) -> int {
    (s / 6) % 32
}

/// Face of slot `s`.
pub open spec fn slot_face(s: int) -> Face {
    Face::at(s % 6)
}

/// Lowest corner of voxel `(x, y, z)` in thousandths of a world unit.
pub open spec fn voxel_base(x: int, y: int, z: int) -> IVec3 {
    IVec3 { x: (x * 250) as i32, y: (y * 250) as i32, z: (z * 250) as i32 }
}

/// A face is exposed when its voxel is solid and the voxel behind the face
/// is not; beyond the chunk there is only air.
pub open spec fn face_exposed(grid: Seq<Voxel>, x: int, y: int, z: int, face: Face) -> bool {
    voxel_at(grid, x, y, z).solid() && !voxel_at(
        grid,
        x + face.normal().x,
        y + face.normal().y,
        z + face.normal().z,
    ).solid()
}

/// Whether slot `s` holds an exposed face.
pub open spec fn slot_exposed(grid: Seq<Voxel>, s: int) -> bool {
    face_exposed(grid, slot_x(s), slot_y(s), slot_z(s), slot_face(s))
}

/// The quads of the exposed faces among the first `n` slots, in slot order.
pub open spec fn full_mesh_upto(grid: Seq<Voxel>, n: nat) -> MeshView
    decreases n,
{
    if n == 0 {
        MeshView::empty()
    } else {
        let s = n - 1;
        let before = full_mesh_upto(grid, s as nat);
        if slot_exposed(grid, s) {
            before.with_quad(
                voxel_base(slot_x(s), slot_y(s), slot_z(s)),
                slot_face(s),
                face_color_of(
                    voxel_at(grid, slot_x(s), slot_y(s), slot_z(s)),
                    slot_face(s),
                    slot_y(s),
                ),
            )
        } else {
            before
        }
    }
}

/// The full-detail mesh of a grid: one quad for each exposed face.
pub open spec fn full_mesh(grid: Seq<Voxel>) -> MeshView {
    full_mesh_upto(grid, FACE_SLOTS as nat)
}

/// Whether some solid voxel of the grid touches air or the edge of the chunk.
pub open spec fn has_exposed_face(grid: Seq<Voxel>) -> bool {
    exists|x: int, y: int, z: int, f: int|
        in_grid(x, y, z) && 0 <= f < 6 && #[trigger] face_exposed(grid, x, y, z, Face::at(f))
}

/// Slot of face `f` of voxel `(x, y, z)`.
pub open spec fn slot_of(x: int, y: int, z: int, f: int) -> int {
    (x * 1024 + y * 32 + z) * 6 + f
}

/// Every face of every voxel has its slot, from which it can be read back.
pub proof fn lemma_slot_of(x: int, y: int, z: int, f: int)
    requires
        in_grid(x, y, z),
        0 <= f < 6,
    ensures
        0 <= slot_of(x, y, z, f) < FACE_SLOTS,
        slot_x(slot_of(x, y, z, f)) == x,
        slot_y(slot_of(x, y, z, f)) == y,
        slot_z(slot_of(x, y, z, f)) == z,
        slot_face(slot_of(x, y, z, f)) == Face::at(f),
{
    let v = x * 1024 + y * 32 + z;
    let s = v * 6 + f;
    assert(s / 6 == v && s % 6 == f);
    assert(v / 32 == x * 32 + y && v % 32 == z);
    assert(v / 1024 == x);
    assert((x * 32 + y) % 32 == y);
}

/// Appending a quad to a list of quads gives a list of quads.
pub proof fn lemma_with_quad_wf(mesh: MeshView, base: IVec3, face: Face, color: Rgba)
    requires
        mesh.wf(),
        mesh.positions.len() + 3 <= u32::MAX,
    ensures
        mesh.with_quad(base, face, color).wf(),
        mesh.with_quad(base, face, color).positions.len() == mesh.positions.len() + 4,
{
    let after = mesh.with_quad(base, face, color);
    let q = mesh.positions.len() as int / 4;
    assert(mesh.indices.len() == 6 * q);
    assert forall|k: int| 0 <= k < after.indices.len() implies 4 * (k / 6)
        <= #[trigger] after.indices[k] < 4 * (k / 6) + 4 by {
        if k < mesh.indices.len() {
            assert(after.indices[k] == mesh.indices[k]);
        } else {
            assert(k / 6 == q);
            let j = k - mesh.indices.len();
            assert(after.indices[k] == quad_indices(mesh.positions.len() as int)[j]);
        }
    }
}

/// The first `n` slots give a list of at most `n` quads.
pub proof fn lemma_full_mesh_upto_wf(grid: Seq<Voxel>, n: nat)
    requires
        n <= FACE_SLOTS,
    ensures
        full_mesh_upto(grid, n).wf(),
        full_mesh_upto(grid, n).positions.len() <= 4 * n,
    decreases n,
{
    if n > 0 {
        let s = (n - 1) as nat;
        lemma_full_mesh_upto_wf(grid, s);
        if slot_exposed(grid, s as int) {
            lemma_with_quad_wf(
                full_mesh_upto(grid, s),
                voxel_base(slot_x(s as int), slot_y(s as int), slot_z(s as int)),
                slot_face(s as int),
                face_color_of(
                    voxel_at(grid, slot_x(s as int), slot_y(s as int), slot_z(s as int)),
                    slot_face(s as int),
                    slot_y(s as int),
                ),
            );
        }
    }
}

/// A mesh has no vertices up to slot `n` exactly when none of those slots is exposed.
pub proof fn lemma_full_mesh_upto_empty(grid: Seq<Voxel>, n: nat)
    ensures
        full_mesh_upto(grid, n).positions.len() == 0 <==> forall|s: int|
            0 <= s < n ==> !slot_exposed(grid, s),
    decreases n,
{
    if n > 0 {
        lemma_full_mesh_upto_empty(grid, (n - 1) as nat);
        if slot_exposed(grid, n - 1) {
        } else {
            assert forall|s: int| 0 <= s < n && (forall|t: int|
                0 <= t < n - 1 ==> !slot_exposed(grid, t)) implies !slot_exposed(grid, s) by {}
        }
    }
}

/// Every full mesh is a list of quads, so it has three indices for every two
/// vertices; and it has a vertex at all exactly when some solid voxel of
/// the grid touches air or the edge of the chunk.
pub proof fn lemma_full_mesh_well_formed(grid: Seq<Voxel>)
    ensures
        full_mesh(grid).wf(),
        full_mesh(grid).indices.len() * 2 == full_mesh(grid).positions.len() * 3,
        full_mesh(grid).positions.len() > 0 <==> has_exposed_face(grid),
{
    lemma_full_mesh_upto_wf(grid, FACE_SLOTS as nat);
    lemma_full_mesh_upto_empty(grid, FACE_SLOTS as nat);
    if has_exposed_face(grid) {
        let (x, y, z, f) = choose|x: int, y: int, z: int, f: int|
            in_grid(x, y, z) && 0 <= f < 6 && #[trigger] face_exposed(grid, x, y, z, Face::at(f));
        lemma_slot_of(x, y, z, f);
        assert(slot_exposed(grid, slot_of(x, y, z, f)));
    }
    if full_mesh(grid).positions.len() > 0 {
        let s = choose|s: int| 0 <= s < FACE_SLOTS && slot_exposed(grid, s);
        assert(in_grid(slot_x(s), slot_y(s), slot_z(s)));
        assert(slot_face(s) == Face::at(s % 6));
        assert(face_exposed(grid, slot_x(s), slot_y(s), slot_z(s), Face::at(s % 6)));
    }
}

/// Colour of every quad of a low-detail mesh.
pub open spec fn lod_color() -> Rgba {
    opaque(200, 800, 200)
}

/// The low-detail mesher visits the columns with `x` outermost; column `c`
/// of that order is `(c / 32, c % 32)`. These are the quads of the first `n`
/// columns: for each column that holds a solid voxel, the upper face of its
/// topmost solid voxel.
pub open spec fn lod_mesh_upto(grid: Seq<Voxel>, n: nat) -> MeshView
    decreases n,
{
    if n == 0 {
        MeshView::empty()
    } else {
        let c = n - 1;
        let before = lod_mesh_upto(grid, c as nat);
        match column_top(grid, c / 32, c % 32) {
            Some(y) => before.with_quad(voxel_base(c / 32, y, c % 32), Face::PosY, lod_color()),
            None => before,
        }
    }
}

/// The low-detail mesh of a grid: one upward quad per column that is not empty.
pub open spec fn lod_mesh(grid: Seq<Voxel>) -> MeshView {
    lod_mesh_upto(grid, COLUMNS as nat)
}

/// The first `n` columns give a list of at most `n` quads.
pub proof fn lemma_lod_mesh_upto_wf(grid: Seq<Voxel>, n: nat)
    requires
        n <= COLUMNS,
    ensures
        lod_mesh_upto(grid, n).wf(),
        lod_mesh_upto(grid, n).positions.len() <= 4 * n,
    decreases n,
{
    if n > 0 {
        let c = (n - 1) as nat;
        lemma_lod_mesh_upto_wf(grid, c);
        match column_top(grid, c as int / 32, c as int % 32) {
            Some(y) => {
                lemma_with_quad_wf(
                    lod_mesh_upto(grid, c),
                    voxel_base(c as int / 32, y, c as int % 32),
                    Face::PosY,
                    lod_color(),
                );
            },
            None => {},
        }
    }
}

/// A low-detail mesh has no vertices up to column `n` exactly when those columns are empty.
pub proof fn lemma_lod_mesh_upto_empty(grid: Seq<Voxel>, n: nat)
    ensures
        lod_mesh_upto(grid, n).positions.len() == 0 <==> forall|c: int|
            0 <= c < n ==> (#[trigger] column_top(grid, c / 32, c % 32)).is_none(),
    decreases n,
{
    if n > 0 {
        lemma_lod_mesh_upto_empty(grid, (n - 1) as nat);
        let last = n - 1;
        if column_top(grid, last / 32, last % 32).is_none() {
            assert forall|c: int| 0 <= c < n && (forall|d: int|
                0 <= d < n - 1 ==> (#[trigger] column_top(grid, d / 32, d % 32)).is_none())
                implies (#[trigger] column_top(grid, c / 32, c % 32)).is_none() by {}
        }
    }
}

/// Whether some column of the grid holds a solid voxel.
pub open spec fn has_filled_column(grid: Seq<Voxel>) -> bool {
    exists|x: int, z: int| 0 <= x < 32 && 0 <= z < 32 && (#[trigger] column_top(grid, x, z)).is_some()
}

/// Every low-detail mesh is a list of at most one quad per column, and it
/// has a vertex at all exactly when some column holds a solid voxel.
pub proof fn lemma_lod_mesh_well_formed(grid: Seq<Voxel>)
    ensures
        lod_mesh(grid).wf(),
        lod_mesh(grid).indices.len() * 2 == lod_mesh(grid).positions.len() * 3,
        lod_mesh(grid).positions.len() <= 4 * COLUMNS,
        lod_mesh(grid).positions.len() > 0 <==> has_filled_column(grid),
{
    lemma_lod_mesh_upto_wf(grid, COLUMNS as nat);
    lemma_lod_mesh_upto_empty(grid, COLUMNS as nat);
    if has_filled_column(grid) {
        let (x, z) = choose|x: int, z: int|
            0 <= x < 32 && 0 <= z < 32 && (#[trigger] column_top(grid, x, z)).is_some();
        let c = x * 32 + z;
        assert(c / 32 == x && c % 32 == z);
        assert(column_top(grid, c / 32, c % 32).is_some());
    }
    if lod_mesh(grid).positions.len() > 0 {
        let c = choose|c: int| 0 <= c < COLUMNS && !(#[trigger] column_top(grid, c / 32, c % 32)).is_none();
        assert(column_top(grid, c / 32, c % 32).is_some());
    }
}

/// A voxel that is not solid contributes no quad.
proof fn lemma_air_voxel_adds_nothing(grid: Seq<Voxel>, v: int)
    requires
        0 <= v < CHUNK_VOLUME,
        !voxel_at(grid, v / 1024, (v / 32) % 32, v % 32).solid(),
    ensures
        full_mesh_upto(grid, (v * 6 + 6) as nat) == full_mesh_upto(grid, (v * 6) as nat),
{
    assert(!slot_exposed(grid, v * 6));
    assert(!slot_exposed(grid, v * 6 + 1));
    assert(!slot_exposed(grid, v * 6 + 2));
    assert(!slot_exposed(grid, v * 6 + 3));
    assert(!slot_exposed(grid, v * 6 + 4));
    assert(!slot_exposed(grid, v * 6 + 5));
    assert(full_mesh_upto(grid, (v * 6 + 1) as nat) == full_mesh_upto(grid, (v * 6) as nat));
    assert(full_mesh_upto(grid, (v * 6 + 2) as nat) == full_mesh_upto(grid, (v * 6 + 1) as nat));
    assert(full_mesh_upto(grid, (v * 6 + 3) as nat) == full_mesh_upto(grid, (v * 6 + 2) as nat));
    assert(full_mesh_upto(grid, (v * 6 + 4) as nat) == full_mesh_upto(grid, (v * 6 + 3) as nat));
    assert(full_mesh_upto(grid, (v * 6 + 5) as nat) == full_mesh_upto(grid, (v * 6 + 4) as nat));
    assert(full_mesh_upto(grid, (v * 6 + 6) as nat) == full_mesh_upto(grid, (v * 6 + 5) as nat));
}

impl Chunk {
    /// The full-detail mesh: for every solid voxel, one quad on each face
    /// behind which there is no solid voxel of this chunk. A chunk without
    /// such a face gives the empty mesh.
    pub fn to_mesh(&self) -> (mesh: MeshData)
        requires
            self.wf(),
        ensures
            mesh@ == full_mesh(self@),
            mesh@.wf(),
            mesh@.indices.len() * 2 == mesh@.positions.len() * 3,
            mesh@.positions.len() > 0 <==> has_exposed_face(self@),
    {
        let mut mesh = MeshData::new();
        let mut v: usize = 0;
        while v < CHUNK_VOLUME
            invariant
                self.wf(),
                v <= CHUNK_VOLUME,
                mesh@ == full_mesh_upto(self@, (v * 6) as nat),
            decreases CHUNK_VOLUME - v,
        {
            let x = v / 1024;
            let y = (v / 32) % 32;
            let z = v % 32;
            let voxel = self.get(x, y, z);
            if voxel.is_solid() {
                let mut f: usize = 0;
                while f < 6
                    invariant
                        self.wf(),
                        v < CHUNK_VOLUME,
                        f <= 6,
                        x == v / 1024,
                        y == (v / 32) % 32,
                        z == v % 32,
                        voxel == voxel_at(self@, x as int, y as int, z as int),
                        voxel.solid(),
                        mesh@ == full_mesh_upto(self@, (v * 6 + f) as nat),
                    decreases 6 - f,
                {
                    let face = Face::from_index(f);
                    let n = face.normal();
                    let neighbor = self.get_or_air(x as i32 + n.x, y as i32 + n.y, z as i32 + n.z);
                    proof {
                        lemma_full_mesh_upto_wf(self@, (v * 6 + f) as nat);
                    }
                    if !neighbor.is_solid() {
                        let color = face_color(voxel, face, y as i32);
                        let base = IVec3 { x: x as i32 * 250, y: y as i32 * 250, z: z as i32 * 250 };
                        mesh.push_quad(base, face, color);
                    }
                    f += 1;
                }
            } else {
                proof {
                    lemma_air_voxel_adds_nothing(self@, v as int);
                }
            }
            v += 1;
        }
        proof {
            lemma_full_mesh_well_formed(self@);
        }
        mesh
    }

    /// The low-detail mesh: for every column that holds a solid voxel, the
    /// upper face of its topmost solid voxel, in one colour. A chunk of air
    /// gives the empty mesh.
    pub fn to_lod_mesh(&self) -> (mesh: MeshData)
        requires
            self.wf(),
        ensures
            mesh@ == lod_mesh(self@),
            mesh@.wf(),
            mesh@.indices.len() * 2 == mesh@.positions.len() * 3,
            mesh@.positions.len() <= 4 * COLUMNS,
            mesh@.positions.len() > 0 <==> has_filled_column(self@),
    {
        let mut mesh = MeshData::new();
        let mut c: usize = 0;
        while c < COLUMNS
            invariant
                self.wf(),
                c <= COLUMNS,
                mesh@ == lod_mesh_upto(self@, c as nat),
            decreases COLUMNS - c,
        {
            let x = c / 32;
            let z = c % 32;
            proof {
                lemma_lod_mesh_upto_wf(self@, c as nat);
            }
            match self.top_solid(x, z) {
                Some(y) => {
                    let base = IVec3 { x: x as i32 * 250, y: y as i32 * 250, z: z as i32 * 250 };
                    mesh.push_quad(base, Face::PosY, Rgba { r: 200, g: 800, b: 200, a: 1000 });
                },
                None => {},
            }
            c += 1;
        }
        proof {
            lemma_lod_mesh_well_formed(self@);
        }
        mesh
    }
}

} // verus!
