use vstd::prelude::*;
use crate::voxel::Voxel;

verus! {

/// An integer vector: a position in thousandths of a world unit, or an axis direction.
#[derive(Clone, Copy, PartialEq, Eq, Debug, Structural)]
pub struct IVec3 {
    pub x: i32,
    pub y: i32,
    pub z: i32,
}

/// A colour; each channel in thousandths, 1000 being full intensity.
#[derive(Clone, Copy, PartialEq, Eq, Debug, Structural)]
pub struct Rgba {
    pub r: i32,
    pub g: i32,
    pub b: i32,
    pub a: i32,
}

/// A texture coordinate in thousandths.
#[derive(Clone, Copy, PartialEq, Eq, Debug, Structural)]
pub struct Uv {
    pub u: i32,
    pub v: i32,
}

/// The six faces of a voxel, in the order in which the mesher visits them.
#[derive(Clone, Copy, PartialEq, Eq, Debug, Structural)]
pub enum Face {
    NegZ,
    PosZ,
    NegY,
    PosY,
    NegX,
    PosX,
}

impl Face {
    /// The face visited at position `f` of the mesher's order.
    pub open spec fn at(f: int) -> Face {
        if f == 0 {
            Face::NegZ
        } else if f == 1 {
            Face::PosZ
        } else if f == 2 {
            Face::NegY
        } else if f == 3 {
            Face::PosY
        } else if f == 4 {
            Face::NegX
        } else {
            Face::PosX
        }
    }

    /// The face visited at position `f` of the mesher's order.
    pub fn from_index(f: usize) -> (face: Face)
        requires
            f < 6,
        ensures
            face == Face::at(f as int),
    {
        if f == 0 {
            Face::NegZ
        } else if f == 1 {
            Face::PosZ
        } else if f == 2 {
            Face::NegY
        } else if f == 3 {
            Face::PosY
        } else if f == 4 {
            Face::NegX
        } else {
            Face::PosX
        }
    }

    /// Outward unit normal; also the step to the neighbouring voxel.
    pub open spec fn normal_spec(self) -> IVec3 {
        match self {
            Face::NegZ => IVec3 { x: 0, y: 0, z: -1i32 },
            Face::PosZ => IVec3 { x: 0, y: 0, z: 1 },
            Face::NegY => IVec3 { x: 0, y: -1i32, z: 0 },
            Face::PosY => IVec3 { x: 0, y: 1, z: 0 },
            Face::NegX => IVec3 { x: -1i32, y: 0, z: 0 },
            Face::PosX => IVec3 { x: 1, y: 0, z: 0 },
        }
    }

    /// Outward unit normal of the face.
    #[verifier::when_used_as_spec(normal_spec)]
    pub fn normal(self) -> (n: IVec3)
        ensures
            n == self.normal_spec(),
    {
        match self {
            Face::NegZ => IVec3 { x: 0, y: 0, z: -1i32 },
            Face::PosZ => IVec3 { x: 0, y: 0, z: 1 },
            Face::NegY => IVec3 { x: 0, y: -1i32, z: 0 },
            Face::PosY => IVec3 { x: 0, y: 1, z: 0 },
            Face::NegX => IVec3 { x: -1i32, y: 0, z: 0 },
            Face::PosX => IVec3 { x: 1, y: 0, z: 0 },
        }
    }

    /// Corner `j` of the face on the unit cube, each coordinate 0 or 1. The
    /// corners run counter-clockwise for a viewer who looks at the face from outside.
    pub open spec fn corner_at(self, j: int) -> IVec3 {
        match self {
            Face::NegZ => if j == 0 {
                IVec3 { x: 0, y: 0, z: 0 }
            } else if j == 1 {
                IVec3 { x: 0, y: 1, z: 0 }
            } else if j == 2 {
                IVec3 { x: 1, y: 1, z: 0 }
            } else {
                IVec3 { x: 1, y: 0, z: 0 }
            },
            Face::PosZ => if j == 0 {
                IVec3 { x: 0, y: 0, z: 1 }
            } else if j == 1 {
                IVec3 { x: 1, y: 0, z: 1 }
            } else if j == 2 {
                IVec3 { x: 1, y: 1, z: 1 }
            } else {
                IVec3 { x: 0, y: 1, z: 1 }
            },
            Face::NegY => if j == 0 {
                IVec3 { x: 0, y: 0, z: 0 }
            } else if j == 1 {
                IVec3 { x: 1, y: 0, z: 0 }
            } else if j == 2 {
                IVec3 { x: 1, y: 0, z: 1 }
            } else {
                IVec3 { x: 0, y: 0, z: 1 }
            },
            Face::PosY => if j == 0 {
                IVec3 { x: 0, y: 1, z: 0 }
            } else if j == 1 {
                IVec3 { x: 0, y: 1, z: 1 }
            } else if j == 2 {
                IVec3 { x: 1, y: 1, z: 1 }
            } else {
                IVec3 { x: 1, y: 1, z: 0 }
            },
            Face::NegX => if j == 0 {
                IVec3 { x: 0, y: 0, z: 0 }
            } else if j == 1 {
                IVec3 { x: 0, y: 0, z: 1 }
            } else if j == 2 {
                IVec3 { x: 0, y: 1, z: 1 }
            } else {
                IVec3 { x: 0, y: 1, z: 0 }
            },
            Face::PosX => if j == 0 {
                IVec3 { x: 1, y: 0, z: 0 }
            } else if j == 1 {
                IVec3 { x: 1, y: 1, z: 0 }
            } else if j == 2 {
                IVec3 { x: 1, y: 1, z: 1 }
            } else {
                IVec3 { x: 1, y: 0, z: 1 }
            },
        }
    }

    /// Corner `j` of the face on the unit cube.
    pub fn corner(self, j: usize) -> (c: IVec3)
        requires
            j < 4,
        ensures
            c == self.corner_at(j as int),
            0 <= c.x <= 1,
            0 <= c.y <= 1,
            0 <= c.z <= 1,
    {
        match self {
            Face::NegZ => if j == 0 {
                IVec3 { x: 0, y: 0, z: 0 }
            } else if j == 1 {
                IVec3 { x: 0, y: 1, z: 0 }
            } else if j == 2 {
                IVec3 { x: 1, y: 1, z: 0 }
            } else {
                IVec3 { x: 1, y: 0, z: 0 }
            },
            Face::PosZ => if j == 0 {
                IVec3 { x: 0, y: 0, z: 1 }
            } else if j == 1 {
                IVec3 { x: 1, y: 0, z: 1 }
            } else if j == 2 {
                IVec3 { x: 1, y: 1, z: 1 }
            } else {
                IVec3 { x: 0, y: 1, z: 1 }
            },
            Face::NegY => if j == 0 {
                IVec3 { x: 0, y: 0, z: 0 }
            } else if j == 1 {
                IVec3 { x: 1, y: 0, z: 0 }
            } else if j == 2 {
                IVec3 { x: 1, y: 0, z: 1 }
            } else {
                IVec3 { x: 0, y: 0, z: 1 }
            },
            Face::PosY => if j == 0 {
                IVec3 { x: 0, y: 1, z: 0 }
            } else if j == 1 {
                IVec3 { x: 0, y: 1, z: 1 }
            } else if j == 2 {
                IVec3 { x: 1, y: 1, z: 1 }
            } else {
                IVec3 { x: 1, y: 1, z: 0 }
            },
            Face::NegX => if j == 0 {
                IVec3 { x: 0, y: 0, z: 0 }
            } else if j == 1 {
                IVec3 { x: 0, y: 0, z: 1 }
            } else if j == 2 {
                IVec3 { x: 0, y: 1, z: 1 }
            } else {
                IVec3 { x: 0, y: 1, z: 0 }
            },
            Face::PosX => if j == 0 {
                IVec3 { x: 1, y: 0, z: 0 }
            } else if j == 1 {
                IVec3 { x: 1, y: 1, z: 0 }
            } else if j == 2 {
                IVec3 { x: 1, y: 1, z: 1 }
            } else {
                IVec3 { x: 1, y: 0, z: 1 }
            },
        }
    }
}

/// Cross product of two integer vectors, componentwise over the integers.
pub open spec fn cross(a: IVec3, b: IVec3) -> (int, int, int) {
    (a.y * b.z - a.z * b.y, a.z * b.x - a.x * b.z, a.x * b.y - a.y * b.x)
}

/// The vector from `a` to `b`.
pub open spec fn edge(a: IVec3, b: IVec3) -> IVec3 {
    IVec3 { x: (b.x - a.x) as i32, y: (b.y - a.y) as i32, z: (b.z - a.z) as i32 }
}

/// Whether the triangle `(a, b, c)` winds counter-clockwise about `n`: the
/// cross product of its edges from `a` is `n` itself.
pub open spec fn winds_about(a: IVec3, b: IVec3, c: IVec3, n: IVec3) -> bool {
    let (cx, cy, cz) = cross(edge(a, b), edge(a, c));
    cx == n.x && cy == n.y && cz == n.z
}

/// Both triangles of every face wind counter-clockwise about its outward normal.
pub proof fn lemma_winding_follows_normal(face: Face)
    ensures
        winds_about(face.corner_at(0), face.corner_at(1), face.corner_at(2), face.normal()),
        winds_about(face.corner_at(0), face.corner_at(2), face.corner_at(3), face.normal()),
{
    let c0 = face.corner_at(0);
    let a = edge(c0, face.corner_at(1));
    let b = edge(c0, face.corner_at(2));
    let c = edge(c0, face.corner_at(3));
    match face {
        Face::NegZ => {
            assert(a == IVec3 { x: 0, y: 1, z: 0 });
            assert(b == IVec3 { x: 1, y: 1, z: 0 });
            assert(c == IVec3 { x: 1, y: 0, z: 0 });
        },
        Face::PosZ => {
            assert(a == IVec3 { x: 1, y: 0, z: 0 });
            assert(b == IVec3 { x: 1, y: 1, z: 0 });
            assert(c == IVec3 { x: 0, y: 1, z: 0 });
        },
        Face::NegY => {
            assert(a == IVec3 { x: 1, y: 0, z: 0 });
            assert(b == IVec3 { x: 1, y: 0, z: 1 });
            assert(c == IVec3 { x: 0, y: 0, z: 1 });
        },
        Face::PosY => {
            assert(a == IVec3 { x: 0, y: 0, z: 1 });
            assert(b == IVec3 { x: 1, y: 0, z: 1 });
            assert(c == IVec3 { x: 1, y: 0, z: 0 });
        },
        Face::NegX => {
            assert(a == IVec3 { x: 0, y: 0, z: 1 });
            assert(b == IVec3 { x: 0, y: 1, z: 1 });
            assert(c == IVec3 { x: 0, y: 1, z: 0 });
        },
        Face::PosX => {
            assert(a == IVec3 { x: 0, y: 1, z: 0 });
            assert(b == IVec3 { x: 0, y: 1, z: 1 });
            assert(c == IVec3 { x: 0, y: 0, z: 1 });
        },
    }
}

/// The four corners of `face` on the voxel whose lowest corner is `base`.
pub open spec fn quad_positions(base: IVec3, face: Face) -> Seq<IVec3> {
    Seq::new(
        4,
        |j: int|
            IVec3 {
                x: (base.x + face.corner_at(j).x * 250) as i32,
                y: (base.y + face.corner_at(j).y * 250) as i32,
                z: (base.z + face.corner_at(j).z * 250) as i32,
            },
    )
}

/// Texture coordinates of the four corners of a quad.
pub open spec fn quad_uvs() -> Seq<Uv> {
    seq![Uv { u: 0, v: 0 }, Uv { u: 1000, v: 0 }, Uv { u: 1000, v: 1000 }, Uv { u: 0, v: 1000 }]
}

/// The two triangles of the quad whose first vertex has index `first`.
pub open spec fn quad_indices(first: int) -> Seq<u32> {
    seq![
        first as u32,
        (first + 1) as u32,
        (first + 2) as u32,
        first as u32,
        (first + 2) as u32,
        (first + 3) as u32,
    ]
}

/// Vertices, normals and triangle indices of one face of the voxel whose
/// lowest corner is `base`; `i` is the index that the first vertex will have.
pub fn face_mesh(base: IVec3, face: Face, i: u32) -> (quad: (Vec<IVec3>, Vec<IVec3>, Vec<u32>))
    requires
        i32::MIN <= base.x && base.x + 250 <= i32::MAX,
        i32::MIN <= base.y && base.y + 250 <= i32::MAX,
        i32::MIN <= base.z && base.z + 250 <= i32::MAX,
        i + 3 <= u32::MAX,
    ensures
        quad.0@ == quad_positions(base, face),
        quad.1@ == Seq::new(4, |j: int| face.normal()),
        quad.2@ == quad_indices(i as int),
{
    let mut verts: Vec<IVec3> = Vec::with_capacity(4);
    let mut norms: Vec<IVec3> = Vec::with_capacity(4);
    let normal = face.normal();
    let mut j: usize = 0;
    while j < 4
        invariant
            j <= 4,
            verts@.len() == j,
            norms@.len() == j,
            normal == face.normal(),
            i32::MIN <= base.x && base.x + 250 <= i32::MAX,
            i32::MIN <= base.y && base.y + 250 <= i32::MAX,
            i32::MIN <= base.z && base.z + 250 <= i32::MAX,
            forall|k: int| 0 <= k < j ==> verts@[k] == quad_positions(base, face)[k],
            forall|k: int| 0 <= k < j ==> norms@[k] == normal,
        decreases 4 - j,
    {
        let c = face.corner(j);
        verts.push(IVec3 { x: base.x + c.x * 250, y: base.y + c.y * 250, z: base.z + c.z * 250 });
        norms.push(normal);
        j += 1;
    }
    let mut inds: Vec<u32> = Vec::with_capacity(6);
    inds.push(i);
    inds.push(i + 1);
    inds.push(i + 2);
    inds.push(i);
    inds.push(i + 2);
    inds.push(i + 3);
    assert(verts@ =~= quad_positions(base, face));
    assert(norms@ =~= Seq::new(4, |j: int| face.normal()));
    assert(inds@ =~= quad_indices(i as int));
    (verts, norms, inds)
}

/// Mixes two channel values along the height of a chunk: `from` at the
/// bottom layer, `to` at the top layer, rounded down to a thousandth.
pub open spec fn blend(from: int, to: int, y: int) -> int {
    (from * (31 - y) + to * y) / 31
}

/// An opaque colour.
pub open spec fn opaque(r: int, g: int, b: int) -> Rgba {
    Rgba { r: r as i32, g: g as i32, b: b as i32, a: 1000 }
}

/// Colour of a face of a voxel of kind `voxel` in layer `y` of its chunk.
///
/// The material decides first; grass and the wooded kinds show their own
/// colour on top and earth elsewhere. Plain solid ground has no colour of its
/// own: green on top, earth below, and on its sides a blend from earth at the
/// bottom layer to green at the top layer.
pub open spec fn face_color_of(voxel: Voxel, face: Face, y: int) -> Rgba {
    let top = face == Face::PosY;
    let bottom = face == Face::NegY;
    match voxel {
        Voxel::Stone => opaque(500, 500, 500),
        Voxel::Dirt => opaque(450, 320, 180),
        Voxel::Grass => if top {
            opaque(200, 800, 200)
        } else {
            opaque(450, 320, 180)
        },
        Voxel::Sand => opaque(760, 700, 500),
        Voxel::Forest => if top {
            opaque(150, 600, 150)
        } else {
            opaque(450, 320, 180)
        },
        Voxel::Plains => if top {
            opaque(300, 650, 300)
        } else {
            opaque(450, 320, 180)
        },
        Voxel::Taiga => if top {
            opaque(200, 500, 400)
        } else {
            opaque(450, 320, 180)
        },
        Voxel::Desert => opaque(850, 750, 500),
        Voxel::Snow => opaque(900, 900, 950),
        Voxel::Solid | Voxel::Air => if top {
            opaque(200, 800, 200)
        } else if bottom {
            opaque(450, 320, 180)
        } else {
            opaque(blend(450, 200, y), blend(320, 800, y), blend(180, 200, y))
        },
    }
}

/// Colour of a face of a voxel of kind `voxel` in layer `y` of its chunk.
pub fn face_color(voxel: Voxel, face: Face, y: i32) -> (color: Rgba)
    requires
        0 <= y < 32,
    ensures
        color == face_color_of(voxel, face, y as int),
{
    let top = face == Face::PosY;
    let bottom = face == Face::NegY;
    let earth = Rgba { r: 450, g: 320, b: 180, a: 1000 };
    match voxel {
        Voxel::Stone => Rgba { r: 500, g: 500, b: 500, a: 1000 },
        Voxel::Dirt => earth,
        Voxel::Grass => if top {
            Rgba { r: 200, g: 800, b: 200, a: 1000 }
        } else {
            earth
        },
        Voxel::Sand => Rgba { r: 760, g: 700, b: 500, a: 1000 },
        Voxel::Forest => if top {
            Rgba { r: 150, g: 600, b: 150, a: 1000 }
        } else {
            earth
        },
        Voxel::Plains => if top {
            Rgba { r: 300, g: 650, b: 300, a: 1000 }
        } else {
            earth
        },
        Voxel::Taiga => if top {
            Rgba { r: 200, g: 500, b: 400, a: 1000 }
        } else {
            earth
        },
        Voxel::Desert => Rgba { r: 850, g: 750, b: 500, a: 1000 },
        Voxel::Snow => Rgba { r: 900, g: 900, b: 950, a: 1000 },
        Voxel::Solid | Voxel::Air => if top {
            Rgba { r: 200, g: 800, b: 200, a: 1000 }
        } else if bottom {
            earth
        } else {
            Rgba {
                r: (450 * (31 - y) + 200 * y) / 31,
                g: (320 * (31 - y) + 800 * y) / 31,
                b: (180 * (31 - y) + 200 * y) / 31,
                a: 1000,
            }
        },
    }
}

/// Geometry of a mesh: one entry per vertex in each attribute, and three
/// indices per triangle.
pub struct MeshData {
    pub positions: Vec<IVec3>,
    pub normals: Vec<IVec3>,
    pub colors: Vec<Rgba>,
    pub uvs: Vec<Uv>,
    pub indices: Vec<u32>,
}

/// The mathematical content of a [`MeshData`].
pub struct MeshView {
    pub positions: Seq<IVec3>,
    pub normals: Seq<IVec3>,
    pub colors: Seq<Rgba>,
    pub uvs: Seq<Uv>,
    pub indices: Seq<u32>,
}

impl MeshView {
    /// The mesh without vertices.
    pub open spec fn empty() -> MeshView {
        MeshView {
            positions: Seq::empty(),
            normals: Seq::empty(),
            colors: Seq::empty(),
            uvs: Seq::empty(),
            indices: Seq::empty(),
        }
    }

    /// This mesh followed by one quad: `face` of the voxel whose lowest
    /// corner is `base`, in one colour.
    pub open spec fn with_quad(self, base: IVec3, face: Face, color: Rgba) -> MeshView {
        MeshView {
            positions: self.positions + quad_positions(base, face),
            normals: self.normals + Seq::new(4, |j: int| face.normal()),
            colors: self.colors + Seq::new(4, |j: int| color),
            uvs: self.uvs + quad_uvs(),
            indices: self.indices + quad_indices(self.positions.len() as int),
        }
    }

    /// Number of quads in a mesh that is made of quads.
    pub open spec fn quads(self) -> int {
        self.positions.len() as int / 4
    }

    /// The mesh is a list of quads: four vertices with all their attributes
    /// and six indices each, every triangle within its own quad.
    pub open spec fn wf(self) -> bool {
        &&& self.positions.len() % 4 == 0
        &&& self.normals.len() == self.positions.len()
        &&& self.colors.len() == self.positions.len()
        &&& self.uvs.len() == self.positions.len()
        &&& self.indices.len() * 2 == self.positions.len() * 3
        &&& forall|k: int|
            0 <= k < self.indices.len() ==> 4 * (k / 6) <= #[trigger] self.indices[k] < 4 * (k / 6)
                + 4
    }
}

impl View for MeshData {
    type V = MeshView;

    open spec fn view(&self) -> MeshView {
        MeshView {
            positions: self.positions@,
            normals: self.normals@,
            colors: self.colors@,
            uvs: self.uvs@,
            indices: self.indices@,
        }
    }
}

impl MeshData {
    /// A mesh without vertices.
    pub fn new() -> (mesh: MeshData)
        ensures
            mesh@ == MeshView::empty(),
    {
        MeshData {
            positions: Vec::new(),
            normals: Vec::new(),
            colors: Vec::new(),
            uvs: Vec::new(),
            indices: Vec::new(),
        }
    }

    /// Appends `face` of the voxel whose lowest corner is `base`.
    pub fn push_quad(&mut self, base: IVec3, face: Face, color: Rgba)
        requires
            i32::MIN <= base.x && base.x + 250 <= i32::MAX,
            i32::MIN <= base.y && base.y + 250 <= i32::MAX,
            i32::MIN <= base.z && base.z + 250 <= i32::MAX,
            old(self).positions@.len() + 3 <= u32::MAX,
        ensures
            final(self)@ == old(self)@.with_quad(base, face, color),
    {
        let first = self.positions.len() as u32;
        let (mut verts, mut norms, mut inds) = face_mesh(base, face, first);
        self.positions.append(&mut verts);
        self.normals.append(&mut norms);
        self.colors.push(color);
        self.colors.push(color);
        self.colors.push(color);
        self.colors.push(color);
        self.uvs.push(Uv { u: 0, v: 0 });
        self.uvs.push(Uv { u: 1000, v: 0 });
        self.uvs.push(Uv { u: 1000, v: 1000 });
        self.uvs.push(Uv { u: 0, v: 1000 });
        self.indices.append(&mut inds);
        assert(self.colors@ =~= old(self).colors@ + Seq::new(4, |j: int| color));
        assert(self.uvs@ =~= old(self).uvs@ + quad_uvs());
    }
}

} // verus!
