use voxel_fortress::mesh::{face_color, face_mesh, Face, IVec3, MeshData, Rgba, Uv};
use voxel_fortress::terrain::Chunk;
use voxel_fortress::voxel::Voxel;

fn chunk_with(voxels: &[(usize, usize, usize, Voxel)]) -> Chunk {
    let mut chunk = Chunk::new_filled(Voxel::Air);
    for &(x, y, z, v) in voxels {
        chunk.voxels[x + y * 32 + z * 1024] = v;
    }
    chunk
}

fn v(x: i32, y: i32, z: i32) -> IVec3 {
    IVec3 { x, y, z }
}

fn cross(a: IVec3, b: IVec3) -> IVec3 {
    v(a.y * b.z - a.z * b.y, a.z * b.x - a.x * b.z, a.x * b.y - a.y * b.x)
}

fn sub(a: IVec3, b: IVec3) -> IVec3 {
    v(a.x - b.x, a.y - b.y, a.z - b.z)
}

const FACES: [Face; 6] = [Face::NegZ, Face::PosZ, Face::NegY, Face::PosY, Face::NegX, Face::PosX];

#[test]
fn air_chunk_gives_empty_mesh() {
    let chunk = Chunk::new_filled(Voxel::Air);
    let mesh = chunk.to_mesh();
    assert_eq!(mesh.positions.len(), 0);
    assert_eq!(mesh.normals.len(), 0);
    assert_eq!(mesh.colors.len(), 0);
    assert_eq!(mesh.uvs.len(), 0);
    assert_eq!(mesh.indices.len(), 0);
}

#[test]
fn air_chunk_gives_empty_lod_mesh() {
    let mesh = Chunk::new_filled(Voxel::Air).to_lod_mesh();
    assert_eq!(mesh.positions.len(), 0);
    assert_eq!(mesh.indices.len(), 0);
}

#[test]
fn empty_mesh_data_has_no_attributes() {
    let mesh = MeshData::new();
    assert!(mesh.positions.is_empty());
    assert!(mesh.normals.is_empty());
    assert!(mesh.colors.is_empty());
    assert!(mesh.uvs.is_empty());
    assert!(mesh.indices.is_empty());
}

#[test]
fn single_voxel_has_six_quads() {
    let chunk = chunk_with(&[(1, 2, 3, Voxel::Solid)]);
    let mesh = chunk.to_mesh();
    assert_eq!(mesh.positions.len(), 24);
    assert_eq!(mesh.normals.len(), 24);
    assert_eq!(mesh.colors.len(), 24);
    assert_eq!(mesh.uvs.len(), 24);
    assert_eq!(mesh.indices.len(), 36);
}

#[test]
fn single_voxel_faces_come_in_order() {
    let chunk = chunk_with(&[(1, 2, 3, Voxel::Solid)]);
    let mesh = chunk.to_mesh();
    let normals = [v(0, 0, -1), v(0, 0, 1), v(0, -1, 0), v(0, 1, 0), v(-1, 0, 0), v(1, 0, 0)];
    for q in 0..6 {
        for j in 0..4 {
            assert_eq!(mesh.normals[4 * q + j], normals[q]);
        }
    }
}

#[test]
fn single_voxel_first_quad_positions() {
    let chunk = chunk_with(&[(1, 2, 3, Voxel::Solid)]);
    let mesh = chunk.to_mesh();
    assert_eq!(mesh.positions[0], v(250, 500, 750));
    assert_eq!(mesh.positions[1], v(250, 750, 750));
    assert_eq!(mesh.positions[2], v(500, 750, 750));
    assert_eq!(mesh.positions[3], v(500, 500, 750));
    // the upper face is the fourth quad
    assert_eq!(mesh.positions[12], v(250, 750, 750));
    assert_eq!(mesh.positions[13], v(250, 750, 1000));
    assert_eq!(mesh.positions[14], v(500, 750, 1000));
    assert_eq!(mesh.positions[15], v(500, 750, 750));
}

#[test]
fn quads_share_one_index_pattern() {
    let chunk = chunk_with(&[(1, 2, 3, Voxel::Solid)]);
    let mesh = chunk.to_mesh();
    for q in 0..6u32 {
        let i = 4 * q;
        let got = &mesh.indices[(6 * q) as usize..(6 * q + 6) as usize];
        assert_eq!(got, &[i, i + 1, i + 2, i, i + 2, i + 3]);
    }
}

#[test]
fn quads_carry_the_placeholder_uvs() {
    let chunk = chunk_with(&[(0, 0, 0, Voxel::Stone)]);
    let mesh = chunk.to_mesh();
    for q in 0..6 {
        assert_eq!(mesh.uvs[4 * q], Uv { u: 0, v: 0 });
        assert_eq!(mesh.uvs[4 * q + 1], Uv { u: 1000, v: 0 });
        assert_eq!(mesh.uvs[4 * q + 2], Uv { u: 1000, v: 1000 });
        assert_eq!(mesh.uvs[4 * q + 3], Uv { u: 0, v: 1000 });
    }
}

#[test]
fn every_triangle_winds_about_its_normal() {
    let chunk = chunk_with(&[(5, 6, 7, Voxel::Dirt)]);
    let mesh = chunk.to_mesh();
    let mut t = 0;
    while t < mesh.indices.len() {
        let a = mesh.positions[mesh.indices[t] as usize];
        let b = mesh.positions[mesh.indices[t + 1] as usize];
        let c = mesh.positions[mesh.indices[t + 2] as usize];
        let n = mesh.normals[mesh.indices[t] as usize];
        let k = cross(sub(b, a), sub(c, a));
        assert_eq!(k, v(n.x * 62500, n.y * 62500, n.z * 62500));
        t += 3;
    }
}

#[test]
fn face_corners_wind_about_the_normal() {
    for face in FACES {
        let c0 = face.corner(0);
        let c1 = face.corner(1);
        let c2 = face.corner(2);
        let c3 = face.corner(3);
        assert_eq!(cross(sub(c1, c0), sub(c2, c0)), face.normal());
        assert_eq!(cross(sub(c2, c0), sub(c3, c0)), face.normal());
    }
}

#[test]
fn face_from_index_follows_the_visiting_order() {
    for (i, face) in FACES.iter().enumerate() {
        assert_eq!(Face::from_index(i), *face);
    }
}

#[test]
fn face_mesh_of_the_upper_face() {
    let (verts, norms, inds) = face_mesh(v(1000, 2000, 3000), Face::PosY, 40);
    assert_eq!(verts, vec![v(1000, 2250, 3000), v(1000, 2250, 3250), v(1250, 2250, 3250), v(1250, 2250, 3000)]);
    assert_eq!(norms, vec![v(0, 1, 0); 4]);
    assert_eq!(inds, vec![40, 41, 42, 40, 42, 43]);
}

#[test]
fn face_mesh_of_the_front_face_is_not_flipped() {
    let (verts, _norms, inds) = face_mesh(v(0, 0, 0), Face::PosZ, 0);
    assert_eq!(verts, vec![v(0, 0, 250), v(250, 0, 250), v(250, 250, 250), v(0, 250, 250)]);
    assert_eq!(inds, vec![0, 1, 2, 0, 2, 3]);
}

#[test]
fn adjacent_voxels_hide_their_common_faces() {
    let chunk = chunk_with(&[(4, 4, 4, Voxel::Stone), (5, 4, 4, Voxel::Stone)]);
    let mesh = chunk.to_mesh();
    assert_eq!(mesh.positions.len(), 40);
    assert_eq!(mesh.indices.len(), 60);
}

#[test]
fn different_materials_still_hide_common_faces() {
    let chunk = chunk_with(&[(4, 4, 4, Voxel::Stone), (4, 5, 4, Voxel::Grass)]);
    let mesh = chunk.to_mesh();
    assert_eq!(mesh.positions.len(), 40);
}

#[test]
fn faces_at_the_chunk_edge_are_exposed() {
    for &(x, y, z) in &[(0usize, 0usize, 0usize), (31, 31, 31), (0, 31, 0), (31, 0, 15)] {
        let mesh = chunk_with(&[(x, y, z, Voxel::Sand)]).to_mesh();
        assert_eq!(mesh.positions.len(), 24);
    }
}

#[test]
fn full_chunk_shows_only_its_hull() {
    let mesh = Chunk::new_filled(Voxel::Stone).to_mesh();
    assert_eq!(mesh.positions.len(), 4 * 6 * 32 * 32);
    assert_eq!(mesh.indices.len(), 6 * 6 * 32 * 32);
}

#[test]
fn index_count_is_one_and_a_half_times_vertex_count() {
    let chunk = chunk_with(&[
        (0, 0, 0, Voxel::Solid),
        (1, 0, 0, Voxel::Forest),
        (1, 1, 0, Voxel::Snow),
        (9, 9, 9, Voxel::Taiga),
        (31, 3, 8, Voxel::Desert),
    ]);
    let mesh = chunk.to_mesh();
    assert!(mesh.positions.len() > 0);
    assert_eq!(mesh.indices.len() * 2, mesh.positions.len() * 3);
    assert_eq!(mesh.normals.len(), mesh.positions.len());
    assert_eq!(mesh.colors.len(), mesh.positions.len());
    assert_eq!(mesh.uvs.len(), mesh.positions.len());
    for (k, &i) in mesh.indices.iter().enumerate() {
        let quad = (k / 6) as u32;
        assert!(4 * quad <= i && i < 4 * quad + 4);
    }
}

#[test]
fn voxels_are_visited_with_x_outermost() {
    let chunk = chunk_with(&[(3, 0, 0, Voxel::Stone), (1, 9, 9, Voxel::Stone), (1, 9, 2, Voxel::Stone)]);
    let mesh = chunk.to_mesh();
    assert_eq!(mesh.positions[0], v(250, 2250, 500));
    assert_eq!(mesh.positions[24], v(250, 2250, 2250));
    assert_eq!(mesh.positions[48], v(750, 0, 0));
}

#[test]
fn material_colours() {
    let earth = Rgba { r: 450, g: 320, b: 180, a: 1000 };
    assert_eq!(face_color(Voxel::Stone, Face::PosY, 0), Rgba { r: 500, g: 500, b: 500, a: 1000 });
    assert_eq!(face_color(Voxel::Stone, Face::NegX, 9), Rgba { r: 500, g: 500, b: 500, a: 1000 });
    assert_eq!(face_color(Voxel::Dirt, Face::PosY, 0), earth);
    assert_eq!(face_color(Voxel::Grass, Face::PosY, 3), Rgba { r: 200, g: 800, b: 200, a: 1000 });
    assert_eq!(face_color(Voxel::Grass, Face::NegY, 3), earth);
    assert_eq!(face_color(Voxel::Grass, Face::PosX, 3), earth);
    assert_eq!(face_color(Voxel::Sand, Face::NegZ, 3), Rgba { r: 760, g: 700, b: 500, a: 1000 });
    assert_eq!(face_color(Voxel::Forest, Face::PosY, 3), Rgba { r: 150, g: 600, b: 150, a: 1000 });
    assert_eq!(face_color(Voxel::Forest, Face::PosZ, 3), earth);
    assert_eq!(face_color(Voxel::Plains, Face::PosY, 3), Rgba { r: 300, g: 650, b: 300, a: 1000 });
    assert_eq!(face_color(Voxel::Plains, Face::NegY, 3), earth);
    assert_eq!(face_color(Voxel::Taiga, Face::PosY, 3), Rgba { r: 200, g: 500, b: 400, a: 1000 });
    assert_eq!(face_color(Voxel::Taiga, Face::NegX, 3), earth);
    assert_eq!(face_color(Voxel::Desert, Face::PosY, 3), Rgba { r: 850, g: 750, b: 500, a: 1000 });
    assert_eq!(face_color(Voxel::Desert, Face::NegY, 3), Rgba { r: 850, g: 750, b: 500, a: 1000 });
    assert_eq!(face_color(Voxel::Snow, Face::PosX, 3), Rgba { r: 900, g: 900, b: 950, a: 1000 });
}

#[test]
fn plain_ground_blends_along_the_height() {
    let earth = Rgba { r: 450, g: 320, b: 180, a: 1000 };
    let green = Rgba { r: 200, g: 800, b: 200, a: 1000 };
    assert_eq!(face_color(Voxel::Solid, Face::PosY, 7), green);
    assert_eq!(face_color(Voxel::Solid, Face::NegY, 7), earth);
    assert_eq!(face_color(Voxel::Solid, Face::NegX, 0), earth);
    assert_eq!(face_color(Voxel::Solid, Face::PosZ, 31), green);
    assert_eq!(face_color(Voxel::Solid, Face::PosX, 2), Rgba { r: 433, g: 350, b: 181, a: 1000 });
    assert_eq!(face_color(Voxel::Solid, Face::NegZ, 16), Rgba { r: 320, g: 567, b: 190, a: 1000 });
}

#[test]
fn mesh_colours_follow_material_and_face() {
    let mesh = chunk_with(&[(2, 2, 2, Voxel::Grass)]).to_mesh();
    let earth = Rgba { r: 450, g: 320, b: 180, a: 1000 };
    let green = Rgba { r: 200, g: 800, b: 200, a: 1000 };
    for q in 0..6 {
        let expect = if q == 3 { green } else { earth };
        for j in 0..4 {
            assert_eq!(mesh.colors[4 * q + j], expect);
        }
    }
}

#[test]
fn lod_mesh_has_one_quad_per_filled_column() {
    let chunk = chunk_with(&[
        (2, 5, 3, Voxel::Stone),
        (2, 9, 3, Voxel::Forest),
        (2, 1, 3, Voxel::Solid),
        (7, 0, 0, Voxel::Sand),
    ]);
    let mesh = chunk.to_lod_mesh();
    assert_eq!(mesh.positions.len(), 8);
    assert_eq!(mesh.indices, vec![0, 1, 2, 0, 2, 3, 4, 5, 6, 4, 6, 7]);
    // column (2, 3) comes first, topped at layer 9
    assert_eq!(mesh.positions[0], v(500, 2500, 750));
    assert_eq!(mesh.positions[1], v(500, 2500, 1000));
    assert_eq!(mesh.positions[2], v(750, 2500, 1000));
    assert_eq!(mesh.positions[3], v(750, 2500, 750));
    assert_eq!(mesh.positions[4], v(1750, 250, 0));
    for k in 0..8 {
        assert_eq!(mesh.normals[k], v(0, 1, 0));
        assert_eq!(mesh.colors[k], Rgba { r: 200, g: 800, b: 200, a: 1000 });
    }
}

#[test]
fn lod_mesh_of_a_full_chunk() {
    let mesh = Chunk::new_filled(Voxel::Plains).to_lod_mesh();
    assert_eq!(mesh.positions.len(), 4 * 1024);
    assert_eq!(mesh.indices.len(), 6 * 1024);
    assert!(mesh.positions.iter().all(|p| p.y == 8000));
    // a thirty-second of the quads of the full hull of stacked layers
    assert_eq!(mesh.positions.len() * 32, 4 * 32 * 32 * 32);
}

#[test]
fn top_solid_finds_the_topmost_voxel() {
    let chunk = chunk_with(&[(2, 5, 3, Voxel::Stone), (2, 9, 3, Voxel::Forest)]);
    assert_eq!(chunk.top_solid(2, 3), Some(9));
    assert_eq!(chunk.top_solid(3, 2), None);
    assert_eq!(Chunk::new_filled(Voxel::Dirt).top_solid(0, 0), Some(31));
}

#[test]
fn get_reads_the_flat_buffer() {
    let chunk = chunk_with(&[(1, 2, 3, Voxel::Snow)]);
    assert_eq!(chunk.get(1, 2, 3), Voxel::Snow);
    assert_eq!(chunk.get(3, 2, 1), Voxel::Air);
    assert_eq!(chunk.voxels[1 + 2 * 32 + 3 * 1024], Voxel::Snow);
    assert_eq!(chunk.get_or_air(1, 2, 3), Voxel::Snow);
    assert_eq!(chunk.get_or_air(-1, 2, 3), Voxel::Air);
    assert_eq!(chunk.get_or_air(1, 32, 3), Voxel::Air);
}
