//! Visible faces of the chunk, with an ambient-occlusion level at each of
//! their corners.

use crate::chunk::{cell_at, Cell, Chunk, CHUNK_LEN};
use crate::direction::{
    dir_outward_component, dir_to_offset, index_to_dir, spec_dir_outward_component,
    spec_dir_to_offset, spec_index_to_dir, Direction,
};
use vstd::prelude::*;

verus! {

/// The occupancy of the three cells that touch one corner of a face: the two
/// that share an edge with the face's own outward neighbour, and the one
/// diagonal to it.
#[derive(Copy, Clone, Debug, PartialEq, Eq, Structural)]
pub struct VertexNeighbors {
    pub side1: bool,
    pub side2: bool,
    pub corner: bool,
}

/// One quad of the mesh: a face of a solid cell whose neighbour on that side
/// is empty.
#[derive(Copy, Clone, Debug, PartialEq, Eq)]
pub struct Face {
    /// The solid cell.
    pub cell: Cell,
    /// The side of the cell.
    pub dir: Direction,
    /// The occlusion level, 0 (darkest) to 3, at each of the four corners, in
    /// the order of `cube_corner`.
    pub ao: (i32, i32, i32, i32),
    /// Whether the quad's corners are to be taken in the order 3, 0, 1, 2, so
    /// that its two triangles split along the other diagonal.
    pub rewound: bool,
}

/// Corner `vert` (0 to 3) of the face of the unit cube on side `dir`.
pub open spec fn spec_cube_corner(dir: Direction, vert: int) -> (int, int, int) {
    match dir {
        Direction::Forward => if vert == 0 {
            (0, 0, 0)
        } else if vert == 1 {
            (0, 1, 0)
        } else if vert == 2 {
            (1, 1, 0)
        } else {
            (1, 0, 0)
        },
        Direction::Backward => if vert == 0 {
            (0, 0, 1)
        } else if vert == 1 {
            (0, 1, 1)
        } else if vert == 2 {
            (1, 1, 1)
        } else {
            (1, 0, 1)
        },
        Direction::Right => if vert == 0 {
            (1, 0, 0)
        } else if vert == 1 {
            (1, 0, 1)
        } else if vert == 2 {
            (1, 1, 1)
        } else {
            (1, 1, 0)
        },
        Direction::Left => if vert == 0 {
            (0, 0, 0)
        } else if vert == 1 {
            (0, 0, 1)
        } else if vert == 2 {
            (0, 1, 1)
        } else {
            (0, 1, 0)
        },
        Direction::Up => if vert == 0 {
            (0, 1, 0)
        } else if vert == 1 {
            (0, 1, 1)
        } else if vert == 2 {
            (1, 1, 1)
        } else {
            (1, 1, 0)
        },
        Direction::Down => if vert == 0 {
            (0, 0, 0)
        } else if vert == 1 {
            (0, 0, 1)
        } else if vert == 2 {
            (1, 0, 1)
        } else {
            (1, 0, 0)
        },
    }
}

/// The occlusion level of a corner: three, less one for each occupied
/// neighbour, but zero where both sides are occupied.
pub open spec fn spec_ao_level(n: VertexNeighbors) -> int {
    if n.side1 && n.side2 {
        0
    } else {
        3 - (if n.side1 { 1int } else { 0 }) - (if n.side2 { 1int } else { 0 }) - (if n.corner {
            1int
        } else {
            0
        })
    }
}

/// `v` with its component on `axis` set to zero.
pub open spec fn zero_axis(v: (int, int, int), axis: int) -> (int, int, int) {
    if axis == 0 {
        (0, v.1, v.2)
    } else if axis == 1 {
        (v.0, 0, v.2)
    } else {
        (v.0, v.1, 0)
    }
}

/// The neighbours of the corner of cell `(x, y, z)` that lies at `vertex` of
/// the unit cube, seen from the face on side `dir`. The corner's own offset
/// is one step along each axis, away from the cell's centre.
pub open spec fn spec_vertex_neighbors(
    chunk: &Chunk,
    x: int,
    y: int,
    z: int,
    vertex: (int, int, int),
    dir: Direction,
) -> VertexNeighbors {
    let c = (vertex.0 * 2 - 1, vertex.1 * 2 - 1, vertex.2 * 2 - 1);
    let out = spec_dir_outward_component(dir);
    let s1 = zero_axis(c, (out + 2) % 3);
    let s2 = zero_axis(c, (out + 1) % 3);
    VertexNeighbors {
        side1: chunk.solid(x + s1.0, y + s1.1, z + s1.2),
        side2: chunk.solid(x + s2.0, y + s2.1, z + s2.2),
        corner: chunk.solid(x + c.0, y + c.1, z + c.2),
    }
}

/// The occlusion level at corner `vert` of the face of `(x, y, z)` on side
/// `dir`.
pub open spec fn corner_ao(chunk: &Chunk, x: int, y: int, z: int, dir: Direction, vert: int) -> int {
    spec_ao_level(spec_vertex_neighbors(chunk, x, y, z, spec_cube_corner(dir, vert), dir))
}

/// Whether the face of `(x, y, z)` on side `dir` is part of the mesh: the cell
/// is solid and its neighbour on that side is not.
pub open spec fn face_visible(chunk: &Chunk, x: int, y: int, z: int, dir: Direction) -> bool {
    let o = spec_dir_to_offset(dir);
    chunk.solid(x, y, z) && !chunk.solid(x + o.0, y + o.1, z + o.2)
}

/// The quad for the face of the in-bounds cell `(x, y, z)` on side `dir`. It
/// is rewound unless corners 0 and 2 together are strictly brighter than
/// corners 1 and 3.
pub open spec fn face_at(chunk: &Chunk, x: int, y: int, z: int, dir: Direction) -> Face {
    let a0 = corner_ao(chunk, x, y, z, dir, 0);
    let a1 = corner_ao(chunk, x, y, z, dir, 1);
    let a2 = corner_ao(chunk, x, y, z, dir, 2);
    let a3 = corner_ao(chunk, x, y, z, dir, 3);
    Face {
        cell: Cell { x: x as i32, y: y as i32, z: z as i32 },
        dir,
        ao: (a0 as i32, a1 as i32, a2 as i32, a3 as i32),
        rewound: a0 + a2 <= a1 + a3,
    }
}

/// The quads of the first `slots` face slots. Slot `6 * i + d` is side `d` of
/// the cell at place `i` of the dense grid, so the cells come in grid order
/// and the sides of a cell in the order of their ordinals.
pub open spec fn faces_below(chunk: &Chunk, slots: int) -> Seq<Face>
    decreases slots,
{
    if slots <= 0 {
        Seq::empty()
    } else {
        let k = slots - 1;
        let c = cell_at(k / 6);
        let dir = spec_index_to_dir(k % 6);
        let before = faces_below(chunk, k);
        if face_visible(chunk, c.0, c.1, c.2, dir) {
            before.push(face_at(chunk, c.0, c.1, c.2, dir))
        } else {
            before
        }
    }
}

/// The whole mesh of a chunk.
pub open spec fn mesh_of(chunk: &Chunk) -> Seq<Face> {
    faces_below(chunk, 49152)
}

/// Corner `vert` of the face of the unit cube on side `dir`.
pub fn cube_corner(dir: Direction, vert: usize) -> (corner: (i32, i32, i32))
    requires
        vert < 4,
    ensures
        (corner.0 as int, corner.1 as int, corner.2 as int) == spec_cube_corner(dir, vert as int),
{
    match dir {
        Direction::Forward => match vert {
            0 => (0, 0, 0),
            1 => (0, 1, 0),
            2 => (1, 1, 0),
            _ => (1, 0, 0),
        },
        Direction::Backward => match vert {
            0 => (0, 0, 1),
            1 => (0, 1, 1),
            2 => (1, 1, 1),
            _ => (1, 0, 1),
        },
        Direction::Right => match vert {
            0 => (1, 0, 0),
            1 => (1, 0, 1),
            2 => (1, 1, 1),
            _ => (1, 1, 0),
        },
        Direction::Left => match vert {
            0 => (0, 0, 0),
            1 => (0, 0, 1),
            2 => (0, 1, 1),
            _ => (0, 1, 0),
        },
        Direction::Up => match vert {
            0 => (0, 1, 0),
            1 => (0, 1, 1),
            2 => (1, 1, 1),
            _ => (1, 1, 0),
        },
        Direction::Down => match vert {
            0 => (0, 0, 0),
            1 => (0, 0, 1),
            2 => (1, 0, 1),
            _ => (1, 0, 0),
        },
    }
}

/// The occlusion level of a corner from the occupancy of its neighbours.
pub fn calculate_ao_level(neighbors: VertexNeighbors) -> (level: i32)
    ensures
        level as int == spec_ao_level(neighbors),
        0 <= level <= 3,
{
    if neighbors.side1 && neighbors.side2 {
        return 0;
    }
    let mut occupied: i32 = 0;
    if neighbors.side1 {
        occupied += 1;
    }
    if neighbors.side2 {
        occupied += 1;
    }
    if neighbors.corner {
        occupied += 1;
    }
    3 - occupied
}

/// `v` with its component on `axis` set to zero.
fn with_zero_axis(v: (i32, i32, i32), axis: usize) -> (r: (i32, i32, i32))
    ensures
        (r.0 as int, r.1 as int, r.2 as int) == zero_axis(
            (v.0 as int, v.1 as int, v.2 as int),
            axis as int,
        ),
{
    if axis == 0 {
        (0, v.1, v.2)
    } else if axis == 1 {
        (v.0, 0, v.2)
    } else {
        (v.0, v.1, 0)
    }
}

/// Looks up the three neighbours of one corner of a face of `cell`. `vertex`
/// is the corner's place on the unit cube. The cells one step away from
/// `cell` must have coordinates that fit the machine integer.
pub fn check_vertex_neighbors(
    chunk: &Chunk,
    cell: Cell,
    vertex: (i32, i32, i32),
    direction: Direction,
) -> (neighbors: VertexNeighbors)
    requires
        chunk.wf(),
        i32::MIN < cell.x < i32::MAX,
        i32::MIN < cell.y < i32::MAX,
        i32::MIN < cell.z < i32::MAX,
        0 <= vertex.0 <= 1 && 0 <= vertex.1 <= 1 && 0 <= vertex.2 <= 1,
    ensures
        neighbors == spec_vertex_neighbors(
            chunk,
            cell.x as int,
            cell.y as int,
            cell.z as int,
            (vertex.0 as int, vertex.1 as int, vertex.2 as int),
            direction,
        ),
{
    let direction_corner = (vertex.0 * 2 - 1, vertex.1 * 2 - 1, vertex.2 * 2 - 1);
    let outward_component = dir_outward_component(direction);
    let side1 = with_zero_axis(direction_corner, (outward_component + 2) % 3);
    let side2 = with_zero_axis(direction_corner, (outward_component + 1) % 3);
    VertexNeighbors {
        side1: chunk.get_block(cell.x + side1.0, cell.y + side1.1, cell.z + side1.2),
        side2: chunk.get_block(cell.x + side2.0, cell.y + side2.1, cell.z + side2.2),
        corner: chunk.get_block(
            cell.x + direction_corner.0,
            cell.y + direction_corner.1,
            cell.z + direction_corner.2,
        ),
    }
}

/// The occlusion level at a corner of a face of an in-bounds cell.
fn corner_level(chunk: &Chunk, cell: Cell, dir: Direction, vert: usize) -> (level: i32)
    requires
        chunk.wf(),
        0 <= cell.x < 32 && 0 <= cell.y < 8 && 0 <= cell.z < 32,
        vert < 4,
    ensures
        level as int == corner_ao(chunk, cell.x as int, cell.y as int, cell.z as int, dir, vert as int),
        0 <= level <= 3,
{
    let corner = cube_corner(dir, vert);
    calculate_ao_level(check_vertex_neighbors(chunk, cell, corner, dir))
}

/// Lists the visible faces of the chunk: for every solid cell, in grid
/// order, each side whose neighbour is empty, with its corner levels.
pub fn build_faces(chunk: &Chunk) -> (faces: Vec<Face>)
    requires
        chunk.wf(),
    ensures
        faces@ == mesh_of(chunk),
{
    let mut faces: Vec<Face> = Vec::new();
    let mut i: usize = 0;
    while i < CHUNK_LEN
        invariant
            chunk.wf(),
            i <= CHUNK_LEN,
            faces@ == faces_below(chunk, 6 * i),
        decreases CHUNK_LEN - i,
    {
        let x = (i % 32) as i32;
        let y = ((i / 32) % 8) as i32;
        let z = (i / 256) as i32;
        let cell = Cell { x, y, z };
        let mut dir_i: usize = 0;
        while dir_i < 6
            invariant
                chunk.wf(),
                i < CHUNK_LEN,
                dir_i <= 6,
                cell == (Cell { x, y, z }),
                (x as int, y as int, z as int) == cell_at(i as int),
                faces@ == faces_below(chunk, 6 * i + dir_i),
            decreases 6 - dir_i,
        {
            let dir = index_to_dir(dir_i);
            let offset = dir_to_offset(dir);
            proof {
                assert((6 * i + dir_i) / 6 == i as int);
                assert((6 * i + dir_i) % 6 == dir_i as int);
                reveal_with_fuel(faces_below, 2);
            }
            if chunk.get_block(x, y, z) && !chunk.get_block(
                x + offset.0,
                y + offset.1,
                z + offset.2,
            ) {
                let a0 = corner_level(chunk, cell, dir, 0);
                let a1 = corner_level(chunk, cell, dir, 1);
                let a2 = corner_level(chunk, cell, dir, 2);
                let a3 = corner_level(chunk, cell, dir, 3);
                faces.push(Face { cell, dir, ao: (a0, a1, a2, a3), rewound: a0 + a2 <= a1 + a3 });
            }
            dir_i += 1;
        }
        i += 1;
    }
    faces
}

/// The mesh has at most one quad per face slot.
pub proof fn lemma_mesh_size(chunk: &Chunk, slots: int)
    requires
        0 <= slots,
    ensures
        faces_below(chunk, slots).len() <= slots,
    decreases slots,
{
    if slots > 0 {
        lemma_mesh_size(chunk, slots - 1);
    }
}

/// A corner of a quad as the renderer takes it. Positions are in world
/// units; the light at the corner is the occlusion level, of three.
#[derive(Copy, Clone, Debug, PartialEq, Eq)]
pub struct MeshVertex {
    pub position: (i64, i64, i64),
    pub tex_coords: (u8, u8),
    pub ao: i32,
    pub tex_index: u32,
}

/// The texture coordinate at corner `vert` of the face on side `dir`.
pub open spec fn spec_tex_coord(dir: Direction, vert: int) -> (int, int) {
    match dir {
        Direction::Forward => if vert == 0 {
            (1, 1)
        } else if vert == 1 {
            (1, 0)
        } else if vert == 2 {
            (0, 0)
        } else {
            (0, 1)
        },
        Direction::Right => if vert == 0 {
            (1, 1)
        } else if vert == 1 {
            (0, 1)
        } else if vert == 2 {
            (0, 0)
        } else {
            (1, 0)
        },
        Direction::Left => if vert == 0 {
            (0, 1)
        } else if vert == 1 {
            (1, 1)
        } else if vert == 2 {
            (1, 0)
        } else {
            (0, 0)
        },
        _ => if vert == 0 {
            (0, 1)
        } else if vert == 1 {
            (0, 0)
        } else if vert == 2 {
            (1, 0)
        } else {
            (1, 1)
        },
    }
}

/// Entry `k` (0 to 5) of the two triangles of a quad on side `dir`, as
/// offsets from the quad's first vertex. Forward, left and up wind one
/// way, the other three sides the other way.
pub open spec fn spec_cube_index(dir: Direction, k: int) -> int {
    let one_way = dir == Direction::Forward || dir == Direction::Left || dir == Direction::Up;
    if k == 0 || k == 3 {
        0
    } else if k == 1 {
        if one_way { 1 } else { 2 }
    } else if k == 2 {
        if one_way { 2 } else { 1 }
    } else if k == 4 {
        if one_way { 2 } else { 3 }
    } else {
        if one_way { 3 } else { 2 }
    }
}

/// The occlusion level of a face at corner `vert`.
pub open spec fn spec_face_ao(face: Face, vert: int) -> i32 {
    if vert == 0 {
        face.ao.0
    } else if vert == 1 {
        face.ao.1
    } else if vert == 2 {
        face.ao.2
    } else {
        face.ao.3
    }
}

/// The corner of the cube face from which vertex `k` of a quad is taken: a
/// quad that is rewound begins at corner 3.
pub open spec fn source_corner(face: Face, k: int) -> int {
    if face.rewound {
        (k + 3) % 4
    } else {
        k
    }
}

/// Vertex `k` (0 to 3) of the quad of a face.
pub open spec fn spec_face_vertex(face: Face, k: int) -> MeshVertex {
    let v = source_corner(face, k);
    let corner = spec_cube_corner(face.dir, v);
    let tex = spec_tex_coord(face.dir, v);
    MeshVertex {
        position: (
            ((corner.0 + face.cell.x) * 3) as i64,
            ((corner.1 + face.cell.y) * 3) as i64,
            ((corner.2 + face.cell.z) * 3) as i64,
        ),
        tex_coords: (tex.0 as u8, tex.1 as u8),
        ao: spec_face_ao(face, v),
        tex_index: 0,
    }
}

/// The vertices of the first `n` quads: four for each, quad after quad.
pub open spec fn vertices_of(faces: Seq<Face>, n: int) -> Seq<MeshVertex> {
    Seq::new((4 * n) as nat, |i: int| spec_face_vertex(faces[i / 4], i % 4))
}

/// The triangle indices of the first `n` quads: six for each, counted from
/// the first vertex of the mesh.
pub open spec fn indices_of(faces: Seq<Face>, n: int) -> Seq<u32> {
    Seq::new((6 * n) as nat, |i: int| (spec_cube_index(faces[i / 6].dir, i % 6) + 4 * (i / 6)) as u32)
}

/// The texture coordinate at a corner of a face.
pub fn tex_coord(dir: Direction, vert: usize) -> (tex: (u8, u8))
    requires
        vert < 4,
    ensures
        (tex.0 as int, tex.1 as int) == spec_tex_coord(dir, vert as int),
{
    match dir {
        Direction::Forward => match vert {
            0 => (1, 1),
            1 => (1, 0),
            2 => (0, 0),
            _ => (0, 1),
        },
        Direction::Right => match vert {
            0 => (1, 1),
            1 => (0, 1),
            2 => (0, 0),
            _ => (1, 0),
        },
        Direction::Left => match vert {
            0 => (0, 1),
            1 => (1, 1),
            2 => (1, 0),
            _ => (0, 0),
        },
        _ => match vert {
            0 => (0, 1),
            1 => (0, 0),
            2 => (1, 0),
            _ => (1, 1),
        },
    }
}

/// An entry of the two triangles of a quad.
pub fn cube_index(dir: Direction, k: usize) -> (index: u32)
    requires
        k < 6,
    ensures
        index as int == spec_cube_index(dir, k as int),
        index < 4,
{
    let one_way = match dir {
        Direction::Forward | Direction::Left | Direction::Up => true,
        _ => false,
    };
    match k {
        0 | 3 => 0,
        1 => if one_way { 1 } else { 2 },
        2 => if one_way { 2 } else { 1 },
        4 => if one_way { 2 } else { 3 },
        _ => if one_way { 3 } else { 2 },
    }
}

/// A vertex of the quad of a face.
pub fn face_vertex(face: &Face, k: usize) -> (vertex: MeshVertex)
    requires
        k < 4,
    ensures
        vertex == spec_face_vertex(*face, k as int),
{
    let v = if face.rewound {
        (k + 3) % 4
    } else {
        k
    };
    let corner = cube_corner(face.dir, v);
    let ao = match v {
        0 => face.ao.0,
        1 => face.ao.1,
        2 => face.ao.2,
        _ => face.ao.3,
    };
    MeshVertex {
        position: (
            (corner.0 as i64 + face.cell.x as i64) * 3,
            (corner.1 as i64 + face.cell.y as i64) * 3,
            (corner.2 as i64 + face.cell.z as i64) * 3,
        ),
        tex_coords: tex_coord(face.dir, v),
        ao,
        tex_index: 0,
    }
}

/// Turns quads into the vertex and index lists that a renderer draws: four
/// vertices and two triangles for each quad. The number of quads must leave
/// room for their indices in 32 bits.
pub fn build_mesh(faces: &Vec<Face>) -> (mesh: (Vec<MeshVertex>, Vec<u32>))
    requires
        faces@.len() <= 0x3fff_ffff,
    ensures
        mesh.0@ == vertices_of(faces@, faces@.len() as int),
        mesh.1@ == indices_of(faces@, faces@.len() as int),
{
    let mut vertices: Vec<MeshVertex> = Vec::new();
    let mut indices: Vec<u32> = Vec::new();
    let mut i: usize = 0;
    while i < faces.len()
        invariant
            i <= faces.len(),
            faces@.len() <= 0x3fff_ffff,
            vertices@ == vertices_of(faces@, i as int),
            indices@ == indices_of(faces@, i as int),
        decreases faces.len() - i,
    {
        let face = &faces[i];
        let vert_count: u32 = (4 * i) as u32;
        vertices.push(face_vertex(face, 0));
        vertices.push(face_vertex(face, 1));
        vertices.push(face_vertex(face, 2));
        vertices.push(face_vertex(face, 3));
        indices.push(cube_index(face.dir, 0) + vert_count);
        indices.push(cube_index(face.dir, 1) + vert_count);
        indices.push(cube_index(face.dir, 2) + vert_count);
        indices.push(cube_index(face.dir, 3) + vert_count);
        indices.push(cube_index(face.dir, 4) + vert_count);
        indices.push(cube_index(face.dir, 5) + vert_count);
        proof {
            assert(vertices@ =~= vertices_of(faces@, i + 1));
            assert(indices@ =~= indices_of(faces@, i + 1));
        }
        i += 1;
    }
    (vertices, indices)
}

} // verus!
