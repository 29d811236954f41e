use voxel_sim::chunk::{Cell, Chunk};
use voxel_sim::direction::Direction;
use voxel_sim::mesh::{
    build_faces, build_mesh, calculate_ao_level, check_vertex_neighbors, cube_corner, cube_index,
    face_vertex, tex_coord, Face, MeshVertex, VertexNeighbors,
};

#[test]
fn ao_level_table() {
    let n = |side1, side2, corner| VertexNeighbors { side1, side2, corner };
    assert_eq!(calculate_ao_level(n(false, false, false)), 3);
    assert_eq!(calculate_ao_level(n(true, false, false)), 2);
    assert_eq!(calculate_ao_level(n(false, true, false)), 2);
    assert_eq!(calculate_ao_level(n(false, false, true)), 2);
    assert_eq!(calculate_ao_level(n(true, false, true)), 1);
    assert_eq!(calculate_ao_level(n(false, true, true)), 1);
    assert_eq!(calculate_ao_level(n(true, true, false)), 0);
    assert_eq!(calculate_ao_level(n(true, true, true)), 0);
}

#[test]
fn cube_corners_lie_on_their_face() {
    assert_eq!(cube_corner(Direction::Forward, 0), (0, 0, 0));
    assert_eq!(cube_corner(Direction::Forward, 2), (1, 1, 0));
    assert_eq!(cube_corner(Direction::Backward, 1), (0, 1, 1));
    assert_eq!(cube_corner(Direction::Right, 1), (1, 0, 1));
    assert_eq!(cube_corner(Direction::Left, 3), (0, 1, 0));
    assert_eq!(cube_corner(Direction::Up, 0), (0, 1, 0));
    assert_eq!(cube_corner(Direction::Down, 2), (1, 0, 1));
    for v in 0..4 {
        assert_eq!(cube_corner(Direction::Forward, v).2, 0);
        assert_eq!(cube_corner(Direction::Backward, v).2, 1);
        assert_eq!(cube_corner(Direction::Right, v).0, 1);
        assert_eq!(cube_corner(Direction::Left, v).0, 0);
        assert_eq!(cube_corner(Direction::Up, v).1, 1);
        assert_eq!(cube_corner(Direction::Down, v).1, 0);
    }
}

#[test]
fn vertex_neighbors_of_a_top_corner() {
    let mut chunk = Chunk::new();
    chunk.set_block(true, 5, 2, 5);
    // Corner (1, 1, 1) of the top face of (5, 2, 5): the sides are the cells
    // above the +z and the +x neighbour, the corner the one diagonal above.
    chunk.set_block(true, 5, 3, 6);
    let n = check_vertex_neighbors(&chunk, Cell { x: 5, y: 2, z: 5 }, (1, 1, 1), Direction::Up);
    assert_eq!(n, VertexNeighbors { side1: true, side2: false, corner: false });
    chunk.set_block(false, 5, 3, 6);
    chunk.set_block(true, 6, 3, 5);
    let n = check_vertex_neighbors(&chunk, Cell { x: 5, y: 2, z: 5 }, (1, 1, 1), Direction::Up);
    assert_eq!(n, VertexNeighbors { side1: false, side2: true, corner: false });
    chunk.set_block(false, 6, 3, 5);
    chunk.set_block(true, 6, 3, 6);
    let n = check_vertex_neighbors(&chunk, Cell { x: 5, y: 2, z: 5 }, (1, 1, 1), Direction::Up);
    assert_eq!(n, VertexNeighbors { side1: false, side2: false, corner: true });
}

#[test]
fn lone_block_has_six_bright_faces() {
    let mut chunk = Chunk::new();
    chunk.set_block(true, 4, 3, 9);
    let faces = build_faces(&chunk);
    let cell = Cell { x: 4, y: 3, z: 9 };
    let dirs = [
        Direction::Forward,
        Direction::Backward,
        Direction::Right,
        Direction::Left,
        Direction::Up,
        Direction::Down,
    ];
    assert_eq!(faces.len(), 6);
    for (face, dir) in faces.iter().zip(dirs.iter()) {
        assert_eq!(*face, Face { cell, dir: *dir, ao: (3, 3, 3, 3), rewound: true });
    }
}

#[test]
fn corner_block_shows_three_faces_with_occlusion() {
    let mut chunk = Chunk::new();
    chunk.set_block(true, 0, 0, 0);
    let faces = build_faces(&chunk);
    let dirs: Vec<Direction> = faces.iter().map(|f| f.dir).collect();
    assert_eq!(dirs, vec![Direction::Backward, Direction::Right, Direction::Up]);
    let up = faces[2];
    assert_eq!(up.cell, Cell { x: 0, y: 0, z: 0 });
    assert_eq!(up.ao, (0, 1, 3, 1));
    assert!(!up.rewound);
}

#[test]
fn touching_blocks_hide_their_shared_faces() {
    let mut chunk = Chunk::new();
    chunk.set_block(true, 4, 3, 9);
    chunk.set_block(true, 5, 3, 9);
    let faces = build_faces(&chunk);
    assert_eq!(faces.len(), 10);
    for face in faces.iter() {
        if face.cell == (Cell { x: 4, y: 3, z: 9 }) {
            assert_ne!(face.dir, Direction::Right);
        } else {
            assert_eq!(face.cell, Cell { x: 5, y: 3, z: 9 });
            assert_ne!(face.dir, Direction::Left);
        }
    }
    // Cells come in grid order.
    assert_eq!(faces[0].cell, Cell { x: 4, y: 3, z: 9 });
    assert_eq!(faces[5].cell, Cell { x: 5, y: 3, z: 9 });
}

#[test]
fn mesh_generation_clears_the_dirty_flag() {
    let mut chunk = Chunk::new();
    assert!(chunk.update_mesh().is_none());
    chunk.set_block(true, 1, 1, 1);
    assert!(chunk.is_dirty());
    let faces = chunk.update_mesh().unwrap();
    assert_eq!(faces.len(), 6);
    assert!(!chunk.is_dirty());
    assert!(chunk.update_mesh().is_none());
    assert_eq!(chunk.generate_mesh(), faces);
    assert!(chunk.get_block(1, 1, 1));
}

#[test]
fn triangle_indices_by_side() {
    let one_way: Vec<u32> = (0..6).map(|k| cube_index(Direction::Forward, k)).collect();
    assert_eq!(one_way, vec![0, 1, 2, 0, 2, 3]);
    let other_way: Vec<u32> = (0..6).map(|k| cube_index(Direction::Backward, k)).collect();
    assert_eq!(other_way, vec![0, 2, 1, 0, 3, 2]);
    for k in 0..6 {
        assert_eq!(cube_index(Direction::Left, k), one_way[k]);
        assert_eq!(cube_index(Direction::Up, k), one_way[k]);
        assert_eq!(cube_index(Direction::Right, k), other_way[k]);
        assert_eq!(cube_index(Direction::Down, k), other_way[k]);
    }
}

#[test]
fn texture_coordinates_by_corner() {
    let of = |dir| -> Vec<(u8, u8)> { (0..4).map(|v| tex_coord(dir, v)).collect() };
    assert_eq!(of(Direction::Forward), vec![(1, 1), (1, 0), (0, 0), (0, 1)]);
    assert_eq!(of(Direction::Backward), vec![(0, 1), (0, 0), (1, 0), (1, 1)]);
    assert_eq!(of(Direction::Right), vec![(1, 1), (0, 1), (0, 0), (1, 0)]);
    assert_eq!(of(Direction::Left), vec![(0, 1), (1, 1), (1, 0), (0, 0)]);
    assert_eq!(of(Direction::Up), vec![(0, 1), (0, 0), (1, 0), (1, 1)]);
    assert_eq!(of(Direction::Down), vec![(0, 1), (0, 0), (1, 0), (1, 1)]);
}

#[test]
fn quad_vertices_in_corner_order_unless_rewound() {
    let face = Face {
        cell: Cell { x: 0, y: 0, z: 0 },
        dir: Direction::Up,
        ao: (0, 1, 3, 1),
        rewound: false,
    };
    let quad: Vec<MeshVertex> = (0..4).map(|k| face_vertex(&face, k)).collect();
    let positions: Vec<(i64, i64, i64)> = quad.iter().map(|v| v.position).collect();
    assert_eq!(positions, vec![(0, 3, 0), (0, 3, 3), (3, 3, 3), (3, 3, 0)]);
    let levels: Vec<i32> = quad.iter().map(|v| v.ao).collect();
    assert_eq!(levels, vec![0, 1, 3, 1]);

    let rewound = Face { rewound: true, ..face };
    let quad: Vec<MeshVertex> = (0..4).map(|k| face_vertex(&rewound, k)).collect();
    let positions: Vec<(i64, i64, i64)> = quad.iter().map(|v| v.position).collect();
    assert_eq!(positions, vec![(3, 3, 0), (0, 3, 0), (0, 3, 3), (3, 3, 3)]);
    let levels: Vec<i32> = quad.iter().map(|v| v.ao).collect();
    assert_eq!(levels, vec![1, 0, 1, 3]);
    let tex: Vec<(u8, u8)> = quad.iter().map(|v| v.tex_coords).collect();
    assert_eq!(tex, vec![(1, 1), (0, 1), (0, 0), (1, 0)]);
}

#[test]
fn mesh_of_a_lone_block() {
    let mut chunk = Chunk::new();
    chunk.set_block(true, 4, 3, 9);
    let faces = chunk.generate_mesh();
    let (vertices, indices) = build_mesh(&faces);
    assert_eq!(vertices.len(), 24);
    assert_eq!(indices.len(), 36);
    // The forward face is rewound: it begins at corner 3.
    assert_eq!(
        vertices[0],
        MeshVertex { position: (15, 9, 27), tex_coords: (0, 1), ao: 3, tex_index: 0 }
    );
    assert_eq!(
        vertices[1],
        MeshVertex { position: (12, 9, 27), tex_coords: (1, 1), ao: 3, tex_index: 0 }
    );
    assert_eq!(&indices[0..6], &[0, 1, 2, 0, 2, 3]);
    assert_eq!(&indices[6..12], &[4, 6, 5, 4, 7, 6]);
    assert_eq!(&indices[30..36], &[20, 22, 21, 20, 23, 22]);
    for v in vertices.iter() {
        assert!(v.position.0 == 12 || v.position.0 == 15);
        assert!(v.position.1 == 9 || v.position.1 == 12);
        assert!(v.position.2 == 27 || v.position.2 == 30);
    }
    let (none, nothing) = build_mesh(&Vec::new());
    assert!(none.is_empty() && nothing.is_empty());
}
