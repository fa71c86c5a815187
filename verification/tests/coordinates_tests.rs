use rustcraft::coordinates::{
    ChunkPos, LocalBlockPos, WorldBlockPos, CHUNK_DEPTH, CHUNK_HEIGHT, CHUNK_VOLUME, CHUNK_WIDTH,
};

const AXIS_CASES: &[(i32, i32, usize)] = &[
    (-33, -3, 15),
    (-32, -2, 0),
    (-31, -2, 1),
    (-17, -2, 15),
    (-16, -1, 0),
    (-15, -1, 1),
    (-2, -1, 14),
    (-1, -1, 15),
    (0, 0, 0),
    (1, 0, 1),
    (14, 0, 14),
    (15, 0, 15),
    (16, 1, 0),
    (17, 1, 1),
    (31, 1, 15),
    (32, 2, 0),
    (33, 2, 1),
];

#[test]
fn every_axis_handles_positive_and_negative_chunk_boundaries() {
    for &(world, expected_chunk, expected_local) in AXIS_CASES {
        let x = WorldBlockPos::new(world, 0, 0);
        assert_eq!(x.chunk_pos().x, expected_chunk, "world x={world}");
        assert_eq!(x.local_pos().x(), expected_local, "world x={world}");

        let y = WorldBlockPos::new(0, world, 0);
        assert_eq!(y.chunk_pos().y, expected_chunk, "world y={world}");
        assert_eq!(y.local_pos().y(), expected_local, "world y={world}");

        let z = WorldBlockPos::new(0, 0, world);
        assert_eq!(z.chunk_pos().z, expected_chunk, "world z={world}");
        assert_eq!(z.local_pos().z(), expected_local, "world z={world}");
    }
}

#[test]
fn minus_one_is_in_chunk_minus_one() {
    let world = WorldBlockPos::new(-1, -1, -1);

    assert_eq!(world.chunk_pos(), ChunkPos::new(-1, -1, -1));
    assert_eq!(world.local_pos(), LocalBlockPos::new(15, 15, 15).unwrap());
}

#[test]
fn mixed_sign_coordinates_split_and_recombine() {
    let positions = [
        WorldBlockPos::new(-257, 42, 511),
        WorldBlockPos::new(257, -42, -511),
        WorldBlockPos::new(-16, 16, -1),
        WorldBlockPos::new(15, -17, 32),
        WorldBlockPos::new(0, 0, 0),
    ];

    for world in positions {
        let (chunk, local) = world.split();
        assert_eq!(chunk.world_block(local), world);
        assert_eq!(WorldBlockPos::from((chunk, local)), world);
    }
}

#[test]
fn all_local_positions_round_trip_across_surrounding_chunks() {
    for chunk_y in -2..=2 {
        for chunk_z in -2..=2 {
            for chunk_x in -2..=2 {
                let chunk = ChunkPos::new(chunk_x, chunk_y, chunk_z);
                for y in 0..CHUNK_HEIGHT {
                    for z in 0..CHUNK_DEPTH {
                        for x in 0..CHUNK_WIDTH {
                            let local = LocalBlockPos::new(x, y, z).unwrap();
                            let world = chunk.world_block(local);
                            assert_eq!(world.split(), (chunk, local));
                        }
                    }
                }
            }
        }
    }
}

#[test]
fn local_positions_enforce_bounds_on_each_axis() {
    assert!(LocalBlockPos::new(15, 15, 15).is_ok());
    assert!(LocalBlockPos::new(16, 0, 0).is_err());
    assert!(LocalBlockPos::new(0, 16, 0).is_err());
    assert!(LocalBlockPos::new(0, 0, 16).is_err());
}

#[test]
fn local_index_is_x_fastest_then_z_then_y() {
    assert_eq!(LocalBlockPos::new(0, 0, 0).unwrap().index(), 0);
    assert_eq!(LocalBlockPos::new(1, 0, 0).unwrap().index(), 1);
    assert_eq!(LocalBlockPos::new(0, 0, 1).unwrap().index(), 16);
    assert_eq!(LocalBlockPos::new(0, 1, 0).unwrap().index(), 256);
    assert_eq!(LocalBlockPos::new(15, 15, 15).unwrap().index(), CHUNK_VOLUME - 1);
    assert_eq!(LocalBlockPos::checked(3, 16, 0), None);
    let error = LocalBlockPos::new(3, 16, 0).unwrap_err();
    assert_eq!((error.x, error.y, error.z), (3, 16, 0));
}

#[test]
fn chunk_of_a_world_block_converts_through_from() {
    let world = WorldBlockPos::new(-17, 33, 0);
    assert_eq!(ChunkPos::from(world), ChunkPos::new(-2, 2, 0));
    assert_eq!(LocalBlockPos::from(world), LocalBlockPos::new(15, 1, 0).unwrap());
}
