use procedural_planet::math::quad_tree::Quadrant;
use procedural_planet::terrain::axis::Axis;
use procedural_planet::terrain::chunk_hash::ChunkHash;

#[test]
fn test_new_chunk_hash() {
    // Setup
    let axis = Axis::X;
    let depth = 5;
    let collider = false;
    let path = [
        Quadrant::NW,
        Quadrant::NE,
        Quadrant::SW,
        Quadrant::SE,
        Quadrant::NW,
        Quadrant::NE,
        Quadrant::SW,
    ];

    // Create a new ChunkHash
    let hash = ChunkHash::new(axis, depth, collider, path);

    // Verify by extracting fields
    assert_eq!(hash.axis(), axis);
    assert_eq!(hash.depth(), depth);
    assert_eq!(hash.collider(), collider);
    assert_eq!(hash.path(), path);
}

#[test]
fn test_new_root() {
    let axis = Axis::Y;
    let hash = ChunkHash::new_root(axis);

    assert_eq!(hash.axis(), axis);
    assert_eq!(hash.depth(), 0);
    assert_eq!(hash.collider(), false);
    assert_eq!(hash.path(), [Quadrant::ROOT; 7]);
}

#[test]
fn test_push_quadrant() {
    // Setup - create an initial hash
    let axis = Axis::Z;
    let depth = 3;
    let collider = true;
    let path = [
        Quadrant::NW,
        Quadrant::NE,
        Quadrant::SW,
        Quadrant::SE,
        Quadrant::NW,
        Quadrant::NE,
        Quadrant::SW,
    ];

    let initial_hash = ChunkHash::new(axis, depth, collider, path);

    // Push a new quadrant to the front
    let new_quadrant = Quadrant::SE;
    let updated_hash = initial_hash.push_quadrant(new_quadrant);

    // Expected new path: the new quadrant at the front, and the last one dropped
    let expected_path = [
        Quadrant::SE,
        Quadrant::NW,
        Quadrant::NE,
        Quadrant::SW,
        Quadrant::SE,
        Quadrant::NW,
        Quadrant::NE,
    ];

    // Verify the path was updated correctly
    assert_eq!(updated_hash.path(), expected_path);

    // The child lies one level deeper; axis and collider flag stay
    assert_eq!(updated_hash.axis(), axis);
    assert_eq!(updated_hash.depth(), depth + 1);
    assert_eq!(updated_hash.collider(), collider);
}

#[test]
fn test_with_depth() {
    let initial_hash = ChunkHash::new_root(Axis::X);
    let new_depth = 42;
    let updated_hash = initial_hash.with_depth(new_depth);

    assert_eq!(updated_hash.depth(), new_depth);
    assert_eq!(updated_hash.axis(), initial_hash.axis());
    assert_eq!(updated_hash.collider(), initial_hash.collider());
    assert_eq!(updated_hash.path(), initial_hash.path());
}

#[test]
fn test_with_collider() {
    let initial_hash = ChunkHash::new_root(Axis::Y);
    let updated_hash = initial_hash.with_collider(true);

    assert_eq!(updated_hash.collider(), true);
    assert_eq!(updated_hash.axis(), initial_hash.axis());
    assert_eq!(updated_hash.depth(), initial_hash.depth());
    assert_eq!(updated_hash.path(), initial_hash.path());
}

#[test]
fn test_values() {
    let axis = Axis::Z;
    let depth = 7;
    let collider = true;
    let path = [Quadrant::ROOT; 7];

    let hash = ChunkHash::new(axis, depth, collider, path);
    let (extracted_axis, extracted_depth, extracted_path, extracted_flag) = hash.values();

    assert_eq!(extracted_axis, axis);
    assert_eq!(extracted_depth, depth);
    assert_eq!(extracted_path, path);
    assert_eq!(extracted_flag, collider);
}

#[test]
fn encoding_round_trips_for_every_axis_depth_and_flag() {
    let quadrants = [
        Quadrant::ROOT,
        Quadrant::SW,
        Quadrant::SE,
        Quadrant::NW,
        Quadrant::NE,
    ];
    for (a, axis) in Axis::all().iter().enumerate() {
        for depth in 0..=63u8 {
            for collider in [false, true] {
                let mut path = [Quadrant::ROOT; 7];
                for (i, slot) in path.iter_mut().enumerate() {
                    *slot = quadrants[(a + depth as usize + i * 3) % 5];
                }
                let hash = ChunkHash::new(*axis, depth, collider, path);
                assert_eq!(hash.values(), (*axis, depth, path, collider));
                assert_eq!(ChunkHash::from_bits(hash.to_bits()), Some(hash));
            }
        }
    }
}

#[test]
fn encoding_packs_the_fields_from_the_low_bits_up() {
    let path = [
        Quadrant::SW,
        Quadrant::SE,
        Quadrant::NW,
        Quadrant::NE,
        Quadrant::ROOT,
        Quadrant::SW,
        Quadrant::NE,
    ];
    let hash = ChunkHash::new(Axis::NegZ, 63, true, path);
    let expected: u32 = 5
        | (63 << 3)
        | (1 << 9)
        | (1 << 10)
        | (2 << 13)
        | (3 << 16)
        | (4 << 19)
        | (0 << 22)
        | (1 << 25)
        | (4 << 28);
    assert_eq!(hash.to_bits(), expected);
    assert_eq!(ChunkHash::new_root(Axis::NegX).to_bits(), 3);
}

#[test]
fn pushing_an_eighth_quadrant_drops_the_oldest() {
    let mut hash = ChunkHash::new_root(Axis::X);
    let steps = [
        Quadrant::SW,
        Quadrant::SE,
        Quadrant::NW,
        Quadrant::NE,
        Quadrant::SW,
        Quadrant::NW,
        Quadrant::SE,
    ];
    for (i, q) in steps.iter().enumerate() {
        hash = hash.push_quadrant(*q);
        assert_eq!(hash.path()[0], *q);
        assert_eq!(hash.depth() as usize, i + 1);
    }
    assert_eq!(
        hash.path(),
        [
            Quadrant::SE,
            Quadrant::NW,
            Quadrant::SW,
            Quadrant::NE,
            Quadrant::NW,
            Quadrant::SE,
            Quadrant::SW,
        ]
    );
    let eighth = hash.push_quadrant(Quadrant::NE);
    assert_eq!(
        eighth.path(),
        [
            Quadrant::NE,
            Quadrant::SE,
            Quadrant::NW,
            Quadrant::SW,
            Quadrant::NE,
            Quadrant::NW,
            Quadrant::SE,
        ]
    );
    assert_eq!(eighth.depth(), 8);
    // The dropped quadrant leaves no trace: the same seven most recent steps
    // at the same depth give the same identity.
    let same = ChunkHash::new(Axis::X, 8, false, eighth.path());
    assert_eq!(eighth, same);
    assert_eq!(eighth.to_bits(), same.to_bits());
}

#[test]
fn identity_does_not_depend_on_how_a_leaf_was_reached() {
    let by_steps = ChunkHash::new_root(Axis::Y)
        .push_quadrant(Quadrant::NW)
        .push_quadrant(Quadrant::SE);
    let mut path = [Quadrant::ROOT; 7];
    path[0] = Quadrant::SE;
    path[1] = Quadrant::NW;
    let at_once = ChunkHash::new(Axis::Y, 2, false, path);
    assert_eq!(by_steps, at_once);
    let other = ChunkHash::new_root(Axis::Y)
        .push_quadrant(Quadrant::SE)
        .push_quadrant(Quadrant::NW);
    assert_ne!(by_steps, other);
}

#[test]
fn increment_depth_stops_at_the_largest_depth() {
    let hash = ChunkHash::new_root(Axis::Z).with_collider(true);
    assert_eq!(hash.increment_depth().depth(), 1);
    assert_eq!(hash.with_depth(62).increment_depth().depth(), 63);
    let deepest = hash.with_depth(63).increment_depth();
    assert_eq!(deepest.depth(), 63);
    assert_eq!(deepest.axis(), Axis::Z);
    assert!(deepest.collider());
    assert_eq!(deepest.path(), [Quadrant::ROOT; 7]);
}

#[test]
fn with_collider_can_clear_the_flag() {
    let path = [Quadrant::NE; 7];
    let hash = ChunkHash::new(Axis::NegY, 9, true, path);
    let cleared = hash.with_collider(false);
    assert!(!cleared.collider());
    assert_eq!(cleared.values(), (Axis::NegY, 9, path, false));
    assert_eq!(cleared.with_collider(true), hash);
}

#[test]
fn from_bits_refuses_what_is_no_identity() {
    // Axis codes six and seven.
    assert_eq!(ChunkHash::from_bits(6), None);
    assert_eq!(ChunkHash::from_bits(7), None);
    // Path codes five to seven, in the first and in the last place.
    assert_eq!(ChunkHash::from_bits(5 << 10), None);
    assert_eq!(ChunkHash::from_bits(7 << 28), None);
    // The unused bit.
    assert_eq!(ChunkHash::from_bits(1 << 31), None);
    let hash = ChunkHash::from_bits(2 | (4 << 10)).unwrap();
    assert_eq!(hash.axis(), Axis::Z);
    assert_eq!(hash.path()[0], Quadrant::NE);
    assert_eq!(hash.depth(), 0);
}
