use procedural_planet::math::rect::{Rectangle, UNIT};
use procedural_planet::terrain::axis::Axis;
use procedural_planet::terrain::chunk_hash::ChunkHash;
use procedural_planet::terrain::cube_tree::{ChunkData, CubeTree};
use procedural_planet::terrain::mesh::{ChunkGrid, ChunkMeshBuilder, GridSample};

fn data(axis: Axis) -> ChunkData<()> {
    ChunkData { center: (), hash: ChunkHash::new_root(axis) }
}

fn grid<const S: usize>(radius: i64, bounds: Rectangle) -> ChunkGrid {
    ChunkMeshBuilder::<S>::new(radius).build(&bounds, &data(Axis::Y))
}

#[test]
fn grid_without_subdivisions_is_one_cell() {
    let g = grid::<0>(10, Rectangle::new(0, 0, 10, 10));
    assert_eq!(g.axis, Axis::Y);
    assert_eq!(g.denominator, 20 * UNIT);
    assert_eq!(
        g.samples,
        vec![
            GridSample { x: 0, y: 0 },
            GridSample { x: 10 * UNIT, y: 0 },
            GridSample { x: 0, y: 10 * UNIT },
            GridSample { x: 10 * UNIT, y: 10 * UNIT },
        ]
    );
    assert_eq!(g.indices, vec![0, 2, 3, 0, 3, 1]);
}

#[test]
fn winding_follows_the_signs_of_the_cell() {
    // Both coordinates negative: as with both not negative.
    let g = grid::<0>(10, Rectangle::new(-10, -10, 0, 0));
    assert_eq!(g.indices, vec![0, 2, 3, 0, 3, 1]);
    // Only x negative.
    let g = grid::<0>(10, Rectangle::new(-10, 0, 0, 10));
    assert_eq!(g.indices, vec![0, 2, 1, 1, 2, 3]);
    // Only y negative.
    let g = grid::<0>(10, Rectangle::new(0, -10, 10, 0));
    assert_eq!(g.indices, vec![0, 2, 1, 2, 3, 1]);
}

#[test]
fn grid_over_the_whole_face_changes_winding_at_the_axes() {
    // One subdivision: three samples and two cells to the side.
    let g = grid::<1>(8, Rectangle::new(-8, -8, 8, 8));
    assert_eq!(g.denominator, 2 * 16 * UNIT);
    let xs: Vec<i128> = g.samples.iter().map(|s| s.x / UNIT).collect();
    let ys: Vec<i128> = g.samples.iter().map(|s| s.y / UNIT).collect();
    assert!(g.samples.iter().all(|s| s.x % UNIT == 0 && s.y % UNIT == 0));
    assert_eq!(xs, vec![-16, 0, 16, -16, 0, 16, -16, 0, 16]);
    assert_eq!(ys, vec![-16, -16, -16, 0, 0, 0, 16, 16, 16]);
    assert_eq!(
        g.indices,
        vec![
            // cell (0, 0): both negative
            0, 3, 4, 0, 4, 1,
            // cell (1, 0): y negative
            1, 4, 2, 4, 5, 2,
            // cell (0, 1): x negative
            3, 6, 4, 4, 6, 7,
            // cell (1, 1): none negative
            4, 7, 8, 4, 8, 5,
        ]
    );
}

#[test]
fn grid_has_the_sizes_of_its_subdivision_count() {
    let g = grid::<5>(200, Rectangle::new(-200, -200, -100, -100));
    assert_eq!(g.samples.len(), 7 * 7);
    assert_eq!(g.indices.len(), 6 * 6 * 6);
    assert_eq!(g.denominator, 6 * 400 * UNIT);
    for (k, sample) in g.samples.iter().enumerate() {
        let (x, y) = ((k % 7) as i128, (k / 7) as i128);
        assert_eq!(sample.x, (-200 * 6 + x * 100) * UNIT);
        assert_eq!(sample.y, (-200 * 6 + y * 100) * UNIT);
    }
    // Every cell is made of its own four corners.
    for (cell, six) in g.indices.chunks(6).enumerate() {
        let (x, y) = ((cell % 6) as u32, (cell / 6) as u32);
        let i = x + y * 7;
        let mut corners: Vec<u32> = six.to_vec();
        corners.sort();
        corners.dedup();
        assert_eq!(corners, vec![i, i + 1, i + 7, i + 8]);
        assert_eq!(six[0], i);
    }
}

#[test]
fn samples_do_not_depend_on_the_axis_or_the_center() {
    let bounds = Rectangle::new(-3, 4, 9, 11);
    let builder = ChunkMeshBuilder::<2>::new(50);
    let a = builder.build(&bounds, &ChunkData { center: 1.5f64, hash: ChunkHash::new_root(Axis::X) });
    let b = builder.build(&bounds, &ChunkData { center: -7.0f64, hash: ChunkHash::new_root(Axis::NegZ) });
    assert_eq!(a.axis, Axis::X);
    assert_eq!(b.axis, Axis::NegZ);
    assert_eq!(a.samples, b.samples);
    assert_eq!(a.indices, b.indices);
    assert_eq!(a.denominator, 3 * 100 * UNIT);
    assert_eq!(a.samples[0], GridSample { x: -9 * UNIT, y: 12 * UNIT });
    assert_eq!(a.samples[15], GridSample { x: 27 * UNIT, y: 33 * UNIT });
}

#[test]
fn finer_leaf_has_the_samples_of_the_coarser_leaf_along_a_shared_side() {
    // A coarse leaf and, to its right, the two finer leaves that share its
    // right side.
    let coarse = grid::<3>(64, Rectangle::new(0, 0, 32, 32));
    let lower = grid::<3>(64, Rectangle::new(32, 0, 48, 16));
    let upper = grid::<3>(64, Rectangle::new(32, 16, 48, 32));
    assert_eq!(coarse.denominator, lower.denominator);
    assert_eq!(coarse.denominator, upper.denominator);
    let side = |g: &ChunkGrid, column: usize| -> Vec<GridSample> {
        (0..5).map(|row| g.samples[column + row * 5]).collect()
    };
    let coarse_side = side(&coarse, 4);
    let mut fine_side = side(&lower, 0);
    fine_side.extend(side(&upper, 0));
    for sample in &coarse_side {
        assert!(fine_side.contains(sample), "{:?} is missing", sample);
    }
    // The finer side has samples in between as well.
    assert!(fine_side.iter().any(|s| !coarse_side.contains(s)));
}

#[test]
fn leaves_of_a_refined_face_have_no_seams() {
    // A face refined towards one corner has leaves of several depths side
    // by side.
    let center = |_: Axis, _: i64, b: &Rectangle| ((b.min.x + b.max.x) / 2, (b.min.y + b.max.y) / 2);
    let corner = (-97 * UNIT, -97 * UNIT);
    let mut tree = CubeTree::new(97, center);
    tree.insert(center, |c: &(i128, i128), numerator: i128, denominator: i128| {
        // The distance is in steps, the reach in units.
        let distance = (c.0 - corner.0).abs().max((c.1 - corner.1).abs());
        distance * (denominator / UNIT) > numerator
    });
    let mut face = Vec::new();
    let mut it = tree.face(Axis::X).iter();
    while let Some((bounds, data)) = it.next() {
        face.push((*bounds, data.hash.depth()));
    }
    let builder = ChunkMeshBuilder::<3>::new(97);
    let side = |g: &ChunkGrid, column: usize| -> Vec<GridSample> {
        (0..5).map(|row| g.samples[column + row * 5]).collect()
    };
    let row = |g: &ChunkGrid, row: usize| -> Vec<GridSample> {
        (0..5).map(|column| g.samples[column + row * 5]).collect()
    };
    let mut seams = 0;
    for (coarse, coarse_depth) in &face {
        for (fine, fine_depth) in &face {
            if fine_depth <= coarse_depth {
                continue;
            }
            let c = builder.build(coarse, &data(Axis::X));
            let f = builder.build(fine, &data(Axis::X));
            assert_eq!(c.denominator, f.denominator);
            let beside = coarse.min.y <= fine.min.y && fine.max.y <= coarse.max.y;
            let stacked = coarse.min.x <= fine.min.x && fine.max.x <= coarse.max.x;
            let (ours, theirs) = if coarse.max.x == fine.min.x && beside {
                (side(&c, 4), side(&f, 0))
            } else if coarse.min.x == fine.max.x && beside {
                (side(&c, 0), side(&f, 4))
            } else if coarse.max.y == fine.min.y && stacked {
                (row(&c, 4), row(&f, 0))
            } else if coarse.min.y == fine.max.y && stacked {
                (row(&c, 0), row(&f, 4))
            } else {
                continue;
            };
            seams += 1;
            let (first, last) = (theirs[0], theirs[4]);
            for sample in ours {
                let on_the_finer_side = first.x <= sample.x
                    && sample.x <= last.x
                    && first.y <= sample.y
                    && sample.y <= last.y;
                if on_the_finer_side {
                    assert!(theirs.contains(&sample), "{:?} is missing", sample);
                }
            }
        }
    }
    assert!(seams > 0);
    assert!(face.iter().any(|(b, _)| b.width() == 97 * UNIT / 8));
}
