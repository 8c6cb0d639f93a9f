use procedural_planet::math::quad_tree::{QuadTreeNode, Quadrant};
use procedural_planet::math::rect::{Rectangle, UNIT};
use procedural_planet::terrain::axis::Axis;
use procedural_planet::terrain::chunk_hash::ChunkHash;
use procedural_planet::terrain::cube_tree::{ChunkData, CubeTree, MIN_SIZE};

type Point = [f64; 3];

fn unit_cube_to_sphere(p: Point) -> Point {
    let [x, y, z] = p;
    let (x2, y2, z2) = (x * x, y * y, z * z);
    [
        x * (1.0 - y2 / 2.0 - z2 / 2.0 + y2 * z2 / 3.0).sqrt(),
        y * (1.0 - z2 / 2.0 - x2 / 2.0 + z2 * x2 / 3.0).sqrt(),
        z * (1.0 - x2 / 2.0 - y2 / 2.0 + x2 * y2 / 3.0).sqrt(),
    ]
}

fn center_on_sphere(axis: Axis, radius: i64, bounds: &Rectangle) -> Point {
    let (normal, local_x, local_y) = axis.frame();
    let r = radius as f64;
    let unit = UNIT as f64;
    let u = 2.0 * ((bounds.min.x + bounds.max.x) as f64 / unit / (r * 4.0));
    let v = 2.0 * ((bounds.min.y + bounds.max.y) as f64 / unit / (r * 4.0));
    let mut cube = [0.0; 3];
    for i in 0..3 {
        cube[i] = normal[i] as f64 + local_x[i] as f64 * u + local_y[i] as f64 * v;
    }
    let s = unit_cube_to_sphere(cube);
    [s[0] * r, s[1] * r, s[2] * r]
}

fn distance(a: &Point, b: &Point) -> f64 {
    ((a[0] - b[0]).powi(2) + (a[1] - b[1]).powi(2) + (a[2] - b[2]).powi(2)).sqrt()
}

fn beyond(viewer: Point) -> impl Fn(&Point, i128, i128) -> bool {
    move |center: &Point, numerator: i128, denominator: i128| {
        distance(center, &viewer) > numerator as f64 / denominator as f64
    }
}

fn leaves(tree: &CubeTree<Point>) -> Vec<(Rectangle, ChunkData<Point>)> {
    let mut out = Vec::new();
    let mut it = tree.iter();
    while let Some((bounds, data)) = it.next() {
        out.push((*bounds, *data));
    }
    out
}

fn hashes(tree: &CubeTree<Point>) -> Vec<ChunkHash> {
    leaves(tree).iter().map(|(_, data)| data.hash).collect()
}

#[test]
fn new_tree_has_one_root_leaf_per_axis() {
    let tree = CubeTree::new(200, center_on_sphere);
    assert_eq!(tree.radius, 200);
    let all = leaves(&tree);
    assert_eq!(all.len(), 6);
    for (i, axis) in Axis::all().iter().enumerate() {
        let (bounds, data) = &all[i];
        assert_eq!(*bounds, Rectangle::new(-200, -200, 200, 200));
        assert_eq!(data.hash, ChunkHash::new_root(*axis));
        let normal = axis.to_array();
        for k in 0..3 {
            assert!((data.center[k] - normal[k] as f64 * 200.0).abs() < 1e-9);
        }
        assert!(matches!(tree.face(*axis), QuadTreeNode::Leaf { .. }));
    }
}

#[test]
fn refining_near_the_diagonal_gives_collider_leaves() {
    let radius = 200;
    let mut tree = CubeTree::new(radius, center_on_sphere);
    let d = radius as f64 * 0.56;
    tree.insert(center_on_sphere, beyond([d, d, d]));
    let all = leaves(&tree);
    assert!(all.len() > 6);
    assert!(all.iter().any(|(_, data)| data.hash.collider()));
    for (bounds, data) in &all {
        // The flag marks exactly the leaves at the minimum size.
        assert_eq!(data.hash.collider(), bounds.width() <= MIN_SIZE * UNIT);
        // A leaf that stayed larger is farther from the viewer than its reach.
        if bounds.width() > MIN_SIZE * UNIT {
            let width = bounds.width() as f64 / UNIT as f64;
            assert!(distance(&data.center, &[d, d, d]) > width * 1.5);
        }
        // A leaf is a square with the side of the face halved once per level.
        assert_eq!(bounds.width() << data.hash.depth(), 2 * radius as i128 * UNIT);
        assert_eq!(bounds.height(), bounds.width());
        // Every center lies on the sphere.
        let length = distance(&data.center, &[0.0; 3]);
        assert!((length - radius as f64).abs() < 1e-9 * radius as f64);
    }
    // The faces towards the viewer are refined down to the minimum size, the
    // faces away from it are not.
    let depth_of = |axis: Axis| {
        all.iter()
            .filter(|(_, data)| data.hash.axis() == axis)
            .map(|(_, data)| data.hash.depth())
            .max()
            .unwrap()
    };
    assert_eq!(depth_of(Axis::X), 5);
    assert_eq!(depth_of(Axis::Y), 5);
    assert_eq!(depth_of(Axis::Z), 5);
    assert!(depth_of(Axis::NegX) < 5);
}

#[test]
fn a_far_viewer_leaves_the_faces_whole() {
    let mut tree = CubeTree::new(16, center_on_sphere);
    tree.insert(center_on_sphere, beyond([1.0e9, 0.0, 0.0]));
    let all = leaves(&tree);
    assert_eq!(all.len(), 6);
    for (i, axis) in Axis::all().iter().enumerate() {
        assert_eq!(all[i].0, Rectangle::new(-16, -16, 16, 16));
        assert_eq!(all[i].1.hash, ChunkHash::new_root(*axis));
    }
}

#[test]
fn a_viewer_at_the_center_splits_every_face_once() {
    // The faces are 32 wide: one subdivision brings the leaves to the
    // minimum size.
    let mut tree = CubeTree::new(16, center_on_sphere);
    tree.insert(center_on_sphere, beyond([0.0, 0.0, 0.0]));
    let all = leaves(&tree);
    assert_eq!(all.len(), 24);
    let quadrants = Quadrant::all();
    let bounds = [
        Rectangle::new(-16, -16, 0, 0),
        Rectangle::new(0, -16, 16, 0),
        Rectangle::new(-16, 0, 0, 16),
        Rectangle::new(0, 0, 16, 16),
    ];
    for (i, axis) in Axis::all().iter().enumerate() {
        for q in 0..4 {
            let (b, data) = &all[i * 4 + q];
            assert_eq!(*b, bounds[q]);
            let expected = ChunkHash::new_root(*axis)
                .push_quadrant(quadrants[q])
                .with_collider(true);
            assert_eq!(data.hash, expected);
            assert_eq!(data.hash.depth(), 1);
            let center = center_on_sphere(*axis, 16, b);
            assert_eq!(data.center, center);
        }
    }
}

#[test]
fn a_small_body_is_all_collider() {
    let mut tree = CubeTree::new(10, center_on_sphere);
    tree.insert(center_on_sphere, beyond([0.0, 0.0, 0.0]));
    let all = leaves(&tree);
    assert_eq!(all.len(), 6);
    for (i, axis) in Axis::all().iter().enumerate() {
        assert_eq!(all[i].1.hash, ChunkHash::new_root(*axis).with_collider(true));
    }
}

#[test]
fn insert_starts_again_from_the_roots() {
    let mut tree = CubeTree::new(200, center_on_sphere);
    tree.insert(center_on_sphere, beyond([112.0, 112.0, 112.0]));
    assert!(leaves(&tree).len() > 6);
    tree.insert(center_on_sphere, beyond([1.0e9, 0.0, 0.0]));
    assert_eq!(leaves(&tree).len(), 6);
}

#[test]
fn refinement_is_determined_by_the_viewer() {
    let viewer = [150.0, -40.0, 90.0];
    let mut first = CubeTree::new(200, center_on_sphere);
    first.insert(center_on_sphere, beyond(viewer));
    let mut second = CubeTree::new(200, center_on_sphere);
    second.insert(center_on_sphere, beyond([0.0, 0.0, 0.0]));
    second.insert(center_on_sphere, beyond(viewer));
    let mut a: Vec<u32> = hashes(&first).iter().map(|h| h.to_bits()).collect();
    let mut b: Vec<u32> = hashes(&second).iter().map(|h| h.to_bits()).collect();
    assert!(a.len() > 6);
    assert_eq!(a, b);
    a.sort();
    b.sort();
    assert_eq!(a, b);
    let whole = |tree: &CubeTree<Point>| -> Vec<(Rectangle, Point, ChunkHash)> {
        leaves(tree).iter().map(|(b, d)| (*b, d.center, d.hash)).collect()
    };
    assert_eq!(whole(&first), whole(&second));
}

#[test]
fn a_closer_viewer_refines_at_least_as_deep() {
    // Both viewers stand above the same face; the far one is out of the
    // reach of every leaf that the near one is out of the reach of.
    let radius = 400;
    let mut near = CubeTree::new(radius, center_on_sphere);
    near.insert(center_on_sphere, beyond([0.0, 0.0, 0.0]));
    let mut far = CubeTree::new(radius, center_on_sphere);
    far.insert(center_on_sphere, beyond([0.0, 0.0, 5000.0]));
    let near_leaves = leaves(&near);
    let far_leaves = leaves(&far);
    assert!(near_leaves.len() >= far_leaves.len());
    for (bounds, data) in &near_leaves {
        // The leaf of the coarse tree that holds this leaf of the fine tree.
        let holder = far_leaves.iter().find(|(b, d)| {
            d.hash.axis() == data.hash.axis()
                && b.min.x <= bounds.min.x
                && bounds.max.x <= b.max.x
                && b.min.y <= bounds.min.y
                && bounds.max.y <= b.max.y
        });
        let (_, coarse) = holder.expect("every fine leaf lies in a coarse leaf");
        assert!(data.hash.depth() >= coarse.hash.depth());
    }
}

#[test]
fn traversal_goes_face_after_face() {
    let mut tree = CubeTree::new(200, center_on_sphere);
    tree.insert(center_on_sphere, beyond([200.0, 0.0, 0.0]));
    let all = leaves(&tree);
    let mut expected = Vec::new();
    for axis in Axis::all() {
        let mut it = tree.face(axis).iter();
        while let Some((bounds, data)) = it.next() {
            assert_eq!(data.hash.axis(), axis);
            expected.push((*bounds, data.hash));
        }
    }
    let got: Vec<(Rectangle, ChunkHash)> = all.iter().map(|(b, d)| (*b, d.hash)).collect();
    assert_eq!(got, expected);
    let mut it = tree.iter_with_capacity::<16>();
    let mut count = 0;
    while it.next().is_some() {
        count += 1;
    }
    assert_eq!(count, all.len());
    assert!(it.next().is_none());
}

#[test]
fn visible_leaves_keeps_what_the_test_accepts_in_order() {
    let mut tree = CubeTree::new(200, center_on_sphere);
    tree.insert(center_on_sphere, beyond([200.0, 0.0, 0.0]));
    // Keep the side of the body that faces the viewer.
    let kept = tree.visible_leaves(|_: &Rectangle, data: &ChunkData<Point>| data.center[0] > 0.0);
    let expected: Vec<ChunkHash> = leaves(&tree)
        .iter()
        .filter(|(_, data)| data.center[0] > 0.0)
        .map(|(_, data)| data.hash)
        .collect();
    let got: Vec<ChunkHash> = kept.iter().map(|(_, data)| data.hash).collect();
    assert!(!got.is_empty());
    assert!(got.len() < leaves(&tree).len());
    assert_eq!(got, expected);
    assert!(tree.visible_leaves(|_: &Rectangle, _: &ChunkData<Point>| false).is_empty());
}

#[test]
fn clone_copies_every_face() {
    let mut tree = CubeTree::new(200, center_on_sphere);
    tree.insert(center_on_sphere, beyond([200.0, 10.0, -30.0]));
    let copy = tree.clone();
    assert_eq!(copy.radius, tree.radius);
    assert_eq!(hashes(&copy), hashes(&tree));
    let bounds = |t: &CubeTree<Point>| -> Vec<Rectangle> {
        leaves(t).iter().map(|(b, _)| *b).collect()
    };
    assert_eq!(bounds(&copy), bounds(&tree));
}

#[test]
fn faces_of_odd_extent_are_halved_exactly() {
    // Fifty units across: twenty-five, then twelve and a half.
    let mut tree = CubeTree::new(25, center_on_sphere);
    tree.insert(center_on_sphere, beyond([25.0, 0.0, 0.0]));
    let all = leaves(&tree);
    let smallest = all.iter().map(|(b, _)| b.width()).min().unwrap();
    assert_eq!(smallest, 25 * UNIT / 2);
    for (bounds, data) in &all {
        assert_eq!(bounds.width() << data.hash.depth(), 50 * UNIT);
        assert_eq!(bounds.height() << data.hash.depth(), 50 * UNIT);
        assert_eq!(data.hash.collider(), bounds.width() <= MIN_SIZE * UNIT);
    }
    assert!(all.iter().any(|(b, d)| d.hash.depth() == 2 && b.width() == 25 * UNIT / 2));

    // A hundred and ninety-four units across: leaves of twenty-four and a
    // quarter are still wider than the minimum size and are halved once more.
    let mut tree = CubeTree::new(97, center_on_sphere);
    tree.insert(center_on_sphere, beyond([97.0, 0.0, 0.0]));
    let all = leaves(&tree);
    let smallest = all.iter().map(|(b, _)| b.width()).min().unwrap();
    assert_eq!(smallest, 97 * UNIT / 8);
    assert!(all
        .iter()
        .any(|(b, d)| d.hash.depth() == 4 && d.hash.collider() && b.width() == 97 * UNIT / 8));
    assert!(all
        .iter()
        .all(|(b, d)| !(d.hash.collider() && b.width() == 97 * UNIT / 4)));
    for (bounds, data) in &all {
        assert_eq!(bounds.width() << data.hash.depth(), 194 * UNIT);
    }
}

#[test]
fn the_smallest_leaves_of_the_example_are_twelve_and_a_half_wide() {
    let mut tree = CubeTree::new(200, center_on_sphere);
    tree.insert(center_on_sphere, beyond([112.0, 112.0, 112.0]));
    for (bounds, data) in leaves(&tree) {
        if data.hash.depth() == 5 {
            assert_eq!(bounds.width(), 25 * UNIT / 2);
            assert_eq!(bounds.height(), 25 * UNIT / 2);
        }
    }
}
