use procedural_planet::math::quad_tree::{
    internal_node_text, leaf_node_text, QuadTreeNode, Quadrant,
};
use procedural_planet::math::rect::{Point2, Rectangle, UNIT};

fn square(side: i64) -> Rectangle {
    Rectangle::from_corners(Point2::new(0, 0), Point2::new(side, side))
}

fn count_leaves<T>(node: &QuadTreeNode<T>) -> usize {
    let mut it = node.iter();
    let mut count = 0;
    while it.next().is_some() {
        count += 1;
    }
    count
}

#[test]
fn test_new_leaf() {
    let bounds = Rectangle::from_corners(Point2::new(0, 0), Point2::new(10, 10));
    let data = 42;
    let leaf = QuadTreeNode::new(bounds, data);

    match leaf {
        QuadTreeNode::Leaf {
            bounds: leaf_bounds,
            data: leaf_data,
        } => {
            assert_eq!(leaf_bounds, bounds);
            assert_eq!(leaf_data, data);
        }
        _ => panic!("Expected a leaf node"),
    }
}

#[test]
fn test_bounds() {
    let bounds = Rectangle::from_corners(Point2::new(0, 0), Point2::new(10, 10));
    let leaf = QuadTreeNode::new(bounds, 42);

    assert_eq!(leaf.bounds(), &bounds);

    let mut internal = leaf.clone();
    internal.subdivide();

    assert_eq!(internal.bounds(), &bounds);
}

#[test]
fn test_data_accessors() {
    let bounds = Rectangle::from_corners(Point2::new(0, 0), Point2::new(10, 10));
    let mut leaf = QuadTreeNode::new(bounds, 42);

    // Test data()
    assert_eq!(leaf.data(), Some(&42));

    // Test data_clone()
    assert_eq!(leaf.data_clone(), Some(42));

    // Test data_mut()
    if let Some(data) = leaf.data_mut() {
        *data = 100;
    }
    assert_eq!(leaf.data(), Some(&100));

    // Test that internal nodes return None for data accessors
    leaf.subdivide();
    assert_eq!(leaf.data(), None);
    assert_eq!(leaf.data_clone(), None);
    assert_eq!(leaf.data_mut(), None);
}

#[test]
fn test_subdivide() {
    let bounds = Rectangle::from_corners(Point2::new(0, 0), Point2::new(10, 10));
    let mut leaf = QuadTreeNode::new(bounds, 42);

    leaf.subdivide();

    match leaf {
        QuadTreeNode::Internal {
            bounds: internal_bounds,
            sw,
            se,
            nw,
            ne,
        } => {
            let children = [sw, se, nw, ne];
            assert_eq!(internal_bounds, bounds);
            assert_eq!(children.len(), 4);

            // Check that children are properly positioned
            // Bottom-left child
            assert_eq!(
                children[0].bounds(),
                &Rectangle::from_corners(Point2::new(0, 0), Point2::new(5, 5))
            );

            // Bottom-right child
            assert_eq!(
                children[1].bounds(),
                &Rectangle::from_corners(Point2::new(5, 0), Point2::new(10, 5))
            );

            // Top-left child
            assert_eq!(
                children[2].bounds(),
                &Rectangle::from_corners(Point2::new(0, 5), Point2::new(5, 10))
            );

            // Top-right child
            assert_eq!(
                children[3].bounds(),
                &Rectangle::from_corners(Point2::new(5, 5), Point2::new(10, 10))
            );

            // Check that all children have the parent's data
            for child in children.iter() {
                assert_eq!(child.data(), Some(&42));
            }
        }
        _ => panic!("Expected an internal node after subdivision"),
    }
}

#[test]
fn test_subdivide_with() {
    let bounds = Rectangle::from_corners(Point2::new(0, 0), Point2::new(10, 10));
    let mut leaf = QuadTreeNode::new(bounds, 100);

    // Custom function that sets the data based on the child's position
    leaf.subdivide_with(|_, child_bounds: &Rectangle, parent_data: &i32| {
        let center = child_bounds.center();
        let five = 5 * UNIT;
        if center.x < five && center.y < five {
            // Bottom-left: parent value
            *parent_data
        } else if center.x >= five && center.y < five {
            // Bottom-right: double parent value
            *parent_data * 2
        } else if center.x < five && center.y >= five {
            // Top-left: triple parent value
            *parent_data * 3
        } else {
            // Top-right: quadruple parent value
            *parent_data * 4
        }
    });

    match leaf {
        QuadTreeNode::Internal { sw, se, nw, ne, .. } => {
            // Check custom data values
            assert_eq!(sw.data(), Some(&100)); // Bottom-left: original
            assert_eq!(se.data(), Some(&200)); // Bottom-right: double
            assert_eq!(nw.data(), Some(&300)); // Top-left: triple
            assert_eq!(ne.data(), Some(&400)); // Top-right: quadruple
        }
        _ => panic!("Expected an internal node after subdivision"),
    }
}

#[test]
fn test_subdivide_recursive() {
    let bounds = Rectangle::from_corners(Point2::new(0, 0), Point2::new(10, 10));
    let mut leaf = QuadTreeNode::new(bounds, 42);

    // Subdivide to depth 2
    leaf.subdivide_recursive(2);

    // Check that we have the right number of leaves (4^2 = 16)
    let mut leaves = Vec::new();
    leaf.gather_leaves(&mut leaves);
    assert_eq!(leaves.len(), 16);

    // Check that all leaves have the original data
    for leaf in leaves {
        assert_eq!(leaf.data(), Some(&42));
    }
}

#[test]
fn test_subdivide_recursive_with() {
    let bounds = Rectangle::from_corners(Point2::new(0, 0), Point2::new(10, 10));
    let mut root = QuadTreeNode::new(bounds, 42);

    // Subdivide to depth 2
    root.subdivide_recursive_with(2, |_, _, child_bounds: &Rectangle, _: &usize| {
        (child_bounds.size().x / UNIT) as usize
    });

    // Check that we have the right number of leaves (4^2 = 16)
    assert_eq!(
        count_leaves(&root),
        16,
        "should have correct number of nodes after recursive insert"
    );

    // Check that all leaves hold the width of their bounds
    let mut it = root.iter();
    while let Some((bounds, data)) = it.next() {
        assert!(*data == (bounds.size().x / UNIT) as usize);
        // Halved twice, ten units are two and a half.
        assert_eq!(bounds.size().x, 5 * UNIT / 2);
    }
}

#[test]
fn test_gather_leaves() {
    let bounds = Rectangle::from_corners(Point2::new(0, 0), Point2::new(10, 10));
    let mut root = QuadTreeNode::new(bounds, 1);

    // Create a tree with varying depths
    root.subdivide();

    if let QuadTreeNode::Internal { sw, .. } = &mut root {
        sw.subdivide();
        if let QuadTreeNode::Internal { sw: grandchild, .. } = &mut **sw {
            grandchild.subdivide();
        }
    }

    let mut leaves = Vec::new();
    root.gather_leaves(&mut leaves);

    assert_eq!(leaves.len(), 10);

    // All leaves should have data = 1
    for leaf in leaves {
        assert_eq!(leaf.data(), Some(&1));
    }
}

#[test]
fn test_iter() {
    let bounds = Rectangle::from_corners(Point2::new(0, 0), Point2::new(10, 10));
    let mut root = QuadTreeNode::new(bounds, "root");

    // Create a simple tree
    root.subdivide();

    // Count the number of leaves using the traversal
    let leaves_count = count_leaves(&root);
    assert_eq!(leaves_count, 4);

    // Check the data of each leaf
    let mut it = root.iter();
    while let Some((_, data)) = it.next() {
        assert_eq!(*data, "root");
    }

    // Test with custom capacity
    let mut custom_iter = root.iter_with_capacity::<8>();
    let mut custom_count = 0;
    while custom_iter.next().is_some() {
        custom_count += 1;
    }
    assert_eq!(custom_count, 4);
}

#[test]
fn test_iter_mut() {
    let bounds = Rectangle::from_corners(Point2::new(0, 0), Point2::new(10, 10));
    let mut root = QuadTreeNode::new(bounds, "root");

    // Create a simple tree
    root.subdivide();

    for (_, data) in root.iter_mut() {
        *data = "modified"
    }

    // Check the data of each leaf
    let mut it = root.iter();
    let mut seen = 0;
    while let Some((_, data)) = it.next() {
        assert_eq!(*data, "modified");
        seen += 1;
    }
    assert_eq!(seen, 4);
}

#[test]
fn test_equality() {
    let bounds = Rectangle::from_corners(Point2::new(0, 0), Point2::new(10, 10));
    let leaf1 = QuadTreeNode::new(bounds, 42);
    let leaf2 = QuadTreeNode::new(bounds, 42);
    let leaf3 = QuadTreeNode::new(bounds, 100);

    // Same bounds and data should be equal
    assert_eq!(leaf1, leaf2);

    // Different data should not be equal
    assert_ne!(leaf1, leaf3);

    // Different types should not be equal
    let mut internal = leaf1.clone();
    internal.subdivide();
    assert_ne!(leaf1, internal);

    // Two identical internal nodes should be equal
    let mut internal2 = leaf2.clone();
    internal2.subdivide();
    assert_eq!(internal, internal2);

    // Modify a child in one internal node
    if let QuadTreeNode::Internal { sw, .. } = &mut internal2 {
        if let Some(data) = sw.data_mut() {
            *data = 100;
        }
    }

    // Now they should not be equal
    assert_ne!(internal, internal2);
}

#[test]
fn test_debug_output() {
    let bounds = Rectangle::from_corners(Point2::new(0, 0), Point2::new(10, 10));
    let leaf = QuadTreeNode::new(bounds, 42);

    let debug_str = leaf.debug_text();
    assert!(debug_str.contains("QuadTreeNode::Leaf"));
    assert!(debug_str.contains("bounds"));
    assert!(debug_str.contains("data"));

    let mut internal = leaf.clone();
    internal.subdivide();

    let debug_str = internal.debug_text();
    assert!(debug_str.contains("QuadTreeNode::Internal"));
    assert!(debug_str.contains("bounds"));
}

#[test]
fn quadrant_codes_round_trip() {
    let all = Quadrant::all();
    assert_eq!(all, [Quadrant::SW, Quadrant::SE, Quadrant::NW, Quadrant::NE]);
    assert_eq!(Quadrant::ROOT.to_code(), 0);
    for (i, q) in all.iter().enumerate() {
        assert_eq!(q.to_code(), i as u32 + 1);
        assert_eq!(Quadrant::from_code(q.to_code()), *q);
    }
    assert_eq!(Quadrant::from_code(0), Quadrant::ROOT);
}

#[test]
fn subdivide_splits_odd_sides_at_the_exact_center() {
    let bounds = Rectangle::from_corners(Point2::new(-5, 0), Point2::new(0, 7));
    let mut node = QuadTreeNode::new(bounds, ());
    node.subdivide();
    let half = UNIT / 2;
    let center = Point2::from_steps(-5 * half, 7 * half);
    match node {
        QuadTreeNode::Internal { sw, se, nw, ne, .. } => {
            assert_eq!(sw.bounds(), &Rectangle::from_corners(Point2::new(-5, 0), center));
            assert_eq!(
                se.bounds(),
                &Rectangle::from_corners(
                    Point2::from_steps(center.x, 0),
                    Point2::from_steps(0, center.y)
                )
            );
            assert_eq!(
                nw.bounds(),
                &Rectangle::from_corners(
                    Point2::from_steps(-5 * UNIT, center.y),
                    Point2::from_steps(center.x, 7 * UNIT)
                )
            );
            assert_eq!(ne.bounds(), &Rectangle::from_corners(center, Point2::new(0, 7)));
            for child in [sw, se, nw, ne] {
                assert_eq!(2 * child.bounds().width(), bounds.width());
                assert_eq!(2 * child.bounds().height(), bounds.height());
            }
        }
        _ => panic!("Expected an internal node after subdivision"),
    }
}

#[test]
fn new_subdivided_has_four_leaves_with_the_data() {
    let node = QuadTreeNode::new_subdivided(square(8), 7u8);
    let mut leaves = Vec::new();
    node.gather_leaves(&mut leaves);
    assert_eq!(leaves.len(), 4);
    assert_eq!(leaves[0].bounds(), &Rectangle::new(0, 0, 4, 4));
    assert_eq!(leaves[1].bounds(), &Rectangle::new(4, 0, 8, 4));
    assert_eq!(leaves[2].bounds(), &Rectangle::new(0, 4, 4, 8));
    assert_eq!(leaves[3].bounds(), &Rectangle::new(4, 4, 8, 8));
    for leaf in leaves {
        assert_eq!(leaf.data(), Some(&7));
    }
}

#[test]
fn subdivided_hands_back_the_node() {
    let mut node = QuadTreeNode::new(square(8), 1u8);
    let handed = node.subdivided();
    assert!(matches!(handed, QuadTreeNode::Internal { .. }));
    let mut other = QuadTreeNode::new(square(8), 1u8);
    let handed = other.subdivided_with(|q: Quadrant, _: &Rectangle, d: &u8| *d + q.to_code() as u8);
    match handed {
        QuadTreeNode::Internal { sw, ne, .. } => {
            assert_eq!(sw.data(), Some(&2));
            assert_eq!(ne.data(), Some(&5));
        }
        _ => panic!("Expected an internal node after subdivision"),
    }
}

#[test]
fn with_subdivisions_of_zero_is_a_leaf() {
    let node = QuadTreeNode::with_subdivisions(square(8), 3u8, 0);
    assert_eq!(node, QuadTreeNode::new(square(8), 3u8));
    let node = QuadTreeNode::with_subdivisions(square(8), 3u8, 3);
    assert_eq!(count_leaves(&node), 64);
}

#[test]
fn subdivide_recursive_tiles_the_bounds() {
    // Sides that do not halve evenly at every level.
    let bounds = Rectangle::new(-7, 3, 30, 16);
    for depth in 0..4usize {
        let node = QuadTreeNode::with_subdivisions(bounds, (), depth);
        let mut leaves = Vec::new();
        node.gather_leaves(&mut leaves);
        assert_eq!(leaves.len(), 4usize.pow(depth as u32));
        // Areas in eighths of a unit: no side is shorter after three halvings.
        let eighth = UNIT / 8;
        let mut area: i128 = 0;
        for (i, a) in leaves.iter().enumerate() {
            let a = *a.bounds();
            assert!(bounds.min.x <= a.min.x && a.max.x <= bounds.max.x);
            assert!(bounds.min.y <= a.min.y && a.max.y <= bounds.max.y);
            assert!(a.min.x <= a.max.x && a.min.y <= a.max.y);
            // Every leaf has the size of the bounds divided by two to the depth.
            assert_eq!(a.width() << depth, bounds.width());
            assert_eq!(a.height() << depth, bounds.height());
            area += (a.width() / eighth) * (a.height() / eighth);
            for b in leaves.iter().skip(i + 1) {
                let b = *b.bounds();
                let overlap = a.min.x < b.max.x
                    && b.min.x < a.max.x
                    && a.min.y < b.max.y
                    && b.min.y < a.max.y;
                assert!(!overlap, "{:?} and {:?} overlap", a, b);
            }
        }
        assert_eq!(area, (bounds.width() / eighth) * (bounds.height() / eighth));
    }
}

#[test]
fn subdivide_recursive_with_tells_the_level() {
    let mut root = QuadTreeNode::new(square(16), 0usize);
    root.subdivide_recursive_with(3, |_, level: usize, _: &Rectangle, parent: &usize| {
        assert_eq!(*parent, level);
        level + 1
    });
    let mut it = root.iter();
    let mut count = 0;
    while let Some((bounds, data)) = it.next() {
        assert_eq!(*data, 3);
        assert_eq!(bounds.width(), 2 * UNIT);
        count += 1;
    }
    assert_eq!(count, 64);
}

#[test]
fn insert_refines_until_the_predicate_accepts() {
    // Refine towards the corner at the origin: a leaf is fine enough when it
    // is small or does not touch the origin.
    let mut root = QuadTreeNode::new(square(16), 0u32);
    root.insert(|bounds: &Rectangle, _: &u32| {
        bounds.width() <= 2 * UNIT || !(bounds.min.x == 0 && bounds.min.y == 0)
    });
    let mut widths = Vec::new();
    let mut it = root.iter();
    while let Some((bounds, _)) = it.next() {
        assert_eq!(bounds.width() % UNIT, 0);
        widths.push(bounds.width() / UNIT);
    }
    // Three leaves of each size but the smallest, of which there are four.
    assert_eq!(widths, vec![2, 2, 2, 2, 4, 4, 4, 8, 8, 8]);
}

#[test]
fn insert_with_builds_the_data_of_the_children() {
    let mut root = QuadTreeNode::new(square(8), String::new());
    root.insert_with(
        |bounds: &Rectangle, _: &String| bounds.width() <= 4 * UNIT,
        |q: Quadrant, _: &Rectangle, parent: &String| format!("{}{}", parent, q.to_code()),
    );
    let mut names = Vec::new();
    let mut it = root.iter();
    while let Some((_, data)) = it.next() {
        names.push(data.clone());
    }
    assert_eq!(names, vec!["1", "2", "3", "4"]);

    // An accepted root stays a leaf.
    let mut root = QuadTreeNode::new(square(4), String::new());
    root.insert_with(
        |bounds: &Rectangle, _: &String| bounds.width() <= 4 * UNIT,
        |q: Quadrant, _: &Rectangle, parent: &String| format!("{}{}", parent, q.to_code()),
    );
    assert!(matches!(root, QuadTreeNode::Leaf { .. }));
}

#[test]
fn insert_goes_on_below_internal_nodes() {
    let mut root = QuadTreeNode::new(square(16), ());
    root.subdivide();
    root.insert(|bounds: &Rectangle, _: &()| bounds.width() <= 4 * UNIT);
    assert_eq!(count_leaves(&root), 16);
}

#[test]
fn leaves_come_in_depth_first_order() {
    let mut root = QuadTreeNode::new(square(8), 0u32);
    root.subdivide_with(|q: Quadrant, _: &Rectangle, _: &u32| q.to_code() * 10);
    if let QuadTreeNode::Internal { se, .. } = &mut root {
        se.subdivide_with(|q: Quadrant, _: &Rectangle, d: &u32| *d + q.to_code());
    }
    let mut seen = Vec::new();
    let mut it = root.iter();
    while let Some((_, data)) = it.next() {
        seen.push(*data);
    }
    assert_eq!(seen, vec![10, 21, 22, 23, 24, 30, 40]);
    let mut gathered = Vec::new();
    root.gather_leaves(&mut gathered);
    let gathered: Vec<u32> = gathered.iter().map(|n| *n.data().unwrap()).collect();
    assert_eq!(gathered, seen);
    // A spent traversal stays spent.
    assert!(it.next().is_none());
    assert!(it.next().is_none());
}

#[test]
fn iter_mut_writes_through_to_the_leaves() {
    let mut root = QuadTreeNode::with_subdivisions(square(8), 0usize, 2);
    for (i, (_, data)) in root.iter_mut().into_iter().enumerate() {
        *data = i;
    }
    let mut it = root.iter();
    let mut expected = 0;
    while let Some((_, data)) = it.next() {
        assert_eq!(*data, expected);
        expected += 1;
    }
    assert_eq!(expected, 16);
    assert_eq!(root.iter_mut_with_capacity::<4>().len(), 16);
}

#[test]
fn clone_copies_the_whole_tree() {
    let mut root = QuadTreeNode::new(square(8), 5u8);
    root.subdivide_recursive(2);
    let copy = root.clone();
    assert_eq!(copy, root);
    assert_eq!(count_leaves(&copy), 16);
}

#[test]
fn debug_text_shows_kind_bounds_and_data() {
    let bounds =
        Rectangle::from_corners(Point2::from_steps(-3, 0), Point2::from_steps(10, 8));
    let mut node = QuadTreeNode::new(bounds, 42);
    assert_eq!(
        node.debug_text(),
        "QuadTreeNode::Leaf { bounds: Rectangle { min: Point2 { x: -3, y: 0 }, \
         max: Point2 { x: 10, y: 8 } }, data: 42 }"
    );
    let mut node = QuadTreeNode::new(
        Rectangle::from_corners(Point2::from_steps(-4, 0), Point2::from_steps(10, 8)),
        42,
    );
    node.subdivide();
    assert_eq!(
        node.debug_text(),
        "QuadTreeNode::Internal { bounds: Rectangle { min: Point2 { x: -4, y: 0 }, \
         max: Point2 { x: 10, y: 8 } } }"
    );
    // A unit is two to the power of sixty steps.
    let text = QuadTreeNode::new(Rectangle::new(0, 0, 1, 1), ()).debug_text();
    assert!(text.contains("max: Point2 { x: 1152921504606846976, y: 1152921504606846976 }"));
    let text = QuadTreeNode::new(square(1), "a b").debug_text();
    assert!(text.ends_with(", data: \"a b\" }"));
}

#[test]
fn node_texts_are_put_together_from_their_parts() {
    assert_eq!(
        internal_node_text("everywhere"),
        "QuadTreeNode::Internal { bounds: everywhere }"
    );
    assert_eq!(
        leaf_node_text("here", "this"),
        "QuadTreeNode::Leaf { bounds: here, data: this }"
    );
    assert_eq!(leaf_node_text("", ""), "QuadTreeNode::Leaf { bounds: , data:  }");
}
