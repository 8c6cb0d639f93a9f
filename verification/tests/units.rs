use procedural_planet::math::rect::{Extent2, Point2, Rectangle, UNIT};
use procedural_planet::physics::helpers::{
    apply_locked_axes, apply_locked_axes_to_angular_inertia, Columns, LockedAxes, Triple,
};
use procedural_planet::player::controller::{ActionFlowStatus, ControllerHasNoBasis, Grounded};
use procedural_planet::state::GameState;
use procedural_planet::terrain::axis::Axis;

#[test]
fn rectangle_from_corners_orders_the_corners() {
    let r = Rectangle::from_corners(Point2::new(5, -1), Point2::new(2, 3));
    assert_eq!(r.min, Point2::new(2, -1));
    assert_eq!(r.max, Point2::new(5, 3));
    assert_eq!(r, Rectangle::new(2, 3, 5, -1));
    assert_eq!(r.width(), 3 * UNIT);
    assert_eq!(r.height(), 4 * UNIT);
    assert_eq!(r.size(), Extent2 { x: 3 * UNIT, y: 4 * UNIT });
    assert_eq!(r.half_size(), Extent2 { x: 3 * UNIT / 2, y: 2 * UNIT });
    assert_eq!(Point2::new(2, -1), Point2::from_steps(2 * UNIT, -UNIT));
    assert_eq!(Point2::splat(7), Point2::new(7, 7));
}

#[test]
fn rectangle_center_is_the_exact_midpoint() {
    let half = UNIT / 2;
    assert_eq!(Rectangle::new(0, 0, 5, 1).center(), Point2::from_steps(5 * half, half));
    assert_eq!(Rectangle::new(-5, -1, 0, 0).center(), Point2::from_steps(-5 * half, -half));
    assert_eq!(Rectangle::new(-3, -3, 3, 3).center(), Point2::new(0, 0));
    let wide = Rectangle::new(i64::MIN, i64::MIN, i64::MAX, i64::MAX);
    assert_eq!(wide.center(), Point2::from_steps(-half, -half));
    assert_eq!(wide.width(), u64::MAX as i128 * UNIT);
    // Only a side of an odd number of steps is rounded, downwards.
    let odd = Rectangle::from_corners(Point2::from_steps(-5, 0), Point2::from_steps(0, 7));
    assert_eq!(odd.center(), Point2::from_steps(-3, 3));
}

#[test]
fn rectangle_from_center() {
    let r = Rectangle::from_center_half_size(Point2::new(0, 0), Point2::splat(200));
    assert_eq!(r, Rectangle::new(-200, -200, 200, 200));
    let r = Rectangle::from_center_size(Point2::new(10, 20), Point2::new(5, 8));
    assert_eq!(
        r,
        Rectangle::from_corners(
            Point2::from_steps(15 * UNIT / 2, 16 * UNIT),
            Point2::from_steps(25 * UNIT / 2, 24 * UNIT)
        )
    );
}

#[test]
fn rectangle_is_empty_and_contains() {
    assert!(Rectangle::new(0, 0, 0, 1).is_empty());
    assert!(Rectangle::empty().is_empty());
    let r = Rectangle::new(0, 0, 5, 1);
    assert!(!r.is_empty());
    assert!(r.contains(r.center()));
    assert!(r.contains(r.min));
    assert!(r.contains(r.max));
    assert!(!r.contains(Point2::new(6, 0)));
    assert!(!r.contains(Point2::new(3, -1)));
}

#[test]
fn rectangle_union_intersect_inflate() {
    let r1 = Rectangle::new(0, 0, 5, 1);
    let r2 = Rectangle::new(1, -1, 3, 3);
    assert_eq!(r1.union(r2), Rectangle::new(0, -1, 5, 3));
    assert_eq!(Rectangle::empty().union(r1), r1);
    assert_eq!(r1.union_point(Point2::new(3, 6)), Rectangle::new(0, 0, 5, 6));
    assert_eq!(r1.union_point(Point2::new(3, 1)), r1);
    assert_eq!(r1.intersect(r2), Rectangle::new(1, 0, 3, 1));
    // Rectangles that do not meet give a rectangle without width.
    let apart = r1.intersect(Rectangle::new(7, 0, 9, 1));
    assert_eq!(apart.width(), 0);
    assert!(apart.is_empty());
    assert_eq!(r1.inflate(3 * UNIT), Rectangle::new(-3, -3, 8, 4));
    assert_eq!(Rectangle::new(0, -1, 6, 7).inflate(-2 * UNIT), Rectangle::new(2, 1, 4, 5));
    let collapsed = r1.inflate(-3 * UNIT);
    assert_eq!(collapsed.min, collapsed.max);
}

#[test]
fn axis_codes_and_normals() {
    let all = Axis::all();
    let normals: [[i8; 3]; 6] = [
        [1, 0, 0],
        [0, 1, 0],
        [0, 0, 1],
        [-1, 0, 0],
        [0, -1, 0],
        [0, 0, -1],
    ];
    for (i, axis) in all.iter().enumerate() {
        assert_eq!(axis.to_code(), i as u32);
        assert_eq!(axis.index(), i);
        assert_eq!(Axis::from_code(i as u32), *axis);
        assert_eq!(axis.to_array(), normals[i]);
    }
}

#[test]
fn axis_frames_are_right_angled() {
    let cross = |a: [i8; 3], b: [i8; 3]| {
        [
            a[1] * b[2] - a[2] * b[1],
            a[2] * b[0] - a[0] * b[2],
            a[0] * b[1] - a[1] * b[0],
        ]
    };
    for axis in Axis::all() {
        let (normal, local_x, local_y) = axis.frame();
        assert_eq!(normal, axis.to_array());
        assert_eq!(local_y, [normal[1], normal[2], normal[0]]);
        assert_eq!(local_x, cross(normal, local_y));
    }
    assert_eq!(Axis::X.frame(), ([1, 0, 0], [0, -1, 0], [0, 0, 1]));
    assert_eq!(Axis::NegY.frame(), ([0, -1, 0], [0, 0, -1], [-1, 0, 0]));
}

#[test]
fn locked_axes_zero_the_locked_components() {
    let v = Triple { x: 1.5, y: -2.0, z: 3.25 };
    let free = apply_locked_axes(v, 0.0, LockedAxes::new());
    assert_eq!((free.x, free.y, free.z), (1.5, -2.0, 3.25));
    let x_locked = apply_locked_axes(v, 0.0, LockedAxes::from_bits(0b000_100));
    assert_eq!((x_locked.x, x_locked.y, x_locked.z), (0.0, -2.0, 3.25));
    let yz_locked = apply_locked_axes(v, 0.0, LockedAxes::from_bits(0b000_011));
    assert_eq!((yz_locked.x, yz_locked.y, yz_locked.z), (1.5, 0.0, 0.0));
    // Translation locks do not count.
    let translation = apply_locked_axes(v, 0.0, LockedAxes::from_bits(0b111_000));
    assert_eq!((translation.x, translation.y, translation.z), (1.5, -2.0, 3.25));
    assert_eq!(LockedAxes::from_bits(0b101_010).to_bits(), 0b101_010);
    assert!(LockedAxes::from_bits(0b000_010).is_rotation_y_locked());
    assert!(!LockedAxes::from_bits(0b000_010).is_rotation_x_locked());
    assert!(!LockedAxes::from_bits(0b000_010).is_rotation_z_locked());
}

#[test]
fn locked_axes_zero_the_locked_columns() {
    let tensor = Columns {
        x_axis: Triple { x: 1, y: 2, z: 3 },
        y_axis: Triple { x: 4, y: 5, z: 6 },
        z_axis: Triple { x: 7, y: 8, z: 9 },
    };
    let out = apply_locked_axes_to_angular_inertia(tensor, 0, LockedAxes::from_bits(0b000_101));
    assert_eq!((out.x_axis.x, out.x_axis.y, out.x_axis.z), (0, 0, 0));
    assert_eq!((out.y_axis.x, out.y_axis.y, out.y_axis.z), (4, 5, 6));
    assert_eq!((out.z_axis.x, out.z_axis.y, out.z_axis.z), (0, 0, 0));
    let out = apply_locked_axes_to_angular_inertia(tensor, 0, LockedAxes::new());
    assert_eq!((out.x_axis.x, out.y_axis.y, out.z_axis.z), (1, 5, 9));
}

#[test]
fn action_flow_status_names() {
    assert_eq!(ActionFlowStatus::NoAction.ongoing(), None);
    assert_eq!(ActionFlowStatus::ActionEnded("jump").ongoing(), None);
    assert_eq!(ActionFlowStatus::ActionStarted("jump").ongoing(), Some("jump"));
    assert_eq!(ActionFlowStatus::ActionOngoing("jump").ongoing(), Some("jump"));
    let cancelled = ActionFlowStatus::Cancelled { old: "jump", new: "dash" };
    assert_eq!(cancelled.ongoing(), Some("dash"));

    assert_eq!(ActionFlowStatus::NoAction.just_starting(), None);
    assert_eq!(ActionFlowStatus::ActionOngoing("jump").just_starting(), None);
    assert_eq!(ActionFlowStatus::ActionEnded("jump").just_starting(), None);
    assert_eq!(ActionFlowStatus::ActionStarted("jump").just_starting(), Some("jump"));
    assert_eq!(cancelled.just_starting(), Some("dash"));
    assert!(matches!(ActionFlowStatus::default(), ActionFlowStatus::NoAction));
}

#[test]
fn defaults_and_messages() {
    assert_eq!(GameState::default(), GameState::Loading);
    assert_ne!(GameState::default(), GameState::Running);
    assert_eq!(
        ControllerHasNoBasis.message(),
        "The  controller does not have any basis set"
    );
    assert_eq!(Grounded::default(), Grounded);
}
