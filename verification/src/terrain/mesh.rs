use vstd::arithmetic::power2::{lemma_pow2_adds, lemma_pow2_pos, pow2};
use vstd::prelude::*;

use super::axis::Axis;
use super::cube_tree::{leaf_in_face, sides_along, ChunkData};
use crate::math::rect::{Rectangle, UNIT};

verus! {

/// The largest subdivision count for which every vertex of the grid has an
/// index of 32 bits.
pub const MAX_SUBDIVISIONS: usize = 65533;

/// The largest coordinate of the bounds of a leaf, taken without its sign
/// and in steps, that a grid is built for: the numerators of the samples
/// are then held by 128 bits.
pub const MESH_COORD_LIMIT: i128 = 0x1000_0000_0000_0000_0000_0000_0000;

/// The largest radius, in units, that a grid is built for.
pub const MESH_RADIUS_LIMIT: i64 = 0x1_0000_0000_0000;

/// The bounds lie within the limit that a grid is built for.
pub open spec fn mesh_in_range(bounds: Rectangle) -> bool {
    &&& -MESH_COORD_LIMIT <= bounds.min.x <= MESH_COORD_LIMIT
    &&& -MESH_COORD_LIMIT <= bounds.min.y <= MESH_COORD_LIMIT
    &&& -MESH_COORD_LIMIT <= bounds.max.x <= MESH_COORD_LIMIT
    &&& -MESH_COORD_LIMIT <= bounds.max.y <= MESH_COORD_LIMIT
}

/// One sample of the grid of a leaf, as the numerators of its two
/// face-local coordinates. The denominator is that of the grid.
#[derive(Copy, Clone, Debug, PartialEq, Eq, Structural)]
pub struct GridSample {
    pub x: i128,
    pub y: i128,
}

/// The part of the mesh of one leaf that is exact: where the grid samples
/// the face, and how the samples are joined into triangles. The positions,
/// normals and texture coordinates of the vertices follow from the samples
/// by the warp onto the sphere.
#[derive(Debug)]
pub struct ChunkGrid {
    /// The face that the leaf lies on.
    pub axis: Axis,
    /// The samples, row after row: the sample in column `x` of row `y`
    /// stands at `x + y * (S + 2)`.
    pub samples: Vec<GridSample>,
    /// What the coordinates of the samples are divided by to give
    /// face-local coordinates, which run from minus a half to a half over
    /// the face.
    pub denominator: i128,
    /// Three vertex indices for every triangle, two triangles for every
    /// cell, cell after cell in the order of the samples.
    pub indices: Vec<u32>,
}

/// Builds the grid of a leaf: `SUBDIVISIONS + 2` samples along each side.
#[derive(Copy, Clone, Debug)]
pub struct ChunkMeshBuilder<const SUBDIVISIONS: usize> {
    radius: i64,
    size: i128,
}

/// The numerator of sample `k` of `n + 1` evenly spaced samples from `min`
/// to `max`, over the denominator `n` times the size of the face.
pub open spec fn sample_numerator(min: i128, max: i128, n: int, k: int) -> int {
    min * n + k * (max - min)
}

/// The place of the vertex in column `x` of row `y` in a grid with `v`
/// vertices to the row.
pub open spec fn vertex_index(x: int, y: int, v: int) -> int {
    x + y * v
}

/// The number of the cell in column `x` of row `y` in a grid with `n` cells
/// to the row.
pub open spec fn cell_number(x: int, y: int, n: int) -> int {
    x + y * n
}

/// The two triangles of the cell whose lower left vertex has the index `i`,
/// in a grid with `v` vertices to the row. The diagonal that splits the
/// cell runs from the lower left to the upper right where the cell's
/// coordinates have the same sign, and from the upper left to the lower
/// right where they differ; which of the two triangles comes first depends
/// on which coordinate is negative.
pub open spec fn cell_indices(neg_x: bool, neg_y: bool, i: int, v: int) -> Seq<int> {
    if neg_x == neg_y {
        seq![i, i + v, i + v + 1, i, i + v + 1, i + 1]
    } else if neg_x {
        seq![i, i + v, i + 1, i + 1, i + v, i + v + 1]
    } else {
        seq![i, i + v, i + 1, i + v, i + v + 1, i + 1]
    }
}

/// The sample in column `x` of row `y` of the grid over `bounds` with `n`
/// cells to the side.
pub open spec fn sample_at(bounds: Rectangle, n: int, x: int, y: int) -> GridSample {
    GridSample {
        x: sample_numerator(bounds.min.x, bounds.max.x, n, x) as i128,
        y: sample_numerator(bounds.min.y, bounds.max.y, n, y) as i128,
    }
}

/// The six indices of the cell in column `x` of row `y` of the grid over
/// `bounds` with `n` cells to the side.
pub open spec fn indices_at(bounds: Rectangle, n: int, x: int, y: int) -> Seq<int> {
    cell_indices(
        sample_numerator(bounds.min.x, bounds.max.x, n, x) < 0,
        sample_numerator(bounds.min.y, bounds.max.y, n, y) < 0,
        vertex_index(x, y, n + 1),
        n + 1,
    )
}

/// The samples in `samples` are those of the first `rows` rows and, of the
/// row after them, the first `cols` columns.
pub open spec fn samples_done(
    samples: Seq<GridSample>,
    bounds: Rectangle,
    n: int,
    rows: int,
    cols: int,
) -> bool {
    &&& samples.len() == rows * (n + 1) + cols
    &&& forall|x: int, y: int|
        0 <= x <= n && 0 <= y && (y < rows || (y == rows && x < cols)) ==> samples[#[trigger] vertex_index(
            x,
            y,
            n + 1,
        )] == sample_at(bounds, n, x, y)
}

/// The indices in `indices` are those of the cells of the first `rows` rows
/// and, of the row after them, the first `cols` columns.
pub open spec fn cells_done(indices: Seq<u32>, bounds: Rectangle, n: int, rows: int, cols: int) -> bool {
    &&& indices.len() == 6 * (rows * n + cols)
    &&& forall|x: int, y: int, j: int|
        0 <= x < n && 0 <= y && (y < rows || (y == rows && x < cols)) && 0 <= j < 6
            ==> indices[6 * #[trigger] cell_number(x, y, n) + j] == #[trigger] indices_at(
            bounds,
            n,
            x,
            y,
        )[j]
}

/// The product of a number within `-a..=a` and a number within `0..=b`
/// lies within `-a * b..=a * b`.
proof fn lemma_product_bound(x: int, y: int, a: int, b: int)
    by (nonlinear_arith)
    requires
        -a <= x <= a,
        0 <= y <= b,
    ensures
        -a * b <= x * y <= a * b,
        x * y == y * x,
{
}

fn push_cell(indices: &mut Vec<u32>, neg_x: bool, neg_y: bool, index: u32, vertex_count: u32)
    requires
        index + vertex_count + 1 <= u32::MAX,
    ensures
        final(indices)@.len() == old(indices)@.len() + 6,
        forall|k: int| 0 <= k < old(indices)@.len() ==> final(indices)@[k] == old(indices)@[k],
        forall|j: int|
            0 <= j < 6 ==> final(indices)@[old(indices)@.len() + j] == cell_indices(
                neg_x,
                neg_y,
                index as int,
                vertex_count as int,
            )[j],
{
    match (neg_x, neg_y) {
        (false, false) | (true, true) => {
            // First triangle
            indices.push(index);
            indices.push(index + vertex_count);
            indices.push(index + vertex_count + 1);
            // Second triangle
            indices.push(index);
            indices.push(index + vertex_count + 1);
            indices.push(index + 1);
        },
        (true, false) => {
            // First triangle
            indices.push(index);
            indices.push(index + vertex_count);
            indices.push(index + 1);
            // Second triangle
            indices.push(index + 1);
            indices.push(index + vertex_count);
            indices.push(index + vertex_count + 1);
        },
        (false, true) => {
            // First triangle
            indices.push(index);
            indices.push(index + vertex_count);
            indices.push(index + 1);
            // Second triangle
            indices.push(index + vertex_count);
            indices.push(index + vertex_count + 1);
            indices.push(index + 1);
        },
    }
}

impl<const SUBDIVISIONS: usize> ChunkMeshBuilder<SUBDIVISIONS> {
    #[verifier::type_invariant]
    spec fn size_is_twice_radius(self) -> bool {
        self.size == 2 * self.radius * UNIT
    }

    /// The radius of the body.
    pub closed spec fn spec_radius(self) -> i64 {
        self.radius
    }

    /// The side of a face, in steps: twice the radius.
    pub closed spec fn spec_size(self) -> i128 {
        self.size
    }

    /// A builder for the leaves of a body with this radius.
    pub fn new(radius: i64) -> (builder: Self)
        ensures
            builder.spec_radius() == radius,
            builder.spec_size() == 2 * radius * UNIT,
    {
        ChunkMeshBuilder { radius, size: radius as i128 * 2 * UNIT }
    }

    /// Builds the grid of the leaf with these bounds and this data.
    ///
    /// The bounds and the radius have to lie within the limits that the
    /// numerators are held for.
    ///
    /// The sample in column `x` of row `y` has the face-local coordinates
    /// `min + (max - min) * x / (S + 1)` divided by the side of the face,
    /// and likewise for `y`; it is given by its numerators over the common
    /// denominator `(S + 1)` times the side of the face. Every cell of the
    /// grid is split into two triangles as `cell_indices` says, by the signs
    /// of the coordinates of its lower left sample.
    #[verifier::rlimit(50)]
    pub fn build<P>(&self, bounds: &Rectangle, chunk_data: &ChunkData<P>) -> (grid: ChunkGrid)
        requires
            SUBDIVISIONS <= MAX_SUBDIVISIONS,
            mesh_in_range(*bounds),
            -MESH_RADIUS_LIMIT <= self.spec_radius() <= MESH_RADIUS_LIMIT,
        ensures
            grid.axis == chunk_data.hash@.axis,
            grid.denominator == (SUBDIVISIONS + 1) * self.spec_size(),
            samples_done(grid.samples@, *bounds, SUBDIVISIONS + 1, SUBDIVISIONS + 2, 0),
            cells_done(grid.indices@, *bounds, SUBDIVISIONS + 1, SUBDIVISIONS + 1, 0),
            forall|k: int|
                0 <= k < grid.indices@.len() ==> grid.indices@[k] < grid.samples@.len(),
    {
        let cells: usize = SUBDIVISIONS + 1;
        let vertex_count: usize = SUBDIVISIONS + 2;
        let ghost n = cells as int;
        let ghost v = vertex_count as int;
        assert(v * v <= 65535 * 65535) by (nonlinear_arith)
            requires
                0 <= v <= 65535,
        ;
        let width = bounds.width();
        let height = bounds.height();
        let mut samples: Vec<GridSample> = Vec::new();
        let mut indices: Vec<u32> = Vec::new();
        let mut y: usize = 0;
        let mut row_start: usize = 0;
        while y < vertex_count
            invariant
                cells == SUBDIVISIONS + 1,
                vertex_count == SUBDIVISIONS + 2,
                SUBDIVISIONS <= MAX_SUBDIVISIONS,
                mesh_in_range(*bounds),
                n == cells,
                v == vertex_count,
                v * v <= 65535 * 65535,
                width == bounds.spec_width(),
                height == bounds.spec_height(),
                0 <= y <= vertex_count,
                row_start == y * v,
                samples_done(samples@, *bounds, n, y as int, 0),
                y <= cells ==> cells_done(indices@, *bounds, n, y as int, 0),
                y > cells ==> cells_done(indices@, *bounds, n, n, 0),
                forall|k: int| 0 <= k < indices@.len() ==> indices@[k] < v * v,
            decreases vertex_count - y,
        {
            assert(y * v + v <= v * v) by (nonlinear_arith)
                requires
                    0 <= y < v,
            ;
            proof {
                lemma_product_bound(bounds.min.y as int, n, 0x1000_0000_0000_0000_0000_0000_0000, 65535);
                lemma_product_bound(height as int, y as int, 0x2000_0000_0000_0000_0000_0000_0000, 65535);
                lemma_product_bound(bounds.min.x as int, n, 0x1000_0000_0000_0000_0000_0000_0000, 65535);
            }
            assert(n * n < v * v) by (nonlinear_arith)
                requires
                    v == n + 1,
                    n >= 0,
            ;
            let num_y: i128 = bounds.min.y * cells as i128 + y as i128 * height;
            let mut x: usize = 0;
            while x < vertex_count
                invariant
                    cells == SUBDIVISIONS + 1,
                    vertex_count == SUBDIVISIONS + 2,
                    SUBDIVISIONS <= MAX_SUBDIVISIONS,
                    mesh_in_range(*bounds),
                    n == cells,
                    v == vertex_count,
                    v * v <= 65535 * 65535,
                    n * n < v * v,
                    width == bounds.spec_width(),
                    height == bounds.spec_height(),
                    0 <= y < vertex_count,
                    0 <= x <= vertex_count,
                    row_start == y * v,
                    row_start + v <= v * v,
                    -0x1000_0000_0000_0000_0000_0000_0000 * 65535 <= bounds.min.x * n <= 0x1000_0000_0000_0000_0000_0000_0000
                        * 65535,
                    num_y == sample_numerator(bounds.min.y, bounds.max.y, n, y as int),
                    samples_done(samples@, *bounds, n, y as int, x as int),
                    y < cells && x <= cells ==> cells_done(indices@, *bounds, n, y as int, x as int),
                    y < cells && x > cells ==> cells_done(indices@, *bounds, n, y as int, n),
                    y >= cells ==> cells_done(indices@, *bounds, n, n, 0),
                    forall|k: int| 0 <= k < indices@.len() ==> indices@[k] < v * v,
                decreases vertex_count - x,
            {
                proof {
                    lemma_product_bound(width as int, x as int, 0x2000_0000_0000_0000_0000_0000_0000, 65535);
                }
                let num_x: i128 = bounds.min.x * cells as i128 + x as i128 * width;
                let index: usize = x + row_start;
                let ghost old_samples = samples@;
                samples.push(GridSample { x: num_x, y: num_y });
                proof {
                    assert forall|x2: int, y2: int|
                        0 <= x2 <= n && 0 <= y2 && (y2 < y || (y2 == y && x2 < x + 1)) implies samples@[#[trigger] vertex_index(
                            x2,
                            y2,
                            n + 1,
                        )] == sample_at(*bounds, n, x2, y2) by {
                        if y2 == y && x2 == x {
                        } else {
                            assert(vertex_index(x2, y2, n + 1) < old_samples.len()) by (nonlinear_arith)
                                requires
                                    0 <= x2 <= n,
                                    0 <= y2,
                                    y2 < y || (y2 == y && x2 < x),
                                    old_samples.len() == y * (n + 1) + x,
                                    vertex_index(x2, y2, n + 1) == x2 + y2 * (n + 1),
                            ;
                        }
                    }
                }
                if x < cells && y < cells {
                    let ghost old_indices = indices@;
                    push_cell(&mut indices, num_x < 0, num_y < 0, index as u32, vertex_count as u32);
                    proof {
                        let c = cell_number(x as int, y as int, n);
                        assert(old_indices.len() == 6 * c);
                        assert forall|x2: int, y2: int, j: int|
                            0 <= x2 < n && 0 <= y2 && (y2 < y || (y2 == y && x2 < x + 1)) && 0 <= j
                                < 6 implies indices@[6 * #[trigger] cell_number(x2, y2, n) + j]
                            == #[trigger] indices_at(*bounds, n, x2, y2)[j] by {
                            if y2 == y && x2 == x {
                            } else {
                                assert(cell_number(x2, y2, n) < c) by (nonlinear_arith)
                                    requires
                                        0 <= x2 < n,
                                        0 <= y2,
                                        y2 < y || (y2 == y && x2 < x),
                                        c == x + y * n,
                                        cell_number(x2, y2, n) == x2 + y2 * n,
                                ;
                            }
                        }
                        assert forall|k: int| 0 <= k < indices@.len() implies indices@[k] < v * v by {
                            if k >= old_indices.len() {
                                let j = k - old_indices.len();
                                assert(indices@[old_indices.len() + j] == cell_indices(
                                    num_x < 0,
                                    num_y < 0,
                                    index as int,
                                    v,
                                )[j]);
                                assert(index + v + 1 < v * v) by (nonlinear_arith)
                                    requires
                                        index == x + y * v,
                                        0 <= x < n,
                                        0 <= y < n,
                                        v == n + 1,
                                ;
                            }
                        }
                    }
                }
                x += 1;
            }
            proof {
                if y < cells {
                    assert(cells_done(indices@, *bounds, n, y as int + 1, 0)) by {
                        assert(indices@.len() == 6 * ((y + 1) * n + 0)) by (nonlinear_arith)
                            requires
                                indices@.len() == 6 * (y * n + n),
                        ;
                    }
                    if y + 1 == cells {
                    }
                }
                assert(samples_done(samples@, *bounds, n, y as int + 1, 0)) by {
                    assert(samples@.len() == (y + 1) * (n + 1) + 0) by (nonlinear_arith)
                        requires
                            samples@.len() == y * (n + 1) + (n + 1),
                    ;
                }
                assert((y + 1) * v == y * v + v) by (nonlinear_arith);
            }
            row_start += vertex_count;
            y += 1;
        }
        proof {
            use_type_invariant(self);
            lemma_product_bound(self.size as int, n, 0x2000_0000_0000_0000_0000_0000_0000, 65535);
        }
        let denominator: i128 = cells as i128 * self.size;
        ChunkGrid { axis: chunk_data.hash.axis(), samples, denominator, indices }
    }
}

/// Where the side of a coarser leaf is a whole number of sides of a finer
/// leaf long, and the finer side starts a whole number of its own lengths
/// along the coarser one, every sample of the coarser side that falls on
/// the finer side is a sample of the finer side: the sample `k` that is
/// returned.
pub proof fn lemma_shared_side_samples(
    coarse_min: i128,
    coarse_max: i128,
    fine_min: i128,
    fine_max: i128,
    n: int,
    ratio: int,
    offset: int,
    j: int,
) -> (k: int)
    requires
        n >= 1,
        fine_max - fine_min >= 1,
        coarse_max - coarse_min == ratio * (fine_max - fine_min),
        fine_min - coarse_min == offset * (fine_max - fine_min),
        sample_numerator(fine_min, fine_max, n, 0) <= sample_numerator(
            coarse_min,
            coarse_max,
            n,
            j,
        ) <= sample_numerator(fine_min, fine_max, n, n),
    ensures
        0 <= k <= n,
        sample_numerator(fine_min, fine_max, n, k) == sample_numerator(coarse_min, coarse_max, n, j),
{
    let w = fine_max - fine_min;
    let k = j * ratio - offset * n;
    assert(sample_numerator(coarse_min, coarse_max, n, j) == coarse_min * n + (j * ratio) * w)
        by (nonlinear_arith)
        requires
            sample_numerator(coarse_min, coarse_max, n, j) == coarse_min * n + j * (coarse_max
                - coarse_min),
            coarse_max - coarse_min == ratio * w,
    ;
    assert(sample_numerator(fine_min, fine_max, n, k) == coarse_min * n + (offset * n + k) * w)
        by (nonlinear_arith)
        requires
            sample_numerator(fine_min, fine_max, n, k) == fine_min * n + k * w,
            fine_min - coarse_min == offset * w,
    ;
    assert(sample_numerator(fine_min, fine_max, n, 0) == coarse_min * n + (offset * n) * w)
        by (nonlinear_arith)
        requires
            sample_numerator(fine_min, fine_max, n, 0) == fine_min * n + 0 * w,
            fine_min - coarse_min == offset * w,
    ;
    assert(sample_numerator(fine_min, fine_max, n, n) == coarse_min * n + (offset * n + n) * w)
        by (nonlinear_arith)
        requires
            sample_numerator(fine_min, fine_max, n, n) == fine_min * n + n * w,
            fine_min - coarse_min == offset * w,
    ;
    assert(0 <= k <= n) by (nonlinear_arith)
        requires
            w >= 1,
            (offset * n) * w <= (j * ratio) * w <= (offset * n + n) * w,
            k == j * ratio - offset * n,
    ;
    k
}

/// The first sample of a side stands at its minimum and the last at its
/// maximum.
pub proof fn lemma_end_samples(min: i128, max: i128, n: int)
    ensures
        sample_numerator(min, max, n, 0) == min * n,
        sample_numerator(min, max, n, n) == max * n,
{
    assert(min * n + 0 * (max - min) == min * n && min * n + n * (max - min) == max * n)
        by (nonlinear_arith);
}

/// No seams between leaves of different depths. Let a finer leaf lie to the
/// right of a coarser leaf, its left side on the right side of the coarser
/// one, the coarser side a whole number of finer sides long and the finer
/// side starting a whole number of its own lengths along it. Then every
/// sample on the right side of the coarser grid that falls on the finer
/// leaf is a sample on the left side of the finer grid, so that both
/// meshes have a vertex there.
pub proof fn lemma_seam_samples(
    coarse: Rectangle,
    fine: Rectangle,
    n: int,
    ratio: int,
    offset: int,
    j: int,
) -> (k: int)
    requires
        n >= 1,
        coarse.max.x == fine.min.x,
        fine.spec_height() >= 1,
        coarse.spec_height() == ratio * fine.spec_height(),
        fine.min.y - coarse.min.y == offset * fine.spec_height(),
        sample_numerator(fine.min.y, fine.max.y, n, 0) <= sample_numerator(
            coarse.min.y,
            coarse.max.y,
            n,
            j,
        ) <= sample_numerator(fine.min.y, fine.max.y, n, n),
    ensures
        0 <= k <= n,
        sample_at(fine, n, 0, k) == sample_at(coarse, n, n, j),
{
    let k = lemma_shared_side_samples(
        coarse.min.y,
        coarse.max.y,
        fine.min.y,
        fine.max.y,
        n,
        ratio,
        offset,
        j,
    );
    lemma_end_samples(coarse.min.x, coarse.max.x, n);
    lemma_end_samples(fine.min.x, fine.max.x, n);
    k
}

/// The same with the finer leaf to the left of the coarser one: every
/// sample on the left side of the coarser grid that falls on the finer leaf
/// is a sample on the right side of the finer grid.
pub proof fn lemma_seam_samples_left(
    coarse: Rectangle,
    fine: Rectangle,
    n: int,
    ratio: int,
    offset: int,
    j: int,
) -> (k: int)
    requires
        n >= 1,
        coarse.min.x == fine.max.x,
        fine.spec_height() >= 1,
        coarse.spec_height() == ratio * fine.spec_height(),
        fine.min.y - coarse.min.y == offset * fine.spec_height(),
        sample_numerator(fine.min.y, fine.max.y, n, 0) <= sample_numerator(
            coarse.min.y,
            coarse.max.y,
            n,
            j,
        ) <= sample_numerator(fine.min.y, fine.max.y, n, n),
    ensures
        0 <= k <= n,
        sample_at(fine, n, n, k) == sample_at(coarse, n, 0, j),
{
    let k = lemma_shared_side_samples(
        coarse.min.y,
        coarse.max.y,
        fine.min.y,
        fine.max.y,
        n,
        ratio,
        offset,
        j,
    );
    lemma_end_samples(coarse.min.x, coarse.max.x, n);
    lemma_end_samples(fine.min.x, fine.max.x, n);
    k
}

/// The same with the finer leaf above the coarser one: every sample on the
/// upper side of the coarser grid that falls on the finer leaf is a sample
/// on the lower side of the finer grid.
pub proof fn lemma_seam_samples_above(
    coarse: Rectangle,
    fine: Rectangle,
    n: int,
    ratio: int,
    offset: int,
    j: int,
) -> (k: int)
    requires
        n >= 1,
        coarse.max.y == fine.min.y,
        fine.spec_width() >= 1,
        coarse.spec_width() == ratio * fine.spec_width(),
        fine.min.x - coarse.min.x == offset * fine.spec_width(),
        sample_numerator(fine.min.x, fine.max.x, n, 0) <= sample_numerator(
            coarse.min.x,
            coarse.max.x,
            n,
            j,
        ) <= sample_numerator(fine.min.x, fine.max.x, n, n),
    ensures
        0 <= k <= n,
        sample_at(fine, n, k, 0) == sample_at(coarse, n, j, n),
{
    let k = lemma_shared_side_samples(
        coarse.min.x,
        coarse.max.x,
        fine.min.x,
        fine.max.x,
        n,
        ratio,
        offset,
        j,
    );
    lemma_end_samples(coarse.min.y, coarse.max.y, n);
    lemma_end_samples(fine.min.y, fine.max.y, n);
    k
}

/// The same with the finer leaf below the coarser one: every sample on the
/// lower side of the coarser grid that falls on the finer leaf is a sample
/// on the upper side of the finer grid.
pub proof fn lemma_seam_samples_below(
    coarse: Rectangle,
    fine: Rectangle,
    n: int,
    ratio: int,
    offset: int,
    j: int,
) -> (k: int)
    requires
        n >= 1,
        coarse.min.y == fine.max.y,
        fine.spec_width() >= 1,
        coarse.spec_width() == ratio * fine.spec_width(),
        fine.min.x - coarse.min.x == offset * fine.spec_width(),
        sample_numerator(fine.min.x, fine.max.x, n, 0) <= sample_numerator(
            coarse.min.x,
            coarse.max.x,
            n,
            j,
        ) <= sample_numerator(fine.min.x, fine.max.x, n, n),
    ensures
        0 <= k <= n,
        sample_at(fine, n, k, n) == sample_at(coarse, n, j, 0),
{
    let k = lemma_shared_side_samples(
        coarse.min.x,
        coarse.max.x,
        fine.min.x,
        fine.max.x,
        n,
        ratio,
        offset,
        j,
    );
    lemma_end_samples(coarse.min.y, coarse.max.y, n);
    lemma_end_samples(fine.min.y, fine.max.y, n);
    k
}

/// Two leaves of one refined face fit each other: the side of the leaf that
/// lies no deeper is a whole number of sides of the other long, and the
/// other starts a whole number of its own sides from it, in both
/// directions. Returned are the number of sides and the two distances.
pub proof fn lemma_leaves_commensurate<P>(
    axis: Axis,
    radius: i64,
    coarse: Rectangle,
    coarse_data: ChunkData<P>,
    fine: Rectangle,
    fine_data: ChunkData<P>,
) -> (r: (int, int, int))
    requires
        radius > 0,
        leaf_in_face(axis, radius)(coarse, coarse_data),
        leaf_in_face(axis, radius)(fine, fine_data),
        coarse_data.hash@.depth <= fine_data.hash@.depth,
    ensures
        r.0 >= 1,
        fine.spec_width() >= 1,
        fine.spec_height() >= 1,
        coarse.spec_width() == r.0 * fine.spec_width(),
        coarse.spec_height() == r.0 * fine.spec_height(),
        fine.min.x - coarse.min.x == r.1 * fine.spec_width(),
        fine.min.y - coarse.min.y == r.2 * fine.spec_height(),
{
    let kc = coarse_data.hash@.depth as nat;
    let kf = fine_data.hash@.depth as nat;
    let low = pow2(kc) as int;
    let ratio = pow2((kf - kc) as nat) as int;
    lemma_pow2_adds((kf - kc) as nat, kc);
    lemma_pow2_pos(kc);
    lemma_pow2_pos((kf - kc) as nat);
    lemma_pow2_pos(kf);
    let side = 2 * radius * UNIT;
    let (wc, hc, wf, hf) = (
        coarse.spec_width(),
        coarse.spec_height(),
        fine.spec_width(),
        fine.spec_height(),
    );
    assert(wc == ratio * wf && hc == ratio * hf && wf >= 1 && hf >= 1) by (nonlinear_arith)
        requires
            low > 0,
            ratio > 0,
            side > 0,
            wc * low == side,
            hc * low == side,
            wf * (ratio * low) == side,
            hf * (ratio * low) == side,
    ;
    let ic = choose|i: int| coarse.min.x + radius * UNIT == #[trigger] sides_along(i, wc);
    let jc = choose|j: int| coarse.min.y + radius * UNIT == #[trigger] sides_along(j, hc);
    let i = choose|i: int| fine.min.x + radius * UNIT == #[trigger] sides_along(i, wf);
    let j = choose|j: int| fine.min.y + radius * UNIT == #[trigger] sides_along(j, hf);
    let off_x = i - ic * ratio;
    let off_y = j - jc * ratio;
    assert(fine.min.x - coarse.min.x == off_x * wf) by (nonlinear_arith)
        requires
            coarse.min.x + radius * UNIT == ic * wc,
            fine.min.x + radius * UNIT == i * wf,
            wc == ratio * wf,
            off_x == i - ic * ratio,
    ;
    assert(fine.min.y - coarse.min.y == off_y * hf) by (nonlinear_arith)
        requires
            coarse.min.y + radius * UNIT == jc * hc,
            fine.min.y + radius * UNIT == j * hf,
            hc == ratio * hf,
            off_y == j - jc * ratio,
    ;
    (ratio, off_x, off_y)
}

/// No seams between the leaves that refinement builds. Of two leaves of one
/// refined face, let the deeper one lie to the right of the other, its left
/// side on the right side of the other. Then every sample on the right side
/// of the coarser grid that falls on the finer leaf is a sample on the left
/// side of the finer grid.
pub proof fn lemma_face_seam_right<P>(
    axis: Axis,
    radius: i64,
    coarse: Rectangle,
    coarse_data: ChunkData<P>,
    fine: Rectangle,
    fine_data: ChunkData<P>,
    n: int,
    j: int,
) -> (k: int)
    requires
        radius > 0,
        n >= 1,
        leaf_in_face(axis, radius)(coarse, coarse_data),
        leaf_in_face(axis, radius)(fine, fine_data),
        coarse_data.hash@.depth <= fine_data.hash@.depth,
        coarse.max.x == fine.min.x,
        sample_numerator(fine.min.y, fine.max.y, n, 0) <= sample_numerator(
            coarse.min.y,
            coarse.max.y,
            n,
            j,
        ) <= sample_numerator(fine.min.y, fine.max.y, n, n),
    ensures
        0 <= k <= n,
        sample_at(fine, n, 0, k) == sample_at(coarse, n, n, j),
{
    let r = lemma_leaves_commensurate(axis, radius, coarse, coarse_data, fine, fine_data);
    lemma_seam_samples(coarse, fine, n, r.0, r.2, j)
}

/// The same with the deeper leaf to the left of the other.
pub proof fn lemma_face_seam_left<P>(
    axis: Axis,
    radius: i64,
    coarse: Rectangle,
    coarse_data: ChunkData<P>,
    fine: Rectangle,
    fine_data: ChunkData<P>,
    n: int,
    j: int,
) -> (k: int)
    requires
        radius > 0,
        n >= 1,
        leaf_in_face(axis, radius)(coarse, coarse_data),
        leaf_in_face(axis, radius)(fine, fine_data),
        coarse_data.hash@.depth <= fine_data.hash@.depth,
        coarse.min.x == fine.max.x,
        sample_numerator(fine.min.y, fine.max.y, n, 0) <= sample_numerator(
            coarse.min.y,
            coarse.max.y,
            n,
            j,
        ) <= sample_numerator(fine.min.y, fine.max.y, n, n),
    ensures
        0 <= k <= n,
        sample_at(fine, n, n, k) == sample_at(coarse, n, 0, j),
{
    let r = lemma_leaves_commensurate(axis, radius, coarse, coarse_data, fine, fine_data);
    lemma_seam_samples_left(coarse, fine, n, r.0, r.2, j)
}

/// The same with the deeper leaf above the other.
pub proof fn lemma_face_seam_above<P>(
    axis: Axis,
    radius: i64,
    coarse: Rectangle,
    coarse_data: ChunkData<P>,
    fine: Rectangle,
    fine_data: ChunkData<P>,
    n: int,
    j: int,
) -> (k: int)
    requires
        radius > 0,
        n >= 1,
        leaf_in_face(axis, radius)(coarse, coarse_data),
        leaf_in_face(axis, radius)(fine, fine_data),
        coarse_data.hash@.depth <= fine_data.hash@.depth,
        coarse.max.y == fine.min.y,
        sample_numerator(fine.min.x, fine.max.x, n, 0) <= sample_numerator(
            coarse.min.x,
            coarse.max.x,
            n,
            j,
        ) <= sample_numerator(fine.min.x, fine.max.x, n, n),
    ensures
        0 <= k <= n,
        sample_at(fine, n, k, 0) == sample_at(coarse, n, j, n),
{
    let r = lemma_leaves_commensurate(axis, radius, coarse, coarse_data, fine, fine_data);
    lemma_seam_samples_above(coarse, fine, n, r.0, r.1, j)
}

/// The same with the deeper leaf below the other.
pub proof fn lemma_face_seam_below<P>(
    axis: Axis,
    radius: i64,
    coarse: Rectangle,
    coarse_data: ChunkData<P>,
    fine: Rectangle,
    fine_data: ChunkData<P>,
    n: int,
    j: int,
) -> (k: int)
    requires
        radius > 0,
        n >= 1,
        leaf_in_face(axis, radius)(coarse, coarse_data),
        leaf_in_face(axis, radius)(fine, fine_data),
        coarse_data.hash@.depth <= fine_data.hash@.depth,
        coarse.min.y == fine.max.y,
        sample_numerator(fine.min.x, fine.max.x, n, 0) <= sample_numerator(
            coarse.min.x,
            coarse.max.x,
            n,
            j,
        ) <= sample_numerator(fine.min.x, fine.max.x, n, n),
    ensures
        0 <= k <= n,
        sample_at(fine, n, k, n) == sample_at(coarse, n, j, 0),
{
    let r = lemma_leaves_commensurate(axis, radius, coarse, coarse_data, fine, fine_data);
    lemma_seam_samples_below(coarse, fine, n, r.0, r.1, j)
}

} // verus!
