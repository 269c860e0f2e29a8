use crate::complex::{Complex, FixError, FixResult};
use crate::fix::fix2x61::{Fix2x61, ONE_RAW};
use crate::fix::fix4x123::NARROWING;
use crate::point::{Point, PointState};
use crate::zoom_path::Quad;
use itertools::Itertools;
use rayon::iter::{IntoParallelRefMutIterator, ParallelIterator};
use vstd::arithmetic::div_mod::{lemma_fundamental_div_mod, lemma_fundamental_div_mod_converse};
use vstd::arithmetic::power2::{
    lemma2_to64, lemma2_to64_rest, lemma_pow2_adds, lemma_pow2_pos, lemma_pow2_strictly_increases,
    pow2,
};
use vstd::prelude::*;

verus! {

/// Why a grid could not be laid out.
#[derive(Debug)]
pub enum GridError {
    /// A corner or the centre of the sampled square is not representable; the
    /// error is the one of the failing fixed-point operation.
    Geometry(FixError),
    /// The imaginary coordinate of the given row is not representable.
    Row { index: usize },
    /// The real coordinate of the given column is not representable.
    Column { index: usize },
}

impl Clone for GridError {
    fn clone(&self) -> (e: GridError)
        ensures
            e == *self,
    {
        match self {
            GridError::Geometry(e) => GridError::Geometry(e.clone()),
            GridError::Row { index } => GridError::Row { index: *index },
            GridError::Column { index } => GridError::Column { index: *index },
        }
    }
}

/// A square raster of sampled points over a square region of the plane.
pub struct Grid {
    points: Vec<Point>,
    power_size: usize,
    centre: Complex,
    radius: Fix2x61,
}

/// The mathematical state of a grid: its cells in row-major order, the power
/// of two that its side is, and the centre and radius of the region.
pub struct GridState {
    pub points: Seq<PointState>,
    pub power: nat,
    pub centre: Complex,
    pub radius: Fix2x61,
}

/// What a grid has come to: the greatest depth at which a cell escaped, and
/// how many cells are candidates and how many are not.
pub struct Summary {
    pub maximum_escaped_iterations: u64,
    pub candidates: usize,
    pub not_candidates: usize,
}

/// The states of a vector of points.
pub open spec fn states(points: Seq<Point>) -> Seq<PointState> {
    Seq::new(points.len(), |i: int| points[i]@)
}

impl View for Grid {
    type V = GridState;

    closed spec fn view(&self) -> GridState {
        GridState {
            points: states(self.points@),
            power: self.power_size as nat,
            centre: self.centre,
            radius: self.radius,
        }
    }
}

// Laying out a grid: where the samples lie, and what can go wrong.

/// Half the distance between neighbouring samples, as a scaled integer: the
/// radius divided by the side of the grid, rounded down.
pub open spec fn half_step(radius: Fix2x61, power: nat) -> int {
    radius@ / (pow2(power) as int)
}

/// The coordinate of the first sample along an axis: the cell centre nearest
/// to the low edge of the region.
pub open spec fn first_sample(centre: Fix2x61, radius: Fix2x61, power: nat) -> int {
    centre@ - radius@ + half_step(radius, power)
}

/// The coordinate of sample number `k` along an axis: the samples start at
/// `first` and lie `step` apart.
pub open spec fn sample(first: int, step: int, k: int) -> int {
    first + k * step
}

/// The least index below `n` whose sample coordinate is not representable.
pub open spec fn first_unrepresentable(first: int, step: int, n: nat) -> Option<nat>
    decreases n,
{
    if n == 0 {
        None
    } else {
        match first_unrepresentable(first, step, (n - 1) as nat) {
            Some(k) => Some(k),
            None => if Fix2x61::representable(sample(first, step, n - 1)) {
                None
            } else {
                Some((n - 1) as nat)
            },
        }
    }
}

/// Whether cell `index` of a grid of the given side lies in the first or
/// last row or column.
pub open spec fn on_border(index: int, side: int) -> bool {
    index % side == 0 || index % side == side - 1 || index / side == 0 || index / side == side - 1
}

impl GridState {
    /// The number of cells along one side.
    pub open spec fn side(self) -> nat {
        pow2(self.power)
    }

    /// The side is a power of two of at least four, the number of cells fits
    /// a machine word, and there is one state for each cell.
    pub open spec fn wf(self) -> bool {
        &&& 2 <= self.power
        &&& 2 * self.power < usize::BITS
        &&& self.points.len() == self.side() * self.side()
    }

    /// Whether every cell lies on the orbit of its location: the counters
    /// and escape flags are those that stepping from the sampled locations
    /// leads to.
    pub open spec fn on_orbit(self) -> bool {
        forall|j: int| 0 <= j < self.points.len() ==> (#[trigger] self.points[j]).on_orbit()
    }

    /// Why the region cannot be sampled, if it cannot. The low corner is
    /// computed first, the real part before the imaginary one; then the
    /// columns' coordinates from left to right, and then the rows'
    /// coordinates from top to bottom.
    pub open spec fn layout_error(power: nat, centre: Complex, radius: Fix2x61) -> Option<
        GridError,
    > {
        let step = 2 * half_step(radius, power);
        if !Fix2x61::representable(centre.r@ - radius@) || !Fix2x61::representable(
            centre.i@ - radius@,
        ) {
            Some(GridError::Geometry(FixError::Overflow { op: "Fix2x61::sub" }))
        } else {
            match first_unrepresentable(
                first_sample(centre.r, radius, power),
                step,
                pow2(power),
            ) {
                Some(k) => Some(GridError::Column { index: k as usize }),
                None => match first_unrepresentable(
                    first_sample(centre.i, radius, power),
                    step,
                    pow2(power),
                ) {
                    Some(k) => Some(GridError::Row { index: k as usize }),
                    None => None,
                },
            }
        }
    }

    /// The state of cell `index` of a freshly sampled grid: the centre of
    /// the cell, not yet iterated, and no candidate.
    pub open spec fn sampled_cell(
        power: nat,
        centre: Complex,
        radius: Fix2x61,
        index: int,
    ) -> PointState {
        let side = pow2(power) as int;
        let step = 2 * half_step(radius, power);
        PointState::fresh(
            Complex {
                r: Fix2x61::of(sample(first_sample(centre.r, radius, power), step, index % side)),
                i: Fix2x61::of(sample(first_sample(centre.i, radius, power), step, index / side)),
            },
        )
    }

    /// The cells of a freshly sampled grid, none of them a candidate.
    pub open spec fn sampled(power: nat, centre: Complex, radius: Fix2x61) -> Seq<PointState> {
        Seq::new(
            pow2(power) * pow2(power),
            |index: int| Self::sampled_cell(power, centre, radius, index),
        )
    }

    /// The cells with every border cell made a candidate.
    pub open spec fn with_border(points: Seq<PointState>, side: int) -> Seq<PointState> {
        Seq::new(
            points.len(),
            |index: int|
                if on_border(index, side) {
                    points[index].marked()
                } else {
                    points[index]
                },
        )
    }

    /// The grid that `create` lays out: the sampled cells, with the border
    /// cells as the first candidates.
    pub open spec fn created(power: nat, centre: Complex, radius: Fix2x61) -> GridState {
        GridState {
            points: Self::with_border(Self::sampled(power, centre, radius), pow2(power) as int),
            power,
            centre,
            radius,
        }
    }
}

impl Grid {
    /// Lays out a grid of side `2^power_size` over the square with the given
    /// centre and radius, samples the centre of each cell, and makes the
    /// border cells candidates.
    pub fn create(power_size: usize, centre: Complex, radius: Fix2x61) -> (res: Result<
        Grid,
        GridError,
    >)
        requires
            2 <= power_size,
            2 * power_size < usize::BITS,
        ensures
            match res {
                Ok(grid) => GridState::layout_error(power_size as nat, centre, radius) is None
                    && grid@ == GridState::created(power_size as nat, centre, radius)
                    && grid@.wf() && grid@.on_orbit(),
                Err(e) => GridState::layout_error(power_size as nat, centre, radius) == Some(e),
            },
    {
        let mut points = match Grid::generate_points(power_size, centre, radius) {
            Ok(points) => points,
            Err(e) => {
                return Err(e);
            },
        };
        let ghost sampled = states(points@);

        proof {
            lemma_side(power_size as nat);
            vstd::bits::lemma_usize_shl_is_mul(1, power_size);
        }
        let size: usize = 1usize << power_size;
        let cells: usize = points.len();
        let mut i: usize = 0;
        while i < cells
            invariant
                i <= cells,
                cells == points.len(),
                cells == size * size,
                size >= 4,
                sampled.len() == cells,
                forall|j: int|
                    0 <= j < cells ==> (#[trigger] points@[j])@ == if j < i && on_border(
                        j,
                        size as int,
                    ) {
                        sampled[j].marked()
                    } else {
                        sampled[j]
                    },
            decreases cells - i,
        {
            if i % size == 0 || i % size == size - 1 || i / size == 0 || i / size == size - 1 {
                points[i].mark_candidate();
            }
            i += 1;
        }

        let grid = Grid { points, power_size, centre, radius };
        proof {
            assert(grid@.points =~= GridState::created(power_size as nat, centre, radius).points);
            lemma_created_on_orbit(power_size as nat, centre, radius);
        }
        Ok(grid)
    }

    /// Samples the centre of each cell of the square, row by row.
    fn generate_points(power_size: usize, centre: Complex, radius: Fix2x61) -> (res: Result<
        Vec<Point>,
        GridError,
    >)
        requires
            2 <= power_size,
            2 * power_size < usize::BITS,
        ensures
            match res {
                Ok(points) => GridState::layout_error(power_size as nat, centre, radius) is None
                    && states(points@) == GridState::sampled(power_size as nat, centre, radius)
                    && points.len() == pow2(power_size as nat) * pow2(power_size as nat),
                Err(e) => GridState::layout_error(power_size as nat, centre, radius) == Some(e),
            },
    {
        let ghost power = power_size as nat;
        proof {
            lemma_side(power);
            vstd::bits::lemma_usize_shl_is_mul(1, power_size);
            use_type_invariant(&radius);
            use_type_invariant(&centre.r);
            use_type_invariant(&centre.i);
        }
        let size: usize = 1usize << power_size;
        let mut points: Vec<Point> = Vec::with_capacity(size * size);

        // d is half the distance between the points we'll sample.
        // Imagine our square area is made up of size ^ 2 smaller squares.  Our aim is to iterate
        // the middle of each of these smaller squares.
        let scale = match Fix2x61::power_of_two(-(power_size as i8)) {
            Ok(s) => s,
            Err(e) => {
                return Err(GridError::Geometry(e));
            },
        };
        proof {
            lemma_scaled_down(radius@, power);
            lemma_half_step_small(radius@, power);
            lemma_half_step_between(radius@, power);
        }
        let d = match (radius * scale).truncate() {
            Ok(d) => d,
            Err(e) => {
                return Err(GridError::Geometry(e));
            },
        };
        proof {
            lemma_fundamental_div_mod_converse(
                (2 * d@) * (NARROWING as int),
                NARROWING as int,
                2 * d@,
                0,
            );
        }
        let d2 = match (Fix2x61::two() * d).truncate() {
            Ok(d2) => d2,
            Err(e) => {
                return Err(GridError::Geometry(e));
            },
        };
        let low_r = match centre.r - radius {
            Ok(v) => v,
            Err(e) => {
                return Err(GridError::Geometry(e));
            },
        };
        let r_start = match low_r + d {
            Ok(v) => v,
            Err(e) => {
                return Err(GridError::Geometry(e));
            },
        };
        let low_i = match centre.i - radius {
            Ok(v) => v,
            Err(e) => {
                return Err(GridError::Geometry(e));
            },
        };
        let ghost step = d2@;
        let ghost first_re = r_start@;
        let ghost first_im = first_sample(centre.i, radius, power);
        let mut i: FixResult<Fix2x61> = low_i + d;
        let mut each_i: usize = 0;
        while each_i < size
            invariant
                each_i <= size,
                4 <= size,
                size == pow2(power),
                power == power_size as nat,
                size * size <= usize::MAX,
                step == d2@,
                step == 2 * half_step(radius, power),
                first_re == r_start@,
                first_re == first_sample(centre.r, radius, power),
                first_im == first_sample(centre.i, radius, power),
                Fix2x61::representable(first_re),
                Fix2x61::representable(centre.r@ - radius@),
                Fix2x61::representable(centre.i@ - radius@),
                Fix2x61::representable(first_im),
                first_unrepresentable(first_im, step, each_i as nat) is None,
                each_i > 0 ==> first_unrepresentable(first_re, step, size as nat) is None,
                match i {
                    Ok(v) => v@ == first_im + each_i * step,
                    Err(_) => !Fix2x61::representable(first_im + each_i * step),
                },
                points.len() == each_i * size,
                forall|j: int|
                    0 <= j < points.len() ==> (#[trigger] points@[j])@ == GridState::sampled_cell(
                        power,
                        centre,
                        radius,
                        j,
                    ),
            decreases size - each_i,
        {
            let i_ = match i {
                Ok(v) => v,
                Err(_) => {
                    proof {
                        lemma_first_unrepresentable_found(
                            first_im,
                            step,
                            each_i as nat,
                            size as nat,
                        );
                    }
                    return Err(GridError::Row { index: each_i });
                },
            };
            let mut r: FixResult<Fix2x61> = Ok(r_start);
            let mut each_r: usize = 0;
            while each_r < size
                invariant
                    each_r <= size,
                    each_i < size,
                    4 <= size,
                    size == pow2(power),
                    power == power_size as nat,
                    size * size <= usize::MAX,
                    step == d2@,
                    step == 2 * half_step(radius, power),
                    first_re == first_sample(centre.r, radius, power),
                    first_im == first_sample(centre.i, radius, power),
                    i_@ == first_im + each_i * step,
                    Fix2x61::representable(first_re),
                    Fix2x61::representable(centre.r@ - radius@),
                    Fix2x61::representable(centre.i@ - radius@),
                    first_unrepresentable(first_re, step, each_r as nat) is None,
                    each_i > 0 ==> first_unrepresentable(first_re, step, size as nat) is None,
                    match r {
                        Ok(v) => v@ == first_re + each_r * step,
                        Err(_) => !Fix2x61::representable(first_re + each_r * step),
                    },
                    points.len() == each_i * size + each_r,
                    forall|j: int|
                        0 <= j < points.len() ==> (#[trigger] points@[j])@
                            == GridState::sampled_cell(power, centre, radius, j),
                decreases size - each_r,
            {
                let r_ = match r {
                    Ok(v) => v,
                    Err(_) => {
                        proof {
                            lemma_first_unrepresentable_found(
                                first_re,
                                step,
                                each_r as nat,
                                size as nat,
                            );
                        }
                        return Err(GridError::Column { index: each_r });
                    },
                };
                let point = Point::from_parts(&r_, &i_);
                proof {
                    use_type_invariant(&r_);
                    lemma_row_col(each_i as int, each_r as int, size as int);
                    Fix2x61::lemma_view(r_);
                    Fix2x61::lemma_view(i_);
                    assert((each_r + 1) * step == each_r * step + step) by (nonlinear_arith);
                }
                points.push(point);
                r = r_ + d2;
                each_r += 1;
            }
            proof {
                use_type_invariant(&i_);
                lemma_cell_index(each_i as int, 0, size as int);
                assert((each_i + 1) * step == each_i * step + step) by (nonlinear_arith);
            }
            i = i_ + d2;
            each_i += 1;
        }
        Ok(points)
    }

    /// The cell with the given index, in row-major order.
    pub fn point(&self, index: usize) -> (p: &Point)
        requires
            index < self@.points.len(),
        ensures
            p@ == self@.points[index as int],
    {
        &self.points[index]
    }

    /// The centre of the region.
    pub fn centre(&self) -> (c: &Complex)
        ensures
            *c == self@.centre,
    {
        &self.centre
    }

    /// The radius of the region: half its width.
    pub fn radius(&self) -> (r: &Fix2x61)
        ensures
            *r == self@.radius,
    {
        &self.radius
    }

    pub fn size(&self) -> (side: u32)
        requires
            self@.wf(),
        ensures
            side == self@.side(),
            4 <= side,
            side * side == self@.points.len(),
            16 <= self@.points.len(),
    {
        proof {
            lemma_side(self.power_size as nat);
            vstd::bits::lemma_u32_shl_is_mul(1, self.power_size as u32);
        }
        1u32 << (self.power_size as u32)
    }
}

/// In a grid that was just laid out every cell lies on the orbit of its location.
pub proof fn lemma_created_on_orbit(power: nat, centre: Complex, radius: Fix2x61)
    ensures
        GridState::created(power, centre, radius).on_orbit(),
{
    let grid = GridState::created(power, centre, radius);
    assert forall|j: int| 0 <= j < grid.points.len() implies (
    #[trigger] grid.points[j]).on_orbit() by {
        let cell = GridState::sampled_cell(power, centre, radius, j);
        cell.lemma_on_orbit(0);
    }
}

/// What the search for an unrepresentable sample says: it finds nothing
/// below `n` exactly if every sample below `n` is representable, and what it
/// finds is the least index of a sample that is not.
pub proof fn lemma_first_unrepresentable(first: int, step: int, n: nat)
    ensures
        first_unrepresentable(first, step, n) is None <==> forall|k: int|
            0 <= k < n ==> Fix2x61::representable(#[trigger] sample(first, step, k)),
        first_unrepresentable(first, step, n) matches Some(k) ==> k < n && !Fix2x61::representable(
            sample(first, step, k as int),
        ) && forall|j: int|
            0 <= j < k ==> Fix2x61::representable(#[trigger] sample(first, step, j)),
    decreases n,
{
    if n > 0 {
        lemma_first_unrepresentable(first, step, (n - 1) as nat);
    }
}

/// Where the search has found nothing below `k` and sample `k` is not
/// representable, the first unrepresentable sample below any `n > k` is `k`.
proof fn lemma_first_unrepresentable_found(first: int, step: int, k: nat, n: nat)
    requires
        k < n,
        first_unrepresentable(first, step, k) is None,
        !Fix2x61::representable(first + k * step),
    ensures
        first_unrepresentable(first, step, n) == Some(k),
    decreases n,
{
    if n > k + 1 {
        lemma_first_unrepresentable_found(first, step, k, (n - 1) as nat);
    }
}

/// Scaling by `2^-k` and narrowing divides the scaled integer by `2^k`.
proof fn lemma_scaled_down(a: int, k: nat)
    requires
        k <= 61,
    ensures
        (2 * (a * pow2((61 - k) as nat))) / (NARROWING as int) == a / (pow2(k) as int),
{
    let m = pow2((62 - k) as nat) as int;
    let n = pow2(k) as int;
    lemma_pow2_adds((62 - k) as nat, k);
    lemma2_to64();
    lemma2_to64_rest();
    let q = a / n;
    let r = a % n;
    lemma_fundamental_div_mod(a, n);
    assert(2 * (a * pow2((61 - k) as nat)) == q * (m * n) + m * r && 0 <= m * r < m * n)
        by (nonlinear_arith)
        requires
            a == n * q + r,
            0 <= r < n,
            0 < m,
            2 * pow2((61 - k) as nat) == m,
    ;
}

/// The side of a grid whose cells can be counted in a machine word: it is at
/// least four, and its square fits the word.
proof fn lemma_side(power: nat)
    requires
        2 <= power,
        2 * power < usize::BITS,
    ensures
        4 <= pow2(power),
        pow2(power) * pow2(power) == pow2(2 * power),
        pow2(power) * pow2(power) <= usize::MAX,
        pow2(power) <= 0x8000_0000,
        power <= 31,
        16 <= pow2(power) * pow2(power),
{
    lemma2_to64();
    lemma_pow2_adds(power, power);
    vstd::bits::lemma_usize_pow2_no_overflow(2 * power);
    assert(16 <= pow2(power) * pow2(power)) by (nonlinear_arith)
        requires
            4 <= pow2(power),
    ;
}

/// The half step lies between zero and the radius.
proof fn lemma_half_step_between(a: int, power: nat)
    ensures
        a >= 0 ==> 0 <= a / (pow2(power) as int) <= a,
        a < 0 ==> a <= a / (pow2(power) as int) < 0,
{
    lemma_pow2_pos(power);
    let n = pow2(power) as int;
    lemma_fundamental_div_mod(a, n);
    let q = a / n;
    assert((a >= 0 ==> 0 <= q <= a) && (a < 0 ==> a <= q < 0)) by (nonlinear_arith)
        requires
            a == n * q + a % n,
            0 <= a % n < n,
            1 <= n,
    ;
}

/// The half step is small: a radius below four divided by a side of at
/// least four stays below one.
proof fn lemma_half_step_small(a: int, power: nat)
    requires
        Fix2x61::representable(a),
        2 <= power,
    ensures
        -ONE_RAW <= a / (pow2(power) as int) < ONE_RAW,
{
    lemma2_to64();
    if power > 2 {
        lemma_pow2_strictly_increases(2, power);
    }
    let n = pow2(power) as int;
    lemma_fundamental_div_mod(a, n);
    let q = a / n;
    assert(-ONE_RAW <= q < ONE_RAW) by (nonlinear_arith)
        requires
            a == n * q + a % n,
            0 <= a % n < n,
            4 <= n,
            -4 * ONE_RAW < a < 4 * ONE_RAW,
    ;
}

/// A row and a column inside the grid give an index inside the grid.
proof fn lemma_cell_index(row: int, col: int, side: int)
    by (nonlinear_arith)
    requires
        0 <= row < side,
        0 <= col < side,
    ensures
        0 <= row * side + col < side * side,
        (row + 1) * side == row * side + side,
{
}

/// The row and the column of a cell are the quotient and the remainder of
/// its index by the side.
proof fn lemma_row_col(row: int, col: int, side: int)
    requires
        0 <= row,
        0 <= col < side,
    ensures
        (row * side + col) / side == row,
        (row * side + col) % side == col,
{
    lemma_fundamental_div_mod_converse(row * side + col, side, row, col);
}

// Refinement: rounds of advancing the candidates and spreading the candidate mark.

/// The cells after each candidate has been advanced to `target` counted steps.
pub open spec fn advanced(points: Seq<PointState>, target: nat) -> Seq<PointState> {
    Seq::new(points.len(), |i: int| points[i].advance_to(target))
}

/// Whether `k` is the index of a cell that has escaped.
pub open spec fn escaped_at(points: Seq<PointState>, k: int) -> bool {
    0 <= k < points.len() && points[k].escaped
}

/// Whether cell `j` is a grid-neighbour of cell `i`.
pub open spec fn is_neighbour(i: int, j: int, side: int) -> bool {
    ||| j == i + 1
    ||| j == i - 1
    ||| j == i + side + 1
    ||| j == i + side - 1
    ||| j == i - side + 1
    ||| j == i - side - 1
}

/// Whether cell `j` is a grid-neighbour of an escaped cell. The neighbours
/// of the cell with index `i` are the cells with the indices `i - 1`,
/// `i + 1`, `i - side - 1`, `i - side + 1`, `i + side - 1` and
/// `i + side + 1`, as far as these are indices of the grid: the two
/// horizontal and the four diagonal neighbours, in the row-major order of the
/// cells, so that the last cell of a row and the first of the next are
/// horizontal neighbours. The cells above and below are no neighbours.
pub open spec fn has_escaped_neighbour(points: Seq<PointState>, side: int, j: int) -> bool {
    ||| escaped_at(points, j - 1)
    ||| escaped_at(points, j + 1)
    ||| escaped_at(points, j - side - 1)
    ||| escaped_at(points, j - side + 1)
    ||| escaped_at(points, j + side - 1)
    ||| escaped_at(points, j + side + 1)
}

/// The cells after every neighbour of an escaped cell has been made a
/// candidate.
pub open spec fn propagated(points: Seq<PointState>, side: int) -> Seq<PointState> {
    Seq::new(
        points.len(),
        |j: int|
            if has_escaped_neighbour(points, side, j) {
                points[j].marked()
            } else {
                points[j]
            },
    )
}

/// The number of cells that are no candidates.
pub open spec fn idle_count(points: Seq<PointState>) -> nat
    decreases points.len(),
{
    if points.len() == 0 {
        0
    } else {
        idle_count(points.drop_last()) + if points.last().candidate {
            0nat
        } else {
            1nat
        }
    }
}

/// The largest counter among the escaped cells, if any cell has escaped.
pub open spec fn max_escaped(points: Seq<PointState>) -> Option<nat>
    decreases points.len(),
{
    if points.len() == 0 {
        None
    } else {
        let before = max_escaped(points.drop_last());
        let p = points.last();
        if !p.escaped {
            before
        } else {
            match before {
                Some(m) => if m > p.iterations {
                    Some(m)
                } else {
                    Some(p.iterations)
                },
                None => Some(p.iterations),
            }
        }
    }
}

/// The depth that a refinement round reports: the largest counter among the
/// escaped cells; where no cell has escaped, the counter of the last cell.
pub open spec fn deepest_seen(points: Seq<PointState>) -> nat {
    match max_escaped(points) {
        Some(m) => m,
        None => if points.len() > 0 {
            points.last().iterations
        } else {
            0
        },
    }
}

/// The depth that a finished grid reports for the next zoom level: the
/// largest counter among the escaped cells where that is positive, and the
/// counter of the last cell where it is not.
pub open spec fn deepest_escape(points: Seq<PointState>) -> nat {
    match max_escaped(points) {
        Some(m) if m > 0 => m,
        _ => if points.len() > 0 {
            points.last().iterations
        } else {
            0
        },
    }
}

/// The number of counted steps that a refinement round aims for: twice the
/// floor, or twice the depth seen so far where that is less.
pub open spec fn round_target(floor: nat, seen: nat) -> nat {
    if seen >= floor {
        2 * floor
    } else {
        2 * seen
    }
}

/// One refinement round: every candidate is advanced to the round's
/// target, then every neighbour of an escaped cell becomes a candidate.
pub open spec fn round(points: Seq<PointState>, side: int, floor: nat, seen: nat) -> Seq<
    PointState,
> {
    propagated(advanced(points, round_target(floor, seen)), side)
}

/// The cells after refinement, and the depth seen in the last round. Rounds
/// are repeated as long as they make new candidates, that is, as long as the
/// number of cells that are no candidates drops.
pub open spec fn refined(points: Seq<PointState>, side: int, floor: nat, seen: nat) -> (
    Seq<PointState>,
    nat,
)
    decreases idle_count(points),
{
    let after = round(points, side, floor, seen);
    if idle_count(after) < idle_count(points) {
        refined(after, side, floor, deepest_seen(after))
    } else {
        (after, deepest_seen(after))
    }
}

impl Grid {
    /// The largest counter among the escaped cells, or the counter of the
    /// last cell where no escaped cell has a positive counter.
    pub fn seen_escapes_to(&self) -> (seen: u64)
        requires
            self@.wf(),
        ensures
            seen == deepest_escape(self@.points),
    {
        proof {
            lemma_side(self.power_size as nat);
        }
        let last = self.points[self.points.len() - 1];
        match max_escaped_count(&self.points) {
            Some(m) => if m > 0 {
                m
            } else {
                last.iteration_count()
            },
            None => last.iteration_count(),
        }
    }

    /// Advances every candidate to `n` counted steps, one cell after the other.
    pub fn iterate_to(&mut self, n: u64)
        ensures
            final(self)@ == (GridState {
                points: advanced(old(self)@.points, n as nat),
                ..old(self)@
            }),
            old(self)@.wf() ==> final(self)@.wf(),
            old(self)@.on_orbit() ==> final(self)@.on_orbit(),
    {
        let cells = self.points.len();
        let mut i: usize = 0;
        while i < cells
            invariant
                i <= cells,
                cells == self.points.len(),
                self.points.len() == old(self).points.len(),
                self.power_size == old(self).power_size,
                self.centre == old(self).centre,
                self.radius == old(self).radius,
                forall|j: int|
                    0 <= j < cells ==> (#[trigger] self.points@[j])@ == if j < i {
                        old(self).points@[j]@.advance_to(n as nat)
                    } else {
                        old(self).points@[j]@
                    },
            decreases cells - i,
        {
            let _ = self.points[i].iterate_to_n(n);
            i += 1;
        }
        proof {
            assert(states(self.points@) =~= advanced(states(old(self).points@), n as nat));
            lemma_advanced_on_orbit(old(self)@.points, n as nat);
        }
    }

    /// Refines the grid: rounds of advancing the candidates and spreading
    /// the candidate mark from escaped cells to their neighbours are
    /// repeated until a round makes no new candidate. Returns the depth seen
    /// in the last round. The result depends on the cells and the floor
    /// alone, however the work of a round is handed out.
    pub fn iterate_as_required(&mut self, min_iter: u64) -> (seen: u64)
        requires
            old(self)@.wf(),
            2 * min_iter <= u64::MAX,
        ensures
            final(self)@.points == refined(
                old(self)@.points,
                old(self)@.side() as int,
                min_iter as nat,
                min_iter as nat,
            ).0,
            seen == refined(
                old(self)@.points,
                old(self)@.side() as int,
                min_iter as nat,
                min_iter as nat,
            ).1,
            final(self)@.power == old(self)@.power,
            final(self)@.centre == old(self)@.centre,
            final(self)@.radius == old(self)@.radius,
            final(self)@.wf(),
            old(self)@.on_orbit() ==> final(self)@.on_orbit(),
            forall|j: int|
                0 <= j < old(self)@.points.len() && old(self)@.points[j].candidate ==> (
                #[trigger] final(self)@.points[j]).candidate,
    {
        proof {
            lemma_side(self.power_size as nat);
            vstd::bits::lemma_usize_shl_is_mul(1, self.power_size);
            lemma_refined_on_orbit(
                self@.points,
                self@.side() as int,
                min_iter as nat,
                min_iter as nat,
            );
        }
        let size: usize = 1usize << self.power_size;
        let ghost side = size as int;
        let ghost floor = min_iter as nat;
        let ghost start = states(self.points@);
        let mut seen_escapes_up_to: u64 = min_iter;
        let mut new_candidates = true;
        while new_candidates
            invariant
                side == size,
                side == pow2(self.power_size as nat),
                4 <= size,
                size * size == self.points.len(),
                size * size <= usize::MAX,
                16 <= self.points.len(),
                size <= 0x8000_0000,
                floor == min_iter,
                2 * min_iter <= u64::MAX,
                self.power_size == old(self).power_size,
                self.centre == old(self).centre,
                self.radius == old(self).radius,
                start == states(old(self).points@),
                states(self.points@).len() == start.len(),
                forall|j: int|
                    0 <= j < start.len() && start[j].candidate ==> (#[trigger] states(
                        self.points@,
                    )[j]).candidate,
                new_candidates ==> refined(
                    states(self.points@),
                    side,
                    floor,
                    seen_escapes_up_to as nat,
                ) == refined(start, side, floor, floor),
                !new_candidates ==> (states(self.points@), seen_escapes_up_to as nat) == refined(
                    start,
                    side,
                    floor,
                    floor,
                ),
            decreases
                    idle_count(states(self.points@)) + if new_candidates {
                        1nat
                    } else {
                        0nat
                    },
        {
            let ghost before = states(self.points@);
            let target: u64 = if seen_escapes_up_to >= min_iter {
                min_iter * 2
            } else {
                seen_escapes_up_to * 2
            };
            par_iterate_to(&mut self.points, target);
            proof {
                assert(states(self.points@) =~= advanced(before, target as nat));
                lemma_advanced_keeps_marks(before, target as nat);
            }
            new_candidates = spread_candidates(&mut self.points, size);
            seen_escapes_up_to = deepest_seen_count(&self.points);
        }
        seen_escapes_up_to
    }
}

/// rayon's `par_iter_mut` and `for_each` on a vector of points, with
/// `Point::iterate_to_n` as the operation: rayon hands each element to the
/// operation exactly once, on whichever worker, so each point ends as one
/// call of `iterate_to_n` leaves it, and no point depends on another.
#[verifier::external_body]
fn par_iterate_to(points: &mut Vec<Point>, target: u64)
    ensures
        final(points).len() == old(points).len(),
        forall|j: int|
            0 <= j < old(points).len() ==> (#[trigger] final(points)@[j])@ == old(
                points,
            )@[j]@.advance_to(target as nat),
{
    points.par_iter_mut().for_each(
        |p| {
            let _ = p.iterate_to_n(target);
        },
    );
}

/// Makes cell `r` a candidate if `r` is the index of a cell, and says
/// whether that made a new candidate.
fn update_if_in_range(new_points: &mut Vec<Point>, r: i64, size: i64) -> (newly: bool)
    requires
        0 < size <= 0x8000_0000,
        size * size == old(new_points).len(),
    ensures
        final(new_points).len() == old(new_points).len(),
        forall|j: int|
            0 <= j < old(new_points).len() ==> (#[trigger] final(new_points)@[j])@ == if j == r {
                old(new_points)@[j]@.marked()
            } else {
                old(new_points)@[j]@
            },
        newly == (0 <= r < old(new_points).len() && !old(new_points)@[r as int]@.candidate),
        idle_count(states(final(new_points)@)) + if newly {
            1nat
        } else {
            0nat
        } == idle_count(states(old(new_points)@)),
{
    assert(size * size <= 0x4000_0000_0000_0000) by (nonlinear_arith)
        requires
            0 < size <= 0x8000_0000,
    ;
    if r >= 0 && r < size * size {
        let newly = new_points[r as usize].mark_candidate();
        proof {
            let before = states(old(new_points)@);
            lemma_idle_count_mark(before, r as int);
            assert(states(new_points@) =~= before.update(r as int, before[r as int].marked()));
        }
        newly
    } else {
        false
    }
}

/// Whether cell `j` is a grid-neighbour of an escaped cell with an index below `i`.
spec fn has_escaped_neighbour_below(points: Seq<PointState>, side: int, j: int, i: int) -> bool {
    ||| (j - 1 < i && escaped_at(points, j - 1))
    ||| (j + 1 < i && escaped_at(points, j + 1))
    ||| (j - side - 1 < i && escaped_at(points, j - side - 1))
    ||| (j - side + 1 < i && escaped_at(points, j - side + 1))
    ||| (j + side - 1 < i && escaped_at(points, j + side - 1))
    ||| (j + side + 1 < i && escaped_at(points, j + side + 1))
}

/// Makes the grid-neighbours of cell `i` candidates, and says whether that
/// made a new candidate.
fn mark_neighbours(points: &mut Vec<Point>, i: i64, size: i64) -> (grew: bool)
    requires
        4 <= size <= 0x8000_0000,
        size * size == old(points).len(),
        0 <= i < old(points).len(),
    ensures
        final(points).len() == old(points).len(),
        forall|j: int|
            0 <= j < old(points).len() ==> (#[trigger] final(points)@[j])@ == if is_neighbour(
                i as int,
                j,
                size as int,
            ) {
                old(points)@[j]@.marked()
            } else {
                old(points)@[j]@
            },
        idle_count(states(final(points)@)) <= idle_count(states(old(points)@)),
        grew == (idle_count(states(final(points)@)) < idle_count(states(old(points)@))),
{
    assert(size * size <= 0x4000_0000_0000_0000) by (nonlinear_arith)
        requires
            4 <= size <= 0x8000_0000,
    ;
    let a = update_if_in_range(points, i + 1, size);
    let b = update_if_in_range(points, i - 1, size);
    let c = update_if_in_range(points, i + size + 1, size);
    let d = update_if_in_range(points, i + size - 1, size);
    let e = update_if_in_range(points, i - size + 1, size);
    let f = update_if_in_range(points, i - size - 1, size);
    a || b || c || d || e || f
}

/// Makes every grid-neighbour of an escaped cell a candidate, and says
/// whether that made a new candidate.
fn spread_candidates(points: &mut Vec<Point>, size: usize) -> (grew: bool)
    requires
        4 <= size <= 0x8000_0000,
        size * size == old(points).len(),
    ensures
        final(points).len() == old(points).len(),
        states(final(points)@) == propagated(states(old(points)@), size as int),
        idle_count(states(final(points)@)) <= idle_count(states(old(points)@)),
        grew == (idle_count(states(final(points)@)) < idle_count(states(old(points)@))),
{
    let ghost start = states(points@);
    let ghost side = size as int;
    assert(size * size <= 0x4000_0000_0000_0000) by (nonlinear_arith)
        requires
            4 <= size <= 0x8000_0000,
    ;
    let mut new_candidates = false;
    let size: i64 = size as i64;
    let cells: i64 = size * size;
    let mut i: i64 = 0;
    while i < cells
        invariant
            0 <= i <= cells,
            cells == size * size,
            side == size,
            4 <= size <= 0x8000_0000,
            cells <= 0x4000_0000_0000_0000,
            cells == points.len(),
            start == states(old(points)@),
            start.len() == cells,
            forall|j: int|
                0 <= j < cells ==> (#[trigger] points@[j])@ == if has_escaped_neighbour_below(
                    start,
                    side,
                    j,
                    i as int,
                ) {
                    start[j].marked()
                } else {
                    start[j]
                },
            idle_count(states(points@)) <= idle_count(start),
            new_candidates == (idle_count(states(points@)) < idle_count(start)),
        decreases cells - i,
    {
        if points[i as usize].has_escaped() {
            let grew = mark_neighbours(points, i, size);
            new_candidates = new_candidates || grew;
        }
        i += 1;
    }
    new_candidates
}

/// The largest counter among the escaped cells, if any cell has escaped.
fn max_escaped_count(points: &Vec<Point>) -> (most: Option<u64>)
    ensures
        match most {
            Some(m) => max_escaped(states(points@)) == Some(m as nat),
            None => max_escaped(states(points@)) is None,
        },
{
    let mut most: Option<u64> = None;
    let mut i: usize = 0;
    while i < points.len()
        invariant
            i <= points.len(),
            match most {
                Some(m) => max_escaped(states(points@).take(i as int)) == Some(m as nat),
                None => max_escaped(states(points@).take(i as int)) is None,
            },
        decreases points.len() - i,
    {
        proof {
            assert(states(points@).take(i + 1).drop_last() =~= states(points@).take(i as int));
        }
        let p = &points[i];
        if p.has_escaped() {
            let count = p.iteration_count();
            most = match most {
                Some(m) => if m > count {
                    Some(m)
                } else {
                    Some(count)
                },
                None => Some(count),
            };
        }
        i += 1;
    }
    proof {
        assert(states(points@).take(points.len() as int) =~= states(points@));
    }
    most
}

/// The depth that a refinement round reports.
fn deepest_seen_count(points: &Vec<Point>) -> (seen: u64)
    requires
        points.len() > 0,
    ensures
        seen == deepest_seen(states(points@)),
{
    match max_escaped_count(points) {
        Some(m) => m,
        None => {
            points[points.len() - 1].iteration_count()
        },
    }
}

/// The target of a round is the lesser of twice the floor and twice the
/// depth seen, and does not fall when either of them rises.
pub proof fn lemma_round_target_monotone(floor: nat, seen: nat, higher_floor: nat, deeper: nat)
    requires
        floor <= higher_floor,
        seen <= deeper,
    ensures
        round_target(floor, seen) <= 2 * floor,
        round_target(floor, seen) <= 2 * seen,
        round_target(floor, seen) == 2 * floor || round_target(floor, seen) == 2 * seen,
        round_target(floor, seen) <= round_target(higher_floor, deeper),
{
}

/// Refinement follows no cell beyond twice the floor: where no counter
/// exceeds twice the floor before, none does after.
pub proof fn lemma_refined_within_budget(points: Seq<PointState>, side: int, floor: nat, seen: nat)
    requires
        forall|j: int| 0 <= j < points.len() ==> (#[trigger] points[j]).iterations <= 2 * floor,
    ensures
        forall|j: int|
            0 <= j < points.len() ==> (#[trigger] refined(points, side, floor, seen).0[j]).iterations
                <= 2 * floor,
    decreases idle_count(points),
{
    let target = round_target(floor, seen);
    let after = round(points, side, floor, seen);
    assert forall|j: int| 0 <= j < points.len() implies (#[trigger] after[j]).iterations <= 2
        * floor by {
        if points[j].candidate && points[j].iterations < target {
            points[j].lemma_steps((target - points[j].iterations) as nat);
        }
    }
    if idle_count(after) < idle_count(points) {
        lemma_refined_within_budget(after, side, floor, deepest_seen(after));
    }
    assert forall|j: int| 0 <= j < points.len() implies (#[trigger] refined(
        points,
        side,
        floor,
        seen,
    ).0[j]).iterations <= 2 * floor by {
        if idle_count(after) < idle_count(points) {
            assert(refined(after, side, floor, deepest_seen(after)).0[j].iterations <= 2 * floor);
        } else {
            assert(after[j].iterations <= 2 * floor);
        }
    }
}

/// Advancing keeps every cell on the orbit of its location.
pub proof fn lemma_advanced_on_orbit(points: Seq<PointState>, target: nat)
    ensures
        (forall|j: int| 0 <= j < points.len() ==> (#[trigger] points[j]).on_orbit()) ==> (forall|
            j: int,
        |
            0 <= j < points.len() ==> (#[trigger] advanced(points, target)[j]).on_orbit()),
{
    if forall|j: int| 0 <= j < points.len() ==> (#[trigger] points[j]).on_orbit() {
        assert forall|j: int| 0 <= j < points.len() implies (#[trigger] advanced(
            points,
            target,
        )[j]).on_orbit() by {
            points[j].lemma_on_orbit(target);
        }
    }
}

/// A refinement round keeps every cell on the orbit of its location.
pub proof fn lemma_round_on_orbit(points: Seq<PointState>, side: int, floor: nat, seen: nat)
    requires
        forall|j: int| 0 <= j < points.len() ==> (#[trigger] points[j]).on_orbit(),
    ensures
        forall|j: int|
            0 <= j < points.len() ==> (#[trigger] round(points, side, floor, seen)[j]).on_orbit(),
{
    let target = round_target(floor, seen);
    let moved = advanced(points, target);
    lemma_advanced_on_orbit(points, target);
    assert forall|j: int| 0 <= j < points.len() implies (#[trigger] round(
        points,
        side,
        floor,
        seen,
    )[j]).on_orbit() by {
        moved[j].lemma_on_orbit(0);
    }
}

/// Refinement keeps every cell on the orbit of its location: in the refined
/// grid the counter of an escaped cell is the exact depth at which the
/// orbit of its location escapes, as `PointState::lemma_escape_depth` says.
pub proof fn lemma_refined_on_orbit(points: Seq<PointState>, side: int, floor: nat, seen: nat)
    ensures
        (forall|j: int| 0 <= j < points.len() ==> (#[trigger] points[j]).on_orbit()) ==> (forall|
            j: int,
        |
            0 <= j < points.len() ==> (#[trigger] refined(
                points,
                side,
                floor,
                seen,
            ).0[j]).on_orbit()),
    decreases idle_count(points),
{
    if forall|j: int| 0 <= j < points.len() ==> (#[trigger] points[j]).on_orbit() {
        let after = round(points, side, floor, seen);
        lemma_round_on_orbit(points, side, floor, seen);
        if idle_count(after) < idle_count(points) {
            lemma_refined_on_orbit(after, side, floor, deepest_seen(after));
        }
        assert forall|j: int| 0 <= j < points.len() implies (#[trigger] refined(
            points,
            side,
            floor,
            seen,
        ).0[j]).on_orbit() by {
            if idle_count(after) < idle_count(points) {
                assert(refined(after, side, floor, deepest_seen(after)).0[j].on_orbit());
            }
        }
    }
}

/// Refinement clears no candidate flag: a cell that is a candidate stays one
/// through every round.
pub proof fn lemma_refined_keeps_candidates(
    points: Seq<PointState>,
    side: int,
    floor: nat,
    seen: nat,
)
    ensures
        refined(points, side, floor, seen).0.len() == points.len(),
        forall|j: int|
            0 <= j < points.len() && points[j].candidate ==> (#[trigger] refined(
                points,
                side,
                floor,
                seen,
            ).0[j]).candidate,
    decreases idle_count(points),
{
    let after = round(points, side, floor, seen);
    lemma_round_keeps_candidates(points, side, floor, seen);
    if idle_count(after) < idle_count(points) {
        lemma_refined_keeps_candidates(after, side, floor, deepest_seen(after));
    }
}

/// A refinement round clears no candidate flag.
pub proof fn lemma_round_keeps_candidates(
    points: Seq<PointState>,
    side: int,
    floor: nat,
    seen: nat,
)
    ensures
        round(points, side, floor, seen).len() == points.len(),
        forall|j: int|
            0 <= j < points.len() && points[j].candidate ==> (#[trigger] round(
                points,
                side,
                floor,
                seen,
            )[j]).candidate,
{
    let target = round_target(floor, seen);
    lemma_advanced_keeps_marks(points, target);
}

/// Refinement is a function of the cells, the side and the floor: grids in
/// the same state are refined to the same cells and the same depth, however
/// the work was handed out.
pub proof fn lemma_refinement_deterministic(a: GridState, b: GridState, floor: nat)
    requires
        a.points == b.points,
        a.power == b.power,
    ensures
        refined(a.points, a.side() as int, floor, floor) == refined(
            b.points,
            b.side() as int,
            floor,
            floor,
        ),
{
}

/// Spreading the candidate mark changes nothing but candidate flags, and
/// clears none.
pub proof fn lemma_propagated_keeps_marks(points: Seq<PointState>, side: int)
    ensures
        propagated(points, side).len() == points.len(),
        forall|j: int|
            0 <= j < points.len() && points[j].candidate ==> (#[trigger] propagated(
                points,
                side,
            )[j]).candidate,
        forall|j: int|
            0 <= j < points.len() ==> (#[trigger] propagated(points, side)[j]).marked()
                == points[j].marked(),
{
}

/// Advancing the cells changes no candidate flag.
pub proof fn lemma_advanced_keeps_marks(points: Seq<PointState>, target: nat)
    ensures
        forall|j: int|
            0 <= j < points.len() ==> (#[trigger] advanced(points, target)[j]).candidate
                == points[j].candidate,
        idle_count(advanced(points, target)) == idle_count(points),
{
    assert forall|j: int| 0 <= j < points.len() implies (#[trigger] advanced(
        points,
        target,
    )[j]).candidate == points[j].candidate by {
        if points[j].candidate && points[j].iterations < target {
            points[j].lemma_steps((target - points[j].iterations) as nat);
        }
    }
    lemma_idle_count_flags(advanced(points, target), points);
}

/// Making a cell a candidate lowers the number of cells that are none by
/// one, if the cell was none, and leaves it as it is otherwise.
pub proof fn lemma_idle_count_mark(points: Seq<PointState>, r: int)
    requires
        0 <= r < points.len(),
    ensures
        idle_count(points.update(r, points[r].marked())) + if points[r].candidate {
            0nat
        } else {
            1nat
        } == idle_count(points),
    decreases points.len(),
{
    let after = points.update(r, points[r].marked());
    if r == points.len() - 1 {
        assert(after.drop_last() =~= points.drop_last());
    } else {
        lemma_idle_count_mark(points.drop_last(), r);
        assert(after.drop_last() =~= points.drop_last().update(r, points[r].marked()));
    }
}

/// The number of cells that are no candidates depends on the candidate
/// flags alone.
pub proof fn lemma_idle_count_flags(a: Seq<PointState>, b: Seq<PointState>)
    requires
        a.len() == b.len(),
        forall|j: int| 0 <= j < a.len() ==> a[j].candidate == b[j].candidate,
    ensures
        idle_count(a) == idle_count(b),
    decreases a.len(),
{
    if a.len() > 0 {
        lemma_idle_count_flags(a.drop_last(), b.drop_last());
    }
}

// Zooming into a quarter.

/// Whether `c` is one of the four children of the parent cell whose
/// top-left child has the index `base`.
pub open spec fn is_child(base: int, c: int, side: int) -> bool {
    c == base || c == base + 1 || c == base + side || c == base + side + 1
}

/// Whether cell `j` is seeded from the block of children that starts at
/// `base`: the four children and each child's grid-neighbours.
pub open spec fn seeded_from(base: int, j: int, side: int) -> bool {
    ||| is_child(base, j, side)
    ||| is_neighbour(base, j, side)
    ||| is_neighbour(base + 1, j, side)
    ||| is_neighbour(base + side, j, side)
    ||| is_neighbour(base + side + 1, j, side)
}

/// Whether the parent cell in column `x` and row `y` of the quarter that
/// starts at index `start` has escaped and seeds cell `j` of the child grid.
pub open spec fn seeding(
    parent: Seq<PointState>,
    start: int,
    side: int,
    x: int,
    y: int,
    j: int,
) -> bool {
    escaped_at(parent, start + x + side * y) && seeded_from(2 * x + side * (2 * y), j, side)
}

/// Whether some escaped cell of the parent's quarter seeds cell `j` of the
/// child grid.
pub open spec fn seeded(parent: Seq<PointState>, start: int, side: int, j: int) -> bool {
    exists|x: int, y: int|
        0 <= x < side / 2 && 0 <= y < side / 2 && #[trigger] seeding(parent, start, side, x, y, j)
}

impl GridState {
    /// The radius of a quarter: half the radius, rounded down.
    pub open spec fn quarter_radius(self) -> int {
        self.radius@ / 2
    }

    /// The real part of the centre of a quarter.
    pub open spec fn quarter_re(self, quad: Quad) -> int {
        match quad {
            Quad::TopLeft | Quad::BottomLeft => self.centre.r@ - self.quarter_radius(),
            Quad::TopRight | Quad::BottomRight => self.centre.r@ + self.quarter_radius(),
        }
    }

    /// The imaginary part of the centre of a quarter. The top quarters are
    /// those with the lesser imaginary parts.
    pub open spec fn quarter_im(self, quad: Quad) -> int {
        match quad {
            Quad::TopLeft | Quad::TopRight => self.centre.i@ - self.quarter_radius(),
            Quad::BottomLeft | Quad::BottomRight => self.centre.i@ + self.quarter_radius(),
        }
    }

    /// The centre of a quarter, where it is representable.
    pub open spec fn quarter_centre(self, quad: Quad) -> Complex {
        Complex {
            r: Fix2x61::of(self.quarter_re(quad)),
            i: Fix2x61::of(self.quarter_im(quad)),
        }
    }

    /// The index of the first cell of a quarter.
    pub open spec fn quarter_start(self, quad: Quad) -> int {
        let side = self.side() as int;
        match quad {
            Quad::TopLeft => 0,
            Quad::TopRight => side / 2,
            Quad::BottomLeft => side * (side / 2),
            Quad::BottomRight => side * (side / 2) + side / 2,
        }
    }

    /// Why a quarter cannot be laid out, if it cannot: its centre is
    /// computed first, the real part before the imaginary one, and then the
    /// quarter is sampled as any region is.
    pub open spec fn subset_error(self, quad: Quad) -> Option<GridError> {
        if !Fix2x61::representable(self.quarter_re(quad)) {
            Some(
                GridError::Geometry(
                    match quad {
                        Quad::TopLeft | Quad::BottomLeft => FixError::Overflow {
                            op: "Fix2x61::sub",
                        },
                        Quad::TopRight | Quad::BottomRight => FixError::Overflow {
                            op: "Fix2x61::add",
                        },
                    },
                ),
            )
        } else if !Fix2x61::representable(self.quarter_im(quad)) {
            Some(
                GridError::Geometry(
                    match quad {
                        Quad::TopLeft | Quad::TopRight => FixError::Overflow {
                            op: "Fix2x61::sub",
                        },
                        Quad::BottomLeft | Quad::BottomRight => FixError::Overflow {
                            op: "Fix2x61::add",
                        },
                    },
                ),
            )
        } else {
            Self::layout_error(
                self.power,
                self.quarter_centre(quad),
                Fix2x61::of(self.quarter_radius()),
            )
        }
    }

    /// The grid over a quarter: a grid of the same side, created over the
    /// quarter, in which moreover every cell is a candidate that an escaped
    /// cell of the quarter seeds.
    pub open spec fn subset(self, quad: Quad) -> GridState {
        let fresh = Self::created(
            self.power,
            self.quarter_centre(quad),
            Fix2x61::of(self.quarter_radius()),
        );
        GridState {
            points: Seq::new(
                fresh.points.len(),
                |j: int|
                    if seeded(self.points, self.quarter_start(quad), self.side() as int, j) {
                        fresh.points[j].marked()
                    } else {
                        fresh.points[j]
                    },
            ),
            ..fresh
        }
    }
}

impl Grid {
    /// Zooms into a quarter: a grid of the same side over the quarter, at
    /// half the radius. Besides its border, the cells that lie in or next to
    /// the children of an escaped cell of the quarter start as candidates.
    pub fn subset(&self, quad: &Quad) -> (res: Result<Grid, GridError>)
        requires
            self@.wf(),
        ensures
            match res {
                Ok(child) => self@.subset_error(*quad) is None && child@ == self@.subset(*quad)
                    && child@.wf() && child@.on_orbit(),
                Err(e) => self@.subset_error(*quad) == Some(e),
            },
    {
        let power_size = self.power_size;
        proof {
            lemma_side(power_size as nat);
            lemma_half_side(power_size as nat);
            vstd::bits::lemma_usize_shl_is_mul(1, power_size);
            vstd::bits::lemma_usize_shl_is_mul(1, (power_size - 1) as usize);
        }
        let radius = match self.radius.halve() {
            Ok(r) => r,
            Err(e) => {
                return Err(GridError::Geometry(e));
            },
        };
        let centre_r = match quad {
            Quad::TopLeft | Quad::BottomLeft => self.centre.r - radius,
            Quad::TopRight | Quad::BottomRight => self.centre.r + radius,
        };
        let centre_r = match centre_r {
            Ok(v) => v,
            Err(e) => {
                return Err(GridError::Geometry(e));
            },
        };
        let centre_i = match quad {
            Quad::TopLeft | Quad::TopRight => self.centre.i - radius,
            Quad::BottomLeft | Quad::BottomRight => self.centre.i + radius,
        };
        let centre_i = match centre_i {
            Ok(v) => v,
            Err(e) => {
                return Err(GridError::Geometry(e));
            },
        };
        let centre = Complex::new(centre_r, centre_i);
        let mut child = match Grid::create(power_size, centre, radius) {
            Ok(grid) => grid,
            Err(e) => {
                return Err(e);
            },
        };

        let size: usize = 1usize << power_size;
        let half_size: usize = 1usize << (power_size - 1);
        assert(size * half_size + half_size < size * size && size * size
            <= 0x4000_0000_0000_0000) by (nonlinear_arith)
            requires
                2 * half_size == size,
                4 <= size <= 0x8000_0000,
        ;
        let start: usize = match quad {
            Quad::TopLeft => 0,
            Quad::TopRight => half_size,
            Quad::BottomLeft => size * half_size,
            Quad::BottomRight => size * half_size + half_size,
        };
        let ghost parent = states(self.points@);
        let ghost fresh = states(child.points@);
        let ghost side = size as int;
        let ghost first = start as int;
        let ghost row0: int = match quad {
            Quad::TopLeft | Quad::TopRight => 0,
            Quad::BottomLeft | Quad::BottomRight => half_size as int,
        };
        let ghost col0: int = match quad {
            Quad::TopLeft | Quad::BottomLeft => 0,
            Quad::TopRight | Quad::BottomRight => half_size as int,
        };
        let mut x: usize = 0;
        while x < half_size
            invariant
                x <= half_size,
                2 * half_size == size,
                side == size,
                side / 2 == half_size,
                4 <= size <= 0x8000_0000,
                size * size == child.points.len(),
                size * size == self.points.len(),
                size * size <= usize::MAX,
                size * size <= 0x4000_0000_0000_0000,
                first == start,
                first == row0 * side + col0,
                row0 == 0 || row0 == half_size,
                col0 == 0 || col0 == half_size,
                parent == states(self.points@),
                fresh.len() == size * size,
                child.power_size == power_size,
                child.centre == centre,
                child.radius == radius,
                forall|j: int|
                    0 <= j < fresh.len() ==> (#[trigger] child.points@[j])@ == if seeded_before(
                        parent,
                        first,
                        side,
                        j,
                        x as int,
                        0,
                    ) {
                        fresh[j].marked()
                    } else {
                        fresh[j]
                    },
            decreases half_size - x,
        {
            let mut y: usize = 0;
            while y < half_size
                invariant
                    x < half_size,
                    y <= half_size,
                    2 * half_size == size,
                    side == size,
                    side / 2 == half_size,
                    4 <= size <= 0x8000_0000,
                    size * size == child.points.len(),
                    size * size == self.points.len(),
                    size * size <= usize::MAX,
                    size * size <= 0x4000_0000_0000_0000,
                    first == start,
                    first == row0 * side + col0,
                    row0 == 0 || row0 == half_size,
                    col0 == 0 || col0 == half_size,
                    parent == states(self.points@),
                    fresh.len() == size * size,
                    child.power_size == power_size,
                    child.centre == centre,
                    child.radius == radius,
                    forall|j: int|
                        0 <= j < fresh.len() ==> (#[trigger] child.points@[j])@
                            == if seeded_before(parent, first, side, j, x as int, y as int) {
                            fresh[j].marked()
                        } else {
                            fresh[j]
                        },
                decreases half_size - y,
            {
                proof {
                    lemma_cell_index(row0 + y, col0 + x, side);
                    lemma_cell_index(2 * y + 1, 2 * x + 1, side);
                    assert((row0 + y) * side + (col0 + x) == first + x + side * y
                        && (2 * y + 1) * side + (2 * x + 1) == 2 * x + side * (2 * y) + side + 1
                        && side * y == y * side && side * (2 * y) == (side * y) * 2)
                        by (nonlinear_arith)
                        requires
                            first == row0 * side + col0,
                    ;
                }
                let old_points_i = start + x + size * y;
                if self.points[old_points_i].has_escaped() {
                    let base = (x * 2 + size * y * 2) as i64;
                    seed_block(&mut child.points, base, size as i64);
                    proof {
                        assert forall|j: int| 0 <= j < fresh.len() implies (
                        #[trigger] child.points@[j])@ == if seeded_before(
                            parent,
                            first,
                            side,
                            j,
                            x as int,
                            y + 1,
                        ) {
                            fresh[j].marked()
                        } else {
                            fresh[j]
                        } by {
                            assert(seeding(parent, first, side, x as int, y as int, j)
                                == seeded_from(base as int, j, side));
                        }
                    }
                }
                y += 1;
            }
            x += 1;
        }
        proof {
            assert(child@.points =~= self@.subset(*quad).points);
            assert forall|j: int| 0 <= j < fresh.len() implies (
            #[trigger] child@.points[j]).on_orbit() by {
                fresh[j].lemma_on_orbit(0);
            }
        }
        Ok(child)
    }
}

/// Makes the four children that start at `base`, and the grid-neighbours of
/// each, candidates.
fn seed_block(points: &mut Vec<Point>, base: i64, size: i64)
    requires
        4 <= size <= 0x8000_0000,
        size * size == old(points).len(),
        0 <= base,
        base + size + 1 < old(points).len(),
    ensures
        final(points).len() == old(points).len(),
        forall|j: int|
            0 <= j < old(points).len() ==> (#[trigger] final(points)@[j])@ == if seeded_from(
                base as int,
                j,
                size as int,
            ) {
                old(points)@[j]@.marked()
            } else {
                old(points)@[j]@
            },
{
    assert(size * size <= 0x4000_0000_0000_0000) by (nonlinear_arith)
        requires
            4 <= size <= 0x8000_0000,
    ;
    update_if_in_range(points, base, size);
    update_if_in_range(points, base + 1, size);
    update_if_in_range(points, base + size, size);
    update_if_in_range(points, base + size + 1, size);
    mark_neighbours(points, base, size);
    mark_neighbours(points, base + 1, size);
    mark_neighbours(points, base + size, size);
    mark_neighbours(points, base + size + 1, size);
}

/// Whether an escaped cell of the parent's quarter that comes before column
/// `x`, row `y` in the order of the sweep seeds cell `j` of the child grid.
/// The sweep goes through the columns, and in each column through the rows.
spec fn seeded_before(
    parent: Seq<PointState>,
    start: int,
    side: int,
    j: int,
    x: int,
    y: int,
) -> bool {
    exists|a: int, b: int|
        0 <= a < side / 2 && 0 <= b < side / 2 && (a < x || (a == x && b < y))
            && #[trigger] seeding(
            parent,
            start,
            side,
            a,
            b,
            j,
        )
}

/// Half the side of a grid is a power of two as well.
proof fn lemma_half_side(power: nat)
    requires
        2 <= power,
        2 * power < usize::BITS,
    ensures
        2 * pow2((power - 1) as nat) == pow2(power),
        pow2(power) as int / 2 == pow2((power - 1) as nat),
        pow2((power - 1) as nat) * 1 <= usize::MAX,
{
    lemma2_to64();
}

// Summing a grid up.

/// For each cell the counter that counts for the greatest escape depth:
/// its own counter if it has escaped, and zero if not.
pub open spec fn escape_counts(points: Seq<PointState>) -> Seq<u64> {
    Seq::new(
        points.len(),
        |i: int|
            if points[i].escaped {
                points[i].iterations as u64
            } else {
                0u64
            },
    )
}

/// The greatest counter among the escaped cells, and zero where no cell has escaped.
pub open spec fn greatest_escape(points: Seq<PointState>) -> nat {
    match max_escaped(points) {
        Some(m) => m,
        None => 0,
    }
}

impl Grid {
    /// Sums the grid up: the greatest counter of an escaped cell, and the
    /// numbers of candidates and of other cells.
    pub fn summary(&self) -> (sum: Summary)
        requires
            self@.wf(),
        ensures
            sum.maximum_escaped_iterations == greatest_escape(self@.points),
            sum.not_candidates == idle_count(self@.points),
            sum.candidates + sum.not_candidates == self@.points.len(),
    {
        let ghost all = states(self.points@);
        let cells = self.points.len();
        let mut counts: Vec<u64> = Vec::with_capacity(cells);
        let mut candidates: usize = 0;
        let mut not_candidates: usize = 0;
        let mut i: usize = 0;
        while i < cells
            invariant
                i <= cells,
                cells == self.points.len(),
                all == states(self.points@),
                counts@ == escape_counts(all.take(i as int)),
                not_candidates == idle_count(all.take(i as int)),
                candidates + not_candidates == i,
            decreases cells - i,
        {
            proof {
                assert(all.take(i + 1).drop_last() =~= all.take(i as int));
            }
            let p = &self.points[i];
            let count = if p.has_escaped() {
                p.iteration_count()
            } else {
                0
            };
            counts.push(count);
            if p.is_candidate() {
                candidates += 1;
            } else {
                not_candidates += 1;
            }
            i += 1;
        }
        proof {
            assert(all.take(cells as int) =~= all);
            assert forall|k: int| 0 <= k < all.len() implies (#[trigger] all[k]).iterations
                <= u64::MAX by {
                self.points@[k].lemma_counter_bounded();
            }
            lemma_greatest_escape(all);
        }
        let ghost unsorted = counts@;
        let escaped_iterations = sorted_counts(counts);
        proof {
            vstd::seq_lib::to_multiset_len(unsorted);
            vstd::seq_lib::to_multiset_len(escaped_iterations@);
        }
        let maximum_escaped_iterations = if escaped_iterations.len() > 0 {
            let last = escaped_iterations[escaped_iterations.len() - 1];
            proof {
                let greatest = greatest_escape(all) as u64;
                vstd::seq_lib::to_multiset_contains(unsorted, last);
                vstd::seq_lib::to_multiset_contains(escaped_iterations@, last);
                vstd::seq_lib::to_multiset_contains(unsorted, greatest);
                vstd::seq_lib::to_multiset_contains(escaped_iterations@, greatest);
            }
            last
        } else {
            0
        };
        Summary { maximum_escaped_iterations, candidates, not_candidates }
    }
}

/// itertools' `sorted` on the counters, collected by `collect_vec`: the
/// same counters, each as often as before, in ascending order.
#[verifier::external_body]
fn sorted_counts(counts: Vec<u64>) -> (sorted: Vec<u64>)
    ensures
        sorted@.to_multiset() == counts@.to_multiset(),
        forall|i: int, j: int| 0 <= i <= j < sorted.len() ==> sorted[i] <= sorted[j],
{
    counts.into_iter().sorted().collect_vec()
}

/// The greatest escape depth is at least each cell's counter that counts,
/// and, in a grid with cells, it is one of them.
pub proof fn lemma_greatest_escape(points: Seq<PointState>)
    requires
        forall|i: int| 0 <= i < points.len() ==> (#[trigger] points[i]).iterations <= u64::MAX,
    ensures
        forall|i: int|
            0 <= i < points.len() ==> (#[trigger] escape_counts(points)[i]) <= greatest_escape(
                points,
            ),
        points.len() > 0 ==> escape_counts(points).contains(greatest_escape(points) as u64),
        greatest_escape(points) <= u64::MAX,
    decreases points.len(),
{
    if points.len() > 0 {
        let before = points.drop_last();
        lemma_greatest_escape(before);
        let counts = escape_counts(points);
        assert forall|i: int| 0 <= i < points.len() implies (#[trigger] counts[i])
            <= greatest_escape(points) by {
            if i < before.len() {
                assert(counts[i] == escape_counts(before)[i]);
            }
        }
        let greatest = greatest_escape(points) as u64;
        if greatest_escape(points) == greatest_escape(before) && before.len() > 0 {
            let k = choose|k: int|
                0 <= k < before.len() && escape_counts(before)[k] == greatest_escape(before) as u64;
            assert(counts[k] == greatest);
        } else {
            assert(counts[points.len() - 1] == greatest);
        }
    }
}

} // verus!
