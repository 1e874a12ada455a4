use vstd::prelude::*;
use crate::grid::{GridMap, Probe};

verus! {

/// Which family of gridlines a ray crossed to enter a cell.
#[derive(Debug, Copy, Clone, PartialEq, Eq, Structural)]
pub enum Side {
    /// A vertical gridline: the ray advanced along x.
    Vertical,
    /// A horizontal gridline: the ray advanced along y.
    Horizontal,
}

/// What one step of grid-line traversal leads to.
#[derive(Debug, Copy, Clone, PartialEq, Eq, Structural)]
pub enum DdaStep {
    /// The ray left the map without meeting a wall.
    Exit,
    /// The ray entered a wall cell across a gridline of the given side.
    Hit(Side),
    /// The ray entered the empty cell at this column and row.
    Continue(usize, usize),
}

pub open spec fn side_of(advance_x: bool) -> Side {
    if advance_x {
        Side::Vertical
    } else {
        Side::Horizontal
    }
}

/// The cell entered from `col`, `row` by advancing one cell along x (by
/// `step_x`) or along y (by `step_y`).
pub open spec fn next_cell(col: int, row: int, advance_x: bool, step_x: int, step_y: int) -> (int, int) {
    if advance_x {
        (col + step_x, row)
    } else {
        (col, row + step_y)
    }
}

/// The outcome of one traversal step from `col`, `row`.
pub open spec fn dda_outcome(
    map: GridMap,
    col: int,
    row: int,
    advance_x: bool,
    step_x: int,
    step_y: int,
) -> DdaStep {
    let (c, r) = next_cell(col, row, advance_x, step_x, step_y);
    match map.probe_at(c, r) {
        Probe::Outside => DdaStep::Exit,
        Probe::Wall => DdaStep::Hit(side_of(advance_x)),
        Probe::Open => DdaStep::Continue(c as usize, r as usize),
    }
}

pub open spec fn is_unit_step(s: int) -> bool {
    s == 1 || s == -1
}

/// Advances a ray by one cell of grid-line traversal. Which axis advances
/// (`advance_x`) is decided by the caller, from the ray distances that
/// remain to the next gridline on each axis; `step_x` and `step_y` are the
/// signs of the ray's direction.
pub fn dda_step(
    map: &GridMap,
    col: usize,
    row: usize,
    advance_x: bool,
    step_x: i8,
    step_y: i8,
) -> (s: DdaStep)
    requires
        map.in_bounds(col as int, row as int),
        is_unit_step(step_x as int),
        is_unit_step(step_y as int),
    ensures
        s == dda_outcome(*map, col as int, row as int, advance_x, step_x as int, step_y as int),
{
    proof {
        use_type_invariant(map);
    }
    let side = if advance_x {
        Side::Vertical
    } else {
        Side::Horizontal
    };
    let (c, r) = if advance_x {
        if step_x < 0 {
            if col == 0 {
                return DdaStep::Exit;
            }
            (col - 1, row)
        } else {
            (col + 1, row)
        }
    } else {
        if step_y < 0 {
            if row == 0 {
                return DdaStep::Exit;
            }
            (col, row - 1)
        } else {
            (col, row + 1)
        }
    };
    match map.probe(c, r) {
        Probe::Outside => DdaStep::Exit,
        Probe::Wall => DdaStep::Hit(side),
        Probe::Open => DdaStep::Continue(c, r),
    }
}

/// The cell reached from `col`, `row` after the first `k` choices of axis.
pub open spec fn walk_cell(
    col: int,
    row: int,
    choices: Seq<bool>,
    step_x: int,
    step_y: int,
    k: nat,
) -> (int, int)
    decreases k,
{
    if k == 0 {
        (col, row)
    } else {
        let (c, r) = walk_cell(col, row, choices, step_x, step_y, (k - 1) as nat);
        next_cell(c, r, choices[k - 1], step_x, step_y)
    }
}

/// The number of x advances among the first `k` choices.
pub open spec fn x_advances(choices: Seq<bool>, k: nat) -> nat
    decreases k,
{
    if k == 0 {
        0
    } else {
        x_advances(choices, (k - 1) as nat) + if choices[k - 1] {
            1nat
        } else {
            0nat
        }
    }
}

proof fn lemma_walk_shape(col: int, row: int, choices: Seq<bool>, step_x: int, step_y: int, k: nat)
    requires
        k <= choices.len(),
    ensures
        x_advances(choices, k) <= k,
        walk_cell(col, row, choices, step_x, step_y, k) == (
            col + step_x * x_advances(choices, k),
            row + step_y * (k - x_advances(choices, k)),
        ),
    decreases k,
{
    if k > 0 {
        lemma_walk_shape(col, row, choices, step_x, step_y, (k - 1) as nat);
        let n = x_advances(choices, (k - 1) as nat) as int;
        let ki = k as int;
        assert(step_x * (n + 1) == step_x * n + step_x) by (nonlinear_arith);
        assert(step_y * (ki - n) == step_y * (ki - 1 - n) + step_y) by (nonlinear_arith);
        let prev = walk_cell(col, row, choices, step_x, step_y, (k - 1) as nat);
        assert(prev == (col + step_x * n, row + step_y * (ki - 1 - n)));
        assert(walk_cell(col, row, choices, step_x, step_y, k) == next_cell(
            prev.0,
            prev.1,
            choices[k - 1],
            step_x,
            step_y,
        ));
        if choices[k - 1] {
            assert(x_advances(choices, k) == n + 1);
        } else {
            assert(x_advances(choices, k) == n);
        }
    } else {
        assert(x_advances(choices, 0) == 0);
        assert(step_x * 0 == 0 && step_y * 0 == 0);
    }
}

pub open spec fn interior(map: GridMap, col: int, row: int) -> bool {
    1 <= col < map.spec_width() - 1 && 1 <= row < map.spec_height() - 1
}

proof fn lemma_scan_to_wall(
    map: GridMap,
    col: int,
    row: int,
    choices: Seq<bool>,
    step_x: int,
    step_y: int,
    k: nat,
)
    requires
        map.wf(),
        map.bordered(),
        interior(map, col, row),
        is_unit_step(step_x),
        is_unit_step(step_y),
        choices.len() >= map.spec_width() + map.spec_height(),
        k <= choices.len(),
        forall|j: nat|
            1 <= j <= k ==> #[trigger] map.probe_at(
                walk_cell(col, row, choices, step_x, step_y, j).0,
                walk_cell(col, row, choices, step_x, step_y, j).1,
            ) == Probe::Open,
    ensures
        exists|n: nat|
            k < n <= map.spec_width() + map.spec_height() && map.probe_at(
                #[trigger] walk_cell(col, row, choices, step_x, step_y, n).0,
                walk_cell(col, row, choices, step_x, step_y, n).1,
            ) == Probe::Wall && forall|j: nat|
                1 <= j < n ==> #[trigger] map.probe_at(
                    walk_cell(col, row, choices, step_x, step_y, j).0,
                    walk_cell(col, row, choices, step_x, step_y, j).1,
                ) == Probe::Open,
    decreases choices.len() - k,
{
    let w = map.spec_width() as int;
    let h = map.spec_height() as int;
    let (c, r) = walk_cell(col, row, choices, step_x, step_y, k);
    // The current cell is interior: it is the start, or an empty cell of a
    // bordered map.
    if k > 0 {
        assert(map.probe_at(c, r) == Probe::Open);
        if !interior(map, c, r) {
            assert(map.wall_at(c, r));
        }
    }
    lemma_walk_shape(col, row, choices, step_x, step_y, k);
    let nx = x_advances(choices, k) as int;
    assert(nx <= w - 3) by (nonlinear_arith)
        requires
            c == col + step_x * nx,
            1 <= c < w - 1,
            1 <= col < w - 1,
            step_x == 1 || step_x == -1,
            nx >= 0,
    ;
    assert(k - nx <= h - 3) by (nonlinear_arith)
        requires
            r == row + step_y * (k - nx),
            1 <= r < h - 1,
            1 <= row < h - 1,
            step_y == 1 || step_y == -1,
            k - nx >= 0,
    ;
    let k1 = (k + 1) as nat;
    let (c1, r1) = walk_cell(col, row, choices, step_x, step_y, k1);
    assert(map.in_bounds(c1, r1));
    if map.probe_at(c1, r1) == Probe::Wall {
        assert forall|j: nat|
            1 <= j < k1 implies #[trigger] map.probe_at(
                walk_cell(col, row, choices, step_x, step_y, j).0,
                walk_cell(col, row, choices, step_x, step_y, j).1,
            ) == Probe::Open by {}
        assert(k < k1 <= w + h);
    } else {
        assert(map.probe_at(c1, r1) == Probe::Open);
        assert forall|j: nat|
            1 <= j <= k1 implies #[trigger] map.probe_at(
                walk_cell(col, row, choices, step_x, step_y, j).0,
                walk_cell(col, row, choices, step_x, step_y, j).1,
            ) == Probe::Open by {}
        lemma_scan_to_wall(map, col, row, choices, step_x, step_y, k1);
    }
}

/// The outcome of the `j`-th step (from 1) of a traversal from `col`,
/// `row` that advances along the axes in the order `choices` gives.
pub open spec fn walk_outcome(
    map: GridMap,
    col: int,
    row: int,
    choices: Seq<bool>,
    step_x: int,
    step_y: int,
    j: nat,
) -> DdaStep {
    let (c, r) = walk_cell(col, row, choices, step_x, step_y, (j - 1) as nat);
    dda_outcome(map, c, r, choices[j - 1], step_x, step_y)
}

/// On a map whose border is all wall, a traversal that starts strictly
/// inside ends by hitting a wall, never by leaving the map, and does so
/// within width + height steps, whatever the order in which the axes
/// advance: each step before the last moves on to the next empty cell.
pub proof fn lemma_bordered_walk_hits_wall(
    map: GridMap,
    col: int,
    row: int,
    choices: Seq<bool>,
    step_x: int,
    step_y: int,
)
    requires
        map.wf(),
        map.bordered(),
        interior(map, col, row),
        is_unit_step(step_x),
        is_unit_step(step_y),
        choices.len() >= map.spec_width() + map.spec_height(),
    ensures
        exists|n: nat|
            1 <= n <= map.spec_width() + map.spec_height() && #[trigger] walk_outcome(
                map,
                col,
                row,
                choices,
                step_x,
                step_y,
                n,
            ) is Hit && forall|j: nat|
                1 <= j < n ==> #[trigger] walk_outcome(map, col, row, choices, step_x, step_y, j)
                    == DdaStep::Continue(
                    walk_cell(col, row, choices, step_x, step_y, j).0 as usize,
                    walk_cell(col, row, choices, step_x, step_y, j).1 as usize,
                ),
{
    lemma_scan_to_wall(map, col, row, choices, step_x, step_y, 0);
    let n = choose|n: nat|
        0 < n <= map.spec_width() + map.spec_height() && map.probe_at(
            #[trigger] walk_cell(col, row, choices, step_x, step_y, n).0,
            walk_cell(col, row, choices, step_x, step_y, n).1,
        ) == Probe::Wall && forall|j: nat|
            1 <= j < n ==> #[trigger] map.probe_at(
                walk_cell(col, row, choices, step_x, step_y, j).0,
                walk_cell(col, row, choices, step_x, step_y, j).1,
            ) == Probe::Open;
    assert(walk_outcome(map, col, row, choices, step_x, step_y, n) is Hit);
    assert forall|j: nat| 1 <= j < n implies #[trigger] walk_outcome(
        map,
        col,
        row,
        choices,
        step_x,
        step_y,
        j,
    ) == DdaStep::Continue(
        walk_cell(col, row, choices, step_x, step_y, j).0 as usize,
        walk_cell(col, row, choices, step_x, step_y, j).1 as usize,
    ) by {
        assert(map.probe_at(
            walk_cell(col, row, choices, step_x, step_y, j).0,
            walk_cell(col, row, choices, step_x, step_y, j).1,
        ) == Probe::Open);
    }
}

} // verus!
