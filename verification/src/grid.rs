//! The toroidal grid: its model, its invariant, and its mutations.

use vstd::prelude::*;
use vstd::string::StringExecFns;

use crate::cell::{Cell, Coordinates};
use crate::digits::{spec_digits, u64_string};
use crate::patterns::{spaceship_points, still_life_points, Spaceship, StillLife};

verus! {

/// A grid is a rectangular two-dimensional arrangement of cells.
pub type Vectrix = Vec<Vec<Cell>>;

/// The model of one row: its alive flags in order.
pub open spec fn row_view(r: Vec<Cell>) -> Seq<bool> {
    Seq::new(r@.len(), |j: int| r@[j].is_alive())
}

/// The model of a grid: row-major alive flags.
pub open spec fn grid_view(m: Vectrix) -> Seq<Seq<bool>> {
    Seq::new(m@.len(), |i: int| row_view(m@[i]))
}

/// A well-formed grid: at least one row, at least one column, and every row
/// of the same length. This invariant holds after every mutation.
pub open spec fn wf_view(g: Seq<Seq<bool>>) -> bool {
    &&& g.len() >= 1
    &&& g[0].len() >= 1
    &&& forall|i: int| 0 <= i < g.len() ==> #[trigger] g[i].len() == g[0].len()
}

/// Every cell of the grid is dead.
pub open spec fn all_dead(g: Seq<Seq<bool>>) -> bool {
    forall|i: int, j: int| 0 <= i < g.len() && 0 <= j < g[i].len() ==> !(#[trigger] g[i][j])
}

/// A row of `cols` dead cells.
fn dead_row(cols: usize) -> (r: Vec<Cell>)
    ensures
        r@.len() == cols,
        forall|j: int| 0 <= j < cols ==> !(#[trigger] r@[j]).is_alive(),
{
    let mut r: Vec<Cell> = Vec::new();
    let mut j: usize = 0;
    while j < cols
        invariant
            j <= cols,
            r@.len() == j,
            forall|k: int| 0 <= k < j ==> !(#[trigger] r@[k]).is_alive(),
        decreases cols - j,
    {
        r.push(Cell::dead());
        j = j + 1;
    }
    r
}

/// A `rows` by `cols` grid of dead cells.
pub(crate) fn dead_grid(rows: usize, cols: usize) -> (m: Vectrix)
    requires
        rows >= 1,
        cols >= 1,
    ensures
        wf_view(grid_view(m)),
        grid_view(m).len() == rows,
        grid_view(m)[0].len() == cols,
        all_dead(grid_view(m)),
{
    let mut m: Vectrix = Vec::new();
    let mut i: usize = 0;
    while i < rows
        invariant
            i <= rows,
            m@.len() == i,
            forall|k: int| 0 <= k < i ==> (#[trigger] m@[k])@.len() == cols,
            forall|k: int, j: int|
                0 <= k < i && 0 <= j < cols ==> !(#[trigger] m@[k]@[j]).is_alive(),
        decreases rows - i,
    {
        m.push(dead_row(cols));
        i = i + 1;
    }
    proof {
        assert forall|k: int| 0 <= k < rows implies #[trigger] grid_view(m)[k].len()
            == cols by {
            assert(grid_view(m)[k] == row_view(m@[k]));
        }
        assert forall|k: int, j: int|
            0 <= k < rows && 0 <= j < grid_view(m)[k].len() implies !(#[trigger] grid_view(
            m,
        )[k][j]) by {
            assert(grid_view(m)[k][j] == m@[k]@[j].is_alive());
        }
    }
    m
}

/// The grid row a coordinate wraps onto.
pub open spec fn wrapped_row(p: Coordinates, rows: int) -> int {
    p.row as int % rows
}

/// The grid column a coordinate wraps onto.
pub open spec fn wrapped_col(p: Coordinates, cols: int) -> int {
    p.col as int % cols
}

/// True when `p` wraps onto cell `(i, j)` of a `rows` by `cols` grid.
pub open spec fn wraps_to(p: Coordinates, rows: int, cols: int, i: int, j: int) -> bool {
    wrapped_row(p, rows) == i && wrapped_col(p, cols) == j
}

/// One placement step: the wrapped position of `p` becomes alive; a cell
/// that is already alive stays alive.
pub open spec fn place_point(g: Seq<Seq<bool>>, p: Coordinates) -> Seq<Seq<bool>> {
    let i = wrapped_row(p, g.len() as int);
    let j = wrapped_col(p, g[0].len() as int);
    g.update(i, g[i].update(j, true))
}

/// Placement of a whole pattern, one point after another.
pub open spec fn spec_place(g: Seq<Seq<bool>>, pts: Seq<Coordinates>) -> Seq<Seq<bool>>
    decreases pts.len(),
{
    if pts.len() == 0 {
        g
    } else {
        place_point(spec_place(g, pts.drop_last()), pts.last())
    }
}

/// Pointwise reading of placement: a cell is alive after placing `pts`
/// exactly when it was alive before or some point of `pts` wraps onto it;
/// the dimensions are untouched.
pub proof fn lemma_place_char(g: Seq<Seq<bool>>, pts: Seq<Coordinates>)
    requires
        wf_view(g),
    ensures
        spec_place(g, pts).len() == g.len(),
        forall|i: int| 0 <= i < g.len() ==> #[trigger] spec_place(g, pts)[i].len() == g[i].len(),
        forall|i: int, j: int|
            0 <= i < g.len() && 0 <= j < g[i].len() ==> (#[trigger] spec_place(g, pts)[i][j] <==> (
            g[i][j] || exists|k: int|
                0 <= k < pts.len() && wraps_to(
                    #[trigger] pts[k],
                    g.len() as int,
                    g[0].len() as int,
                    i,
                    j,
                ))),
        wf_view(spec_place(g, pts)),
    decreases pts.len(),
{
    let rows = g.len() as int;
    let cols = g[0].len() as int;
    if pts.len() == 0 {
    } else {
        let prev = spec_place(g, pts.drop_last());
        lemma_place_char(g, pts.drop_last());
        let p = pts.last();
        let fi = wrapped_row(p, rows);
        let fj = wrapped_col(p, cols);
        let cur = spec_place(g, pts);
        assert(cur == place_point(prev, p));
        assert(prev[0].len() == g[0].len());
        assert(prev[fi].len() == g[fi].len());
        assert forall|i: int, j: int| 0 <= i < g.len() && 0 <= j < g[i].len() implies (
        #[trigger] cur[i][j] <==> (g[i][j] || exists|k: int|
            0 <= k < pts.len() && wraps_to(#[trigger] pts[k], rows, cols, i, j))) by {
            if i == fi && j == fj {
                assert(cur[i][j]);
                assert(pts[pts.len() - 1] == p);
                assert(wraps_to(pts[pts.len() - 1], rows, cols, i, j));
            } else {
                assert(cur[i][j] == prev[i][j]);
                if prev[i][j] && !g[i][j] {
                    let k = choose|k: int|
                        0 <= k < pts.drop_last().len() && wraps_to(
                            #[trigger] pts.drop_last()[k],
                            rows,
                            cols,
                            i,
                            j,
                        );
                    assert(pts.drop_last()[k] == pts[k]);
                    assert(wraps_to(pts[k], rows, cols, i, j));
                }
                if !prev[i][j] && (exists|k: int|
                    0 <= k < pts.len() && wraps_to(#[trigger] pts[k], rows, cols, i, j)) {
                    let k = choose|k: int|
                        0 <= k < pts.len() && wraps_to(#[trigger] pts[k], rows, cols, i, j);
                    assert(k < pts.len() - 1);
                    assert(pts.drop_last()[k] == pts[k]);
                    assert(prev[i][j]);
                }
            }
        }
        assert forall|i: int| 0 <= i < g.len() implies #[trigger] cur[i].len() == g[i].len() by {
            if i != fi {
                assert(cur[i] == prev[i]);
            }
        }
    }
}

/// Idempotent placement: placing the same pattern at the same origin twice
/// yields the same grid as placing it once.
pub proof fn lemma_place_idempotent(g: Seq<Seq<bool>>, pts: Seq<Coordinates>)
    requires
        wf_view(g),
    ensures
        spec_place(spec_place(g, pts), pts) == spec_place(g, pts),
{
    let g1 = spec_place(g, pts);
    let g2 = spec_place(g1, pts);
    lemma_place_char(g, pts);
    lemma_place_char(g1, pts);
    let rows = g.len() as int;
    let cols = g[0].len() as int;
    assert(g1.len() == rows && g1[0].len() == cols);
    assert forall|i: int| 0 <= i < rows implies #[trigger] g2[i] =~= g1[i] by {
        assert(g2[i].len() == g1[i].len());
        assert forall|j: int| 0 <= j < g1[i].len() implies g2[i][j] == g1[i][j] by {
            assert(g1[i].len() == g[i].len());
            assert(g2[i][j] <==> (g1[i][j] || exists|k: int|
                0 <= k < pts.len() && wraps_to(#[trigger] pts[k], rows, cols, i, j)));
            assert(g1[i][j] <==> (g[i][j] || exists|k: int|
                0 <= k < pts.len() && wraps_to(#[trigger] pts[k], rows, cols, i, j)));
        }
    }
    assert(g2 =~~= g1);
}

/// The grid operations. `Grid` itself carries no state: a grid is a plain
/// `Vectrix` owned by the caller.
pub struct Grid;

impl Grid {
    /// Creates an all-dead grid of the requested size. A zero dimension is
    /// recovered locally: the documented fallback is a 10 x 10 all-dead grid.
    pub fn new(rows: usize, cols: usize) -> (r: (Vectrix, String))
        ensures
            wf_view(grid_view(r.0)),
            all_dead(grid_view(r.0)),
            rows == 0 || cols == 0 ==> {
                &&& grid_view(r.0).len() == 10
                &&& grid_view(r.0)[0].len() == 10
                &&& r.1@ == "[-] Invalid dimensions. 10 x 10 map created."@
            },
            rows >= 1 && cols >= 1 ==> {
                &&& grid_view(r.0).len() == rows
                &&& grid_view(r.0)[0].len() == cols
                &&& r.1@ == "[+] "@ + spec_digits(rows as int) + " x "@ + spec_digits(
                    cols as int,
                ) + " map created."@
            },
    {
        if rows == 0 || cols == 0 {
            return (
                dead_grid(10, 10),
                String::from_str("[-] Invalid dimensions. 10 x 10 map created."),
            );
        }
        let mut msg = String::from_str("[+] ");
        let rs = u64_string(rows as u64);
        msg.append(rs.as_str());
        msg.append(" x ");
        let cs = u64_string(cols as u64);
        msg.append(cs.as_str());
        msg.append(" map created.");
        (dead_grid(rows, cols), msg)
    }

    /// Flips the cell at `(row mod rows, col mod cols)` in place and returns
    /// its new state. Wraparound keeps the index valid for any input.
    pub fn set_clear_cell(map: &mut Vectrix, row: usize, col: usize) -> (r: Cell)
        requires
            wf_view(grid_view(*old(map))),
        ensures
            ({
                let g = grid_view(*old(map));
                let fr = row as int % g.len() as int;
                let fc = col as int % g[0].len() as int;
                &&& grid_view(*final(map)) == g.update(fr, g[fr].update(fc, !g[fr][fc]))
                &&& r.is_alive() == !g[fr][fc]
                &&& wf_view(grid_view(*final(map)))
            }),
    {
        let ghost g = grid_view(*old(map));
        let row_len = map.len();
        let col_len = map[0].len();

        let filtered_row = row % row_len;
        let filtered_col = col % col_len;
        proof {
            assert(g.len() == map@.len());
            assert(g[filtered_row as int].len() == g[0].len());
            assert(g[filtered_row as int].len() == map@[filtered_row as int]@.len());
        }
        let c = map[filtered_row][filtered_col].not();
        map[filtered_row][filtered_col] = c;
        proof {
            let fr = filtered_row as int;
            let fc = filtered_col as int;
            assert(grid_view(*map) =~~= g.update(fr, g[fr].update(fc, !g[fr][fc])));
        }
        c
    }

    /// Reads the cell at `(row mod rows, col mod cols)`.
    pub fn get(map: &Vectrix, row: usize, col: usize) -> (r: Cell)
        requires
            wf_view(grid_view(*map)),
        ensures
            ({
                let g = grid_view(*map);
                r.is_alive() == g[row as int % g.len() as int][col as int % g[0].len() as int]
            }),
    {
        let ghost g = grid_view(*map);
        proof {
            assert(g.len() == map@.len());
            assert(g[0] == row_view(map@[0]));
        }
        let filtered_row = row % map.len();
        let filtered_col = col % map[0].len();
        proof {
            assert(g[filtered_row as int].len() == g[0].len());
            assert(g[filtered_row as int] == row_view(map@[filtered_row as int]));
        }
        map[filtered_row][filtered_col]
    }

    /// The grid's `(rows, cols)`.
    pub fn dimensions(map: &Vectrix) -> (r: (usize, usize))
        requires
            wf_view(grid_view(*map)),
        ensures
            r.0 == grid_view(*map).len(),
            r.1 == grid_view(*map)[0].len(),
    {
        proof {
            assert(grid_view(*map)[0] == row_view(map@[0]));
        }
        (map.len(), map[0].len())
    }

    /// Sets the wrapped position of every point of the pattern alive,
    /// leaving already-live cells alive: placement is a union, and it
    /// never fails.
    pub fn generate_pattern(map: &mut Vectrix, points: Vec<Coordinates>) -> (message: String)
        requires
            wf_view(grid_view(*old(map))),
        ensures
            grid_view(*final(map)) == spec_place(grid_view(*old(map)), points@),
            wf_view(grid_view(*final(map))),
            message@ == "[+] Pattern generated."@,
    {
        let ghost g0 = grid_view(*old(map));
        let n = points.len();
        let mut k: usize = 0;
        while k < n
            invariant
                n == points@.len(),
                k <= n,
                wf_view(g0),
                grid_view(*map) == spec_place(g0, points@.take(k as int)),
                grid_view(*map).len() == g0.len(),
                forall|r: int|
                    0 <= r < g0.len() ==> #[trigger] grid_view(*map)[r].len() == g0[r].len(),
            decreases n - k,
        {
            let ghost prev = grid_view(*map);
            let point = points[k];
            proof {
                assert(prev.len() == map@.len());
                assert(prev[0] == row_view(map@[0]));
                assert(prev[0].len() == g0[0].len());
            }
            let row_len = map.len();
            let col_len = map[0].len();

            let filtered_row = point.row % row_len;
            let filtered_col = point.col % col_len;
            proof {
                assert(prev[filtered_row as int] == row_view(map@[filtered_row as int]));
                assert(prev[filtered_row as int].len() == g0[filtered_row as int].len());
                assert(g0[filtered_row as int].len() == g0[0].len());
            }
            map[filtered_row][filtered_col] = Cell::alive();
            proof {
                let fr = filtered_row as int;
                let fc = filtered_col as int;
                assert(fr == wrapped_row(point, prev.len() as int));
                assert(fc == wrapped_col(point, prev[0].len() as int));
                assert(grid_view(*map) =~~= place_point(prev, point));
                assert(points@.take(k as int + 1).drop_last() =~= points@.take(k as int));
                assert(points@.take(k as int + 1).last() == point);
                assert(spec_place(g0, points@.take(k as int + 1)) == place_point(prev, point));
            }
            k = k + 1;
        }
        proof {
            assert(points@.take(n as int) =~= points@);
            assert(wf_view(grid_view(*map)));
        }
        String::from_str("[+] Pattern generated.")
    }

    /// Stamps a spaceship pattern onto the grid and names what was placed.
    pub fn generate_spaceship(map: &mut Vectrix, pattern: Spaceship) -> (message: String)
        requires
            wf_view(grid_view(*old(map))),
        ensures
            grid_view(*final(map)) == spec_place(grid_view(*old(map)), spaceship_points(pattern)),
            wf_view(grid_view(*final(map))),
            pattern is Glider ==> message@ == "[+] Glider created."@,
            pattern is LightweightSpaceship ==> message@ == "[+] Lightweight Spaceship created."@,
    {
        let message: String;

        let points = match pattern {
            Spaceship::Glider(points) => {
                message = String::from_str("[+] Glider created.");
                points
            },
            Spaceship::LightweightSpaceship(points) => {
                message = String::from_str("[+] Lightweight Spaceship created.");
                points
            },
        };

        let _ = Grid::generate_pattern(map, points);

        message
    }

    /// Stamps a still-life pattern onto the grid and names what was placed.
    pub fn generate_still_life(map: &mut Vectrix, pattern: StillLife) -> (message: String)
        requires
            wf_view(grid_view(*old(map))),
        ensures
            grid_view(*final(map)) == spec_place(grid_view(*old(map)), still_life_points(pattern)),
            wf_view(grid_view(*final(map))),
            message@ == "[+] Fifteen Bent Paperclip created."@,
    {
        let message: String;

        let points = match pattern {
            StillLife::FifteenBentPaperclip(points) => {
                message = String::from_str("[+] Fifteen Bent Paperclip created.");
                points
            },
        };

        let _ = Grid::generate_pattern(map, points);

        message
    }
}

} // verus!
