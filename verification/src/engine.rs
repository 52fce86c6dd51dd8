//! The transition engine: toroidal neighbor counting and the
//! per-generation rule.

use vstd::arithmetic::div_mod::{lemma_add_mod_noop, lemma_mod_self_0, lemma_small_mod};
use vstd::prelude::*;
use vstd::string::StringExecFns;

use crate::cell::Cell;
use crate::config::GameConfig;
use crate::grid::{dead_grid, grid_view, row_view, wf_view, Vectrix};

verus! {

/// The index one step back, wrapping past the first row or column.
pub open spec fn dec_wrap(i: int, n: int) -> int {
    if i == 0 {
        n - 1
    } else {
        i - 1
    }
}

/// The index one step forward, wrapping past the last row or column.
pub open spec fn inc_wrap(i: int, n: int) -> int {
    if i + 1 == n {
        0
    } else {
        i + 1
    }
}

/// 1 for a live cell, 0 for a dead one.
pub open spec fn bit(b: bool) -> int {
    if b {
        1
    } else {
        0
    }
}

/// Toroidal closure: both wrapped offsets of an in-range index land back in
/// `[0, n)`, and each equals true modular wraparound of `i - 1` and `i + 1`.
pub proof fn lemma_toroidal_closure(i: int, n: int)
    requires
        0 <= i < n,
    ensures
        0 <= dec_wrap(i, n) < n,
        0 <= inc_wrap(i, n) < n,
        dec_wrap(i, n) == (i - 1 + n) % n,
        inc_wrap(i, n) == (i + 1) % n,
{
    if i == 0 {
        lemma_small_mod((n - 1) as nat, n as nat);
    } else {
        lemma_mod_self_0(n);
        lemma_small_mod((i - 1) as nat, n as nat);
        lemma_add_mod_noop(i - 1, n, n);
    }
    if i + 1 == n {
        lemma_mod_self_0(n);
    } else {
        lemma_small_mod((i + 1) as nat, n as nat);
    }
}

/// The number of live cells among the 8 toroidally wrapped neighbors of
/// `(i, j)`. On grids with a single row or column the same physical cell is
/// counted from several offsets; that degenerate double counting is the
/// defined semantics, not a special case.
pub open spec fn spec_neighbors(g: Seq<Seq<bool>>, i: int, j: int) -> int {
    let rows = g.len() as int;
    let cols = g[0].len() as int;
    let up = dec_wrap(i, rows);
    let down = inc_wrap(i, rows);
    let left = dec_wrap(j, cols);
    let right = inc_wrap(j, cols);
    bit(g[up][left]) + bit(g[up][j]) + bit(g[up][right]) + bit(g[i][left]) + bit(g[i][right]) + bit(
        g[down][left],
    ) + bit(g[down][j]) + bit(g[down][right])
}

/// The transition rule, with no implicit branch: a cell is alive in the next
/// generation exactly when it has 3 live neighbors, or it is alive now and
/// has 2.
pub open spec fn spec_rule(alive: bool, neighbors: int) -> bool {
    neighbors == 3 || (alive && neighbors == 2)
}

/// One full generation: every output cell is the rule applied to the input
/// cell and its neighbor count, all read from the prior generation.
pub open spec fn spec_step(g: Seq<Seq<bool>>) -> Seq<Seq<bool>> {
    Seq::new(
        g.len(),
        |i: int| Seq::new(g[i].len(), |j: int| spec_rule(g[i][j], spec_neighbors(g, i, j))),
    )
}

/// On a 1 x 1 grid all 8 neighbor offsets alias the single cell, so a live
/// cell counts 8 neighbors and a dead one counts 0; the general rule, with
/// no special casing, therefore kills the lone cell either way.
pub proof fn lemma_rule_on_unit_grid(g: Seq<Seq<bool>>)
    requires
        wf_view(g),
        g.len() == 1,
        g[0].len() == 1,
    ensures
        spec_neighbors(g, 0, 0) == if g[0][0] {
            8int
        } else {
            0int
        },
        !spec_step(g)[0][0],
{
    assert(spec_step(g)[0][0] == spec_rule(g[0][0], spec_neighbors(g, 0, 0)));
}

/// Reads one cell as its neighbor-count contribution: 1 if alive, 0 if dead.
fn cell_bit(map: &Vectrix, r: usize, c: usize) -> (b: u32)
    requires
        wf_view(grid_view(*map)),
        r < map@.len(),
        c < map@[0]@.len(),
    ensures
        b as int == bit(grid_view(*map)[r as int][c as int]),
        b <= 1,
{
    proof {
        let g = grid_view(*map);
        assert(g[r as int].len() == g[0].len());
        assert(g[r as int] == row_view(map@[r as int]));
        assert(g[0] == row_view(map@[0]));
    }
    match map[r][c] {
        Cell::Alive => 1,
        Cell::Dead => 0,
    }
}

/// Counts the live cells among the 8 wrapped neighbors of `(*i, *j)`,
/// reading one cell per offset exactly as the counting rule defines.
#[verifier::rlimit(100)]
pub fn calculate_neighbors(map: &Vectrix, i: &usize, j: &usize) -> (neighbors: u32)
    requires
        wf_view(grid_view(*map)),
        *i < map@.len(),
        *j < map@[0]@.len(),
    ensures
        neighbors as int == spec_neighbors(grid_view(*map), *i as int, *j as int),
        neighbors <= 8,
{
    let ghost g = grid_view(*map);
    let i_last = map.len() - 1;
    let j_last = map[0].len() - 1;

    let i = *i;
    let j = *j;

    let up = if i == 0 { i_last } else { i - 1 };
    let down = if i == i_last { 0 } else { i + 1 };
    let left = if j == 0 { j_last } else { j - 1 };
    let right = if j == j_last { 0 } else { j + 1 };
    proof {
        assert(up as int == dec_wrap(i as int, g.len() as int));
        assert(down as int == inc_wrap(i as int, g.len() as int));
        assert(left as int == dec_wrap(j as int, g[0].len() as int));
        assert(right as int == inc_wrap(j as int, g[0].len() as int));
    }

    let mut neighbors: u32 = 0;

    // [i-1,j-1] : NW
    neighbors = neighbors + cell_bit(map, up, left);
    // [i-1,_j_] : N
    neighbors = neighbors + cell_bit(map, up, j);
    // [i-1,j+1] : NE
    neighbors = neighbors + cell_bit(map, up, right);
    // [_i_,j-1] : W
    neighbors = neighbors + cell_bit(map, i, left);
    // [_i_,j+1] : E
    neighbors = neighbors + cell_bit(map, i, right);
    // [i+1,j-1] : SW
    neighbors = neighbors + cell_bit(map, down, left);
    // [i+1,_j_] : S
    neighbors = neighbors + cell_bit(map, down, j);
    // [i+1,j+1] : SE
    neighbors = neighbors + cell_bit(map, down, right);

    proof {
        let ii = i as int;
        let jj = j as int;
        let u = up as int;
        let d = down as int;
        let l = left as int;
        let r = right as int;
        assert(neighbors as int == bit(g[u][l]) + bit(g[u][jj]) + bit(g[u][r]) + bit(g[ii][l])
            + bit(g[ii][r]) + bit(g[d][l]) + bit(g[d][jj]) + bit(g[d][r]));
        assert(spec_neighbors(g, ii, jj) == bit(g[u][l]) + bit(g[u][jj]) + bit(g[u][r]) + bit(
            g[ii][l],
        ) + bit(g[ii][r]) + bit(g[d][l]) + bit(g[d][jj]) + bit(g[d][r]));
    }
    neighbors
}

/// Writes the next-generation state of cell `(*i, *j)` into `next_map`,
/// applying the rule's explicit branches; a dead cell without exactly 3
/// neighbors leaves the target cell untouched.
pub fn calculate_next_gen(
    map: &Vectrix,
    next_map: &mut Vectrix,
    neighbors: u32,
    i: &usize,
    j: &usize,
)
    requires
        wf_view(grid_view(*map)),
        grid_view(*old(next_map)).len() == grid_view(*map).len(),
        forall|k: int|
            0 <= k < grid_view(*old(next_map)).len() ==> #[trigger] grid_view(*old(next_map))[k].len()
                == grid_view(*map)[0].len(),
        *i < map@.len(),
        *j < map@[0]@.len(),
    ensures
        ({
            let g = grid_view(*map);
            let prev = grid_view(*old(next_map));
            let cur = grid_view(*final(next_map));
            let ii = *i as int;
            let jj = *j as int;
            &&& cur.len() == prev.len()
            &&& forall|k: int| 0 <= k < cur.len() ==> #[trigger] cur[k].len() == prev[k].len()
            &&& forall|r: int, c: int|
                0 <= r < cur.len() && 0 <= c < cur[r].len() && !(r == ii && c == jj)
                    ==> #[trigger] cur[r][c] == prev[r][c]
            &&& cur[ii][jj] == if g[ii][jj] || neighbors == 3 {
                spec_rule(g[ii][jj], neighbors as int)
            } else {
                prev[ii][jj]
            }
        }),
{
    let ghost g = grid_view(*map);
    let ghost prev = grid_view(*old(next_map));
    proof {
        assert forall|k: int| 0 <= k < map@.len() implies (#[trigger] map@[k])@.len()
            == map@[0]@.len() by {
            assert(g[k].len() == g[0].len());
            assert(g[k] == row_view(map@[k]));
            assert(g[0] == row_view(map@[0]));
        }
        assert forall|k: int| 0 <= k < next_map@.len() implies (#[trigger] next_map@[k])@.len()
            == map@[0]@.len() by {
            assert(prev[k].len() == g[0].len());
            assert(prev[k] == row_view(next_map@[k]));
        }
        assert(next_map@.len() == map@.len());
    }
    match map[*i][*j] {
        Cell::Alive => {
            // 1. A live cell with fewer than 2 live neighbors dies, as if by
            // underpopulation.
            if neighbors < 2 {
                next_map[*i][*j] = Cell::dead();
            }
            // 2. A live cell with 2 or 3 live neighbors lives on.
            if neighbors == 2 || neighbors == 3 {
                next_map[*i][*j] = Cell::alive();
            }
            // 3. A live cell with more than 3 live neighbors dies, as if by
            // overpopulation.
            if neighbors > 3 {
                next_map[*i][*j] = Cell::dead();
            }
        },
        Cell::Dead => {
            // 4. A dead cell with exactly 3 live neighbors becomes alive, as
            // if by reproduction.
            if neighbors == 3 {
                next_map[*i][*j] = Cell::alive();
            }
        },
    }
    proof {
        let cur = grid_view(*next_map);
        let ii = *i as int;
        let jj = *j as int;
        assert forall|k: int| 0 <= k < cur.len() implies #[trigger] cur[k].len()
            == prev[k].len() by {
            assert(cur[k] == row_view(next_map@[k]));
            assert(prev[k] == row_view(old(next_map)@[k]));
        }
        assert forall|r: int, c: int|
            0 <= r < cur.len() && 0 <= c < cur[r].len() && !(r == ii && c == jj)
            implies #[trigger] cur[r][c] == prev[r][c] by {
            assert(cur[r][c] == next_map@[r]@[c].is_alive());
            assert(prev[r][c] == old(next_map)@[r]@[c].is_alive());
        }
        assert(cur[ii][jj] == next_map@[ii]@[jj].is_alive());
        assert(prev[ii][jj] == old(next_map)@[ii]@[jj].is_alive());
    }
}

/// One generation: builds a fresh all-dead grid and fills every cell from
/// the prior generation, so no update can corrupt a later neighbor read.
pub fn step(map: &Vectrix) -> (next_map: Vectrix)
    requires
        wf_view(grid_view(*map)),
    ensures
        grid_view(next_map) == spec_step(grid_view(*map)),
        wf_view(grid_view(next_map)),
{
    let ghost g = grid_view(*map);
    let ghost s = spec_step(g);
    let i_size = map.len();
    let j_size = map[0].len();
    proof {
        assert(g.len() == i_size as int);
        assert(g[0].len() == j_size as int);
    }

    let mut next_map = dead_grid(i_size, j_size);

    let mut i: usize = 0;
    while i < i_size
        invariant
            wf_view(g),
            g == grid_view(*map),
            s == spec_step(g),
            g.len() == i_size as int,
            g[0].len() == j_size as int,
            map@.len() == i_size,
            map@[0]@.len() == j_size,
            i <= i_size,
            grid_view(next_map).len() == i_size as int,
            forall|k: int|
                0 <= k < i_size ==> #[trigger] grid_view(next_map)[k].len() == j_size as int,
            forall|r: int, c: int|
                0 <= r < i_size && 0 <= c < j_size ==> (#[trigger] grid_view(next_map)[r][c]) == (
                if r < i {
                    s[r][c]
                } else {
                    false
                }),
        decreases i_size - i,
    {
        let mut j: usize = 0;
        while j < j_size
            invariant
                wf_view(g),
                g == grid_view(*map),
                s == spec_step(g),
                g.len() == i_size as int,
                g[0].len() == j_size as int,
                map@.len() == i_size,
                map@[0]@.len() == j_size,
                i < i_size,
                j <= j_size,
                grid_view(next_map).len() == i_size as int,
                forall|k: int|
                    0 <= k < i_size ==> #[trigger] grid_view(next_map)[k].len() == j_size as int,
                forall|r: int, c: int|
                    0 <= r < i_size && 0 <= c < j_size ==> (#[trigger] grid_view(next_map)[r][c])
                        == (if r < i || (r == i && c < j) {
                        s[r][c]
                    } else {
                        false
                    }),
            decreases j_size - j,
        {
            let neighbors = calculate_neighbors(map, &i, &j);
            calculate_next_gen(map, &mut next_map, neighbors, &i, &j);
            proof {
                assert(s[i as int][j as int] == spec_rule(
                    g[i as int][j as int],
                    spec_neighbors(g, i as int, j as int),
                ));
            }
            j = j + 1;
        }
        i = i + 1;
    }
    proof {
        assert forall|r: int| 0 <= r < i_size implies #[trigger] grid_view(next_map)[r]
            =~= s[r] by {
            assert(s[r].len() == g[r].len());
            assert(g[r].len() == g[0].len());
        }
        assert(grid_view(next_map) =~~= s);
    }
    next_map
}

/// One tick of the run loop, as the driver sees it: if a bounded run has
/// reached its ceiling the game finishes; otherwise a requested abort ends
/// it; otherwise the grid advances one generation. The grid is untouched
/// unless it advances, so an ended run leaves the prior state intact.
pub fn play(
    map: &mut Vectrix,
    generations: u32,
    game_properties: &GameConfig,
    abort_requested: bool,
) -> (r: Option<String>)
    requires
        wf_view(grid_view(*old(map))),
    ensures
        wf_view(grid_view(*final(map))),
        (generations == game_properties.max_generations && !game_properties.infinite_game) ==> {
            &&& r is Some
            &&& r.unwrap()@ == "Game finished."@
            &&& grid_view(*final(map)) == grid_view(*old(map))
        },
        (!(generations == game_properties.max_generations && !game_properties.infinite_game)
            && abort_requested) ==> {
            &&& r is Some
            &&& r.unwrap()@ == "Game aborted."@
            &&& grid_view(*final(map)) == grid_view(*old(map))
        },
        (!(generations == game_properties.max_generations && !game_properties.infinite_game)
            && !abort_requested) ==> {
            &&& r is None
            &&& grid_view(*final(map)) == spec_step(grid_view(*old(map)))
        },
{
    if generations == game_properties.max_generations && !game_properties.infinite_game {
        return Some(String::from_str("Game finished."));
    }
    if abort_requested {
        return Some(String::from_str("Game aborted."));
    }
    let next_map = step(map);
    *map = next_map;
    None
}

} // verus!
