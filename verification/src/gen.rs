//! Maze generation: randomized depth-first carving on two-cell strides,
//! random extra openings, coin placement, and the final connectivity check
//! with its repair pass.

use vstd::prelude::*;

verus! {

use crate::grid::Cell;
use crate::grid::Grid;
use crate::grid::MazeError;
use crate::count::count_cells;
use crate::count::lemma_count_cells_update;
use crate::count::lemma_count_cells_zero;
use crate::count::lemma_count_cells_pointwise_le;
use crate::reach::reachable;
use crate::reach::is_reachable;
use crate::reach::carve_path;
use crate::reach::lemma_reachable_refl;
use crate::rng::rand_range;
use crate::rng::shuffle_bytes;

/// Every cell of the grid is a wall or a path: the state during carving,
/// before any coin, player or exit is placed.
spec fn only_wall_path(g: Seq<Seq<Cell>>) -> bool {
    forall|r: int, c: int|
        0 <= r < g.len() && 0 <= c < g[r].len() ==> (#[trigger] g[r][c]) == Cell::Wall || g[r][c]
            == Cell::Path
}

/// The four two-step carving directions, in a fresh random order.
fn make_shuffled_dirs() -> (dirs: Vec<u8>)
    ensures
        dirs@.len() == 4,
        forall|j: int| 0 <= j < 4 ==> (#[trigger] dirs@[j]) < 4,
{
    let mut dirs: Vec<u8> = Vec::new();
    dirs.push(0);
    dirs.push(1);
    dirs.push(2);
    dirs.push(3);
    let ghost d0 = dirs@;
    shuffle_bytes(&mut dirs);
    proof {
        assert forall|j: int| 0 <= j < 4 implies (#[trigger] dirs@[j]) < 4 by {
            assert(d0.contains(dirs@[j]));
            let i = choose|i: int| 0 <= i < d0.len() && d0[i] == dirs@[j];
            assert(d0[i] < 4);
        };
    }
    dirs
}

/// One suspended carve position: where the carver stands, the random order
/// in which it tries the four directions, and how many it has tried.
struct CarveFrame {
    x: usize,
    y: usize,
    dirs: Vec<u8>,
    idx: usize,
}

/// A frame the carver can resume from: an interior position, four valid
/// direction codes, and at most four of them already tried.
spec fn frame_wf(f: CarveFrame, h: int, w: int) -> bool {
    &&& 1 <= f.x < h - 1
    &&& 1 <= f.y < w - 1
    &&& f.dirs@.len() == 4
    &&& forall|j: int| 0 <= j < 4 ==> (#[trigger] f.dirs@[j]) < 4
    &&& f.idx <= 4
}

/// How much work the carve stack still holds: each frame counts one for
/// being popped plus one for each direction it has not tried yet.
spec fn stack_measure(s: Seq<CarveFrame>) -> nat
    decreases s.len(),
{
    if s.len() == 0 {
        0
    } else {
        stack_measure(s.drop_last()) + (if s.last().idx < 5 {
            (5 - s.last().idx) as nat
        } else {
            0nat
        })
    }
}

/// Pushing a frame adds exactly its own contribution to the measure.
proof fn lemma_stack_measure_push(s: Seq<CarveFrame>, f: CarveFrame)
    ensures
        stack_measure(s.push(f)) == stack_measure(s) + (if f.idx < 5 {
            (5 - f.idx) as nat
        } else {
            0nat
        }),
{
    assert(s.push(f).drop_last() =~= s);
    assert(s.push(f).last() == f);
}

/// Carve corridors from `(1, 1)` by the randomized recursive backtracker,
/// run on an explicit stack so its depth does not depend on the grid size:
/// at each step the four two-cell displacements are tried in a shuffled
/// order, and a still-walled interior target is reached by carving the
/// intermediate cell and the target to `Path`.
#[verifier::loop_isolation(false)]
fn carve_maze(grid: &mut Grid)
    requires
        old(grid).wf(),
        only_wall_path(old(grid)@),
    ensures
        final(grid).wf(),
        final(grid).width == old(grid).width,
        final(grid).height == old(grid).height,
        only_wall_path(final(grid)@),
{
    let h = grid.height;
    let w = grid.width;
    grid.put(1, 1, Cell::Path);
    let mut stack: Vec<CarveFrame> = Vec::new();
    stack.push(CarveFrame { x: 1, y: 1, dirs: make_shuffled_dirs(), idx: 0 });
    while stack.len() > 0
        invariant
            grid.wf(),
            grid.width == w,
            grid.height == h,
            only_wall_path(grid@),
            forall|i: int|
                0 <= i < stack@.len() ==> frame_wf(#[trigger] stack@[i], h as int, w as int),
        decreases count_cells(grid@, Cell::Wall), stack_measure(stack@),
    {
        let ghost s0 = stack@;
        let frame = stack.pop().unwrap();
        proof {
            assert(stack@ =~= s0.drop_last());
        }
        if frame.idx < 4 {
            let d = frame.dirs[frame.idx];
            let x = frame.x;
            let y = frame.y;
            let mut has = false;
            let mut mx: usize = 0;
            let mut my: usize = 0;
            let mut tx: usize = 0;
            let mut ty: usize = 0;
            if d == 0 {
                if y < w - 3 {
                    has = true;
                    mx = x;
                    my = y + 1;
                    tx = x;
                    ty = y + 2;
                }
            } else if d == 1 {
                if x < h - 3 {
                    has = true;
                    mx = x + 1;
                    my = y;
                    tx = x + 2;
                    ty = y;
                }
            } else if d == 2 {
                if y >= 3 {
                    has = true;
                    mx = x;
                    my = y - 1;
                    tx = x;
                    ty = y - 2;
                }
            } else {
                if x >= 3 {
                    has = true;
                    mx = x - 1;
                    my = y;
                    tx = x - 2;
                    ty = y;
                }
            }
            let next = CarveFrame { x, y, dirs: frame.dirs, idx: frame.idx + 1 };
            if has && matches!(grid.at(tx, ty), Cell::Wall) {
                let ghost g0 = grid@;
                grid.put(mx, my, Cell::Path);
                let ghost g1 = grid@;
                grid.put(tx, ty, Cell::Path);
                proof {
                    lemma_count_cells_update(g0, Cell::Wall, mx as int, my as int, Cell::Path);
                    lemma_count_cells_update(g1, Cell::Wall, tx as int, ty as int, Cell::Path);
                }
                stack.push(next);
                stack.push(CarveFrame { x: tx, y: ty, dirs: make_shuffled_dirs(), idx: 0 });
            } else {
                stack.push(next);
                proof {
                    lemma_stack_measure_push(s0.drop_last(), next);
                }
            }
        }
    }
}

/// Convert `width / 3` randomly sampled interior walls to paths: extra
/// openings that add cycles and shortcuts to the carved spanning tree.
#[verifier::loop_isolation(false)]
fn add_openings(grid: &mut Grid)
    requires
        old(grid).wf(),
    ensures
        final(grid).wf(),
        final(grid).width == old(grid).width,
        final(grid).height == old(grid).height,
        forall|r: int, c: int|
            0 <= r < old(grid).height && 0 <= c < old(grid).width
                ==> #[trigger] final(grid)@[r][c] == old(grid)@[r][c]
                || final(grid)@[r][c] == Cell::Path,
{
    let count = grid.width / 3;
    let mut i: usize = 0;
    while i < count
        invariant
            grid.wf(),
            grid.width == old(grid).width,
            grid.height == old(grid).height,
            i <= count,
            forall|r: int, c: int|
                0 <= r < old(grid).height && 0 <= c < old(grid).width ==> #[trigger] grid@[r][c]
                    == old(grid)@[r][c] || grid@[r][c] == Cell::Path,
        decreases count - i,
    {
        let x = rand_range(1, grid.height - 1);
        let y = rand_range(1, grid.width - 1);
        if matches!(grid.at(x, y), Cell::Wall) {
            grid.put(x, y, Cell::Path);
        }
        i = i + 1;
    }
}

/// Place up to `target` coins, each on a randomly sampled interior cell
/// that currently holds a path. Sampling rejects other cells; every coin
/// gets a bounded number of tries, so placement terminates even when few
/// path cells exist, and the count placed may then fall short of `target`.
/// Every coin placed consumed one path cell, so the coins added never
/// exceed the path cells that were available.
#[verifier::loop_isolation(false)]
pub fn place_coins(grid: &mut Grid, target: usize) -> (placed: usize)
    requires
        old(grid).wf(),
    ensures
        final(grid).wf(),
        final(grid).width == old(grid).width,
        final(grid).height == old(grid).height,
        placed <= target,
        count_cells(final(grid)@, Cell::Coin) == count_cells(old(grid)@, Cell::Coin) + placed,
        count_cells(final(grid)@, Cell::Path) + placed == count_cells(old(grid)@, Cell::Path),
        forall|r: int, c: int|
            0 <= r < old(grid).height && 0 <= c < old(grid).width
                ==> #[trigger] final(grid)@[r][c] == old(grid)@[r][c]
                || (old(grid)@[r][c] == Cell::Path && final(grid)@[r][c] == Cell::Coin),
{
    let mut placed: usize = 0;
    let mut i: usize = 0;
    while i < target
        invariant
            grid.wf(),
            grid.width == old(grid).width,
            grid.height == old(grid).height,
            i <= target,
            placed <= i,
            count_cells(grid@, Cell::Coin) == count_cells(old(grid)@, Cell::Coin) + placed,
            count_cells(grid@, Cell::Path) + placed == count_cells(old(grid)@, Cell::Path),
            forall|r: int, c: int|
                0 <= r < old(grid).height && 0 <= c < old(grid).width ==> #[trigger] grid@[r][c]
                    == old(grid)@[r][c] || (old(grid)@[r][c] == Cell::Path && grid@[r][c]
                    == Cell::Coin),
        decreases target - i,
    {
        let mut t: usize = 0;
        let mut done = false;
        while t < 16 && !done
            invariant
                grid.wf(),
                grid.width == old(grid).width,
                grid.height == old(grid).height,
                t <= 16,
                placed <= i + 1,
                !done ==> placed <= i,
                count_cells(grid@, Cell::Coin) == count_cells(old(grid)@, Cell::Coin) + placed,
                count_cells(grid@, Cell::Path) + placed == count_cells(old(grid)@, Cell::Path),
                forall|r: int, c: int|
                    0 <= r < old(grid).height && 0 <= c < old(grid).width ==> #[trigger] grid@[r][c]
                        == old(grid)@[r][c] || (old(grid)@[r][c] == Cell::Path && grid@[r][c]
                        == Cell::Coin),
            decreases 16 - t,
        {
            let x = rand_range(1, grid.height - 1);
            let y = rand_range(1, grid.width - 1);
            if matches!(grid.at(x, y), Cell::Path) {
                let ghost gb = grid@;
                grid.put(x, y, Cell::Coin);
                proof {
                    lemma_count_cells_update(gb, Cell::Coin, x as int, y as int, Cell::Coin);
                    lemma_count_cells_update(gb, Cell::Path, x as int, y as int, Cell::Coin);
                }
                placed = placed + 1;
                done = true;
            }
            t = t + 1;
        }
        i = i + 1;
    }
    placed
}

/// Generate a maze of the given dimensions: carve corridors from `(1, 1)`,
/// add random openings, place up to `width / 2` coins, fix the player
/// start at `(1, 1)` and the exit at `(height - 2, width - 2)`, then check
/// that the exit is reachable from the start and repair the grid when it
/// is not. The returned grid always connects start and exit, and holds at
/// most `width / 2` coins.
#[verifier::loop_isolation(false)]
pub fn generate(width: usize, height: usize) -> (result: Result<Grid, MazeError>)
    requires
        (height as int) * (width as int) <= usize::MAX as int,
    ensures
        match result {
            Ok(g) => {
                &&& g.wf()
                &&& g.width == width
                &&& g.height == height
                &&& width >= 3
                &&& height >= 3
                &&& g@[1][1] == Cell::Player
                &&& ((height > 3 || width > 3) ==> g@[height - 2][width - 2] == Cell::Exit)
                &&& reachable(g@, 1, 1, height - 2, width - 2)
                &&& count_cells(g@, Cell::Coin) <= (width / 2) as nat
                &&& forall|r: int, c: int|
                    0 <= r < height && 0 <= c < width && !(r == 1 && c == 1) && !(r == height - 2
                        && c == width - 2) ==> ((#[trigger] g@[r][c]) == Cell::Wall || g@[r][c]
                        == Cell::Path || g@[r][c] == Cell::Coin)
            },
            Err(e) => e == MazeError::InvalidDimensions && (width < 3 || height < 3),
        },
{
    let mut g = match Grid::new(width, height) {
        Ok(g) => g,
        Err(e) => {
            return Err(e);
        },
    };
    carve_maze(&mut g);
    add_openings(&mut g);
    proof {
        lemma_count_cells_zero(g@, Cell::Coin);
    }
    let placed = place_coins(&mut g, width / 2);
    let er = height - 2;
    let ec = width - 2;
    let ghost g1 = g@;
    g.put(er, ec, Cell::Exit);
    proof {
        lemma_count_cells_update(g1, Cell::Coin, er as int, ec as int, Cell::Exit);
    }
    let ghost g2 = g@;
    g.put(1, 1, Cell::Player);
    proof {
        lemma_count_cells_update(g2, Cell::Coin, 1, 1, Cell::Player);
    }
    let start = (1usize, 1usize);
    let exit = (er, ec);
    if !is_reachable(&g, start, exit) {
        proof {
            if start == exit {
                lemma_reachable_refl(g@, 1, 1);
                assert(false);
            }
        }
        let ghost g3 = g@;
        carve_path(&mut g, start, exit);
        proof {
            lemma_count_cells_pointwise_le(g3, g@, Cell::Coin);
        }
    }
    Ok(g)
}

} // verus!
