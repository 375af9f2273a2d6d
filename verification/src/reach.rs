//! Reachability over the grid: the mathematical notion of a 4-connected
//! path through non-wall cells, a breadth-first checker that decides it,
//! and the greedy corridor carve that repairs a disconnected pair.

use vstd::prelude::*;

verus! {

use crate::grid::Cell;
use crate::grid::Grid;
use crate::count::count_cells;
use crate::count::lemma_count_cells_update;
use crate::count::lemma_count_cells_zero;
use crate::count::lemma_grid_count_le;
use crate::grid::lemma_row_major_bound;
use crate::grid::lemma_row_major_injective;
use vstd::pervasive::VecAdditionalExecFns;

/// The position `(r, c)` lies inside the grid.
pub open spec fn pos_in_bounds(g: Seq<Seq<Cell>>, r: int, c: int) -> bool {
    0 <= r < g.len() && 0 <= c < g[r].len()
}

/// The position lies inside the grid and its cell is not a wall.
pub open spec fn open_cell(g: Seq<Seq<Cell>>, r: int, c: int) -> bool {
    pos_in_bounds(g, r, c) && g[r][c] != Cell::Wall
}

/// 4-connected adjacency: the two positions differ by one step in exactly
/// one coordinate.
pub open spec fn adjacent(r1: int, c1: int, r2: int, c2: int) -> bool {
    ||| (r1 == r2 && (c2 == c1 + 1 || c2 == c1 - 1))
    ||| (c1 == c2 && (r2 == r1 + 1 || r2 == r1 - 1))
}

/// `p` is a walk from `(sr, sc)` to `(er, ec)`: it starts at the start,
/// ends at the end, each step is 4-connected, and every position after the
/// first is an in-bounds non-wall cell. The start cell itself may hold
/// anything: traversal begins there regardless of its role.
pub open spec fn is_path(
    g: Seq<Seq<Cell>>,
    p: Seq<(int, int)>,
    sr: int,
    sc: int,
    er: int,
    ec: int,
) -> bool {
    &&& p.len() >= 1
    &&& p[0] == (sr, sc)
    &&& p[p.len() - 1] == (er, ec)
    &&& forall|i: int|
        0 <= i < p.len() - 1 ==> adjacent((#[trigger] p[i]).0, p[i].1, p[i + 1].0, p[i + 1].1)
    &&& forall|i: int| 1 <= i < p.len() ==> open_cell(g, (#[trigger] p[i]).0, p[i].1)
}

/// `(er, ec)` can be reached from `(sr, sc)` by some 4-connected walk
/// through non-wall cells.
pub open spec fn reachable(g: Seq<Seq<Cell>>, sr: int, sc: int, er: int, ec: int) -> bool {
    exists|p: Seq<(int, int)>| is_path(g, p, sr, sc, er, ec)
}

/// Every position is reachable from itself, by the one-position walk.
pub proof fn lemma_reachable_refl(g: Seq<Seq<Cell>>, sr: int, sc: int)
    ensures
        reachable(g, sr, sc, sr, sc),
{
    let p: Seq<(int, int)> = seq![(sr, sc)];
    assert(is_path(g, p, sr, sc, sr, sc));
}

/// Reachability extends across one step onto an adjacent open cell.
pub proof fn lemma_reachable_step(
    g: Seq<Seq<Cell>>,
    sr: int,
    sc: int,
    r: int,
    c: int,
    r2: int,
    c2: int,
)
    requires
        reachable(g, sr, sc, r, c),
        adjacent(r, c, r2, c2),
        open_cell(g, r2, c2),
    ensures
        reachable(g, sr, sc, r2, c2),
{
    let p = choose|p: Seq<(int, int)>| is_path(g, p, sr, sc, r, c);
    let p2 = p.push((r2, c2));
    assert forall|i: int|
        0 <= i < p2.len() - 1 implies adjacent(
        (#[trigger] p2[i]).0,
        p2[i].1,
        p2[i + 1].0,
        p2[i + 1].1,
    ) by {
        if i < p.len() - 1 {
            assert(p2[i] == p[i] && p2[i + 1] == p[i + 1]);
        } else {
            assert(p2[i] == p[p.len() - 1] && p2[i + 1] == (r2, c2));
        }
    };
    assert(is_path(g, p2, sr, sc, r2, c2));
}

/// All open neighbors of `(r, c)` are marked in `vis`.
spec fn neighbors_marked(
    g: Seq<Seq<Cell>>,
    vis: Seq<Seq<bool>>,
    r: int,
    c: int,
) -> bool {
    forall|r2: int, c2: int|
        adjacent(r, c, r2, c2) && #[trigger] open_cell(g, r2, c2) ==> vis[r2][c2]
}

/// The marked set is closed: every marked position has all its open
/// neighbors marked too.
spec fn marks_closed(g: Seq<Seq<Cell>>, vis: Seq<Seq<bool>>) -> bool {
    forall|r: int, c: int|
        pos_in_bounds(g, r, c) && #[trigger] vis[r][c] ==> neighbors_marked(g, vis, r, c)
}

/// A walk that starts at a marked position inside a closed marked set ends
/// at a marked position.
proof fn lemma_closed_covers_path(
    g: Seq<Seq<Cell>>,
    vis: Seq<Seq<bool>>,
    p: Seq<(int, int)>,
    sr: int,
    sc: int,
    er: int,
    ec: int,
)
    requires
        marks_closed(g, vis),
        is_path(g, p, sr, sc, er, ec),
        pos_in_bounds(g, sr, sc),
        vis[sr][sc],
    ensures
        vis[er][ec],
    decreases p.len(),
{
    if p.len() == 1 {
        assert(er == sr && ec == sc);
    } else {
        assert(adjacent((p[0int]).0, p[0int].1, p[1int].0, p[1int].1));
        assert(open_cell(g, (p[1]).0, p[1].1));
        assert(neighbors_marked(g, vis, sr, sc));
        assert(vis[p[1].0][p[1].1]);
        let p2 = p.subrange(1, p.len() as int);
        assert forall|i: int|
            0 <= i < p2.len() - 1 implies adjacent(
            (#[trigger] p2[i]).0,
            p2[i].1,
            p2[i + 1].0,
            p2[i + 1].1,
        ) by {
            assert(p2[i] == p[i + 1] && p2[i + 1] == p[i + 2]);
            assert(adjacent((p[i + 1]).0, p[i + 1].1, p[i + 1 + 1].0, p[i + 1 + 1].1));
        };
        assert forall|i: int| 1 <= i < p2.len() implies open_cell(
            g,
            (#[trigger] p2[i]).0,
            p2[i].1,
        ) by {
            assert(p2[i] == p[i + 1]);
            assert(open_cell(g, (p[i + 1]).0, p[i + 1].1));
        };
        assert(is_path(g, p2, p[1].0, p[1].1, er, ec));
        lemma_closed_covers_path(g, vis, p2, p[1].0, p[1].1, er, ec);
    }
}

/// The visited marks of the breadth-first traversal: one flag per grid
/// position, stored row-major like the grid itself.
struct Marks {
    flags: Vec<bool>,
    width: usize,
    height: usize,
}

impl View for Marks {
    type V = Seq<Seq<bool>>;

    closed spec fn view(&self) -> Seq<Seq<bool>> {
        Seq::new(
            self.height as nat,
            |r: int| Seq::new(self.width as nat, |c: int| self.flags@[r * (self.width as int) + c]),
        )
    }
}

impl Marks {
    spec fn wf(&self) -> bool {
        self.flags@.len() == (self.height as int) * (self.width as int)
    }

    /// All positions start unmarked.
    fn new(width: usize, height: usize) -> (marks: Marks)
        requires
            (height as int) * (width as int) <= usize::MAX as int,
        ensures
            marks.wf(),
            marks.width == width,
            marks.height == height,
            forall|r: int, c: int|
                0 <= r < height && 0 <= c < width ==> !(#[trigger] marks@[r][c]),
    {
        let total: usize = height * width;
        let mut flags: Vec<bool> = Vec::new();
        let mut i: usize = 0;
        while i < total
            invariant
                i <= total,
                flags@.len() == i,
                forall|j: int| 0 <= j < i ==> !flags@[j],
            decreases total - i,
        {
            flags.push(false);
            i = i + 1;
        }
        let marks = Marks { flags, width, height };
        proof {
            assert forall|r: int, c: int|
                0 <= r < height && 0 <= c < width implies !(#[trigger] marks@[r][c]) by {
                lemma_row_major_bound(r, c, height as int, width as int);
            };
        }
        marks
    }

    fn get(&self, r: usize, c: usize) -> (m: bool)
        requires
            self.wf(),
            r < self.height,
            c < self.width,
        ensures
            m == self@[r as int][c as int],
    {
        let _n = self.flags.len();
        proof {
            lemma_row_major_bound(r as int, c as int, self.height as int, self.width as int);
        }
        self.flags[r * self.width + c]
    }

    fn mark(&mut self, r: usize, c: usize)
        requires
            old(self).wf(),
            r < old(self).height,
            c < old(self).width,
        ensures
            final(self).wf(),
            final(self).width == old(self).width,
            final(self).height == old(self).height,
            final(self)@ == old(self)@.update(
                r as int,
                old(self)@[r as int].update(c as int, true),
            ),
    {
        let _n = self.flags.len();
        proof {
            lemma_row_major_bound(r as int, c as int, self.height as int, self.width as int);
        }
        let i = r * self.width + c;
        self.flags.set(i, true);
        proof {
            let w = self.width as int;
            let h = self.height as int;
            let target = old(self)@.update(r as int, old(self)@[r as int].update(c as int, true));
            assert forall|r2: int| 0 <= r2 < h implies self@[r2] =~= target[r2] by {
                assert forall|c2: int| 0 <= c2 < w implies self@[r2][c2] == target[r2][c2] by {
                    lemma_row_major_bound(r2, c2, h, w);
                    if r2 * w + c2 == r as int * w + c as int {
                        lemma_row_major_injective(r2, c2, r as int, c as int, w);
                    }
                };
            };
            assert(self@ =~~= target);
        }
    }
}

/// The structural facts the breadth-first traversal maintains between the
/// grid, the visited marks and the queue: every queue entry is an in-bounds
/// marked position, every marked position stands somewhere in the queue and
/// is reachable from the start, and the queue is as long as the number of
/// marked positions.
spec fn bfs_inv(
    g: Seq<Seq<Cell>>,
    h: int,
    w: int,
    vis: Seq<Seq<bool>>,
    q: Seq<(usize, usize)>,
    sr: int,
    sc: int,
) -> bool {
    &&& q.len() == count_cells(vis, true)
    &&& forall|i: int|
        0 <= i < q.len() ==> (#[trigger] q[i]).0 < h && q[i].1 < w
            && vis[q[i].0 as int][q[i].1 as int]
    &&& forall|r: int, c: int|
        0 <= r < h && 0 <= c < w && #[trigger] vis[r][c] ==> exists|i: int|
            0 <= i < q.len() && (#[trigger] q[i]).0 == r && q[i].1 == c
    &&& forall|r: int, c: int|
        0 <= r < h && 0 <= c < w && #[trigger] vis[r][c] ==> reachable(g, sr, sc, r, c)
}

/// Mark and enqueue one neighbor of a dequeued position, when it is open
/// and not yet marked. Everything `bfs_inv` states is preserved, the queue
/// only grows at its back, marks only get set, and afterwards the neighbor
/// is marked whenever it is open.
fn try_visit(
    grid: &Grid,
    vis: &mut Marks,
    queue: &mut Vec<(usize, usize)>,
    nr: usize,
    nc: usize,
    pr: usize,
    pc: usize,
    start: (usize, usize),
)
    requires
        grid.wf(),
        old(vis).wf(),
        old(vis).width == grid.width,
        old(vis).height == grid.height,
        nr < grid.height,
        nc < grid.width,
        start.0 < grid.height,
        start.1 < grid.width,
        adjacent(pr as int, pc as int, nr as int, nc as int),
        reachable(grid@, start.0 as int, start.1 as int, pr as int, pc as int),
        bfs_inv(
            grid@,
            grid.height as int,
            grid.width as int,
            old(vis)@,
            old(queue)@,
            start.0 as int,
            start.1 as int,
        ),
    ensures
        final(vis).wf(),
        final(vis).width == old(vis).width,
        final(vis).height == old(vis).height,
        final(queue)@.len() >= old(queue)@.len(),
        forall|i: int| 0 <= i < old(queue)@.len() ==> final(queue)@[i] == old(queue)@[i],
        forall|r: int, c: int|
            0 <= r < grid.height && 0 <= c < grid.width && #[trigger] old(vis)@[r][c]
                ==> final(vis)@[r][c],
        bfs_inv(
            grid@,
            grid.height as int,
            grid.width as int,
            final(vis)@,
            final(queue)@,
            start.0 as int,
            start.1 as int,
        ),
        open_cell(grid@, nr as int, nc as int) ==> final(vis)@[nr as int][nc as int],
{
    let ghost g = grid@;
    let ghost h = grid.height as int;
    let ghost w = grid.width as int;
    let cell = grid.at(nr, nc);
    if cell != Cell::Wall {
        if !vis.get(nr, nc) {
            let ghost vis0 = vis@;
            let ghost q0 = queue@;
            vis.mark(nr, nc);
            queue.push((nr, nc));
            proof {
                lemma_count_cells_update(vis0, true, nr as int, nc as int, true);
                lemma_reachable_step(
                    g,
                    start.0 as int,
                    start.1 as int,
                    pr as int,
                    pc as int,
                    nr as int,
                    nc as int,
                );
                let q1 = queue@;
                let vis1 = vis@;
                assert forall|r: int, c: int|
                    0 <= r < h && 0 <= c < w && #[trigger] vis1[r][c] implies exists|i: int|
                    0 <= i < q1.len() && (#[trigger] q1[i]).0 == r && q1[i].1 == c by {
                    if r == nr as int && c == nc as int {
                        let i = q1.len() - 1;
                        assert(0 <= i < q1.len() && (q1[i]).0 == r && q1[i].1 == c);
                    } else {
                        assert(vis0[r][c]);
                        let i = choose|i: int|
                            0 <= i < q0.len() && (#[trigger] q0[i]).0 == r && q0[i].1 == c;
                        assert(0 <= i < q1.len() && (q1[i]).0 == r && q1[i].1 == c);
                    }
                };
            }
        }
    }
}

/// Breadth-first traversal from `start` over 4-connected neighbors,
/// treating every non-wall cell as traversable: decides whether `end` can
/// be reached from `start`. Cells are never revisited, and the traversal
/// touches each position at most once.
#[verifier::loop_isolation(false)]
pub fn is_reachable(grid: &Grid, start: (usize, usize), end: (usize, usize)) -> (found: bool)
    requires
        grid.wf(),
        start.0 < grid.height,
        start.1 < grid.width,
        end.0 < grid.height,
        end.1 < grid.width,
    ensures
        found == reachable(grid@, start.0 as int, start.1 as int, end.0 as int, end.1 as int),
{
    let ghost g = grid@;
    let h = grid.height;
    let w = grid.width;
    let n = grid.cells.len();
    let sr = start.0;
    let sc = start.1;
    let mut vis = Marks::new(w, h);
    proof {
        lemma_count_cells_zero(vis@, true);
    }
    let ghost vis0 = vis@;
    vis.mark(sr, sc);
    let mut queue: Vec<(usize, usize)> = Vec::new();
    queue.push(start);
    proof {
        lemma_count_cells_update(vis0, true, sr as int, sc as int, true);
        lemma_reachable_refl(g, sr as int, sc as int);
        lemma_grid_count_le(vis@, true, h as int, w as int);
        assert forall|r: int, c: int|
            0 <= r < h && 0 <= c < w && #[trigger] vis@[r][c] implies exists|i: int|
            0 <= i < queue@.len() && (#[trigger] queue@[i]).0 == r && queue@[i].1 == c by {
            assert(r == sr as int && c == sc as int);
            assert((queue@[0]).0 == r && queue@[0].1 == c);
        };
    }
    let mut head: usize = 0;
    while head < queue.len()
        invariant
            vis.wf(),
            vis.width == w,
            vis.height == h,
            head <= queue@.len(),
            queue@.len() <= n,
            bfs_inv(g, h as int, w as int, vis@, queue@, sr as int, sc as int),
            vis@[sr as int][sc as int],
            forall|i: int|
                0 <= i < head ==> neighbors_marked(
                    g,
                    vis@,
                    (#[trigger] queue@[i]).0 as int,
                    queue@[i].1 as int,
                ),
            forall|i: int|
                0 <= i < head ==> !((#[trigger] queue@[i]).0 == end.0 && queue@[i].1 == end.1),
        decreases n - head,
    {
        let pos = queue[head];
        let pr = pos.0;
        let pc = pos.1;
        if pr == end.0 && pc == end.1 {
            return true;
        }
        if pr > 0 {
            try_visit(grid, &mut vis, &mut queue, pr - 1, pc, pr, pc, start);
        }
        if pr + 1 < h {
            try_visit(grid, &mut vis, &mut queue, pr + 1, pc, pr, pc, start);
        }
        if pc > 0 {
            try_visit(grid, &mut vis, &mut queue, pr, pc - 1, pr, pc, start);
        }
        if pc + 1 < w {
            try_visit(grid, &mut vis, &mut queue, pr, pc + 1, pr, pc, start);
        }
        proof {
            assert forall|r2: int, c2: int|
                adjacent(pr as int, pc as int, r2, c2) && #[trigger] open_cell(
                    g,
                    r2,
                    c2,
                ) implies vis@[r2][c2] by {
                assert(0 <= r2 < h && 0 <= c2 < w);
            };
            lemma_grid_count_le(vis@, true, h as int, w as int);
        }
        head = head + 1;
    }
    proof {
        assert forall|r: int, c: int|
            pos_in_bounds(g, r, c) && #[trigger] vis@[r][c] implies neighbors_marked(
            g,
            vis@,
            r,
            c,
        ) by {
            let i = choose|i: int|
                0 <= i < queue@.len() && (#[trigger] queue@[i]).0 == r && queue@[i].1 == c;
            assert(neighbors_marked(g, vis@, (queue@[i]).0 as int, queue@[i].1 as int));
        };
        if reachable(g, sr as int, sc as int, end.0 as int, end.1 as int) {
            let p = choose|p: Seq<(int, int)>|
                is_path(g, p, sr as int, sc as int, end.0 as int, end.1 as int);
            lemma_closed_covers_path(g, vis@, p, sr as int, sc as int, end.0 as int, end.1 as int);
            let i = choose|i: int|
                0 <= i < queue@.len() && (#[trigger] queue@[i]).0 == end.0 && queue@[i].1 == end.1;
            assert(false);
        }
    }
    false
}

/// The distance between two coordinates, ignoring direction.
spec fn gap(a: int, b: int) -> nat {
    if a >= b {
        (a - b) as nat
    } else {
        (b - a) as nat
    }
}

/// Carve a corridor from `start` to `end`, converting each visited cell to
/// `Path` and restoring the end cell to `Exit`: the greedy repair applied
/// when the generated maze fails the reachability check. It walks one step
/// toward `end` at a time, flipping a coin between the row step and the
/// column step while both close a gap. Afterwards `end` is reachable from
/// `start`; every other cell is unchanged or has become `Path`, and the
/// start cell itself is untouched when the two positions differ.
#[verifier::loop_isolation(false)]
pub fn carve_path(grid: &mut Grid, start: (usize, usize), end: (usize, usize))
    requires
        old(grid).wf(),
        start.0 < old(grid).height,
        start.1 < old(grid).width,
        end.0 < old(grid).height,
        end.1 < old(grid).width,
    ensures
        final(grid).wf(),
        final(grid).width == old(grid).width,
        final(grid).height == old(grid).height,
        reachable(final(grid)@, start.0 as int, start.1 as int, end.0 as int, end.1 as int),
        final(grid)@[end.0 as int][end.1 as int] == Cell::Exit,
        forall|r: int, c: int|
            0 <= r < old(grid).height && 0 <= c < old(grid).width && !(r == end.0 && c == end.1)
                ==> final(grid)@[r][c] == old(grid)@[r][c] || final(grid)@[r][c] == Cell::Path,
        start != end ==> final(grid)@[start.0 as int][start.1 as int] == old(
            grid,
        )@[start.0 as int][start.1 as int],
{
    let sr = start.0;
    let sc = start.1;
    let er = end.0;
    let ec = end.1;
    let ghost d0 = gap(er as int, sr as int) + gap(ec as int, sc as int);
    let mut cr = sr;
    let mut cc = sc;
    let ghost mut p: Seq<(int, int)> = seq![(sr as int, sc as int)];
    while !(cr == er && cc == ec)
        invariant
            grid.wf(),
            grid.width == old(grid).width,
            grid.height == old(grid).height,
            cr < grid.height,
            cc < grid.width,
            p.len() >= 1,
            p[0] == (sr as int, sc as int),
            p[p.len() - 1] == (cr as int, cc as int),
            forall|i: int|
                0 <= i < p.len() - 1 ==> adjacent(
                    (#[trigger] p[i]).0,
                    p[i].1,
                    p[i + 1].0,
                    p[i + 1].1,
                ),
            forall|i: int| 1 <= i < p.len() ==> open_cell(grid@, (#[trigger] p[i]).0, p[i].1),
            forall|r: int, c: int|
                0 <= r < grid.height && 0 <= c < grid.width ==> #[trigger] grid@[r][c] == old(
                    grid,
                )@[r][c] || grid@[r][c] == Cell::Path,
            start != end ==> grid@[sr as int][sc as int] == old(grid)@[sr as int][sc as int],
            gap(er as int, cr as int) + gap(ec as int, cc as int) <= d0,
        decreases gap(er as int, cr as int) + gap(ec as int, cc as int),
    {
        let move_row: bool;
        if cr != er && cc != ec {
            move_row = crate::rng::coin_flip();
        } else if cr != er {
            move_row = true;
        } else {
            move_row = false;
        }
        if move_row {
            if er > cr {
                cr = cr + 1;
            } else {
                cr = cr - 1;
            }
        } else {
            if ec > cc {
                cc = cc + 1;
            } else {
                cc = cc - 1;
            }
        }
        let ghost before = grid@;
        grid.put(cr, cc, Cell::Path);
        proof {
            p = p.push((cr as int, cc as int));
            assert forall|i: int| 1 <= i < p.len() implies open_cell(
                grid@,
                (#[trigger] p[i]).0,
                p[i].1,
            ) by {
                if i < p.len() - 1 {
                    assert(open_cell(before, (p[i]).0, p[i].1));
                }
            };
        }
    }
    let ghost before_exit = grid@;
    grid.put(er, ec, Cell::Exit);
    proof {
        assert forall|i: int| 1 <= i < p.len() implies open_cell(
            grid@,
            (#[trigger] p[i]).0,
            p[i].1,
        ) by {
            assert(open_cell(before_exit, (p[i]).0, p[i].1));
        };
        assert(is_path(grid@, p, sr as int, sc as int, er as int, ec as int));
    }
}

} // verus!
