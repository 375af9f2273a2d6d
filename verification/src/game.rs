//! The game state: a grid owned for the session, the player and exit
//! positions, and the single movement transition with its counters.

use vstd::prelude::*;

verus! {

use crate::grid::Cell;
use crate::grid::Grid;
use crate::reach::pos_in_bounds;

/// A movement direction, one unit step along one axis.
#[derive(Clone, Copy, PartialEq, Eq, Structural, Debug)]
pub enum Direction {
    Up,
    Down,
    Left,
    Right,
}

/// The position one step away from `(r, c)` in the given direction,
/// computed over unbounded integers so a step off the grid is visible as a
/// negative or too-large coordinate.
pub open spec fn step_target(r: int, c: int, dir: Direction) -> (int, int) {
    match dir {
        Direction::Up => (r - 1, c),
        Direction::Down => (r + 1, c),
        Direction::Left => (r, c - 1),
        Direction::Right => (r, c + 1),
    }
}

/// A running session: the maze, where the player and the exit stand, and
/// how many coins were collected and steps taken.
pub struct Game {
    /// The maze being played.
    pub maze: Grid,
    /// The player's current position, kept in bounds.
    pub player_pos: (usize, usize),
    /// The exit's position, fixed for the whole session.
    pub exit_pos: (usize, usize),
    /// Coins collected since the session started.
    pub coins: usize,
    /// Successful (non-blocked) steps since the session started.
    pub moves: usize,
}

impl Game {
    /// The session invariant: both positions lie inside a well-formed
    /// grid, the cell under the player holds the player, and no other cell
    /// does. The exit cell keeps its role until the player steps onto it;
    /// once the player has passed over it, the cell records the player's
    /// trail instead, while `exit_pos` still records the logical exit
    /// coordinate.
    pub open spec fn wf(&self) -> bool {
        &&& self.maze.wf()
        &&& self.player_pos.0 < self.maze.height
        &&& self.player_pos.1 < self.maze.width
        &&& self.exit_pos.0 < self.maze.height
        &&& self.exit_pos.1 < self.maze.width
        &&& self.maze@[self.player_pos.0 as int][self.player_pos.1 as int] == Cell::Player
        &&& forall|r: int, c: int|
            pos_in_bounds(self.maze@, r, c) && !(r == self.player_pos.0 && c == self.player_pos.1)
                ==> (#[trigger] self.maze@[r][c]) != Cell::Player
    }

    /// Start a session by consuming a validated grid: the player must
    /// already stand at `start` and nowhere else, and both positions must
    /// be in bounds.
    pub fn new(maze: Grid, start: (usize, usize), exit: (usize, usize)) -> (game: Game)
        requires
            maze.wf(),
            start.0 < maze.height,
            start.1 < maze.width,
            exit.0 < maze.height,
            exit.1 < maze.width,
            maze@[start.0 as int][start.1 as int] == Cell::Player,
            forall|r: int, c: int|
                pos_in_bounds(maze@, r, c) && !(r == start.0 && c == start.1)
                    ==> (#[trigger] maze@[r][c]) != Cell::Player,
        ensures
            game.wf(),
            game.maze == maze,
            game.player_pos == start,
            game.exit_pos == exit,
            game.coins == 0,
            game.moves == 0,
    {
        Game { maze, player_pos: start, exit_pos: exit, coins: 0, moves: 0 }
    }

    /// Move the player one step in the given direction. A step off the
    /// grid or into a wall is a no-op that changes nothing. Otherwise the
    /// vacated cell becomes a path, the target cell becomes the player,
    /// the step counter advances, and a coin on the target is collected.
    /// Returns whether the player stands on the exit after the call; the
    /// session is not locked once that holds, so further calls keep
    /// moving the player.
    pub fn move_player(&mut self, dir: Direction) -> (reached: bool)
        requires
            old(self).wf(),
            old(self).moves < usize::MAX,
            old(self).coins < usize::MAX,
        ensures
            final(self).wf(),
            final(self).exit_pos == old(self).exit_pos,
            final(self).maze.width == old(self).maze.width,
            final(self).maze.height == old(self).maze.height,
            reached == (final(self).player_pos == final(self).exit_pos),
            ({
                let pr = old(self).player_pos.0 as int;
                let pc = old(self).player_pos.1 as int;
                let g = old(self).maze@;
                let t = step_target(pr, pc, dir);
                if !pos_in_bounds(g, t.0, t.1) || g[t.0][t.1] == Cell::Wall {
                    *final(self) == *old(self)
                } else {
                    &&& final(self).player_pos.0 == t.0
                    &&& final(self).player_pos.1 == t.1
                    &&& final(self).moves == old(self).moves + 1
                    &&& final(self).coins == old(self).coins + (if g[t.0][t.1] == Cell::Coin {
                        1int
                    } else {
                        0int
                    })
                    &&& final(self).maze@[pr][pc] == Cell::Path
                    &&& final(self).maze@[t.0][t.1] == Cell::Player
                    &&& forall|r: int, c: int|
                        pos_in_bounds(g, r, c) && !(r == pr && c == pc) && !(r == t.0 && c == t.1)
                            ==> #[trigger] final(self).maze@[r][c] == g[r][c]
                }
            }),
    {
        let (pr, pc) = self.player_pos;
        let h = self.maze.height;
        let w = self.maze.width;
        let mut ok = true;
        let mut tr = pr;
        let mut tc = pc;
        match dir {
            Direction::Up => {
                if pr == 0 {
                    ok = false;
                } else {
                    tr = pr - 1;
                }
            },
            Direction::Down => {
                if pr + 1 >= h {
                    ok = false;
                } else {
                    tr = pr + 1;
                }
            },
            Direction::Left => {
                if pc == 0 {
                    ok = false;
                } else {
                    tc = pc - 1;
                }
            },
            Direction::Right => {
                if pc + 1 >= w {
                    ok = false;
                } else {
                    tc = pc + 1;
                }
            },
        }
        if ok {
            let cell = self.maze.at(tr, tc);
            if !matches!(cell, Cell::Wall) {
                if matches!(cell, Cell::Coin) {
                    self.coins = self.coins + 1;
                }
                self.maze.put(pr, pc, Cell::Path);
                self.maze.put(tr, tc, Cell::Player);
                self.player_pos = (tr, tc);
                self.moves = self.moves + 1;
            }
        }
        self.player_pos.0 == self.exit_pos.0 && self.player_pos.1 == self.exit_pos.1
    }

    /// The number of coins collected so far.
    pub fn coin_count(&self) -> (n: usize)
        ensures
            n == self.coins,
    {
        self.coins
    }

    /// The number of successful steps taken so far.
    pub fn move_count(&self) -> (n: usize)
        ensures
            n == self.moves,
    {
        self.moves
    }

    /// Where the player currently stands.
    pub fn player_position(&self) -> (p: (usize, usize))
        ensures
            p == self.player_pos,
    {
        self.player_pos
    }

    /// Where the exit stands.
    pub fn exit_position(&self) -> (p: (usize, usize))
        ensures
            p == self.exit_pos,
    {
        self.exit_pos
    }

    /// A read-only view of the maze, for rendering.
    pub fn grid(&self) -> (g: &Grid)
        ensures
            *g == self.maze,
    {
        &self.maze
    }
}

} // verus!
