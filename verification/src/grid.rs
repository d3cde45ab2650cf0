//! The world: a fixed-size rectangle of cells, each dead (0) or alive (1).

use vstd::prelude::*;

verus! {

/// Width of the world in pixels.
pub const X_MAX: usize = 1600;

/// Height of the world in pixels.
pub const Y_MAX: usize = 1200;

/// Edge of one cell in pixels.
pub const SIZE: usize = 6;

/// Width of the world in cells.
pub const NUM_X: usize = X_MAX / SIZE;

/// Height of the world in cells.
pub const NUM_Y: usize = Y_MAX / SIZE;

/// A world has `NUM_X` columns of `NUM_Y` cells, and every cell is 0 or 1.
pub open spec fn well_shaped(g: Seq<Seq<u8>>) -> bool {
    &&& g.len() == NUM_X
    &&& forall|x: int| 0 <= x < NUM_X ==> (#[trigger] g[x]).len() == NUM_Y
    &&& forall|x: int, y: int| 0 <= x < NUM_X && 0 <= y < NUM_Y ==> #[trigger] g[x][y] <= 1
}

/// The world in which nothing lives.
pub open spec fn all_dead() -> Seq<Seq<u8>> {
    Seq::new(NUM_X as nat, |x: int| Seq::new(NUM_Y as nat, |y: int| 0u8))
}

/// The state of the cell at `(x, y)`; whatever lies beyond the border is dead.
pub open spec fn state_at(g: Seq<Seq<u8>>, x: int, y: int) -> int {
    if 0 <= x < NUM_X && 0 <= y < NUM_Y {
        g[x][y] as int
    } else {
        0
    }
}

/// The world after the cell at `(x, y)` was given the state `v`.
pub open spec fn with_cell(g: Seq<Seq<u8>>, x: int, y: int, v: u8) -> Seq<Seq<u8>> {
    g.update(x, g[x].update(y, v))
}

/// The cell-state buffer, indexed by column `x` and row `y`.
#[derive(Clone, Debug, PartialEq, Eq)]
pub struct Grid {
    cells: Vec<u8>,
}

impl View for Grid {
    type V = Seq<Seq<u8>>;

    closed spec fn view(&self) -> Seq<Seq<u8>> {
        Seq::new(
            NUM_X as nat,
            |x: int| Seq::new(NUM_Y as nat, |y: int| self.cells@[x * NUM_Y + y]),
        )
    }
}

impl Grid {
    /// The buffer holds one cell for each place of the world.
    pub closed spec fn stored(&self) -> bool {
        self.cells@.len() == NUM_X * NUM_Y
    }

    /// The invariant of every grid that this library hands out.
    pub open spec fn wf(&self) -> bool {
        self.stored() && well_shaped(self@)
    }

    /// A world in which nothing lives.
    pub fn new() -> (g: Grid)
        ensures
            g.wf(),
            g@ == all_dead(),
    {
        let g = Grid { cells: vec![0u8; NUM_X * NUM_Y] };
        assert(g@ =~~= all_dead());
        g
    }

    /// The state of the cell at `(x, y)`.
    pub fn get(&self, x: usize, y: usize) -> (v: u8)
        requires
            self.wf(),
            x < NUM_X,
            y < NUM_Y,
        ensures
            v == self@[x as int][y as int],
            v <= 1,
    {
        self.cells[x * NUM_Y + y]
    }

    /// Makes the cell at `(x, y)` alive or dead and leaves every other cell as it was.
    pub fn set(&mut self, x: usize, y: usize, alive: bool)
        requires
            old(self).wf(),
            x < NUM_X,
            y < NUM_Y,
        ensures
            final(self).wf(),
            final(self)@ == with_cell(old(self)@, x as int, y as int, if alive { 1u8 } else { 0u8 }),
    {
        let v: u8 = if alive { 1 } else { 0 };
        self.cells.set(x * NUM_Y + y, v);
        proof {
            let want = with_cell(old(self)@, x as int, y as int, v);
            assert forall|a: int, b: int| 0 <= a < NUM_X && 0 <= b < NUM_Y implies #[trigger] self@[a][b]
                == want[a][b] by {
                if a != x || b != y {
                    assert(a * NUM_Y + b != x * NUM_Y + y);
                }
            }
            assert(self@ =~~= want);
        }
    }
}

} // verus!
