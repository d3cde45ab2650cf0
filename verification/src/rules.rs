//! The rule of the game: every cell of the next generation is decided by the
//! eight cells around it in the present one. The border is hard: nothing
//! lives beyond it and the world does not wrap around.

use vstd::prelude::*;
use crate::grid::{Grid, NUM_X, NUM_Y, all_dead, state_at, well_shaped};

verus! {

/// The number of living cells among the up to eight neighbours of `(x, y)`.
pub open spec fn neighbor_count(g: Seq<Seq<u8>>, x: int, y: int) -> int {
    state_at(g, x - 1, y - 1) + state_at(g, x - 1, y) + state_at(g, x - 1, y + 1)
        + state_at(g, x, y - 1) + state_at(g, x, y + 1)
        + state_at(g, x + 1, y - 1) + state_at(g, x + 1, y) + state_at(g, x + 1, y + 1)
}

/// What becomes of a cell in state `cur` that has `n` living neighbours: a
/// living cell lives on with two or three of them, a dead one comes to life
/// with exactly three.
pub open spec fn next_state(cur: u8, n: int) -> u8 {
    if cur == 1 {
        if n == 2 || n == 3 { 1 } else { 0 }
    } else {
        if n == 3 { 1 } else { 0 }
    }
}

/// The generation that follows `g`: every cell is decided from `g` alone.
pub open spec fn step(g: Seq<Seq<u8>>) -> Seq<Seq<u8>> {
    Seq::new(
        NUM_X as nat,
        |x: int| Seq::new(NUM_Y as nat, |y: int| next_state(g[x][y], neighbor_count(g, x, y))),
    )
}

/// Counts the living neighbours of the cell at `(x, y)`.
pub fn count_neighbors(world: &Grid, x: usize, y: usize) -> (count: u8)
    requires
        world.wf(),
        x < NUM_X,
        y < NUM_Y,
    ensures
        count == neighbor_count(world@, x as int, y as int),
        count <= 8,
{
    let mut count: u8 = 0;
    if x > 0 {
        count = count + world.get(x - 1, y);
    }
    if x > 0 && y > 0 {
        count = count + world.get(x - 1, y - 1);
    }
    if x > 0 && y < NUM_Y - 1 {
        count = count + world.get(x - 1, y + 1);
    }
    if x < NUM_X - 1 && y > 0 {
        count = count + world.get(x + 1, y - 1);
    }
    if x < NUM_X - 1 {
        count = count + world.get(x + 1, y);
    }
    if x < NUM_X - 1 && y < NUM_Y - 1 {
        count = count + world.get(x + 1, y + 1);
    }
    if y > 0 {
        count = count + world.get(x, y - 1);
    }
    if y < NUM_Y - 1 {
        count = count + world.get(x, y + 1);
    }
    count
}

/// Computes the next generation as a new grid; `world` is only read, so every
/// cell is decided from the same snapshot.
pub fn generation(world: &Grid) -> (new_world: Grid)
    requires
        world.wf(),
    ensures
        new_world.wf(),
        new_world@ == step(world@),
{
    let mut new_world = Grid::new();
    let mut x: usize = 0;
    while x < NUM_X
        invariant
            x <= NUM_X,
            world.wf(),
            new_world.wf(),
            forall|a: int, b: int|
                0 <= a < x && 0 <= b < NUM_Y ==> #[trigger] new_world@[a][b] == step(world@)[a][b],
        decreases NUM_X - x,
    {
        let mut y: usize = 0;
        while y < NUM_Y
            invariant
                x < NUM_X,
                y <= NUM_Y,
                world.wf(),
                new_world.wf(),
                forall|a: int, b: int|
                    0 <= a < x && 0 <= b < NUM_Y ==> #[trigger] new_world@[a][b] == step(
                        world@,
                    )[a][b],
                forall|b: int| 0 <= b < y ==> #[trigger] new_world@[x as int][b] == step(world@)[x as int][b],
            decreases NUM_Y - y,
        {
            let count = count_neighbors(world, x, y);
            let alive = if world.get(x, y) == 1 {
                count == 2 || count == 3
            } else {
                count == 3
            };
            new_world.set(x, y, alive);
            y += 1;
        }
        x += 1;
    }
    assert(new_world@ =~~= step(world@));
    new_world
}

/// A world in which nothing lives stays that way.
pub proof fn lemma_dead_world_stays_dead()
    ensures
        step(all_dead()) == all_dead(),
{
    assert(step(all_dead()) =~~= all_dead());
}

/// Underpopulation: a cell with fewer than two living neighbours is dead in the
/// next generation, whatever it was and whatever the rest of the world holds.
pub proof fn lemma_lonely_cell_dies(g: Seq<Seq<u8>>, x: int, y: int)
    requires
        well_shaped(g),
        0 <= x < NUM_X,
        0 <= y < NUM_Y,
        neighbor_count(g, x, y) < 2,
    ensures
        step(g)[x][y] == 0,
{
}

/// The next generation of a world is a world again.
pub proof fn lemma_step_keeps_shape(g: Seq<Seq<u8>>)
    ensures
        well_shaped(step(g)),
{
}

/// The world that holds three cells side by side around `(cx, cy)` and
/// nothing else.
pub open spec fn blinker_flat(cx: int, cy: int) -> Seq<Seq<u8>> {
    Seq::new(
        NUM_X as nat,
        |x: int|
            Seq::new(
                NUM_Y as nat,
                |y: int| if y == cy && cx - 1 <= x <= cx + 1 { 1u8 } else { 0u8 },
            ),
    )
}

/// The world that holds three cells one above the other around `(cx, cy)` and
/// nothing else.
pub open spec fn blinker_upright(cx: int, cy: int) -> Seq<Seq<u8>> {
    Seq::new(
        NUM_X as nat,
        |x: int|
            Seq::new(
                NUM_Y as nat,
                |y: int| if x == cx && cy - 1 <= y <= cy + 1 { 1u8 } else { 0u8 },
            ),
    )
}

/// A line of three cells that has room to turn oscillates with period 2: it
/// lies, stands, and lies again.
pub proof fn lemma_blinker_has_period_two(cx: int, cy: int)
    requires
        1 <= cx < NUM_X - 1,
        1 <= cy < NUM_Y - 1,
    ensures
        step(blinker_flat(cx, cy)) == blinker_upright(cx, cy),
        step(blinker_upright(cx, cy)) == blinker_flat(cx, cy),
        step(step(blinker_flat(cx, cy))) == blinker_flat(cx, cy),
{
    assert(step(blinker_flat(cx, cy)) =~~= blinker_upright(cx, cy));
    assert(step(blinker_upright(cx, cy)) =~~= blinker_flat(cx, cy));
}

} // verus!
