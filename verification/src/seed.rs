//! The starting block: the square in the middle of the world from which a
//! world grows. It is kept so that a world can be started again, and it is
//! what a seed file holds, one record per world.

use vstd::prelude::*;
use crate::grid::{Grid, NUM_X, NUM_Y, well_shaped};

verus! {

/// Length of each side of the starting block.
pub const START_SIZE: usize = 20;

/// Length of one record of a seed file: one byte per cell of the block.
pub const RECORD_LEN: usize = START_SIZE * START_SIZE;

/// The column of the world in which the starting block begins.
pub const X_START: usize = NUM_X / 2 - START_SIZE / 2;

/// The row of the world in which the starting block begins.
pub const Y_START: usize = NUM_Y / 2 - START_SIZE / 2;

/// A block has `START_SIZE` columns of `START_SIZE` cells, and every cell is 0 or 1.
pub open spec fn block_shaped(s: Seq<Seq<u8>>) -> bool {
    &&& s.len() == START_SIZE
    &&& forall|x: int| 0 <= x < START_SIZE ==> (#[trigger] s[x]).len() == START_SIZE
    &&& forall|x: int, y: int|
        0 <= x < START_SIZE && 0 <= y < START_SIZE ==> #[trigger] s[x][y] <= 1
}

/// Whether the cell `(x, y)` of the world lies in the starting block.
pub open spec fn in_center(x: int, y: int) -> bool {
    X_START <= x < X_START + START_SIZE && Y_START <= y < Y_START + START_SIZE
}

/// The starting block of a world: its cells in the middle.
pub open spec fn center_of(g: Seq<Seq<u8>>) -> Seq<Seq<u8>> {
    Seq::new(
        START_SIZE as nat,
        |x: int| Seq::new(START_SIZE as nat, |y: int| g[x + X_START][y + Y_START]),
    )
}

/// The world that holds the block `s` in its middle and nothing else.
pub open spec fn world_of(s: Seq<Seq<u8>>) -> Seq<Seq<u8>> {
    Seq::new(
        NUM_X as nat,
        |x: int|
            Seq::new(
                NUM_Y as nat,
                |y: int| if in_center(x, y) { s[x - X_START][y - Y_START] } else { 0u8 },
            ),
    )
}

/// The record of a block: its columns one after the other, each from its
/// first row to its last.
pub open spec fn record_of(s: Seq<Seq<u8>>) -> Seq<u8> {
    Seq::new(RECORD_LEN as nat, |i: int| s[i / (START_SIZE as int)][i % (START_SIZE as int)])
}

/// The block that a record holds. A byte other than 0 stands for a living cell.
pub open spec fn block_of(record: Seq<u8>) -> Seq<Seq<u8>> {
    Seq::new(
        START_SIZE as nat,
        |x: int|
            Seq::new(
                START_SIZE as nat,
                |y: int| if record[x * START_SIZE + y] != 0 { 1u8 } else { 0u8 },
            ),
    )
}

/// A starting block, indexed by column `x` and row `y`.
#[derive(Clone, Debug, PartialEq, Eq)]
pub struct Seed {
    cells: Vec<u8>,
}

impl View for Seed {
    type V = Seq<Seq<u8>>;

    closed spec fn view(&self) -> Seq<Seq<u8>> {
        Seq::new(
            START_SIZE as nat,
            |x: int| Seq::new(START_SIZE as nat, |y: int| self.cells@[x * START_SIZE + y]),
        )
    }
}

/// Why no block could be read from a seed source.
#[derive(Clone, Copy, Debug, PartialEq, Eq)]
pub enum SeedError {
    /// The source holds nothing after the cursor.
    Exhausted,
    /// The source ends before the record that begins at the cursor does.
    Malformed,
}

impl Seed {
    /// The buffer holds one cell for each place of the block.
    pub closed spec fn stored(&self) -> bool {
        self.cells@.len() == RECORD_LEN
    }

    /// The invariant of every block that this library hands out.
    pub open spec fn wf(&self) -> bool {
        self.stored() && block_shaped(self@)
    }

    /// A block in which nothing lives.
    pub fn new() -> (seed: Seed)
        ensures
            seed.wf(),
            forall|x: int, y: int|
                0 <= x < START_SIZE && 0 <= y < START_SIZE ==> #[trigger] seed@[x][y] == 0,
    {
        Seed { cells: vec![0u8; RECORD_LEN] }
    }

    /// The state of the cell at `(x, y)`.
    pub fn get(&self, x: usize, y: usize) -> (v: u8)
        requires
            self.wf(),
            x < START_SIZE,
            y < START_SIZE,
        ensures
            v == self@[x as int][y as int],
            v <= 1,
    {
        assert(self@[x as int][y as int] == self.cells@[x * START_SIZE + y]);
        self.cells[x * START_SIZE + y]
    }

    /// Makes the cell at `(x, y)` alive or dead and leaves every other cell as it was.
    pub fn set(&mut self, x: usize, y: usize, alive: bool)
        requires
            old(self).wf(),
            x < START_SIZE,
            y < START_SIZE,
        ensures
            final(self).wf(),
            final(self)@ == crate::grid::with_cell(
                old(self)@,
                x as int,
                y as int,
                if alive { 1u8 } else { 0u8 },
            ),
    {
        let v: u8 = if alive { 1 } else { 0 };
        self.cells.set(x * START_SIZE + y, v);
        proof {
            let want = crate::grid::with_cell(old(self)@, x as int, y as int, v);
            assert forall|a: int, b: int|
                0 <= a < START_SIZE && 0 <= b < START_SIZE implies #[trigger] self@[a][b]
                == want[a][b] by {
                if a != x || b != y {
                    assert(a * START_SIZE + b != x * START_SIZE + y);
                }
            }
            assert(self@ =~~= want);
        }
    }

    /// The record of this block, as a seed file holds it.
    pub fn to_record(&self) -> (record: Vec<u8>)
        requires
            self.wf(),
        ensures
            record@ == record_of(self@),
    {
        let mut record: Vec<u8> = Vec::new();
        let mut x: usize = 0;
        while x < START_SIZE
            invariant
                self.wf(),
                x <= START_SIZE,
                record@.len() == x * START_SIZE,
                forall|i: int| 0 <= i < record@.len() ==> record@[i] == self@[i / (START_SIZE as int)][i % (START_SIZE as int)],
            decreases START_SIZE - x,
        {
            let mut y: usize = 0;
            while y < START_SIZE
                invariant
                    self.wf(),
                    x < START_SIZE,
                    y <= START_SIZE,
                    record@.len() == x * START_SIZE + y,
                    forall|i: int| 0 <= i < record@.len() ==> record@[i] == self@[i / (START_SIZE as int)][i % (START_SIZE as int)],
                decreases START_SIZE - y,
            {
                record.push(self.get(x, y));
                y += 1;
            }
            x += 1;
        }
        assert(record@ =~= record_of(self@));
        record
    }
}

/// Reads the record that begins at `cursor` in what a seed source holds, and
/// hands back its block and the cursor behind it. A source that ends at the
/// cursor is exhausted; one that ends inside the record is malformed.
pub fn read_record(source: &[u8], cursor: usize) -> (outcome: Result<(Seed, usize), SeedError>)
    ensures
        match outcome {
            Ok((seed, next)) => {
                &&& cursor + RECORD_LEN <= source@.len()
                &&& next == cursor + RECORD_LEN
                &&& seed.wf()
                &&& seed@ == block_of(source@.subrange(cursor as int, cursor + RECORD_LEN))
            },
            Err(SeedError::Exhausted) => cursor >= source@.len(),
            Err(SeedError::Malformed) => cursor < source@.len() < cursor + RECORD_LEN,
        },
{
    if cursor >= source.len() {
        return Err(SeedError::Exhausted);
    }
    if source.len() - cursor < RECORD_LEN {
        return Err(SeedError::Malformed);
    }
    let ghost record = source@.subrange(cursor as int, cursor + RECORD_LEN);
    let mut cells: Vec<u8> = Vec::new();
    let mut i: usize = 0;
    while i < RECORD_LEN
        invariant
            i <= RECORD_LEN,
            cursor + RECORD_LEN <= source@.len() <= usize::MAX,
            record == source@.subrange(cursor as int, cursor + RECORD_LEN),
            cells@.len() == i,
            forall|k: int| 0 <= k < i ==> cells@[k] == if record[k] != 0 { 1u8 } else { 0u8 },
        decreases RECORD_LEN - i,
    {
        let alive: u8 = if source[cursor + i] != 0 { 1 } else { 0 };
        cells.push(alive);
        i += 1;
    }
    let seed = Seed { cells };
    assert(seed@ =~~= block_of(record));
    Ok((seed, cursor + RECORD_LEN))
}

/// Remembers the starting block of a world: a copy of its cells in the middle.
pub fn save_starting_world(world: &Grid) -> (starting_world: Seed)
    requires
        world.wf(),
    ensures
        starting_world.wf(),
        starting_world@ == center_of(world@),
{
    let mut starting_world = Seed::new();
    let mut x: usize = 0;
    while x < START_SIZE
        invariant
            world.wf(),
            starting_world.wf(),
            x <= START_SIZE,
            forall|a: int, b: int|
                0 <= a < x && 0 <= b < START_SIZE ==> #[trigger] starting_world@[a][b] == world@[a
                    + X_START][b + Y_START],
        decreases START_SIZE - x,
    {
        let mut y: usize = 0;
        while y < START_SIZE
            invariant
                world.wf(),
                starting_world.wf(),
                x < START_SIZE,
                y <= START_SIZE,
                forall|a: int, b: int|
                    0 <= a < x && 0 <= b < START_SIZE ==> #[trigger] starting_world@[a][b]
                        == world@[a + X_START][b + Y_START],
                forall|b: int|
                    0 <= b < y ==> #[trigger] starting_world@[x as int][b] == world@[x
                        + X_START][b + Y_START],
            decreases START_SIZE - y,
        {
            starting_world.set(x, y, world.get(x + X_START, y + Y_START) != 0);
            y += 1;
        }
        x += 1;
    }
    assert(starting_world@ =~~= center_of(world@));
    starting_world
}

/// Makes the world that a starting block begins: the block in the middle of
/// a world in which nothing else lives.
pub fn restore_starting_world(starting_world: &Seed) -> (new_world: Grid)
    requires
        starting_world.wf(),
    ensures
        new_world.wf(),
        new_world@ == world_of(starting_world@),
{
    let mut new_world = Grid::new();
    let mut x: usize = 0;
    while x < START_SIZE
        invariant
            starting_world.wf(),
            new_world.wf(),
            x <= START_SIZE,
            forall|a: int, b: int|
                0 <= a < NUM_X && 0 <= b < NUM_Y ==> #[trigger] new_world@[a][b] == if in_center(
                    a,
                    b,
                ) && a < x + X_START {
                    starting_world@[a - X_START][b - Y_START]
                } else {
                    0u8
                },
        decreases START_SIZE - x,
    {
        let mut y: usize = 0;
        while y < START_SIZE
            invariant
                starting_world.wf(),
                new_world.wf(),
                x < START_SIZE,
                y <= START_SIZE,
                forall|a: int, b: int|
                    0 <= a < NUM_X && 0 <= b < NUM_Y ==> #[trigger] new_world@[a][b]
                        == if in_center(a, b) && (a < x + X_START || (a == x + X_START && b < y
                        + Y_START)) {
                        starting_world@[a - X_START][b - Y_START]
                    } else {
                        0u8
                    },
            decreases START_SIZE - y,
        {
            new_world.set(x + X_START, y + Y_START, starting_world.get(x, y) != 0);
            y += 1;
        }
        x += 1;
    }
    assert(new_world@ =~~= world_of(starting_world@));
    new_world
}

/// Saving the starting block of a world and restoring it gives the world
/// that agrees with the first in the middle and is dead everywhere else,
/// whatever the first held outside the middle.
pub proof fn lemma_restore_of_save(g: Seq<Seq<u8>>)
    requires
        well_shaped(g),
    ensures
        well_shaped(world_of(center_of(g))),
        forall|x: int, y: int|
            0 <= x < NUM_X && 0 <= y < NUM_Y ==> #[trigger] world_of(center_of(g))[x][y]
                == if in_center(x, y) { g[x][y] } else { 0u8 },
        center_of(world_of(center_of(g))) == center_of(g),
{
    assert(center_of(world_of(center_of(g))) =~~= center_of(g));
}

/// Restoring a block and saving the starting block of that world gives the
/// block back.
pub proof fn lemma_save_of_restore(s: Seq<Seq<u8>>)
    requires
        block_shaped(s),
    ensures
        center_of(world_of(s)) == s,
{
    assert(center_of(world_of(s)) =~~= s);
}

/// The record of a block holds that block.
pub proof fn lemma_record_round_trip(s: Seq<Seq<u8>>)
    requires
        block_shaped(s),
    ensures
        block_of(record_of(s)) == s,
{
    assert forall|x: int, y: int| 0 <= x < START_SIZE && 0 <= y < START_SIZE implies #[trigger] block_of(
        record_of(s),
    )[x][y] == s[x][y] by {
        let i = x * START_SIZE + y;
        assert(i / (START_SIZE as int) == x && i % (START_SIZE as int) == y);
    }
    assert(block_of(record_of(s)) =~~= s);
}

} // verus!
