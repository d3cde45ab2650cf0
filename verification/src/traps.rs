//! The fence: four trap lines, two cells inside the border, on which anything
//! that reaches the edge of the world is caught. A catch of exactly five cells
//! is taken for an ordinary glider and removed; anything else is reported.

use vstd::prelude::*;
use crate::count::{lemma_rect_counts, live_in_rect};
use crate::grid::{Grid, NUM_X, NUM_Y, well_shaped};

verus! {

/// Edge of the square window in which a catch is inspected.
pub const TRAP_SIZE: usize = 5;

/// The number of cells of an ordinary glider.
pub const GLIDER_CELLS: u8 = 5;

/// Whether `(x, y)` lies in the window whose top-left corner is `(tlx, tly)`.
pub open spec fn in_window(tlx: int, tly: int, x: int, y: int) -> bool {
    tlx <= x < tlx + TRAP_SIZE && tly <= y < tly + TRAP_SIZE
}

/// The number of living cells in the window at `(tlx, tly)`.
pub open spec fn window_count(g: Seq<Seq<u8>>, tlx: int, tly: int) -> int {
    live_in_rect(g, tlx, tlx + TRAP_SIZE, tly, tly + TRAP_SIZE)
}

/// The world with every cell of the window at `(tlx, tly)` dead.
pub open spec fn zapped(g: Seq<Seq<u8>>, tlx: int, tly: int) -> Seq<Seq<u8>> {
    Seq::new(
        NUM_X as nat,
        |x: int|
            Seq::new(
                NUM_Y as nat,
                |y: int| if in_window(tlx, tly, x, y) { 0u8 } else { g[x][y] },
            ),
    )
}

/// What an inspection of the window at `(tlx, tly)` leaves of the world, and
/// whether it found something other than a glider.
pub open spec fn inspected(g: Seq<Seq<u8>>, tlx: int, tly: int) -> (Seq<Seq<u8>>, bool) {
    let n = window_count(g, tlx, tly);
    if n == GLIDER_CELLS {
        (zapped(g, tlx, tly), false)
    } else {
        (g, n > 0)
    }
}

/// Counts the living cells of the window at `(top_left_x, top_left_y)`.
pub fn count_window(world: &Grid, top_left_x: usize, top_left_y: usize) -> (count: u8)
    requires
        world.wf(),
        top_left_x + TRAP_SIZE <= NUM_X,
        top_left_y + TRAP_SIZE <= NUM_Y,
    ensures
        count == window_count(world@, top_left_x as int, top_left_y as int),
        count <= TRAP_SIZE * TRAP_SIZE,
{
    let mut count: u8 = 0;
    let mut x: usize = top_left_x;
    while x < top_left_x + TRAP_SIZE
        invariant
            world.wf(),
            top_left_x + TRAP_SIZE <= NUM_X,
            top_left_y + TRAP_SIZE <= NUM_Y,
            top_left_x <= x <= top_left_x + TRAP_SIZE,
            count <= TRAP_SIZE * (x - top_left_x),
            count == live_in_rect(
                world@,
                top_left_x as int,
                x as int,
                top_left_y as int,
                top_left_y + TRAP_SIZE,
            ),
        decreases top_left_x + TRAP_SIZE - x,
    {
        let ghost before = count;
        let mut y: usize = top_left_y;
        while y < top_left_y + TRAP_SIZE
            invariant
                world.wf(),
                x < NUM_X,
                top_left_y + TRAP_SIZE <= NUM_Y,
                top_left_y <= y <= top_left_y + TRAP_SIZE,
                before <= TRAP_SIZE * (TRAP_SIZE - 1),
                count == before + crate::count::live_in_span(
                    world@[x as int],
                    top_left_y as int,
                    y as int,
                ),
                count <= before + (y - top_left_y),
            decreases top_left_y + TRAP_SIZE - y,
        {
            if world.get(x, y) > 0 {
                count += 1;
            }
            y += 1;
        }
        x += 1;
    }
    count
}

/// Kills every cell of the window at `(top_left_x, top_left_y)`.
pub fn zap_window(world: &mut Grid, top_left_x: usize, top_left_y: usize)
    requires
        old(world).wf(),
        top_left_x + TRAP_SIZE <= NUM_X,
        top_left_y + TRAP_SIZE <= NUM_Y,
    ensures
        final(world).wf(),
        final(world)@ == zapped(old(world)@, top_left_x as int, top_left_y as int),
{
    let mut x: usize = top_left_x;
    while x < top_left_x + TRAP_SIZE
        invariant
            world.wf(),
            top_left_x + TRAP_SIZE <= NUM_X,
            top_left_y + TRAP_SIZE <= NUM_Y,
            top_left_x <= x <= top_left_x + TRAP_SIZE,
            forall|a: int, b: int|
                0 <= a < NUM_X && 0 <= b < NUM_Y ==> #[trigger] world@[a][b] == if a < x
                    && in_window(top_left_x as int, top_left_y as int, a, b) {
                    0u8
                } else {
                    old(world)@[a][b]
                },
        decreases top_left_x + TRAP_SIZE - x,
    {
        let mut y: usize = top_left_y;
        while y < top_left_y + TRAP_SIZE
            invariant
                world.wf(),
                x < top_left_x + TRAP_SIZE,
                top_left_x <= x,
                top_left_x + TRAP_SIZE <= NUM_X,
                top_left_y + TRAP_SIZE <= NUM_Y,
                top_left_y <= y <= top_left_y + TRAP_SIZE,
                forall|a: int, b: int|
                    0 <= a < NUM_X && 0 <= b < NUM_Y ==> #[trigger] world@[a][b] == if (a < x || (a
                        == x && b < y)) && in_window(top_left_x as int, top_left_y as int, a, b) {
                        0u8
                    } else {
                        old(world)@[a][b]
                    },
            decreases top_left_y + TRAP_SIZE - y,
        {
            world.set(x, y, false);
            y += 1;
        }
        x += 1;
    }
    assert(world@ =~~= zapped(old(world)@, top_left_x as int, top_left_y as int));
}

/// Inspects what was caught in the window at `(top_left_x, top_left_y)`. Five
/// living cells are an ordinary glider: the whole window is cleared and the
/// catch is not interesting. Any other number but zero is interesting, and the
/// world is left as it is.
pub fn inspect_trap(world: &mut Grid, top_left_x: usize, top_left_y: usize) -> (interesting: bool)
    requires
        old(world).wf(),
        top_left_x + TRAP_SIZE <= NUM_X,
        top_left_y + TRAP_SIZE <= NUM_Y,
    ensures
        final(world).wf(),
        (final(world)@, interesting) == inspected(
            old(world)@,
            top_left_x as int,
            top_left_y as int,
        ),
{
    let count = count_window(world, top_left_x, top_left_y);
    if count == GLIDER_CELLS {
        zap_window(world, top_left_x, top_left_y);
        false
    } else {
        count > 0
    }
}

/// One of the four trap lines.
#[derive(Clone, Copy, Debug)]
pub enum Edge {
    North,
    South,
    West,
    East,
}

/// The number of cells on a trap line: it stops two cells short of the border
/// at both ends.
pub open spec fn line_len(edge: Edge) -> int {
    match edge {
        Edge::North | Edge::South => NUM_X - 4,
        Edge::West | Edge::East => NUM_Y - 4,
    }
}

/// The `i`-th cell of a trap line, as `(x, y)`.
pub open spec fn line_cell(edge: Edge, i: int) -> (int, int) {
    match edge {
        Edge::North => (i + 2, 2),
        Edge::South => (i + 2, NUM_Y - 2),
        Edge::West => (2, i + 2),
        Edge::East => (NUM_X - 2, i + 2),
    }
}

/// The top-left corner of the window in which a hit on the `i`-th cell of a
/// trap line is inspected. The window reaches from the line towards the
/// inside of the world and holds the cell that was hit.
pub open spec fn line_window(edge: Edge, i: int) -> (int, int) {
    match edge {
        Edge::North => (i, 2),
        Edge::South => (i, NUM_Y - 6),
        Edge::West => (2, i),
        Edge::East => (NUM_X - 6, i),
    }
}

/// The world and the alarm after the first `n` cells of a trap line were
/// visited in order, starting from the world `g` and the alarm `trapped`.
/// Each visit sees what the earlier ones left: a living cell on the line has
/// its window inspected, a dead one is passed over.
pub open spec fn scanned(g: Seq<Seq<u8>>, trapped: bool, edge: Edge, n: int) -> (
    Seq<Seq<u8>>,
    bool,
)
    decreases n,
{
    if n <= 0 {
        (g, trapped)
    } else {
        let before = scanned(g, trapped, edge, n - 1);
        let cell = line_cell(edge, n - 1);
        if before.0[cell.0][cell.1] != 0 {
            let window = line_window(edge, n - 1);
            let after = inspected(before.0, window.0, window.1);
            (after.0, before.1 || after.1)
        } else {
            before
        }
    }
}

/// The world and the alarm after a whole pass: the north line, then the south,
/// the west and the east one.
pub open spec fn fenced(g: Seq<Seq<u8>>) -> (Seq<Seq<u8>>, bool) {
    let north = scanned(g, false, Edge::North, line_len(Edge::North));
    let south = scanned(north.0, north.1, Edge::South, line_len(Edge::South));
    let west = scanned(south.0, south.1, Edge::West, line_len(Edge::West));
    scanned(west.0, west.1, Edge::East, line_len(Edge::East))
}

/// Runs one trap line from its first cell to its last and hands back the
/// alarm: `trapped`, or true if an inspection on this line was interesting.
pub fn scan_line(world: &mut Grid, edge: Edge, trapped: bool) -> (alarm: bool)
    requires
        old(world).wf(),
    ensures
        final(world).wf(),
        (final(world)@, alarm) == scanned(old(world)@, trapped, edge, line_len(edge)),
{
    let len: usize = match edge {
        Edge::North | Edge::South => NUM_X - 4,
        Edge::West | Edge::East => NUM_Y - 4,
    };
    let mut alarm = trapped;
    let mut i: usize = 0;
    while i < len
        invariant
            world.wf(),
            len == line_len(edge),
            i <= len,
            (world@, alarm) == scanned(old(world)@, trapped, edge, i as int),
        decreases len - i,
    {
        let (x, y): (usize, usize) = match edge {
            Edge::North => (i + 2, 2),
            Edge::South => (i + 2, NUM_Y - 2),
            Edge::West => (2, i + 2),
            Edge::East => (NUM_X - 2, i + 2),
        };
        if world.get(x, y) != 0 {
            let (top_left_x, top_left_y): (usize, usize) = match edge {
                Edge::North => (x - 2, y),
                Edge::South => (x - 2, y - 4),
                Edge::West => (x, y - 2),
                Edge::East => (x - 4, y - 2),
            };
            if inspect_trap(world, top_left_x, top_left_y) {
                alarm = true;
            }
        }
        i += 1;
    }
    alarm
}

/// Runs the four trap lines, north, south, west and east. Every glider caught
/// on the way is removed. The result is true if something else was caught.
pub fn check_traps(world: &mut Grid) -> (trapped: bool)
    requires
        old(world).wf(),
    ensures
        final(world).wf(),
        (final(world)@, trapped) == fenced(old(world)@),
        thinned(old(world)@, final(world)@),
        !trapped ==> forall|edge: Edge, i: int|
            0 <= i < line_len(edge) ==> #[trigger] on_line(final(world)@, edge, i) == 0,
{
    proof {
        lemma_fence_only_kills(old(world)@);
        if !fenced(old(world)@).1 {
            lemma_quiet_fence_is_clear(old(world)@);
        }
    }
    let north = scan_line(world, Edge::North, false);
    let south = scan_line(world, Edge::South, north);
    let west = scan_line(world, Edge::West, south);
    scan_line(world, Edge::East, west)
}

/// `b` is the world `a` after some of its cells died: no cell of `b` lives
/// that was dead in `a`.
pub open spec fn thinned(a: Seq<Seq<u8>>, b: Seq<Seq<u8>>) -> bool {
    &&& well_shaped(b)
    &&& forall|x: int, y: int|
        0 <= x < NUM_X && 0 <= y < NUM_Y ==> (#[trigger] b[x][y]) == a[x][y] || b[x][y] == 0
}

/// The state of the `i`-th cell of a trap line.
pub open spec fn on_line(g: Seq<Seq<u8>>, edge: Edge, i: int) -> u8 {
    g[line_cell(edge, i).0][line_cell(edge, i).1]
}

/// A scan of a trap line only kills, and it never takes an alarm back.
pub proof fn lemma_scan_only_kills(g: Seq<Seq<u8>>, trapped: bool, edge: Edge, n: int)
    requires
        well_shaped(g),
        0 <= n <= line_len(edge),
    ensures
        thinned(g, scanned(g, trapped, edge, n).0),
        trapped ==> scanned(g, trapped, edge, n).1,
    decreases n,
{
    if n > 0 {
        lemma_scan_only_kills(g, trapped, edge, n - 1);
    }
}

/// After a scan that ends without an alarm, no cell that it visited lives:
/// whatever it met was a glider and is gone.
pub proof fn lemma_quiet_scan_clears_line(g: Seq<Seq<u8>>, trapped: bool, edge: Edge, n: int)
    requires
        well_shaped(g),
        0 <= n <= line_len(edge),
        !scanned(g, trapped, edge, n).1,
    ensures
        forall|i: int| 0 <= i < n ==> #[trigger] on_line(scanned(g, trapped, edge, n).0, edge, i) == 0,
    decreases n,
{
    if n > 0 {
        let before = scanned(g, trapped, edge, n - 1);
        let cell = line_cell(edge, n - 1);
        let window = line_window(edge, n - 1);
        lemma_scan_only_kills(g, trapped, edge, n - 1);
        lemma_quiet_scan_clears_line(g, trapped, edge, n - 1);
        if before.0[cell.0][cell.1] != 0 {
            lemma_rect_counts(
                before.0,
                window.0,
                window.0 + TRAP_SIZE,
                window.1,
                window.1 + TRAP_SIZE,
                cell.0,
                cell.1,
            );
        }
        let after = scanned(g, trapped, edge, n);
        assert forall|i: int| 0 <= i < n implies #[trigger] on_line(after.0, edge, i) == 0 by {
            if i < n - 1 {
                assert(on_line(before.0, edge, i) == 0);
            }
        }
    }
}

/// A pass of the fence only kills: no cell lives after it that was dead before.
pub proof fn lemma_fence_only_kills(g: Seq<Seq<u8>>)
    requires
        well_shaped(g),
    ensures
        thinned(g, fenced(g).0),
{
    let north = scanned(g, false, Edge::North, line_len(Edge::North));
    lemma_scan_only_kills(g, false, Edge::North, line_len(Edge::North));
    let south = scanned(north.0, north.1, Edge::South, line_len(Edge::South));
    lemma_scan_only_kills(north.0, north.1, Edge::South, line_len(Edge::South));
    let west = scanned(south.0, south.1, Edge::West, line_len(Edge::West));
    lemma_scan_only_kills(south.0, south.1, Edge::West, line_len(Edge::West));
    lemma_scan_only_kills(west.0, west.1, Edge::East, line_len(Edge::East));
}

/// After a pass of the fence without an alarm, nothing lives on any of the
/// four trap lines.
pub proof fn lemma_quiet_fence_is_clear(g: Seq<Seq<u8>>)
    requires
        well_shaped(g),
        !fenced(g).1,
    ensures
        forall|edge: Edge, i: int|
            0 <= i < line_len(edge) ==> #[trigger] on_line(fenced(g).0, edge, i) == 0,
{
    let north = scanned(g, false, Edge::North, line_len(Edge::North));
    lemma_scan_only_kills(g, false, Edge::North, line_len(Edge::North));
    let south = scanned(north.0, north.1, Edge::South, line_len(Edge::South));
    lemma_scan_only_kills(north.0, north.1, Edge::South, line_len(Edge::South));
    let west = scanned(south.0, south.1, Edge::West, line_len(Edge::West));
    lemma_scan_only_kills(south.0, south.1, Edge::West, line_len(Edge::West));
    let east = scanned(west.0, west.1, Edge::East, line_len(Edge::East));
    lemma_scan_only_kills(west.0, west.1, Edge::East, line_len(Edge::East));
    lemma_quiet_scan_clears_line(g, false, Edge::North, line_len(Edge::North));
    lemma_quiet_scan_clears_line(north.0, north.1, Edge::South, line_len(Edge::South));
    lemma_quiet_scan_clears_line(south.0, south.1, Edge::West, line_len(Edge::West));
    lemma_quiet_scan_clears_line(west.0, west.1, Edge::East, line_len(Edge::East));
    assert forall|edge: Edge, i: int| 0 <= i < line_len(edge) implies #[trigger] on_line(
        east.0,
        edge,
        i,
    ) == 0 by {
        match edge {
            Edge::North => {
                assert(on_line(north.0, edge, i) == 0);
            },
            Edge::South => {
                assert(on_line(south.0, edge, i) == 0);
            },
            Edge::West => {
                assert(on_line(west.0, edge, i) == 0);
            },
            Edge::East => {
                assert(on_line(east.0, edge, i) == 0);
            },
        }
    }
}

} // verus!
