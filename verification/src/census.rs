//! The census: how many cells live and how far they reach, taken once per
//! generation, and the rolling histories in which a settled population shows
//! as a repetition.

use vstd::prelude::*;
use crate::count::{
    lemma_dead_rect_counts_nothing, lemma_rect_counts, live_in_rect, live_in_span,
};
use crate::grid::{Grid, NUM_X, NUM_Y, all_dead, well_shaped};

verus! {

/// Length of a census history.
pub const HISTORY_MAX: usize = 20;

/// The longest period that is looked for in a history.
pub const PERIOD_MAX: usize = 6;

/// The number of living cells in the world.
pub open spec fn population(g: Seq<Seq<u8>>) -> int {
    live_in_rect(g, 0, NUM_X as int, 0, NUM_Y as int)
}

/// The columns `min_x..=max_x` and rows `min_y..=max_y` are the smallest
/// rectangle that holds every living cell: all of them lie in it, and each of
/// its four sides touches one.
pub open spec fn is_extent(g: Seq<Seq<u8>>, min_x: int, max_x: int, min_y: int, max_y: int) -> bool {
    &&& 0 <= min_x <= max_x < NUM_X
    &&& 0 <= min_y <= max_y < NUM_Y
    &&& forall|x: int, y: int|
        0 <= x < NUM_X && 0 <= y < NUM_Y && #[trigger] g[x][y] != 0 ==> min_x <= x <= max_x && min_y
            <= y <= max_y
    &&& exists|y: int| 0 <= y < NUM_Y && #[trigger] g[min_x][y] != 0
    &&& exists|y: int| 0 <= y < NUM_Y && #[trigger] g[max_x][y] != 0
    &&& exists|x: int| 0 <= x < NUM_X && #[trigger] g[x][min_y] != 0
    &&& exists|x: int| 0 <= x < NUM_X && #[trigger] g[x][max_y] != 0
}

/// A world has at most one such rectangle.
pub proof fn lemma_extent_is_unique(
    g: Seq<Seq<u8>>,
    a: (int, int, int, int),
    b: (int, int, int, int),
)
    requires
        is_extent(g, a.0, a.1, a.2, a.3),
        is_extent(g, b.0, b.1, b.2, b.3),
    ensures
        a == b,
{
}

/// The size of the region that the living cells take up: the product of the
/// differences between its outermost columns and between its outermost rows.
/// It is 0 where nothing lives.
pub open spec fn region_size(g: Seq<Seq<u8>>) -> int {
    if population(g) == 0 {
        0
    } else {
        let e = choose|e: (int, int, int, int)| is_extent(g, e.0, e.1, e.2, e.3);
        (e.1 - e.0) * (e.3 - e.2)
    }
}

/// Counts the living cells and measures the region they take up. The size is
/// the product of the differences between the outermost living columns and
/// between the outermost living rows, so a single row or column of cells has
/// size 0. A world in which nothing lives has size 0 too.
pub fn census(world: &Grid) -> (sample: (i32, usize))
    requires
        world.wf(),
    ensures
        sample.0 == population(world@),
        0 <= sample.0 <= NUM_X * NUM_Y,
        sample.1 == region_size(world@),
        sample.1 <= (NUM_X - 1) * (NUM_Y - 1),
        population(world@) != 0 ==> exists|min_x: int, max_x: int, min_y: int, max_y: int|
            #[trigger] is_extent(world@, min_x, max_x, min_y, max_y) && sample.1 == (max_x - min_x)
                * (max_y - min_y),
{
    let mut count: i32 = 0;
    let mut smallest_x: usize = NUM_X;
    let mut largest_x: usize = 0;
    let mut smallest_y: usize = NUM_Y;
    let mut largest_y: usize = 0;
    // For each side of the rectangle, a living cell that lies on it.
    let ghost mut at_smallest_x: int = 0;
    let ghost mut at_largest_x: int = 0;
    let ghost mut at_smallest_y: int = 0;
    let ghost mut at_largest_y: int = 0;

    let mut x: usize = 0;
    while x < NUM_X
        invariant
            world.wf(),
            x <= NUM_X,
            0 <= count <= x * NUM_Y,
            count == live_in_rect(world@, 0, x as int, 0, NUM_Y as int),
            forall|a: int, b: int|
                0 <= a < x && 0 <= b < NUM_Y && #[trigger] world@[a][b] != 0 ==> smallest_x <= a
                    <= largest_x && smallest_y <= b <= largest_y,
            count == 0 ==> smallest_x == NUM_X && largest_x == 0 && smallest_y == NUM_Y
                && largest_y == 0,
            count > 0 ==> {
                &&& smallest_x <= largest_x < NUM_X
                &&& smallest_y <= largest_y < NUM_Y
                &&& 0 <= at_smallest_x < NUM_Y && world@[smallest_x as int][at_smallest_x] != 0
                &&& 0 <= at_largest_x < NUM_Y && world@[largest_x as int][at_largest_x] != 0
                &&& 0 <= at_smallest_y < NUM_X && world@[at_smallest_y][smallest_y as int] != 0
                &&& 0 <= at_largest_y < NUM_X && world@[at_largest_y][largest_y as int] != 0
            },
        decreases NUM_X - x,
    {
        let ghost before = count;
        assert(x * NUM_Y + NUM_Y <= NUM_X * NUM_Y < i32::MAX && (x + 1) * NUM_Y == x * NUM_Y + NUM_Y)
            by (nonlinear_arith)
            requires
                x <= NUM_X - 1,
        ;
        let mut y: usize = 0;
        while y < NUM_Y
            invariant
                world.wf(),
                x < NUM_X,
                y <= NUM_Y,
                0 <= before <= x * NUM_Y,
                x * NUM_Y + NUM_Y < i32::MAX,
                before <= count <= before + y,
                count == before + live_in_span(world@[x as int], 0, y as int),
                forall|a: int, b: int|
                    0 <= a < NUM_X && 0 <= b < NUM_Y && (a < x || (a == x && b < y))
                        && #[trigger] world@[a][b] != 0 ==> smallest_x <= a <= largest_x
                        && smallest_y <= b <= largest_y,
                count == 0 ==> smallest_x == NUM_X && largest_x == 0 && smallest_y == NUM_Y
                    && largest_y == 0,
                count > 0 ==> {
                    &&& smallest_x <= largest_x < NUM_X
                    &&& smallest_y <= largest_y < NUM_Y
                    &&& 0 <= at_smallest_x < NUM_Y && world@[smallest_x as int][at_smallest_x] != 0
                    &&& 0 <= at_largest_x < NUM_Y && world@[largest_x as int][at_largest_x] != 0
                    &&& 0 <= at_smallest_y < NUM_X && world@[at_smallest_y][smallest_y as int] != 0
                    &&& 0 <= at_largest_y < NUM_X && world@[at_largest_y][largest_y as int] != 0
                },
            decreases NUM_Y - y,
        {
            if world.get(x, y) != 0 {
                proof {
                    if count == 0 || x < smallest_x {
                        at_smallest_x = y as int;
                    }
                    if count == 0 || x > largest_x {
                        at_largest_x = y as int;
                    }
                    if count == 0 || y < smallest_y {
                        at_smallest_y = x as int;
                    }
                    if count == 0 || y > largest_y {
                        at_largest_y = x as int;
                    }
                }
                count += 1;
                if x < smallest_x {
                    smallest_x = x;
                }
                if x > largest_x {
                    largest_x = x;
                }
                if y < smallest_y {
                    smallest_y = y;
                }
                if y > largest_y {
                    largest_y = y;
                }
            }
            y += 1;
        }
        x += 1;
    }
    if count == 0 {
        (0, 0)
    } else {
        let x_size = largest_x - smallest_x;
        let y_size = largest_y - smallest_y;
        assert(x_size * y_size <= (NUM_X - 1) * (NUM_Y - 1)) by (nonlinear_arith)
            requires
                0 <= x_size <= NUM_X - 1,
                0 <= y_size <= NUM_Y - 1,
        ;
        proof {
            let found = (smallest_x as int, largest_x as int, smallest_y as int, largest_y as int);
            assert(is_extent(world@, found.0, found.1, found.2, found.3));
            let chosen = choose|e: (int, int, int, int)| is_extent(world@, e.0, e.1, e.2, e.3);
            lemma_extent_is_unique(world@, found, chosen);
        }
        (count, x_size * y_size)
    }
}

/// A history after `sample` was put in front: every older entry has moved one
/// place towards the end, and the oldest is gone.
pub open spec fn pushed(h: Seq<i32>, sample: i32) -> Seq<i32> {
    Seq::new(h.len(), |i: int| if i == 0 { sample } else { h[i - 1] })
}

/// Every entry equals the one `period` places after it.
pub open spec fn repeats_every(h: Seq<i32>, period: int) -> bool {
    forall|i: int| 0 <= i && i + period < h.len() ==> h[i] == #[trigger] h[i + period]
}

/// The history repeats with one of the periods 1 to `PERIOD_MAX`.
pub open spec fn looks_static(h: Seq<i32>) -> bool {
    exists|period: int| 1 <= period <= PERIOD_MAX && #[trigger] repeats_every(h, period)
}

/// Puts `sample` in front of the history and drops its oldest entry.
pub fn push_history(history: &mut [i32; HISTORY_MAX], sample: i32)
    ensures
        final(history)@ == pushed(old(history)@, sample),
{
    let mut i: usize = HISTORY_MAX - 1;
    while i > 0
        invariant
            i < HISTORY_MAX,
            forall|k: int| 0 <= k <= i ==> history@[k] == old(history)@[k],
            forall|k: int| i < k < HISTORY_MAX ==> history@[k] == old(history)@[k - 1],
        decreases i,
    {
        let older = history[i - 1];
        history[i] = older;
        i -= 1;
    }
    history[0] = sample;
    assert(history@ =~= pushed(old(history)@, sample));
}

/// Whether every entry of the history equals the one `period` places after it.
pub fn has_period(history: &[i32; HISTORY_MAX], period: usize) -> (repeats: bool)
    requires
        1 <= period <= HISTORY_MAX,
    ensures
        repeats == repeats_every(history@, period as int),
{
    let mut i: usize = 0;
    while i < HISTORY_MAX - period
        invariant
            1 <= period <= HISTORY_MAX,
            i <= HISTORY_MAX - period,
            forall|k: int| 0 <= k < i ==> history@[k] == #[trigger] history@[k + period],
        decreases HISTORY_MAX - period - i,
    {
        if history[i + period] != history[i] {
            return false;
        }
        i += 1;
    }
    true
}

/// Looks for a (semi) static history: one that repeats with a period of 1 to
/// `PERIOD_MAX` generations.
pub fn look_for_static(history: [i32; HISTORY_MAX]) -> (settled: bool)
    ensures
        settled == looks_static(history@),
{
    let mut period: usize = 1;
    while period <= PERIOD_MAX
        invariant
            1 <= period <= PERIOD_MAX + 1,
            forall|p: int| 1 <= p < period ==> !#[trigger] repeats_every(history@, p),
        decreases PERIOD_MAX + 1 - period,
    {
        if has_period(&history, period) {
            return true;
        }
        period += 1;
    }
    false
}

/// A history whose entries are all the same repeats with period 1.
pub proof fn lemma_constant_history_is_static(h: Seq<i32>)
    requires
        forall|i: int, j: int| 0 <= i < h.len() && 0 <= j < h.len() ==> h[i] == h[j],
    ensures
        looks_static(h),
{
    assert(repeats_every(h, 1));
}

/// Putting the value that a constant history holds in front of it leaves a
/// history that is static.
pub proof fn lemma_push_same_is_static(h: Seq<i32>, sample: i32)
    requires
        forall|i: int| 0 <= i < h.len() ==> h[i] == sample,
    ensures
        looks_static(pushed(h, sample)),
{
    lemma_constant_history_is_static(pushed(h, sample));
}

/// A history in which every entry is greater than the one before it repeats
/// with no period.
pub proof fn lemma_rising_history_is_not_static(h: [i32; HISTORY_MAX])
    requires
        forall|i: int, j: int| 0 <= i < j < HISTORY_MAX ==> h@[i] < h@[j],
    ensures
        !looks_static(h@),
{
    assert forall|period: int| 1 <= period <= PERIOD_MAX implies !#[trigger] repeats_every(
        h@,
        period,
    ) by {
        assert(h@[0] < h@[0 + period]);
    }
}

/// A history after `sample` was put in front of it `n` times.
pub open spec fn pushed_times(h: Seq<i32>, sample: i32, n: nat) -> Seq<i32>
    decreases n,
{
    if n == 0 {
        h
    } else {
        pushed(pushed_times(h, sample, (n - 1) as nat), sample)
    }
}

/// After `n` pushes of one value a history has its old length, and its first
/// `n` entries hold that value.
pub proof fn lemma_pushed_times_fills(h: Seq<i32>, sample: i32, n: nat)
    ensures
        pushed_times(h, sample, n).len() == h.len(),
        forall|i: int| 0 <= i < n && i < h.len() ==> pushed_times(h, sample, n)[i] == sample,
    decreases n,
{
    if n > 0 {
        lemma_pushed_times_fills(h, sample, (n - 1) as nat);
    }
}

/// Whatever a history held: once one value was pushed as often as the history
/// is long, or more often, the history is static.
pub proof fn lemma_filled_history_is_static(h: Seq<i32>, sample: i32, n: nat)
    requires
        n >= h.len(),
    ensures
        looks_static(pushed_times(h, sample, n)),
{
    lemma_pushed_times_fills(h, sample, n);
    lemma_constant_history_is_static(pushed_times(h, sample, n));
}

/// The population of a world is 0 exactly if every cell of it is dead, and
/// then the size of its living region is 0 as well.
pub proof fn lemma_empty_census(g: Seq<Seq<u8>>)
    requires
        well_shaped(g),
    ensures
        population(g) >= 0,
        population(g) == 0 <==> (forall|x: int, y: int|
            0 <= x < NUM_X && 0 <= y < NUM_Y ==> #[trigger] g[x][y] == 0),
        population(g) == 0 ==> region_size(g) == 0,
{
    lemma_rect_counts(g, 0, NUM_X as int, 0, NUM_Y as int, 0, 0);
    if forall|x: int, y: int| 0 <= x < NUM_X && 0 <= y < NUM_Y ==> #[trigger] g[x][y] == 0 {
        lemma_dead_rect_counts_nothing(g, 0, NUM_X as int, 0, NUM_Y as int);
    }
    assert forall|x: int, y: int|
        population(g) == 0 && 0 <= x < NUM_X && 0 <= y < NUM_Y implies #[trigger] g[x][y] == 0 by {
        lemma_rect_counts(g, 0, NUM_X as int, 0, NUM_Y as int, x, y);
    }
}

/// In the world in which nothing lives the census counts nothing and
/// measures nothing.
pub proof fn lemma_dead_world_counts_nothing()
    ensures
        population(all_dead()) == 0,
        region_size(all_dead()) == 0,
{
    lemma_empty_census(all_dead());
}

} // verus!
