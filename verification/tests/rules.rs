use gliderview::census::census;
use gliderview::grid::{Grid, NUM_X, NUM_Y};
use gliderview::rules::{count_neighbors, generation};

fn world_with(cells: &[(usize, usize)]) -> Grid {
    let mut world = Grid::new();
    for &(x, y) in cells {
        world.set(x, y, true);
    }
    world
}

fn living(world: &Grid) -> Vec<(usize, usize)> {
    let mut found = Vec::new();
    for x in 0..NUM_X {
        for y in 0..NUM_Y {
            if world.get(x, y) != 0 {
                found.push((x, y));
            }
        }
    }
    found
}

#[test]
fn world_has_the_expected_dimensions() {
    assert_eq!(NUM_X, 266);
    assert_eq!(NUM_Y, 200);
}

#[test]
fn new_world_is_dead() {
    let world = Grid::new();
    assert!(living(&world).is_empty());
}

#[test]
fn set_changes_one_cell_only() {
    let mut world = Grid::new();
    world.set(7, 9, true);
    assert_eq!(living(&world), vec![(7, 9)]);
    assert_eq!(world.get(7, 9), 1);
    assert_eq!(world.get(9, 7), 0);
    world.set(7, 9, false);
    assert!(living(&world).is_empty());
}

#[test]
fn dead_world_stays_dead() {
    let world = Grid::new();
    let next = generation(&world);
    assert!(living(&next).is_empty());
    assert_eq!(next, Grid::new());
    assert_eq!(census(&next), (0, 0));
}

#[test]
fn lonely_cell_dies() {
    let world = world_with(&[(50, 60)]);
    assert_eq!(count_neighbors(&world, 50, 60), 0);
    let next = generation(&world);
    assert!(living(&next).is_empty());
}

#[test]
fn pair_of_cells_dies() {
    let world = world_with(&[(50, 60), (51, 60)]);
    let next = generation(&world);
    assert!(living(&next).is_empty());
}

#[test]
fn generation_leaves_its_input_alone() {
    let world = world_with(&[(10, 10), (11, 10), (12, 10)]);
    let copy = world.clone();
    let _ = generation(&world);
    assert_eq!(world, copy);
}

#[test]
fn blinker_oscillates_with_period_two() {
    let flat = world_with(&[(10, 10), (11, 10), (12, 10)]);
    let upright = generation(&flat);
    assert_eq!(living(&upright), vec![(11, 9), (11, 10), (11, 11)]);
    let mut world = upright;
    for round in 0..10 {
        world = generation(&world);
        if round % 2 == 0 {
            assert_eq!(living(&world), vec![(10, 10), (11, 10), (12, 10)]);
        } else {
            assert_eq!(living(&world), vec![(11, 9), (11, 10), (11, 11)]);
        }
    }
}

#[test]
fn square_of_four_is_still() {
    let world = world_with(&[(20, 20), (20, 21), (21, 20), (21, 21)]);
    let next = generation(&world);
    assert_eq!(next, world);
}

#[test]
fn block_of_nine_opens_up() {
    let mut cells = Vec::new();
    for x in 10..13 {
        for y in 10..13 {
            cells.push((x, y));
        }
    }
    let next = generation(&world_with(&cells));
    assert_eq!(
        living(&next),
        vec![(9, 11), (10, 10), (10, 12), (11, 9), (11, 13), (12, 10), (12, 12), (13, 11)]
    );
}

#[test]
fn overcrowded_cell_dies_and_three_neighbors_give_birth() {
    let world = world_with(&[(30, 30), (29, 30), (31, 30), (30, 29), (30, 31)]);
    assert_eq!(count_neighbors(&world, 30, 30), 4);
    assert_eq!(count_neighbors(&world, 29, 29), 3);
    let next = generation(&world);
    assert_eq!(next.get(30, 30), 0);
    assert_eq!(next.get(29, 29), 1);
}

#[test]
fn border_is_hard() {
    let world = world_with(&[(0, 0), (0, 1), (0, 2)]);
    let next = generation(&world);
    assert_eq!(living(&next), vec![(0, 1), (1, 1)]);
    assert_eq!(next.get(NUM_X - 1, 1), 0);
}

#[test]
fn corner_cells_count_their_three_neighbors() {
    let world = world_with(&[(NUM_X - 2, NUM_Y - 1), (NUM_X - 1, NUM_Y - 2), (NUM_X - 2, NUM_Y - 2)]);
    assert_eq!(count_neighbors(&world, NUM_X - 1, NUM_Y - 1), 3);
    assert_eq!(count_neighbors(&world, 0, 0), 0);
    let next = generation(&world);
    assert_eq!(next.get(NUM_X - 1, NUM_Y - 1), 1);
    assert_eq!(next.get(0, 0), 0);
    assert_eq!(next.get(0, NUM_Y - 1), 0);
    assert_eq!(next.get(NUM_X - 1, 0), 0);
}
