use gliderview::grid::{Grid, NUM_X, NUM_Y};
use gliderview::seed::{
    read_record, restore_starting_world, save_starting_world, Seed, SeedError, RECORD_LEN,
    START_SIZE, X_START, Y_START,
};

#[test]
fn block_sits_in_the_middle() {
    assert_eq!(START_SIZE, 20);
    assert_eq!(RECORD_LEN, 400);
    assert_eq!(X_START, (NUM_X - START_SIZE) / 2);
    assert_eq!(Y_START, (NUM_Y - START_SIZE) / 2);
    assert_eq!((X_START, Y_START), (123, 90));
}

#[test]
fn save_copies_the_middle() {
    let mut world = Grid::new();
    world.set(123, 90, true);
    world.set(142, 109, true);
    world.set(130, 95, true);
    world.set(122, 90, true);
    world.set(143, 109, true);
    world.set(130, 89, true);
    world.set(130, 110, true);
    let seed = save_starting_world(&world);
    for x in 0..START_SIZE {
        for y in 0..START_SIZE {
            let expected = [(0, 0), (19, 19), (7, 5)].contains(&(x, y));
            assert_eq!(seed.get(x, y) == 1, expected);
        }
    }
}

#[test]
fn restore_writes_the_middle_of_a_dead_world() {
    let mut seed = Seed::new();
    seed.set(0, 0, true);
    seed.set(19, 0, true);
    seed.set(3, 11, true);
    let world = restore_starting_world(&seed);
    let mut expected = Grid::new();
    expected.set(123, 90, true);
    expected.set(142, 90, true);
    expected.set(126, 101, true);
    assert_eq!(world, expected);
}

#[test]
fn restore_of_save_clears_what_lies_outside() {
    let mut world = Grid::new();
    for x in 0..NUM_X {
        for y in 0..NUM_Y {
            world.set(x, y, (x * 7 + y * 3) % 5 < 2);
        }
    }
    let restored = restore_starting_world(&save_starting_world(&world));
    for x in 0..NUM_X {
        for y in 0..NUM_Y {
            let inside = (123..143).contains(&x) && (90..110).contains(&y);
            let expected = if inside { world.get(x, y) } else { 0 };
            assert_eq!(restored.get(x, y), expected);
        }
    }
    assert_eq!(save_starting_world(&restored), save_starting_world(&world));
}

#[test]
fn save_of_restore_gives_the_block_back() {
    let mut seed = Seed::new();
    for x in 0..START_SIZE {
        for y in 0..START_SIZE {
            seed.set(x, y, (x + 2 * y) % 3 == 0);
        }
    }
    assert_eq!(save_starting_world(&restore_starting_world(&seed)), seed);
}

#[test]
fn record_goes_column_by_column() {
    let mut seed = Seed::new();
    seed.set(0, 1, true);
    seed.set(1, 0, true);
    seed.set(19, 19, true);
    let record = seed.to_record();
    assert_eq!(record.len(), 400);
    for (i, byte) in record.iter().enumerate() {
        assert_eq!(*byte, if i == 1 || i == 20 || i == 399 { 1 } else { 0 });
    }
}

#[test]
fn record_round_trip() {
    let mut seed = Seed::new();
    for x in 0..START_SIZE {
        for y in 0..START_SIZE {
            seed.set(x, y, (3 * x + y) % 4 == 1);
        }
    }
    let record = seed.to_record();
    assert_eq!(read_record(&record, 0), Ok((seed, 400)));
}

#[test]
fn reading_moves_the_cursor_record_by_record() {
    let mut first = Seed::new();
    first.set(2, 3, true);
    let mut second = Seed::new();
    second.set(4, 5, true);
    let mut source = first.to_record();
    source.extend(second.to_record());
    assert_eq!(read_record(&source, 0), Ok((first, 400)));
    assert_eq!(read_record(&source, 400), Ok((second, 800)));
    assert_eq!(read_record(&source, 800), Err(SeedError::Exhausted));
}

#[test]
fn empty_source_is_exhausted() {
    assert_eq!(read_record(&[], 0), Err(SeedError::Exhausted));
    assert_eq!(read_record(&[], 5), Err(SeedError::Exhausted));
    assert_eq!(read_record(&[1u8; 400], usize::MAX), Err(SeedError::Exhausted));
}

#[test]
fn short_record_is_malformed() {
    assert_eq!(read_record(&[0u8; 399], 0), Err(SeedError::Malformed));
    assert_eq!(read_record(&[0u8; 1], 0), Err(SeedError::Malformed));
    assert_eq!(read_record(&[0u8; 799], 400), Err(SeedError::Malformed));
    assert_eq!(read_record(&[0u8; 400], 1), Err(SeedError::Malformed));
}

#[test]
fn any_byte_but_zero_is_alive() {
    let mut source = vec![0u8; 400];
    source[0] = 1;
    source[21] = 7;
    source[399] = 255;
    let (seed, next) = read_record(&source, 0).unwrap();
    assert_eq!(next, 400);
    let mut expected = Seed::new();
    expected.set(0, 0, true);
    expected.set(1, 1, true);
    expected.set(19, 19, true);
    assert_eq!(seed, expected);
    assert_eq!(seed.get(1, 1), 1);
}

#[test]
fn new_block_is_dead() {
    let seed = Seed::new();
    assert_eq!(seed.to_record(), vec![0u8; 400]);
    assert_eq!(restore_starting_world(&seed), Grid::new());
}
