use gliderview::census::HISTORY_MAX;
use gliderview::grid::Grid;
use gliderview::rules::generation;
use gliderview::seed::{restore_starting_world, Seed};
use gliderview::session::{select_source, Command, Effect, Session, Source, START_SPEED};

fn glider_seed() -> Seed {
    let mut seed = Seed::new();
    for (x, y) in [(8, 8), (9, 8), (10, 8), (10, 9), (9, 10)] {
        seed.set(x, y, true);
    }
    seed
}

fn blinker_seed() -> Seed {
    let mut seed = Seed::new();
    for (x, y) in [(8, 9), (9, 9), (10, 9)] {
        seed.set(x, y, true);
    }
    seed
}

#[test]
fn letters_pick_the_source() {
    assert_eq!(select_source('p'), Some(Source::Preview));
    assert_eq!(select_source('P'), Some(Source::Preview));
    assert_eq!(select_source('s'), Some(Source::Saved));
    assert_eq!(select_source('S'), Some(Source::Saved));
    assert_eq!(select_source('x'), None);
    assert_eq!(select_source(' '), None);
}

#[test]
fn new_session_waits_for_its_first_world() {
    let session = Session::new(Source::Preview);
    assert_eq!(session.world, Grid::new());
    assert_eq!(session.starting_world, Seed::new());
    assert_eq!(session.census_count_history, [0; HISTORY_MAX]);
    assert_eq!(session.census_size_history, [0; HISTORY_MAX]);
    assert_eq!(session.world_number, 0);
    assert!(!session.paused);
    assert!(session.display);
    assert_eq!(session.frames_per_second, 10);
    assert_eq!(START_SPEED, 10);
    assert!(session.preview);
    assert!(!Session::new(Source::Saved).preview);
}

#[test]
fn load_starts_the_next_world() {
    let mut session = Session::new(Source::Saved);
    session.handle(Command::Pause);
    session.load(glider_seed());
    assert_eq!(session.world_number, 1);
    assert!(!session.paused);
    assert_eq!(session.starting_world, glider_seed());
    assert_eq!(session.world, restore_starting_world(&glider_seed()));
    session.load(blinker_seed());
    assert_eq!(session.world_number, 2);
    assert_eq!(session.world, restore_starting_world(&blinker_seed()));
}

#[test]
fn world_number_stops_at_the_largest() {
    let mut session = Session::new(Source::Saved);
    session.world_number = u64::MAX - 1;
    session.load(Seed::new());
    assert_eq!(session.world_number, u64::MAX);
    session.load(Seed::new());
    assert_eq!(session.world_number, u64::MAX);
}

#[test]
fn commands_that_are_left_to_the_driver() {
    let mut session = Session::new(Source::Preview);
    session.load(glider_seed());
    assert_eq!(session.handle(Command::LoadNext), Effect::ReadNextWorld);
    assert_eq!(session.handle(Command::Quit), Effect::Quit);
    assert_eq!(session.handle(Command::Save), Effect::WriteSeed);
    assert_eq!(session.world_number, 1);
    assert_eq!(session.world, restore_starting_world(&glider_seed()));
    let mut saved = Session::new(Source::Saved);
    assert_eq!(saved.handle(Command::Save), Effect::Nothing);
}

#[test]
fn switches() {
    let mut session = Session::new(Source::Preview);
    assert_eq!(session.handle(Command::ToggleDisplay), Effect::Nothing);
    assert!(!session.display);
    assert_eq!(session.handle(Command::Pause), Effect::Nothing);
    assert!(session.paused);
    assert!(!session.display);
    assert_eq!(session.handle(Command::Resume), Effect::Nothing);
    assert!(!session.paused);
    assert!(session.display);
    session.handle(Command::ToggleDisplay);
    session.handle(Command::ToggleDisplay);
    assert!(session.display);
}

#[test]
fn speed() {
    let mut session = Session::new(Source::Preview);
    assert_eq!(session.handle(Command::Faster), Effect::Nothing);
    assert_eq!(session.frames_per_second, 11);
    session.handle(Command::Faster);
    assert_eq!(session.frames_per_second, 12);
    assert_eq!(session.handle(Command::Slower), Effect::Nothing);
    assert_eq!(session.frames_per_second, 1);
    session.handle(Command::Slower);
    assert_eq!(session.frames_per_second, 1);
    session.frames_per_second = u32::MAX;
    session.handle(Command::Faster);
    assert_eq!(session.frames_per_second, u32::MAX);
}

#[test]
fn restart_goes_back_to_the_block() {
    let mut session = Session::new(Source::Preview);
    session.load(glider_seed());
    session.tick();
    session.tick();
    assert_ne!(session.world, restore_starting_world(&glider_seed()));
    session.handle(Command::Pause);
    let counts = session.census_count_history;
    assert_eq!(session.handle(Command::Restart), Effect::Nothing);
    assert_eq!(session.world, restore_starting_world(&glider_seed()));
    assert!(!session.paused);
    assert_eq!(session.world_number, 1);
    assert_eq!(session.census_count_history, counts);
}

#[test]
fn paused_session_stands_still() {
    let mut session = Session::new(Source::Preview);
    session.load(glider_seed());
    session.handle(Command::Pause);
    session.tick();
    assert_eq!(session.world, restore_starting_world(&glider_seed()));
    assert_eq!(session.census_count_history, [0; HISTORY_MAX]);
    assert!(session.paused);
}

#[test]
fn tick_steps_and_counts() {
    let mut session = Session::new(Source::Preview);
    session.load(blinker_seed());
    session.handle(Command::ToggleDisplay);
    session.tick();
    assert_eq!(session.world, generation(&restore_starting_world(&blinker_seed())));
    assert_eq!(session.census_count_history[0], 3);
    assert_eq!(session.census_count_history[1], 0);
    assert_eq!(session.census_size_history[0], 0);
    assert!(!session.paused);
    assert!(!session.display);
}

#[test]
fn glider_world_settles_when_the_history_is_full() {
    let mut session = Session::new(Source::Preview);
    session.load(glider_seed());
    session.handle(Command::ToggleDisplay);
    for _ in 1..HISTORY_MAX {
        session.tick();
        assert!(!session.paused);
        assert!(!session.display);
    }
    session.tick();
    assert!(session.paused);
    assert!(session.display);
    assert_eq!(session.census_count_history, [5; HISTORY_MAX]);
    assert_eq!(session.census_size_history, [4; HISTORY_MAX]);
}

#[test]
fn stranger_at_the_fence_pauses_the_session() {
    let mut session = Session::new(Source::Preview);
    // a square of four that sits on the north line
    for (x, y) in [(60, 2), (61, 2), (60, 3), (61, 3)] {
        session.world.set(x, y, true);
    }
    session.handle(Command::ToggleDisplay);
    session.tick();
    assert!(session.paused);
    assert!(session.display);
    assert_eq!(session.census_count_history[0], 4);
    assert_eq!(session.census_size_history[0], 1);
}
