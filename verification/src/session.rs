//! One running simulation: the world, the block it started from, the two
//! census histories and the controls. The session decides; reading seeds,
//! writing them, drawing and waiting are left to whoever drives it.

use vstd::prelude::*;
use crate::census::{
    HISTORY_MAX, census, look_for_static, looks_static, population, push_history, pushed,
    region_size,
};
use crate::grid::{Grid, all_dead};
use crate::rules::{generation, step};
use crate::seed::{Seed, restore_starting_world, world_of};
use crate::traps::{check_traps, fenced};

verus! {

/// The speed at which a session starts, in generations per second.
pub const START_SPEED: u32 = 10;

/// Where the starting blocks come from.
#[derive(Clone, Copy, Debug, PartialEq, Eq)]
pub enum Source {
    /// The file of blocks that wait to be looked at. Blocks can be saved from it.
    Preview,
    /// The file of blocks that were saved.
    Saved,
}

/// What the one who watches can ask for.
#[derive(Clone, Copy, Debug, PartialEq, Eq)]
pub enum Command {
    LoadNext,
    Restart,
    ToggleDisplay,
    Save,
    Pause,
    Resume,
    Faster,
    Slower,
    Quit,
}

/// What a command leaves to do outside the session.
#[derive(Clone, Copy, Debug, PartialEq, Eq)]
pub enum Effect {
    /// Nothing.
    Nothing,
    /// Read the next block from the source and hand it to `load`.
    ReadNextWorld,
    /// Append the record of the starting block to the file of saved blocks.
    WriteSeed,
    /// Stop.
    Quit,
}

/// The source that a letter picks at startup: `p` for the preview, `s` for
/// the saved blocks, in either case. No other letter picks a source.
pub fn select_source(letter: char) -> (source: Option<Source>)
    ensures
        source == if letter == 'p' || letter == 'P' {
            Some(Source::Preview)
        } else if letter == 's' || letter == 'S' {
            Some(Source::Saved)
        } else {
            None::<Source>
        },
{
    if letter == 'p' || letter == 'P' {
        Some(Source::Preview)
    } else if letter == 's' || letter == 'S' {
        Some(Source::Saved)
    } else {
        None
    }
}

/// The state of one run.
#[derive(Clone, Debug)]
pub struct Session {
    /// The world as the last generation left it.
    pub world: Grid,
    /// The block from which the present world started.
    pub starting_world: Seed,
    /// The population of the latest generations, the latest first.
    pub census_count_history: [i32; HISTORY_MAX],
    /// The size of the living region in the latest generations, the latest first.
    pub census_size_history: [i32; HISTORY_MAX],
    /// How many worlds were loaded so far.
    pub world_number: u64,
    /// While paused, no generation passes.
    pub paused: bool,
    /// Whether the world is to be drawn.
    pub display: bool,
    /// Generations per second, at least 1.
    pub frames_per_second: u32,
    /// Whether the blocks come from the preview, so that they can be saved.
    pub preview: bool,
}

impl Session {
    /// The invariant of a session.
    pub open spec fn wf(&self) -> bool {
        &&& self.world.wf()
        &&& self.starting_world.wf()
        &&& self.frames_per_second >= 1
    }

    /// Everything but the world and the two switches is the same in both.
    pub open spec fn same_run(&self, other: &Session) -> bool {
        &&& self.starting_world == other.starting_world
        &&& self.census_count_history == other.census_count_history
        &&& self.census_size_history == other.census_size_history
        &&& self.world_number == other.world_number
        &&& self.frames_per_second == other.frames_per_second
        &&& self.preview == other.preview
    }

    /// A session before its first world: nothing lives, nothing was counted,
    /// and the display is on.
    pub fn new(source: Source) -> (session: Session)
        ensures
            session.wf(),
            session.world@ == all_dead(),
            session.starting_world@ == crate::seed::center_of(all_dead()),
            session.census_count_history@ == Seq::new(HISTORY_MAX as nat, |i: int| 0i32),
            session.census_size_history@ == Seq::new(HISTORY_MAX as nat, |i: int| 0i32),
            session.world_number == 0,
            !session.paused,
            session.display,
            session.frames_per_second == START_SPEED,
            session.preview == (source == Source::Preview),
    {
        let session = Session {
            world: Grid::new(),
            starting_world: Seed::new(),
            census_count_history: [0i32; HISTORY_MAX],
            census_size_history: [0i32; HISTORY_MAX],
            world_number: 0,
            paused: false,
            display: true,
            frames_per_second: START_SPEED,
            preview: match source {
                Source::Preview => true,
                Source::Saved => false,
            },
        };
        assert(session.starting_world@ =~~= crate::seed::center_of(all_dead()));
        assert(session.census_count_history@ =~= Seq::new(HISTORY_MAX as nat, |i: int| 0i32));
        assert(session.census_size_history@ =~= Seq::new(HISTORY_MAX as nat, |i: int| 0i32));
        session
    }

    /// Starts the next world from the block `seed`: the block is kept for a
    /// restart, the world is the block in the middle of nothing, the count of
    /// worlds goes up by one (it stops at the largest number), and the run goes
    /// on if it was paused. The histories are kept.
    pub fn load(&mut self, seed: Seed)
        requires
            old(self).wf(),
            seed.wf(),
        ensures
            final(self).wf(),
            final(self).starting_world == seed,
            final(self).world@ == world_of(seed@),
            final(self).world_number == if old(self).world_number < u64::MAX {
                old(self).world_number + 1
            } else {
                old(self).world_number as int
            },
            !final(self).paused,
            final(self).display == old(self).display,
            final(self).census_count_history == old(self).census_count_history,
            final(self).census_size_history == old(self).census_size_history,
            final(self).frames_per_second == old(self).frames_per_second,
            final(self).preview == old(self).preview,
    {
        self.world = restore_starting_world(&seed);
        self.starting_world = seed;
        if self.world_number < u64::MAX {
            self.world_number = self.world_number + 1;
        }
        self.paused = false;
    }

    /// Carries out a command as far as the session can, and says what is left
    /// to do outside it.
    pub fn handle(&mut self, command: Command) -> (effect: Effect)
        requires
            old(self).wf(),
        ensures
            final(self).wf(),
            final(self).same_run(old(self)) || command == Command::Faster || command
                == Command::Slower,
            match command {
                Command::LoadNext => effect == Effect::ReadNextWorld && *final(self) == *old(self),
                Command::Quit => effect == Effect::Quit && *final(self) == *old(self),
                Command::Save => *final(self) == *old(self) && effect == if old(self).preview {
                    Effect::WriteSeed
                } else {
                    Effect::Nothing
                },
                Command::Restart => {
                    &&& effect == Effect::Nothing
                    &&& final(self).world@ == world_of(old(self).starting_world@)
                    &&& !final(self).paused
                    &&& final(self).display == old(self).display
                },
                Command::ToggleDisplay => {
                    &&& effect == Effect::Nothing
                    &&& final(self).world == old(self).world
                    &&& final(self).paused == old(self).paused
                    &&& final(self).display == !old(self).display
                },
                Command::Pause => {
                    &&& effect == Effect::Nothing
                    &&& final(self).world == old(self).world
                    &&& final(self).paused
                    &&& final(self).display == old(self).display
                },
                Command::Resume => {
                    &&& effect == Effect::Nothing
                    &&& final(self).world == old(self).world
                    &&& !final(self).paused
                    &&& final(self).display
                },
                Command::Faster => {
                    &&& effect == Effect::Nothing
                    &&& *final(self) == (Session {
                        frames_per_second: if old(self).frames_per_second < u32::MAX {
                            (old(self).frames_per_second + 1) as u32
                        } else {
                            u32::MAX
                        },
                        ..*old(self)
                    })
                },
                Command::Slower => {
                    &&& effect == Effect::Nothing
                    &&& *final(self) == (Session { frames_per_second: 1, ..*old(self) })
                },
            },
    {
        match command {
            Command::LoadNext => Effect::ReadNextWorld,
            Command::Quit => Effect::Quit,
            Command::Save => {
                if self.preview {
                    Effect::WriteSeed
                } else {
                    Effect::Nothing
                }
            },
            Command::Restart => {
                self.world = restore_starting_world(&self.starting_world);
                self.paused = false;
                Effect::Nothing
            },
            Command::ToggleDisplay => {
                self.display = !self.display;
                Effect::Nothing
            },
            Command::Pause => {
                self.paused = true;
                Effect::Nothing
            },
            Command::Resume => {
                self.paused = false;
                self.display = true;
                Effect::Nothing
            },
            Command::Faster => {
                if self.frames_per_second < u32::MAX {
                    self.frames_per_second = self.frames_per_second + 1;
                }
                Effect::Nothing
            },
            Command::Slower => {
                self.frames_per_second = 1;
                Effect::Nothing
            },
        }
    }

    /// Lets one generation pass, unless the session is paused: the world takes
    /// its step, the fence is run, the census is taken and put in front of the
    /// two histories. The session pauses, and turns the display on, if the
    /// fence caught something other than a glider or if both histories repeat.
    pub fn tick(&mut self)
        requires
            old(self).wf(),
        ensures
            final(self).wf(),
            final(self).same_tick(old(self)),
    {
        if !self.paused {
            self.world = generation(&self.world);
            let trapped = check_traps(&mut self.world);
            let (census_count, census_size) = census(&self.world);
            push_history(&mut self.census_count_history, census_count);
            push_history(&mut self.census_size_history, census_size as i32);
            let settled = look_for_static(self.census_count_history) && look_for_static(
                self.census_size_history,
            );
            if trapped || settled {
                self.paused = true;
                self.display = true;
            }
        }
    }

    /// How the session after a tick follows from the session `before` it.
    pub open spec fn same_tick(&self, before: &Session) -> bool {
        if before.paused {
            *self == *before
        } else {
            let fence = fenced(step(before.world@));
            let counts = pushed(before.census_count_history@, population(fence.0) as i32);
            let sizes = pushed(before.census_size_history@, region_size(fence.0) as i32);
            let stop = fence.1 || (looks_static(counts) && looks_static(sizes));
            &&& self.world@ == fence.0
            &&& self.census_count_history@ == counts
            &&& self.census_size_history@ == sizes
            &&& self.paused == stop
            &&& self.display == (stop || before.display)
            &&& self.starting_world == before.starting_world
            &&& self.world_number == before.world_number
            &&& self.frames_per_second == before.frames_per_second
            &&& self.preview == before.preview
        }
    }
}

} // verus!
