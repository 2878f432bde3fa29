use vstd::prelude::*;
use crate::engine::{
    apply_batch, apply_commands, batch_fits, lemma_stopped_is_terminal, stays_in_range, Command,
    Progress,
};

verus! {

/// What a game holds: its value and the number of ticks it has finished.
#[derive(Debug, Clone, Copy, PartialEq, Eq, Structural)]
pub struct State {
    pub test_value: i32,
    pub step: usize,
}

impl State {
    pub fn new() -> (r: State)
        ensures
            r.test_value == 0,
            r.step == 0,
    {
        State { test_value: 0, step: 0 }
    }

    pub fn add_value(&mut self, value: i32)
        requires
            i32::MIN <= old(self).test_value + value <= i32::MAX,
        ensures
            final(self).test_value == old(self).test_value + value,
            final(self).step == old(self).step,
    {
        self.test_value = self.test_value + value;
    }
}

/// The simulation a game actor owns. Each tick it takes the commands that
/// arrived since the last one, applies them, and, while it still runs,
/// hands out a snapshot of its state.
pub struct Game {
    pub running: bool,
    pub state: State,
}

impl Game {
    pub open spec fn progress(&self) -> Progress {
        Progress { running: self.running, value: self.state.test_value as int }
    }

    /// A running game with a fresh state.
    pub fn new() -> (r: Game)
        ensures
            r.running,
            r.state.test_value == 0,
            r.state.step == 0,
    {
        Game { running: true, state: State::new() }
    }

    /// Tells whether `step` and `tick` may be called with these commands.
    pub fn fits(&self, commands: &Vec<Command>) -> (r: bool)
        ensures
            r == stays_in_range(self.progress(), commands@),
    {
        batch_fits(self.running, self.state.test_value, commands)
    }

    /// Applies the commands in order. A `Stop` stops the game and drops the
    /// rest of the batch; a batch that leaves the game running counts as a step.
    pub fn step(&mut self, commands: Vec<Command>)
        requires
            stays_in_range(old(self).progress(), commands@),
            old(self).state.step < usize::MAX,
        ensures
            final(self).progress() == apply_commands(old(self).progress(), commands@),
            final(self).state.step == if final(self).running {
                old(self).state.step + 1
            } else {
                old(self).state.step as int
            },
    {
        let ghost was_running = self.running;
        apply_batch(&mut self.running, &mut self.state.test_value, &commands);
        proof {
            if !was_running {
                lemma_stopped_is_terminal(old(self).progress(), commands@);
            }
        }
        if self.running {
            self.state.step = self.state.step + 1;
        }
    }

    /// One tick: the commands are applied, then a snapshot is handed out if
    /// and only if the game still runs.
    pub fn tick(&mut self, commands: Vec<Command>) -> (r: Option<State>)
        requires
            stays_in_range(old(self).progress(), commands@),
            old(self).state.step < usize::MAX,
        ensures
            final(self).progress() == apply_commands(old(self).progress(), commands@),
            final(self).state.step == if final(self).running {
                old(self).state.step + 1
            } else {
                old(self).state.step as int
            },
            r == if final(self).running {
                Some(final(self).state)
            } else {
                None::<State>
            },
    {
        self.step(commands);
        if self.running {
            Some(self.state)
        } else {
            None
        }
    }
}

/// How long a tick still waits, in the unit both arguments share: the rest
/// of the period if the tick took less, else nothing, so that a late tick is
/// followed at once by the next one.
pub fn sleep_for(period: u64, elapsed: u64) -> (r: u64)
    ensures
        r == if elapsed < period {
            period - elapsed
        } else {
            0
        },
{
    if elapsed < period {
        period - elapsed
    } else {
        0
    }
}

} // verus!
