use vstd::prelude::*;

verus! {

/// A command sent to a running game.
#[derive(Debug, Clone, Copy, PartialEq, Eq, Structural)]
pub enum Command {
    Add(i32),
    Stop,
}

/// What a game is while it works through commands: whether it still runs,
/// and the value its state holds.
pub struct Progress {
    pub running: bool,
    pub value: int,
}

/// One command applied to a game. A stopped game ignores everything; `Add`
/// adds to the value; `Stop` ends the game and keeps the value.
pub open spec fn apply_command(p: Progress, c: Command) -> Progress {
    if !p.running {
        p
    } else {
        match c {
            Command::Add(v) => Progress { running: true, value: p.value + v },
            Command::Stop => Progress { running: false, value: p.value },
        }
    }
}

/// The commands applied one after the other, in the order they came.
pub open spec fn apply_commands(p: Progress, cmds: Seq<Command>) -> Progress
    decreases cmds.len(),
{
    if cmds.len() == 0 {
        p
    } else {
        apply_command(apply_commands(p, cmds.drop_last()), cmds.last())
    }
}

pub open spec fn in_i32(x: int) -> bool {
    i32::MIN <= x <= i32::MAX
}

/// Every value the game passes through while applying the commands fits in an `i32`.
pub open spec fn stays_in_range(p: Progress, cmds: Seq<Command>) -> bool {
    forall|k: int| 0 <= k <= cmds.len() ==> in_i32(#[trigger] apply_commands(p, cmds.take(k)).value)
}

/// A stopped game stays stopped, and no command changes it.
pub proof fn lemma_stopped_is_terminal(p: Progress, cmds: Seq<Command>)
    requires
        !p.running,
    ensures
        apply_commands(p, cmds) == p,
    decreases cmds.len(),
{
    if cmds.len() > 0 {
        lemma_stopped_is_terminal(p, cmds.drop_last());
    }
}

/// How commands are split into batches does not matter: applying the first
/// `k` commands and then the rest ends where applying them all at once does.
pub proof fn lemma_batches_compose(p: Progress, cmds: Seq<Command>, k: int)
    requires
        0 <= k <= cmds.len(),
    ensures
        apply_commands(apply_commands(p, cmds.take(k)), cmds.skip(k)) == apply_commands(p, cmds),
    decreases cmds.len(),
{
    if k == cmds.len() {
        assert(cmds.take(k) =~= cmds);
        assert(cmds.skip(k) =~= Seq::<Command>::empty());
    } else {
        let init = cmds.drop_last();
        lemma_batches_compose(p, init, k);
        assert(init.take(k) =~= cmds.take(k));
        assert(cmds.skip(k).drop_last() =~= init.skip(k));
        assert(cmds.skip(k).last() == cmds.last());
    }
}

/// The sum of the values of the `Add` commands.
pub open spec fn sum_adds(cmds: Seq<Command>) -> int
    decreases cmds.len(),
{
    if cmds.len() == 0 {
        0
    } else {
        sum_adds(cmds.drop_last()) + match cmds.last() {
            Command::Add(v) => v as int,
            Command::Stop => 0,
        }
    }
}

/// Every `Add` reaches a running game: without a `Stop`, the game stays
/// running and its value grows by the sum of the `Add`s, however the commands
/// are later split into ticks.
pub proof fn lemma_adds_accumulate(p: Progress, cmds: Seq<Command>)
    requires
        p.running,
        !cmds.contains(Command::Stop),
    ensures
        apply_commands(p, cmds) == (Progress { running: true, value: p.value + sum_adds(cmds) }),
    decreases cmds.len(),
{
    if cmds.len() > 0 {
        let init = cmds.drop_last();
        assert(!init.contains(Command::Stop)) by {
            if init.contains(Command::Stop) {
                let j = choose|j: int| 0 <= j < init.len() && init[j] == Command::Stop;
                assert(cmds[j] == Command::Stop);
            }
        }
        assert(cmds.last() != Command::Stop) by {
            if cmds.last() == Command::Stop {
                assert(cmds[cmds.len() - 1] == Command::Stop);
            }
        }
        lemma_adds_accumulate(p, init);
    }
}

/// Once a batch holds a `Stop`, the game is stopped after it and stays
/// stopped whatever comes later.
pub proof fn lemma_stop_ends_game(p: Progress, batch: Seq<Command>, later: Seq<Command>)
    requires
        batch.contains(Command::Stop),
    ensures
        !apply_commands(p, batch).running,
        apply_commands(apply_commands(p, batch), later) == apply_commands(p, batch),
    decreases batch.len(),
{
    let init = batch.drop_last();
    if batch.last() != Command::Stop {
        let j = choose|j: int| 0 <= j < batch.len() && batch[j] == Command::Stop;
        assert(init[j] == Command::Stop);
        lemma_stop_ends_game(p, init, later);
    }
    lemma_stopped_is_terminal(apply_commands(p, batch), later);
}

proof fn lemma_apply_prefix(p: Progress, cmds: Seq<Command>, i: int)
    requires
        0 <= i < cmds.len(),
    ensures
        apply_commands(p, cmds.take(i + 1)) == apply_command(apply_commands(p, cmds.take(i)), cmds[i]),
{
    assert(cmds.take(i + 1).drop_last() =~= cmds.take(i));
}

/// Applies a batch of commands, in order, to a running flag and a value.
/// The first `Stop` ends the batch: the commands after it are dropped.
pub fn apply_batch(running: &mut bool, value: &mut i32, commands: &Vec<Command>)
    requires
        stays_in_range(Progress { running: *old(running), value: *old(value) as int }, commands@),
    ensures
        (Progress { running: *final(running), value: *final(value) as int }) == apply_commands(
            Progress { running: *old(running), value: *old(value) as int },
            commands@,
        ),
{
    let ghost p0 = Progress { running: *running, value: *value as int };
    if !*running {
        proof {
            lemma_stopped_is_terminal(p0, commands@);
        }
        return;
    }
    assert(commands@.take(0) =~= Seq::<Command>::empty());
    let mut i: usize = 0;
    while i < commands.len()
        invariant
            0 <= i <= commands.len(),
            p0 == (Progress { running: *old(running), value: *old(value) as int }),
            p0.running,
            stays_in_range(p0, commands@),
            *running,
            apply_commands(p0, commands@.take(i as int)) == (Progress {
                running: true,
                value: *value as int,
            }),
        decreases commands.len() - i,
    {
        proof {
            lemma_apply_prefix(p0, commands@, i as int);
        }
        match commands[i] {
            Command::Add(v) => {
                assert(in_i32(apply_commands(p0, commands@.take(i as int + 1)).value));
                *value = *value + v;
            },
            Command::Stop => {
                *running = false;
                proof {
                    let done = apply_commands(p0, commands@.take(i as int + 1));
                    lemma_batches_compose(p0, commands@, i as int + 1);
                    lemma_stopped_is_terminal(done, commands@.skip(i as int + 1));
                }
                return;
            },
        }
        i = i + 1;
    }
    assert(commands@.take(i as int) =~= commands@);
}

/// Tells whether applying the batch keeps every intermediate value in an `i32`.
pub fn batch_fits(running: bool, value: i32, commands: &Vec<Command>) -> (r: bool)
    ensures
        r == stays_in_range(Progress { running, value: value as int }, commands@),
{
    let ghost p0 = Progress { running, value: value as int };
    let mut cur_running = running;
    let mut cur: i64 = value as i64;
    let mut i: usize = 0;
    assert(commands@.take(0) =~= Seq::<Command>::empty());
    while i < commands.len()
        invariant
            0 <= i <= commands.len(),
            p0 == (Progress { running, value: value as int }),
            apply_commands(p0, commands@.take(i as int)) == (Progress {
                running: cur_running,
                value: cur as int,
            }),
            forall|k: int|
                0 <= k <= i ==> in_i32(#[trigger] apply_commands(p0, commands@.take(k)).value),
        decreases commands.len() - i,
    {
        proof {
            lemma_apply_prefix(p0, commands@, i as int);
        }
        if cur_running {
            match commands[i] {
                Command::Add(v) => {
                    cur = cur + v as i64;
                    if cur < i32::MIN as i64 || cur > i32::MAX as i64 {
                        assert(!in_i32(apply_commands(p0, commands@.take(i as int + 1)).value));
                        return false;
                    }
                },
                Command::Stop => {
                    cur_running = false;
                },
            }
        }
        i = i + 1;
    }
    assert(commands@.take(i as int) =~= commands@);
    true
}

/// The value a game works on.
#[derive(Debug, Clone, Copy, PartialEq, Eq, Structural)]
pub struct State {
    pub value: i32,
}

impl State {
    pub fn new() -> (r: State)
        ensures
            r.value == 0,
    {
        State { value: 0 }
    }
}

/// A game that applies batches of commands and counts the batches it has
/// finished without being stopped.
pub struct Game {
    pub state: State,
    pub step: usize,
    pub running: bool,
}

impl Game {
    pub open spec fn progress(&self) -> Progress {
        Progress { running: self.running, value: self.state.value as int }
    }

    /// A running game with a fresh state, before its first step.
    pub fn new() -> (r: Game)
        ensures
            r.running,
            r.step == 0,
            r.state.value == 0,
    {
        Game { state: State::new(), step: 0, running: true }
    }

    /// Tells whether `step` may be called with these commands.
    pub fn fits(&self, commands: &Vec<Command>) -> (r: bool)
        ensures
            r == stays_in_range(self.progress(), commands@),
    {
        batch_fits(self.running, self.state.value, commands)
    }

    /// Applies the commands in order. A `Stop` stops the game and drops the
    /// rest of the batch; a batch that leaves the game running counts as a step.
    pub fn step(&mut self, commands: Vec<Command>)
        requires
            stays_in_range(old(self).progress(), commands@),
            old(self).step < usize::MAX,
        ensures
            final(self).progress() == apply_commands(old(self).progress(), commands@),
            final(self).step == if final(self).running {
                old(self).step + 1
            } else {
                old(self).step as int
            },
    {
        let ghost was_running = self.running;
        apply_batch(&mut self.running, &mut self.state.value, &commands);
        proof {
            if !was_running {
                lemma_stopped_is_terminal(old(self).progress(), commands@);
            }
        }
        if self.running {
            self.step = self.step + 1;
        }
    }
}

/// Adds two sizes.
pub fn add(left: usize, right: usize) -> (r: usize)
    requires
        left + right <= usize::MAX,
    ensures
        r == left + right,
{
    left + right
}

} // verus!
