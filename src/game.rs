use vstd::prelude::*;
use crate::engine::Progress;

verus! {

/// The value this game works on.
#[derive(Debug, Clone, Copy, PartialEq, Eq, Structural)]
pub struct State {
    pub test_value: i32,
}

impl State {
    pub fn new() -> (r: State)
        ensures
            r.test_value == 0,
    {
        State { test_value: 0 }
    }
}

/// A command sent to this game.
#[derive(Debug, Clone, Copy, PartialEq, Eq, Structural)]
pub enum GameCommand {
    TestAdd(i32),
    TestMul(i32),
    Quit,
}

/// One command applied to the game. A stopped game ignores everything;
/// `TestAdd` adds, `TestMul` multiplies, and `Quit` stops the game and keeps
/// the value.
pub open spec fn game_command(p: Progress, c: GameCommand) -> Progress {
    if !p.running {
        p
    } else {
        match c {
            GameCommand::TestAdd(v) => Progress { running: true, value: p.value + v },
            GameCommand::TestMul(v) => Progress { running: true, value: p.value * v },
            GameCommand::Quit => Progress { running: false, value: p.value },
        }
    }
}

/// The commands applied one after the other, in the order they came.
pub open spec fn game_commands(p: Progress, cmds: Seq<GameCommand>) -> Progress
    decreases cmds.len(),
{
    if cmds.len() == 0 {
        p
    } else {
        game_command(game_commands(p, cmds.drop_last()), cmds.last())
    }
}

/// Every value the game passes through fits in an `i32`.
pub open spec fn values_fit(p: Progress, cmds: Seq<GameCommand>) -> bool {
    forall|k: int|
        0 <= k <= cmds.len() ==> i32::MIN <= #[trigger] game_commands(p, cmds.take(k)).value
            <= i32::MAX
}

proof fn lemma_game_prefix(p: Progress, cmds: Seq<GameCommand>, i: int)
    requires
        0 <= i < cmds.len(),
    ensures
        game_commands(p, cmds.take(i + 1)) == game_command(game_commands(p, cmds.take(i)), cmds[i]),
{
    assert(cmds.take(i + 1).drop_last() =~= cmds.take(i));
}

/// Once the game has stopped partway through, the commands after that point
/// change nothing.
pub proof fn lemma_game_stopped_prefix(p: Progress, cmds: Seq<GameCommand>, k: int)
    requires
        0 <= k <= cmds.len(),
        !game_commands(p, cmds.take(k)).running,
    ensures
        game_commands(p, cmds) == game_commands(p, cmds.take(k)),
    decreases cmds.len(),
{
    if k == cmds.len() {
        assert(cmds.take(k) =~= cmds);
    } else {
        assert(cmds.drop_last().take(k) =~= cmds.take(k));
        lemma_game_stopped_prefix(p, cmds.drop_last(), k);
    }
}

/// A stopped game stays stopped, and no command changes it.
pub proof fn lemma_game_stopped_is_terminal(p: Progress, cmds: Seq<GameCommand>)
    requires
        !p.running,
    ensures
        game_commands(p, cmds) == p,
{
    assert(cmds.take(0) =~= Seq::<GameCommand>::empty());
    lemma_game_stopped_prefix(p, cmds, 0);
}

/// A game that applies batches of commands. The first `Quit` stops it for
/// good and drops the rest of its batch.
pub struct Game {
    pub running: bool,
    pub state: State,
}

impl Game {
    pub open spec fn progress(&self) -> Progress {
        Progress { running: self.running, value: self.state.test_value as int }
    }

    /// A running game with a fresh state.
    pub fn new() -> (r: Game)
        ensures
            r.running,
            r.state.test_value == 0,
    {
        Game { running: true, state: State::new() }
    }

    /// Tells whether `step` and `tick` may be called with these commands.
    pub fn fits(&self, commands: &Vec<GameCommand>) -> (r: bool)
        ensures
            r == values_fit(self.progress(), commands@),
    {
        let ghost p0 = self.progress();
        let mut cur_running = self.running;
        let mut cur: i64 = self.state.test_value as i64;
        let mut i: usize = 0;
        assert(commands@.take(0) =~= Seq::<GameCommand>::empty());
        while i < commands.len()
            invariant
                0 <= i <= commands.len(),
                p0 == self.progress(),
                game_commands(p0, commands@.take(i as int)) == (Progress {
                    running: cur_running,
                    value: cur as int,
                }),
                forall|k: int|
                    0 <= k <= i ==> i32::MIN <= #[trigger] game_commands(p0, commands@.take(k)).value
                        <= i32::MAX,
            decreases commands.len() - i,
        {
            proof {
                lemma_game_prefix(p0, commands@, i as int);
            }
            if cur_running {
                match commands[i] {
                    GameCommand::TestAdd(v) => {
                        cur = cur + v as i64;
                    },
                    GameCommand::TestMul(v) => {
                        let a = cur;
                        assert(-0x4000_0000_0000_0000 <= a * v <= 0x4000_0000_0000_0000)
                            by (nonlinear_arith)
                            requires
                                i32::MIN <= a <= i32::MAX,
                                i32::MIN <= v <= i32::MAX,
                        ;
                        cur = cur * v as i64;
                    },
                    GameCommand::Quit => {
                        cur_running = false;
                    },
                }
                if cur < i32::MIN as i64 || cur > i32::MAX as i64 {
                    assert(!(i32::MIN <= game_commands(p0, commands@.take(i as int + 1)).value
                        <= i32::MAX));
                    return false;
                }
            }
            i = i + 1;
        }
        assert(commands@.take(i as int) =~= commands@);
        true
    }

    /// Applies the commands in order. The first `Quit` stops the game and
    /// drops the rest of the batch; a stopped game ignores every command.
    pub fn step(&mut self, commands: Vec<GameCommand>)
        requires
            values_fit(old(self).progress(), commands@),
        ensures
            final(self).progress() == game_commands(old(self).progress(), commands@),
    {
        let ghost p0 = self.progress();
        if !self.running {
            proof {
                lemma_game_stopped_is_terminal(p0, commands@);
            }
            return;
        }
        let mut i: usize = 0;
        assert(commands@.take(0) =~= Seq::<GameCommand>::empty());
        while i < commands.len()
            invariant
                0 <= i <= commands.len(),
                p0 == old(self).progress(),
                values_fit(p0, commands@),
                self.running,
                game_commands(p0, commands@.take(i as int)) == self.progress(),
            decreases commands.len() - i,
        {
            proof {
                lemma_game_prefix(p0, commands@, i as int);
            }
            assert(i32::MIN <= game_commands(p0, commands@.take(i as int + 1)).value <= i32::MAX);
            match commands[i] {
                GameCommand::TestAdd(v) => {
                    self.state.test_value = self.state.test_value + v;
                },
                GameCommand::TestMul(v) => {
                    self.state.test_value = self.state.test_value * v;
                },
                GameCommand::Quit => {
                    self.running = false;
                    proof {
                        lemma_game_stopped_prefix(p0, commands@, i as int + 1);
                    }
                    return;
                },
            }
            i = i + 1;
        }
        assert(commands@.take(i as int) =~= commands@);
    }

    /// One tick: the commands are applied, then a snapshot is handed out if
    /// and only if the game still runs.
    pub fn tick(&mut self, commands: Vec<GameCommand>) -> (r: Option<State>)
        requires
            values_fit(old(self).progress(), commands@),
        ensures
            final(self).progress() == game_commands(old(self).progress(), commands@),
            r == if final(self).running {
                Some(final(self).state)
            } else {
                None::<State>
            },
    {
        self.step(commands);
        if self.running {
            Some(self.state)
        } else {
            None
        }
    }
}

} // verus!
