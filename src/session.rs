//! The state of one connection: its grid, its speed and its pause flag, and
//! how commands and ticks change them.

use vstd::prelude::*;
use crate::command::{frame_command, parse_command, Frame};
use crate::grid::{lemma_markup_injective, markup, next_tick, seeded, spawn_grid, successor, Grid, SIZE};

verus! {

/// The grid is a seeding from one draw in `[0, 100)` per cell. Every grid of
/// the fixed dimensions has such draws (95 for an alive cell, 0 for a dead
/// one), so this says no more than that the grid is well sized: of a random
/// seeding nothing stronger can be stated. `grid_from_draws` is exact for
/// given draws.
pub open spec fn freshly_seeded(g: Seq<Seq<bool>>) -> bool {
    exists|draws: Seq<u8>|
        draws.len() == SIZE * SIZE && (forall|k: int| 0 <= k < draws.len() ==> #[trigger] draws[k] < 100)
            && g == seeded(draws)
}

/// The speed after a `speed` command: `-` slows down by one step (up to
/// `u8::MAX`), any other first argument speeds up by one step while the speed
/// is at least 1, and no arguments at all set it back to 1.
pub open spec fn speed_after(speed: u8, args: Option<Seq<Seq<char>>>) -> u8 {
    match args {
        Some(a) => if a[0] == "-"@ {
            if speed < u8::MAX {
                (speed + 1) as u8
            } else {
                speed
            }
        } else if speed >= 1 {
            (speed - 1) as u8
        } else {
            speed
        },
        None => 1,
    }
}

/// The tick period in milliseconds at a speed; a speed of 0 is taken as 1.
pub open spec fn period_of(speed: u8) -> u64 {
    if speed == 0 {
        1000
    } else {
        (1000int / (speed as int)) as u64
    }
}

/// The grid after one tick: unchanged while paused, else one generation on.
pub open spec fn advanced(g: Seq<Seq<bool>>, paused: bool) -> Seq<Seq<bool>> {
    if paused {
        g
    } else {
        successor(g)
    }
}

/// The grid after `n` ticks.
pub open spec fn ticks(g: Seq<Seq<bool>>, paused: bool, n: nat) -> Seq<Seq<bool>>
    decreases n,
{
    if n == 0 {
        g
    } else {
        ticks(advanced(g, paused), paused, (n - 1) as nat)
    }
}

/// One connection's simulation.
pub struct State {
    /// Ticks per second: the tick period is `1000 / speed` milliseconds.
    pub speed: u8,
    /// While set, ticks render without advancing the grid.
    pub pause: bool,
    pub grid: Grid,
}

/// How the command `cmd` with `args` takes the session from `pre` to `post`.
pub open spec fn after_command(
    pre: State,
    post: State,
    cmd: Seq<char>,
    args: Option<Seq<Seq<char>>>,
) -> bool {
    if cmd == "reset"@ {
        &&& post.wf()
        &&& freshly_seeded(post.grid@)
        &&& post.speed == pre.speed
        &&& post.pause == pre.pause
    } else if cmd == "speed"@ {
        post == State { speed: speed_after(pre.speed, args), ..pre }
    } else if cmd == "pause"@ {
        post == State { pause: true, ..pre }
    } else if cmd == "play"@ {
        post == State { pause: false, ..pre }
    } else {
        post == pre
    }
}

/// Whether `a` and `b` hold the same characters.
fn same_text(a: &str, b: &str) -> (r: bool)
    ensures
        r == (a@ == b@),
{
    let n = a.unicode_len();
    if n != b.unicode_len() {
        return false;
    }
    let mut k: usize = 0;
    while k < n
        invariant
            n == a@.len() == b@.len(),
            k <= n,
            forall|j: int| 0 <= j < k ==> a@[j] == b@[j],
        decreases n - k,
    {
        if a.get_char(k) != b.get_char(k) {
            return false;
        }
        k = k + 1;
    }
    assert(a@ =~= b@);
    true
}

impl State {
    pub open spec fn wf(&self) -> bool {
        self.grid.wf()
    }

    /// A new session: a freshly seeded grid, speed 1, running.
    pub fn new() -> (s: State)
        ensures
            s.wf(),
            freshly_seeded(s.grid@),
            s.speed == 1,
            !s.pause,
    {
        State { speed: 1, pause: false, grid: spawn_grid() }
    }

    /// Applies one decoded command: `reset`, `speed`, `pause` or `play`;
    /// any other name changes nothing.
    pub fn apply(&mut self, command: &str, args: &Option<Vec<String>>)
        requires
            old(self).wf(),
            match args {
                Some(a) => a@.len() > 0,
                None => true,
            },
        ensures
            final(self).wf(),
            after_command(
                *old(self),
                *final(self),
                command@,
                match args {
                    Some(a) => Some(a.deep_view()),
                    None => None,
                },
            ),
    {
        if same_text(command, "reset") {
            self.grid = spawn_grid();
        } else if same_text(command, "speed") {
            match args {
                Some(a) => {
                    if same_text(a[0].as_str(), "-") {
                        if self.speed < u8::MAX {
                            self.speed = self.speed + 1;
                        }
                    } else if self.speed >= 1 {
                        self.speed = self.speed - 1;
                    }
                },
                None => {
                    self.speed = 1;
                },
            }
        } else if same_text(command, "pause") {
            self.pause = true;
        } else if same_text(command, "play") {
            self.pause = false;
        }
    }

    /// The tick period in milliseconds: `1000 / speed`, with a speed of 0
    /// taken as 1 so that the period is always defined.
    pub fn tick_period_ms(&self) -> (ms: u64)
        ensures
            ms == period_of(self.speed),
    {
        if self.speed == 0 {
            1000
        } else {
            1000 / (self.speed as u64)
        }
    }

    /// The end of one tick: the grid advances one generation unless paused.
    pub fn advance(&mut self)
        requires
            old(self).wf(),
        ensures
            final(self).wf(),
            final(self).speed == old(self).speed,
            final(self).pause == old(self).pause,
            final(self).grid@ == advanced(old(self).grid@, old(self).pause),
    {
        if !self.pause {
            self.grid = next_tick(&self.grid);
        }
    }
}

/// After `pause`, the grid, and with it every render, stays as it was
/// however many ticks pass.
pub proof fn lemma_pause_freezes(pre: State, post: State, args: Option<Seq<Seq<char>>>, n: nat)
    requires
        after_command(pre, post, "pause"@, args),
    ensures
        post.pause,
        ticks(post.grid@, post.pause, n) == pre.grid@,
        markup(ticks(post.grid@, post.pause, n)) == markup(pre.grid@),
    decreases n,
{
    reveal_strlit("pause");
    reveal_strlit("reset");
    reveal_strlit("speed");
    assert("pause"@[0] != "reset"@[0] && "pause"@[0] != "speed"@[0]);
    if n > 0 {
        lemma_pause_freezes(pre, post, args, (n - 1) as nat);
    }
}

/// After `play`, the next tick advances the grid one generation, and its
/// render differs from the last one exactly when the grid was not a fixed
/// point.
pub proof fn lemma_play_resumes(pre: State, post: State, args: Option<Seq<Seq<char>>>)
    requires
        pre.wf(),
        after_command(pre, post, "play"@, args),
    ensures
        !post.pause,
        advanced(post.grid@, post.pause) == successor(pre.grid@),
        markup(advanced(post.grid@, post.pause)) != markup(pre.grid@) <==> successor(pre.grid@)
            != pre.grid@,
{
    reveal_strlit("play");
    reveal_strlit("pause");
    reveal_strlit("reset");
    reveal_strlit("speed");
    assert("play"@.len() != "pause"@.len());
    assert("play"@[0] != "reset"@[0] && "play"@[0] != "speed"@[0]);
    if markup(successor(pre.grid@)) == markup(pre.grid@) {
        lemma_markup_injective(successor(pre.grid@), pre.grid@);
    }
}

/// Handles one inbound frame: the command that it carries, if any, changes
/// the session as `apply` says; a frame that carries none changes nothing.
pub fn handle_input(input: Frame, state: &mut State)
    requires
        old(state).wf(),
    ensures
        final(state).wf(),
        match frame_command(input) {
            Some((cmd, args)) => after_command(*old(state), *final(state), cmd, args),
            None => *final(state) == *old(state),
        },
{
    match parse_command(input) {
        Some((command, args)) => {
            state.apply(command.as_str(), &args);
        },
        None => {},
    }
}

} // verus!
