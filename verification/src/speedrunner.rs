//! Speed Runner: commands fall from the top of the screen and must be typed
//! before they reach the ground; three misses end the game.
//!
//! Time is counted in milliseconds and heights in thousandths of a row.

use crate::config::{
    at_least_one_second, random_speedrun_command, speedrun_candidate, speedrunner_time_limit,
    GameConfig,
};
use crate::game::Difficulty;
use crate::hack::{wpm_of, words_per_minute};
use crate::random::{below, new_rng};
use crate::text::{byte_len, pop_char, push_char, starts_with};
use vstd::prelude::*;

verus! {

/// How long the input box flashes red after a wrong key, in milliseconds.
pub const SR_FLASH_MS: u64 = 250;

/// Lives at the start of a game.
pub const START_LIVES: u32 = 3;

/// A command on its way down.
pub struct FallingCommand {
    pub text: String,
    /// Column of its first character.
    pub x: u16,
    /// Row of the command, in thousandths of a row.
    pub y_milli: u64,
}

/// State of a Speed Runner game.
pub struct SpeedRunnerState {
    pub diff: Difficulty,
    pub commands: Vec<FallingCommand>,
    pub buffer: String,
    pub flash_error_ms: u64,
    pub score: u32,
    pub combo: u32,
    pub max_combo: u32,
    pub commands_completed: u32,
    pub lives: u32,
    pub elapsed_ms: u64,
    pub time_limit_ms: u64,
    /// Time until the next command appears, in milliseconds.
    pub spawn_timer_ms: u64,
    pub keystrokes: u32,
    pub correct_keystrokes: u32,
    pub area_w: u16,
    pub area_h: u16,
}

/// Falling speed at the start, in thousandths of a row per second.
pub open spec fn spec_base_fall_speed(d: Difficulty) -> u64 {
    match d {
        Difficulty::Easy => 1500,
        Difficulty::Normal => 2500,
        Difficulty::Insane => 3500,
    }
}

/// Falling speed at the start, in thousandths of a row per second:
/// 1.5, 2.5 and 3.5 rows per second.
pub fn base_fall_speed(d: Difficulty) -> (r: u64)
    ensures
        r == spec_base_fall_speed(d),
{
    match d {
        Difficulty::Easy => 1500,
        Difficulty::Normal => 2500,
        Difficulty::Insane => 3500,
    }
}

/// Time between two commands at the start, in milliseconds.
pub open spec fn spec_base_spawn_interval(d: Difficulty) -> u64 {
    match d {
        Difficulty::Easy => 3000,
        Difficulty::Normal => 2000,
        Difficulty::Insane => 1200,
    }
}

/// Time between two commands at the start, in milliseconds: 3, 2 and 1.2 s.
pub fn base_spawn_interval(d: Difficulty) -> (r: u64)
    ensures
        r == spec_base_spawn_interval(d),
{
    match d {
        Difficulty::Easy => 3000,
        Difficulty::Normal => 2000,
        Difficulty::Insane => 1200,
    }
}

/// The game speeds up by 15 % every 15 s: the factor, in thousandths, after
/// `elapsed_ms`.
pub open spec fn difficulty_factor(elapsed_ms: u64) -> int {
    1000 + elapsed_ms / 100
}

/// How far a command falls in `dt_ms`, in thousandths of a row.
pub open spec fn fall_step(d: Difficulty, elapsed_ms: u64, dt_ms: u32) -> int {
    spec_base_fall_speed(d) * difficulty_factor(elapsed_ms) * dt_ms / 1_000_000
}

/// Time until the next command once one appears, in milliseconds.
pub open spec fn spawn_interval(d: Difficulty, elapsed_ms: u64) -> int {
    spec_base_spawn_interval(d) * 1000 / difficulty_factor(elapsed_ms)
}

/// Points for a command of `len` bytes typed at combo `combo`:
/// `len × 10 × (1 + combo / 5)`.
pub open spec fn sr_points(len: int, combo: int) -> int {
    len * 10 * (1 + combo / 5)
}

/// Exclusive bound of the column of a new command of `len` bytes.
pub open spec fn spawn_columns(area_w: u16, len: nat) -> int {
    if len + 2 >= area_w {
        1
    } else {
        area_w - (len + 2)
    }
}

/// A command moved down by `step`.
pub open spec fn moved(c: FallingCommand, step: int) -> FallingCommand {
    FallingCommand {
        y_milli: if c.y_milli + step > u64::MAX {
            u64::MAX
        } else {
            (c.y_milli + step) as u64
        },
        ..c
    }
}

/// The commands still in the air after each has fallen by `step`: those
/// above `limit`, in their order.
pub open spec fn survivors(cmds: Seq<FallingCommand>, step: int, limit: int) -> Seq<
    FallingCommand,
>
    decreases cmds.len(),
{
    if cmds.len() == 0 {
        Seq::empty()
    } else {
        let rest = survivors(cmds.drop_last(), step, limit);
        let m = moved(cmds.last(), step);
        if m.y_milli < limit {
            rest.push(m)
        } else {
            rest
        }
    }
}

/// How many of `cmds` reach `limit` after falling by `step`.
pub open spec fn missed_count(cmds: Seq<FallingCommand>, step: int, limit: int) -> nat
    decreases cmds.len(),
{
    if cmds.len() == 0 {
        0
    } else {
        missed_count(cmds.drop_last(), step, limit) + if moved(cmds.last(), step).y_milli
            < limit {
            0nat
        } else {
            1nat
        }
    }
}

/// `prefix` is the start of the text of one of `cmds`.
pub open spec fn prefix_of_some(cmds: Seq<FallingCommand>, prefix: Seq<char>) -> bool {
    exists|i: int| 0 <= i < cmds.len() && prefix.is_prefix_of(#[trigger] cmds[i].text@)
}

/// `text` is the whole text of one of `cmds`.
pub open spec fn text_of_some(cmds: Seq<FallingCommand>, text: Seq<char>) -> bool {
    exists|i: int| 0 <= i < cmds.len() && #[trigger] cmds[i].text@ == text
}

/// The first of `cmds` whose text is `text`.
pub open spec fn first_with_text(cmds: Seq<FallingCommand>, text: Seq<char>, i: int) -> bool {
    &&& 0 <= i < cmds.len()
    &&& cmds[i].text@ == text
    &&& forall|j: int| 0 <= j < i ==> #[trigger] cmds[j].text@ != text
}

proof fn lemma_missed_bound(cmds: Seq<FallingCommand>, step: int, limit: int)
    ensures
        missed_count(cmds, step, limit) <= cmds.len(),
        survivors(cmds, step, limit).len() + missed_count(cmds, step, limit) == cmds.len(),
    decreases cmds.len(),
{
    if cmds.len() > 0 {
        lemma_missed_bound(cmds.drop_last(), step, limit);
    }
}

/// When nothing is missed, every command survives with its text.
proof fn lemma_no_miss(cmds: Seq<FallingCommand>, step: int, limit: int)
    requires
        missed_count(cmds, step, limit) == 0,
    ensures
        survivors(cmds, step, limit).len() == cmds.len(),
        forall|i: int|
            0 <= i < cmds.len() ==> #[trigger] survivors(cmds, step, limit)[i].text == cmds[i].text,
    decreases cmds.len(),
{
    if cmds.len() > 0 {
        lemma_no_miss(cmds.drop_last(), step, limit);
        lemma_missed_bound(cmds.drop_last(), step, limit);
        assert forall|i: int| 0 <= i < cmds.len() implies #[trigger] survivors(
            cmds,
            step,
            limit,
        )[i].text == cmds[i].text by {
            if i < cmds.len() - 1 {
                assert(cmds.drop_last()[i] == cmds[i]);
            }
        }
    }
}

impl SpeedRunnerState {
    /// The state invariant: the typed text starts one of the falling
    /// commands (or is empty), the best combo is at least the current one,
    /// and the commands can be counted in a `u32`.
    pub open spec fn wf(self) -> bool {
        &&& (self.buffer@.len() == 0 || prefix_of_some(self.commands@, self.buffer@))
        &&& self.combo <= self.max_combo
        &&& self.commands@.len() <= u32::MAX
    }

    pub open spec fn spec_is_over(self) -> bool {
        self.lives == 0 || self.elapsed_ms >= self.time_limit_ms
    }

    /// The fall limit: three rows above the bottom, in thousandths of a row.
    pub open spec fn fall_limit(self) -> int {
        (if self.area_h >= 3 {
            self.area_h - 3
        } else {
            0
        }) * 1000
    }

    /// A tick keeps the number of commands countable.
    pub open spec fn can_tick(self) -> bool {
        self.commands@.len() < u32::MAX
    }

    /// Every counter that `type_char` bumps stays within `u32`.
    pub open spec fn can_type(self, c: char) -> bool {
        &&& self.keystrokes < u32::MAX
        &&& prefix_of_some(self.commands@, self.buffer@.push(c)) ==> self.correct_keystrokes
            < u32::MAX
    }

    /// Every counter that `submit` bumps stays within `u32`.
    pub open spec fn can_submit(self) -> bool {
        self.buffer@.len() > 0 && text_of_some(self.commands@, self.buffer@) ==> {
            &&& self.combo < u32::MAX
            &&& self.commands_completed < u32::MAX
            &&& self.score + sr_points(byte_len(self.buffer@) as int, self.combo + 1) <= u32::MAX
        }
    }

    /// `f` is `o` after `dt_ms` milliseconds: the flash fades, every command
    /// falls (faster as time goes on), those that reach the ground cost a
    /// life each, reset the combo and empty the buffer, and a new command
    /// appears when the spawn timer runs out.
    pub open spec fn after_tick(o: SpeedRunnerState, f: SpeedRunnerState, dt_ms: u32, cfg: GameConfig) -> bool {
        let elapsed = if o.elapsed_ms + dt_ms > u64::MAX {
            u64::MAX
        } else {
            (o.elapsed_ms + dt_ms) as u64
        };
        let step = fall_step(o.diff, elapsed, dt_ms);
        let kept = survivors(o.commands@, step, o.fall_limit());
        let missed = missed_count(o.commands@, step, o.fall_limit());
        let timer = if o.spawn_timer_ms > dt_ms {
            o.spawn_timer_ms - dt_ms
        } else {
            0
        };
        &&& f.elapsed_ms == elapsed
        &&& f.flash_error_ms == if o.flash_error_ms > dt_ms {
            o.flash_error_ms - dt_ms
        } else {
            0
        }
        &&& f.lives == if o.lives > missed {
            o.lives - missed
        } else {
            0
        }
        &&& f.combo == if missed > 0 {
            0
        } else {
            o.combo
        }
        &&& missed > 0 ==> f.buffer@.len() == 0
        &&& missed == 0 ==> f.buffer == o.buffer
        &&& timer > 0 ==> f.commands@ == kept && f.spawn_timer_ms == timer
        &&& timer == 0 ==> {
            &&& f.commands@.len() == kept.len() + 1
            &&& f.commands@.subrange(0, kept.len() as int) == kept
            &&& speedrun_candidate(cfg, o.diff, elapsed, f.commands@.last().text@)
            &&& f.commands@.last().y_milli == 1000
            &&& f.commands@.last().x < spawn_columns(
                o.area_w,
                byte_len(f.commands@.last().text@),
            )
            &&& f.spawn_timer_ms == spawn_interval(o.diff, elapsed)
        }
        &&& f.diff == o.diff
        &&& f.score == o.score
        &&& f.max_combo == o.max_combo
        &&& f.commands_completed == o.commands_completed
        &&& f.time_limit_ms == o.time_limit_ms
        &&& f.keystrokes == o.keystrokes
        &&& f.correct_keystrokes == o.correct_keystrokes
        &&& f.area_w == o.area_w
        &&& f.area_h == o.area_h
    }

    /// `new` is `old` after the key `c`: it joins the buffer when the buffer
    /// still starts one of the falling commands; otherwise the input flashes,
    /// the combo resets and the buffer empties.
    pub open spec fn after_key(old: SpeedRunnerState, new: SpeedRunnerState, c: char) -> bool {
        if prefix_of_some(old.commands@, old.buffer@.push(c)) {
            &&& new.buffer@ == old.buffer@.push(c)
            &&& new == (SpeedRunnerState {
                buffer: new.buffer,
                keystrokes: (old.keystrokes + 1) as u32,
                correct_keystrokes: (old.correct_keystrokes + 1) as u32,
                ..old
            })
        } else {
            &&& new.buffer@.len() == 0
            &&& new == (SpeedRunnerState {
                buffer: new.buffer,
                keystrokes: (old.keystrokes + 1) as u32,
                combo: 0,
                flash_error_ms: SR_FLASH_MS,
                ..old
            })
        }
    }

    /// `new` is `old` after Backspace: the last typed character is gone.
    pub open spec fn after_backspace(old: SpeedRunnerState, new: SpeedRunnerState) -> bool {
        &&& new.buffer@ == if old.buffer@.len() == 0 {
            old.buffer@
        } else {
            old.buffer@.drop_last()
        }
        &&& new == (SpeedRunnerState { buffer: new.buffer, ..old })
    }

    /// `new` is `old` after Enter: the first falling command whose text is
    /// exactly the buffer leaves the screen and scores
    /// `len × 10 × (1 + combo / 5)` (combo counted with it); when none
    /// matches, the input flashes and the combo resets. The buffer empties
    /// either way; an empty buffer does nothing.
    pub open spec fn after_submit(old: SpeedRunnerState, new: SpeedRunnerState) -> bool {
        if old.buffer@.len() == 0 {
            new == old
        } else if text_of_some(old.commands@, old.buffer@) {
            &&& new.buffer@.len() == 0
            &&& exists|i: int|
                first_with_text(old.commands@, old.buffer@, i) && new.commands@
                    == old.commands@.remove(i)
            &&& new.combo == old.combo + 1
            &&& new.commands_completed == old.commands_completed + 1
            &&& new.max_combo == (if old.max_combo > old.combo + 1 {
                old.max_combo as int
            } else {
                old.combo + 1
            })
            &&& new.score == old.score + sr_points(byte_len(old.buffer@) as int, old.combo + 1)
            &&& new == (SpeedRunnerState {
                buffer: new.buffer,
                commands: new.commands,
                combo: new.combo,
                commands_completed: new.commands_completed,
                max_combo: new.max_combo,
                score: new.score,
                ..old
            })
        } else {
            &&& new.buffer@.len() == 0
            &&& new == (SpeedRunnerState {
                buffer: new.buffer,
                combo: 0,
                flash_error_ms: SR_FLASH_MS,
                ..old
            })
        }
    }

    /// `self` is a game that has just started at difficulty `diff`: three
    /// lives, nothing on screen, a first command after half a second, an
    /// 80 × 24 play area until told otherwise.
    pub open spec fn fresh(self, diff: Difficulty, cfg: GameConfig) -> bool {
        &&& self.diff == diff
        &&& self.commands@.len() == 0
        &&& self.buffer@.len() == 0
        &&& self.flash_error_ms == 0
        &&& self.score == 0
        &&& self.combo == 0
        &&& self.max_combo == 0
        &&& self.commands_completed == 0
        &&& self.lives == START_LIVES
        &&& self.elapsed_ms == 0
        &&& self.time_limit_ms == at_least_one_second(cfg.speedrunner_time_limit_ms)
        &&& self.spawn_timer_ms == 500
        &&& self.keystrokes == 0
        &&& self.correct_keystrokes == 0
        &&& self.area_w == 80
        &&& self.area_h == 24
    }

    /// A new game at difficulty `diff`.
    pub fn new(diff: Difficulty, cfg: &GameConfig) -> (s: Self)
        ensures
            s.wf(),
            s.fresh(diff, *cfg),
    {
        SpeedRunnerState {
            diff,
            commands: Vec::new(),
            buffer: String::new(),
            flash_error_ms: 0,
            score: 0,
            combo: 0,
            max_combo: 0,
            commands_completed: 0,
            lives: START_LIVES,
            elapsed_ms: 0,
            time_limit_ms: speedrunner_time_limit(cfg),
            spawn_timer_ms: 500,
            keystrokes: 0,
            correct_keystrokes: 0,
            area_w: 80,
            area_h: 24,
        }
    }

    /// The game is over when no life is left or the time limit is reached.
    pub fn is_over(&self) -> (r: bool)
        ensures
            r == self.spec_is_over(),
    {
        self.lives == 0 || self.elapsed_ms >= self.time_limit_ms
    }

    /// Time left, in milliseconds (never below zero).
    pub fn time_remaining(&self) -> (r: u64)
        ensures
            r == if self.time_limit_ms > self.elapsed_ms {
                self.time_limit_ms - self.elapsed_ms
            } else {
                0
            },
    {
        self.time_limit_ms.saturating_sub(self.elapsed_ms)
    }

    /// Typing speed in words per minute.
    pub fn wpm(&self) -> (r: u32)
        ensures
            r == words_per_minute(self.correct_keystrokes, self.elapsed_ms),
    {
        wpm_of(self.correct_keystrokes, self.elapsed_ms)
    }

    /// Whether a tick keeps the commands countable.
    pub fn fits_tick(&self) -> (r: bool)
        ensures
            r == self.can_tick(),
    {
        self.commands.len() < u32::MAX as usize
    }

    /// Whether `prefix` starts one of the falling commands.
    fn starts_some(&self, prefix: &str) -> (r: bool)
        ensures
            r == prefix_of_some(self.commands@, prefix@),
    {
        let n = self.commands.len();
        let mut i: usize = 0;
        while i < n
            invariant
                n == self.commands@.len(),
                i <= n,
                forall|j: int| 0 <= j < i ==> !prefix@.is_prefix_of(#[trigger] self.commands@[j].text@),
            decreases n - i,
        {
            if starts_with(self.commands[i].text.as_str(), prefix) {
                return true;
            }
            i = i + 1;
        }
        false
    }

    /// Whether typing `c` keeps every counter within `u32`.
    pub fn fits_key(&self, c: char) -> (r: bool)
        ensures
            r == self.can_type(c),
    {
        if self.keystrokes == u32::MAX {
            return false;
        }
        let mut typed = self.buffer.clone();
        push_char(&mut typed, c);
        if self.starts_some(typed.as_str()) {
            self.correct_keystrokes < u32::MAX
        } else {
            true
        }
    }

    /// Whether Enter keeps every counter within `u32`.
    pub fn fits_submit(&self) -> (r: bool)
        ensures
            r == self.can_submit(),
    {
        if self.buffer.as_str().unicode_len() == 0 {
            return true;
        }
        let n = self.commands.len();
        let mut found = false;
        let mut i: usize = 0;
        while i < n
            invariant
                n == self.commands@.len(),
                i <= n,
                found <==> exists|j: int| 0 <= j < i && #[trigger] self.commands@[j].text@ == self.buffer@,
            decreases n - i,
        {
            if self.commands[i].text == self.buffer {
                found = true;
            }
            i = i + 1;
        }
        if !found {
            return true;
        }
        if self.combo == u32::MAX || self.commands_completed == u32::MAX {
            return false;
        }
        let len = self.buffer.as_str().len() as u128;
        let mult: u128 = 1 + ((self.combo + 1) as u128) / 5;
        assert(len * 10 * mult <= 0x1_0000_0000_0000_0000 * 10 * 0x1_0000_0000) by (nonlinear_arith)
            requires
                len < 0x1_0000_0000_0000_0000,
                mult <= 0x1_0000_0000,
        ;
        (self.score as u128) + len * 10 * mult <= u32::MAX as u128
    }

    /// Speed factor, in thousandths, at this point of the game.
    fn difficulty_factor(&self) -> (r: u64)
        ensures
            r == difficulty_factor(self.elapsed_ms),
    {
        1000 + self.elapsed_ms / 100
    }

    /// Records the size of the play area.
    pub fn set_area(&mut self, w: u16, h: u16)
        ensures
            *final(self) == (SpeedRunnerState { area_w: w, area_h: h, ..*old(self) }),
    {
        self.area_w = w;
        self.area_h = h;
    }

    /// Lets `dt_ms` milliseconds pass: the flash fades, every command falls
    /// (faster as time goes on), those that reach the ground cost a life
    /// each, reset the combo and empty the buffer, and a new command appears
    /// when the spawn timer runs out.
    pub fn tick(&mut self, dt_ms: u32, cfg: &GameConfig)
        requires
            old(self).wf(),
            old(self).can_tick(),
        ensures
            final(self).wf(),
            SpeedRunnerState::after_tick(*old(self), *final(self), dt_ms, *cfg),
    {
        self.elapsed_ms = self.elapsed_ms.saturating_add(dt_ms as u64);
        self.flash_error_ms = self.flash_error_ms.saturating_sub(dt_ms as u64);
        let factor = self.difficulty_factor();
        let speed = base_fall_speed(self.diff);
        assert((speed as u128) * (factor as u128) <= 3500 * 200_000_000_000_000_000)
            by (nonlinear_arith)
            requires
                speed <= 3500,
                factor <= 200_000_000_000_000_000,
        ;
        assert((speed as u128) * (factor as u128) * (dt_ms as u128)
            <= 3500 * 200_000_000_000_000_000 * 0x1_0000_0000) by (nonlinear_arith)
            requires
                speed <= 3500,
                factor <= 200_000_000_000_000_000,
                dt_ms <= 0xffff_ffff,
        ;
        let raw: u128 = (speed as u128) * (factor as u128) * (dt_ms as u128)
            / 1_000_000;
        let limit: u64 = (self.area_h.saturating_sub(3) as u64) * 1000;
        let ghost step = fall_step(self.diff, self.elapsed_ms, dt_ms);
        assert(raw == step);
        let mut old_cmds: Vec<FallingCommand> = Vec::new();
        std::mem::swap(&mut old_cmds, &mut self.commands);
        let ghost before = old_cmds@;
        let mut kept: Vec<FallingCommand> = Vec::new();
        let mut missed: u32 = 0;
        let n = old_cmds.len();
        let mut i: usize = 0;
        while i < n
            invariant
                n == before.len(),
                old_cmds@ == before,
                n < u32::MAX,
                i <= n,
                raw == step,
                raw <= 3500 * 200_000_000_000_000_000 * 0x1_0000_0000,
                kept@ == survivors(before.take(i as int), step, limit as int),
                missed == missed_count(before.take(i as int), step, limit as int),
            decreases n - i,
        {
            proof {
                lemma_missed_bound(before.take(i as int), step, limit as int);
                assert(before.take(i + 1).drop_last() =~= before.take(i as int));
                assert(before.take(i + 1).last() == before[i as int]);
            }
            let c = &old_cmds[i];
            let y: u64 = if (c.y_milli as u128) + raw > u64::MAX as u128 {
                u64::MAX
            } else {
                ((c.y_milli as u128) + raw) as u64
            };
            if y < limit {
                kept.push(FallingCommand { text: c.text.clone(), x: c.x, y_milli: y });
            } else {
                missed = missed + 1;
            }
            i = i + 1;
        }
        proof {
            assert(before.take(n as int) =~= before);
            lemma_missed_bound(before, step, limit as int);
            if missed == 0 {
                lemma_no_miss(before, step, limit as int);
            }
        }
        self.commands = kept;
        if missed > 0 {
            self.lives = self.lives.saturating_sub(missed);
            self.combo = 0;
            self.buffer = String::new();
        } else {
            proof {
                if self.buffer@.len() > 0 {
                    let j = choose|j: int|
                        0 <= j < before.len() && self.buffer@.is_prefix_of(
                            #[trigger] before[j].text@,
                        );
                    assert(self.buffer@.is_prefix_of(self.commands@[j].text@));
                }
            }
        }
        self.spawn_timer_ms = self.spawn_timer_ms.saturating_sub(dt_ms as u64);
        if self.spawn_timer_ms == 0 {
            let ghost mid = self.commands@;
            self.spawn(cfg);
            proof {
                if self.buffer@.len() > 0 {
                    let j = choose|j: int|
                        0 <= j < mid.len() && self.buffer@.is_prefix_of(#[trigger] mid[j].text@);
                    assert(self.commands@[j] == mid[j]);
                }
            }
            let factor2 = self.difficulty_factor();
            self.spawn_timer_ms = base_spawn_interval(self.diff) * 1000 / factor2;
        }
    }

    /// Adds a random command at the top, at a random column where it fits.
    fn spawn(&mut self, cfg: &GameConfig)
        requires
            old(self).commands@.len() < u32::MAX,
        ensures
            final(self).commands@.len() == old(self).commands@.len() + 1,
            final(self).commands@.subrange(0, old(self).commands@.len() as int)
                == old(self).commands@,
            speedrun_candidate(*cfg, old(self).diff, old(self).elapsed_ms, final(self).commands@.last().text@),
            final(self).commands@.last().y_milli == 1000,
            final(self).commands@.last().x < spawn_columns(
                old(self).area_w,
                byte_len(final(self).commands@.last().text@),
            ),
            *final(self) == (SpeedRunnerState { commands: final(self).commands, ..*old(self) }),
    {
        let mut rng = new_rng();
        let text = random_speedrun_command(cfg, self.diff, self.elapsed_ms);
        let len = text.as_str().len();
        let max_x: u16 = if len >= 65533 || len + 2 >= self.area_w as usize {
            1
        } else {
            self.area_w - (len as u16 + 2)
        };
        assert(len == byte_len(text@));
        assert(max_x == spawn_columns(self.area_w, byte_len(text@)));
        let x = below(&mut rng, max_x as u64) as u16;
        let ghost before = self.commands@;
        self.commands.push(FallingCommand { text, x, y_milli: 1000 });
        assert(self.commands@.subrange(0, before.len() as int) =~= before);
    }

    /// A key typed: it joins the buffer when the buffer still starts one of
    /// the falling commands; otherwise the input flashes, the combo resets
    /// and the buffer empties.
    pub fn type_char(&mut self, c: char)
        requires
            old(self).wf(),
            old(self).can_type(c),
        ensures
            final(self).wf(),
            SpeedRunnerState::after_key(*old(self), *final(self), c),
    {
        self.keystrokes = self.keystrokes + 1;
        push_char(&mut self.buffer, c);
        let n = self.commands.len();
        let mut ok = false;
        let mut i: usize = 0;
        while i < n
            invariant
                n == self.commands@.len(),
                i <= n,
                ok <==> exists|j: int|
                    0 <= j < i && self.buffer@.is_prefix_of(#[trigger] self.commands@[j].text@),
            decreases n - i,
        {
            if starts_with(self.commands[i].text.as_str(), self.buffer.as_str()) {
                ok = true;
            }
            i = i + 1;
        }
        if !ok {
            self.flash_error_ms = SR_FLASH_MS;
            self.combo = 0;
            self.buffer = String::new();
        } else {
            self.correct_keystrokes = self.correct_keystrokes + 1;
        }
    }

    /// Removes the last typed character, if any.
    pub fn backspace(&mut self)
        requires
            old(self).wf(),
        ensures
            final(self).wf(),
            SpeedRunnerState::after_backspace(*old(self), *final(self)),
    {
        let ghost b = self.buffer@;
        let _ = pop_char(&mut self.buffer);
        proof {
            if self.buffer@.len() > 0 {
                let j = choose|j: int|
                    0 <= j < self.commands@.len() && b.is_prefix_of(
                        #[trigger] self.commands@[j].text@,
                    );
                assert(self.buffer@.is_prefix_of(self.commands@[j].text@));
            }
        }
    }

    /// Enter: the first falling command whose text is exactly the buffer
    /// leaves the screen and scores `len × 10 × (1 + combo / 5)` (combo
    /// counted with it); when none matches, the input flashes and the combo
    /// resets. The buffer empties either way; an empty buffer does nothing.
    pub fn submit(&mut self)
        requires
            old(self).wf(),
            old(self).can_submit(),
        ensures
            final(self).wf(),
            SpeedRunnerState::after_submit(*old(self), *final(self)),
    {
        if self.buffer.as_str().unicode_len() == 0 {
            return;
        }
        let n = self.commands.len();
        let mut i: usize = 0;
        while i < n
            invariant
                n == self.commands@.len(),
                i <= n,
                forall|j: int| 0 <= j < i ==> #[trigger] self.commands@[j].text@ != self.buffer@,
            ensures
                i <= n,
                i < n ==> self.commands@[i as int].text@ == self.buffer@,
                forall|j: int| 0 <= j < i ==> #[trigger] self.commands@[j].text@ != self.buffer@,
            decreases n - i,
        {
            if self.commands[i].text == self.buffer {
                break;
            }
            i = i + 1;
        }
        if i < n {
            let ghost before = self.commands@;
            assert(text_of_some(before, self.buffer@));
            let removed = self.commands.remove(i);
            self.combo = self.combo + 1;
            self.commands_completed = self.commands_completed + 1;
            if self.combo > self.max_combo {
                self.max_combo = self.combo;
            }
            let len = removed.text.as_str().len();
            proof {
                lemma_sr_points_bound(len as int, self.combo as int);
            }
            let mult: u32 = 1 + self.combo / 5;
            self.score = self.score + (len as u32) * 10 * mult;
            self.buffer = String::new();
            assert(first_with_text(before, old(self).buffer@, i as int));
        } else {
            self.flash_error_ms = SR_FLASH_MS;
            self.combo = 0;
            self.buffer = String::new();
        }
    }
}

/// Points are at least ten per byte.
proof fn lemma_sr_points_bound(len: int, combo: int)
    requires
        len >= 0,
        combo >= 0,
    ensures
        sr_points(len, combo) >= len * 10,
        sr_points(len, combo) >= len * 10 * (1 + combo / 5),
{
    let mult = 1 + combo / 5;
    assert(len * 10 <= len * 10 * mult) by (nonlinear_arith)
        requires
            mult >= 1,
            len >= 0,
    ;
}

} // verus!
