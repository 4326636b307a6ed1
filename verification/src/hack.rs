//! Hack Time Attack: one command at a time, as many as possible before the
//! clock runs out; the score weighs each command by its length.
//!
//! Time is counted in milliseconds.

use crate::config::{hack_candidate, hack_time_limit, random_hack_command, GameConfig, at_least_one_second};
use crate::game::Difficulty;
use crate::text::{pop_char, push_char};
use vstd::prelude::*;

verus! {

/// How long the input box flashes red after a wrong key, in milliseconds.
pub const HACK_FLASH_MS: u64 = 200;

/// How long "ACCESS GRANTED" shows after a command, in milliseconds.
pub const HACK_PULSE_MS: u64 = 180;

/// State of a Hack Time Attack game.
pub struct HackState {
    pub diff: Difficulty,
    /// The command to type.
    pub current: String,
    /// What has been typed of it so far.
    pub buffer: String,
    /// Time left of the error flash, in milliseconds.
    pub flash_error_ms: u64,
    /// Time left of the "command done" pulse, in milliseconds.
    pub last_complete_pulse_ms: u64,
    pub score: u32,
    pub combo: u32,
    pub max_combo: u32,
    pub commands_done: u32,
    pub elapsed_ms: u64,
    pub time_limit_ms: u64,
    pub keystrokes: u32,
    pub correct_keystrokes: u32,
    pub errors: u32,
}

/// Points for one command of `len` characters typed at combo `combo`:
/// 5 per character, plus 2 per character beyond the tenth, times
/// `1 + combo / 5`.
pub open spec fn hack_points(len: int, combo: int) -> int {
    (len * 5 + (if len > 10 { (len - 10) * 2 } else { 0 })) * (1 + combo / 5)
}

/// Words per minute for `correct` keystrokes in `elapsed_ms` milliseconds
/// (a word is five keystrokes); 0 during the first second, capped at
/// `u32::MAX`.
pub open spec fn words_per_minute(correct: u32, elapsed_ms: u64) -> u32 {
    if elapsed_ms < 1000 {
        0
    } else if correct * 12000 / (elapsed_ms as int) > u32::MAX {
        u32::MAX
    } else {
        (correct * 12000 / (elapsed_ms as int)) as u32
    }
}

/// Computes [`words_per_minute`].
pub fn wpm_of(correct: u32, elapsed_ms: u64) -> (r: u32)
    ensures
        r == words_per_minute(correct, elapsed_ms),
{
    if elapsed_ms < 1000 {
        return 0;
    }
    let q: u64 = (correct as u64) * 12000 / elapsed_ms;
    if q > u32::MAX as u64 {
        u32::MAX
    } else {
        q as u32
    }
}

/// Points are at least five per character.
proof fn lemma_points_bound(len: int, combo: int)
    requires
        len >= 0,
        combo >= 0,
    ensures
        hack_points(len, combo) >= len * 5 + (if len > 10 { (len - 10) * 2 } else { 0 }),
{
    let base = len * 5 + (if len > 10 { (len - 10) * 2 } else { 0 });
    let mult = 1 + combo / 5;
    assert(mult >= 1);
    assert(base <= base * mult) by (nonlinear_arith)
        requires
            mult >= 1,
            base >= 0,
    ;
}

/// Computes [`hack_points`]; the caller knows that it fits.
fn points(len: u32, combo: u32) -> (r: u32)
    requires
        hack_points(len as int, combo as int) <= u32::MAX,
    ensures
        r == hack_points(len as int, combo as int),
{
    proof {
        lemma_points_bound(len as int, combo as int);
    }
    let bonus: u32 = if len > 10 {
        (len - 10) * 2
    } else {
        0
    };
    let mult: u32 = 1 + combo / 5;
    (len * 5 + bonus) * mult
}

/// The command kept of `draws` after `prev`: the first of the first five
/// draws that differs from `prev`, else the last draw (`left` counts the
/// draws that may still be checked).
pub open spec fn first_fresh_among(prev: Seq<char>, draws: Seq<Seq<char>>, left: nat) -> Seq<char>
    decreases draws.len(),
{
    if draws.len() == 0 {
        Seq::empty()
    } else if left > 0 && draws[0] != prev {
        draws[0]
    } else if draws.len() == 1 {
        draws[0]
    } else {
        first_fresh_among(
            prev,
            draws.drop_first(),
            if left > 0 {
                (left - 1) as nat
            } else {
                0
            },
        )
    }
}

/// The first of the first five of `draws` that differs from `prev`, else
/// the last of `draws`.
pub open spec fn spec_first_fresh(prev: Seq<char>, draws: Seq<Seq<char>>) -> Seq<char> {
    first_fresh_among(prev, draws, 5)
}

/// The texts of `v`.
pub open spec fn texts(v: Seq<String>) -> Seq<Seq<char>> {
    v.map_values(|s: String| s@)
}

/// The command kept of the commands drawn after `prev`: the first of the
/// first five that differs from `prev`, else the last one drawn.
pub fn first_fresh(prev: &String, draws: &Vec<String>) -> (r: String)
    requires
        draws@.len() >= 1,
    ensures
        r@ == spec_first_fresh(prev@, texts(draws@)),
{
    let ghost dv = texts(draws@);
    let n = draws.len();
    let mut i: usize = 0;
    assert(dv.skip(0) =~= dv);
    while i + 1 < n && !(i < 5 && draws[i] != *prev)
        invariant
            n == draws@.len(),
            n >= 1,
            i < n,
            dv == texts(draws@),
            spec_first_fresh(prev@, dv) == first_fresh_among(
                prev@,
                dv.skip(i as int),
                if i < 5 {
                    (5 - i) as nat
                } else {
                    0
                },
            ),
        decreases n - i,
    {
        proof {
            assert(dv.skip(i as int).drop_first() =~= dv.skip(i + 1));
            assert(dv.skip(i as int)[0] == draws@[i as int]@);
        }
        i = i + 1;
    }
    proof {
        assert(dv.skip(i as int)[0] == draws@[i as int]@);
    }
    draws[i].clone()
}

/// `next` is the command that follows `prev` after the draws `draws`: one
/// to six commands, each a possible Hack Time Attack command; the drawing
/// stops at the first of the first five that differs from `prev`, the sixth
/// is kept whatever it is, and `next` is the one kept.
pub open spec fn redrawn(cfg: GameConfig, diff: Difficulty, prev: Seq<char>, draws: Seq<Seq<char>>, next: Seq<char>) -> bool {
    &&& 1 <= draws.len() <= 6
    &&& forall|i: int| 0 <= i < draws.len() ==> hack_candidate(cfg, diff, #[trigger] draws[i])
    &&& forall|i: int| 0 <= i < draws.len() - 1 ==> #[trigger] draws[i] == prev
    &&& draws.len() < 6 ==> draws.last() != prev
    &&& next == spec_first_fresh(prev, draws)
}

proof fn lemma_first_fresh_is_a_draw(prev: Seq<char>, draws: Seq<Seq<char>>, left: nat)
    requires
        draws.len() >= 1,
    ensures
        exists|i: int| 0 <= i < draws.len() && #[trigger] draws[i] == first_fresh_among(prev, draws, left),
    decreases draws.len(),
{
    if !(left > 0 && draws[0] != prev) && draws.len() > 1 {
        let l2: nat = if left > 0 {
            (left - 1) as nat
        } else {
            0
        };
        lemma_first_fresh_is_a_draw(prev, draws.drop_first(), l2);
        let i = choose|i: int| 0 <= i < draws.drop_first().len() && #[trigger] draws.drop_first()[i]
            == first_fresh_among(prev, draws.drop_first(), l2);
        assert(draws[i + 1] == draws.drop_first()[i]);
    } else {
        assert(draws[0] == first_fresh_among(prev, draws, left));
    }
}

/// A fresh command after `prev`: drawn up to five times until one differs
/// from `prev`, then once more if none did.
fn next_command(cfg: &GameConfig, diff: Difficulty, prev: &String) -> (r: String)
    ensures
        hack_candidate(*cfg, diff, r@),
        exists|draws: Seq<Seq<char>>| #[trigger] redrawn(*cfg, diff, prev@, draws, r@),
{
    let mut draws: Vec<String> = Vec::new();
    loop
        invariant_except_break
            draws@.len() <= 5,
            forall|i: int| 0 <= i < draws@.len() ==> #[trigger] draws@[i]@ == prev@,
        invariant
            forall|i: int| 0 <= i < draws@.len() ==> hack_candidate(*cfg, diff, #[trigger] draws@[i]@),
        ensures
            1 <= draws@.len() <= 6,
            forall|i: int| 0 <= i < draws@.len() ==> hack_candidate(*cfg, diff, #[trigger] draws@[i]@),
            forall|i: int| 0 <= i < draws@.len() - 1 ==> #[trigger] draws@[i]@ == prev@,
            draws@.len() < 6 ==> draws@.last()@ != prev@,
        decreases 6 - draws@.len(),
    {
        let d = random_hack_command(cfg, diff);
        let fresh = d != *prev;
        draws.push(d);
        if fresh || draws.len() == 6 {
            break;
        }
    }
    let r = first_fresh(prev, &draws);
    proof {
        let dv = texts(draws@);
        assert forall|i: int| 0 <= i < dv.len() implies hack_candidate(*cfg, diff, #[trigger] dv[i]) by {
            assert(dv[i] == draws@[i]@);
        }
        assert forall|i: int| 0 <= i < dv.len() - 1 implies #[trigger] dv[i] == prev@ by {
            assert(dv[i] == draws@[i]@);
        }
        assert(dv.last() == draws@.last()@);
        assert(redrawn(*cfg, diff, prev@, dv, r@));
        lemma_first_fresh_is_a_draw(prev@, dv, 5);
        let i = choose|i: int| 0 <= i < dv.len() && #[trigger] dv[i] == first_fresh_among(prev@, dv, 5);
        assert(hack_candidate(*cfg, diff, dv[i]));
    }
    r
}

impl HackState {
    /// The state invariant: what has been typed is a prefix of the command,
    /// and the best combo is at least the current one.
    pub open spec fn wf(self) -> bool {
        &&& self.buffer@.is_prefix_of(self.current@)
        &&& self.combo <= self.max_combo
    }

    pub open spec fn spec_is_over(self) -> bool {
        self.elapsed_ms >= self.time_limit_ms
    }

    /// The next character expected.
    pub open spec fn expects(self, c: char) -> bool {
        self.buffer@.len() < self.current@.len() && self.current@[self.buffer@.len() as int] == c
    }

    /// Typing `c` completes the command.
    pub open spec fn completes_with(self, c: char) -> bool {
        self.expects(c) && self.buffer@.len() + 1 == self.current@.len()
    }

    /// Every counter that `type_char(c)` bumps stays within `u32`.
    pub open spec fn can_type(self, c: char) -> bool {
        !self.spec_is_over() ==> {
            &&& self.keystrokes < u32::MAX
            &&& self.expects(c) ==> self.correct_keystrokes < u32::MAX
            &&& self.completes_with(c) ==> self.can_complete()
            &&& !self.expects(c) ==> self.errors < u32::MAX
        }
    }

    /// Every counter that completing the command bumps stays within `u32`.
    pub open spec fn can_complete(self) -> bool {
        &&& self.combo < u32::MAX
        &&& self.commands_done < u32::MAX
        &&& self.score + hack_points(self.current@.len() as int, self.combo + 1) <= u32::MAX
    }

    /// Every counter that `submit` bumps stays within `u32`.
    pub open spec fn can_submit(self) -> bool {
        self.buffer@ == self.current@ ==> self.can_complete()
    }

    /// `new` is the state after completing the command of `old`: combo up,
    /// points added, buffer emptied, a fresh command drawn.
    pub open spec fn completed(old: HackState, new: HackState, cfg: GameConfig) -> bool {
        &&& new.combo == old.combo + 1
        &&& new.max_combo == if old.max_combo > new.combo {
            old.max_combo
        } else {
            new.combo
        }
        &&& new.commands_done == old.commands_done + 1
        &&& new.score == old.score + hack_points(old.current@.len() as int, old.combo + 1)
        &&& new.buffer@.len() == 0
        &&& new.last_complete_pulse_ms == HACK_PULSE_MS
        &&& hack_candidate(cfg, old.diff, new.current@)
        &&& exists|draws: Seq<Seq<char>>| #[trigger] redrawn(cfg, old.diff, old.current@, draws, new.current@)
        &&& new.diff == old.diff
        &&& new.flash_error_ms == old.flash_error_ms
        &&& new.elapsed_ms == old.elapsed_ms
        &&& new.time_limit_ms == old.time_limit_ms
        &&& new.keystrokes == old.keystrokes
        &&& new.correct_keystrokes == old.correct_keystrokes
        &&& new.errors == old.errors
    }

    /// `new` is `old` after `dt_ms` milliseconds have passed.
    pub open spec fn after_tick(old: HackState, new: HackState, dt_ms: u32) -> bool {
        if old.spec_is_over() {
            new == old
        } else {
            &&& new.elapsed_ms == if old.elapsed_ms + dt_ms > u64::MAX {
                u64::MAX as int
            } else {
                old.elapsed_ms + dt_ms
            }
            &&& new.flash_error_ms == if old.flash_error_ms > dt_ms {
                old.flash_error_ms - dt_ms
            } else {
                0
            }
            &&& new.last_complete_pulse_ms == if old.last_complete_pulse_ms > dt_ms {
                old.last_complete_pulse_ms - dt_ms
            } else {
                0
            }
            &&& new == (HackState {
                elapsed_ms: new.elapsed_ms,
                flash_error_ms: new.flash_error_ms,
                last_complete_pulse_ms: new.last_complete_pulse_ms,
                ..old
            })
        }
    }

    /// `new` is `old` after the key `c`: nothing once the game is over; the
    /// expected character joins the buffer (and completes the command when
    /// it is the last one); any other flashes the input, counts an error,
    /// resets the combo and empties the buffer, with no loss of points.
    pub open spec fn after_key(old: HackState, new: HackState, c: char, cfg: GameConfig) -> bool {
        if old.spec_is_over() {
            new == old
        } else if old.completes_with(c) {
            HackState::completed(
                HackState {
                    keystrokes: (old.keystrokes + 1) as u32,
                    correct_keystrokes: (old.correct_keystrokes + 1) as u32,
                    ..old
                },
                new,
                cfg,
            )
        } else if old.expects(c) {
            &&& new.buffer@ == old.buffer@.push(c)
            &&& new == (HackState {
                buffer: new.buffer,
                keystrokes: (old.keystrokes + 1) as u32,
                correct_keystrokes: (old.correct_keystrokes + 1) as u32,
                ..old
            })
        } else {
            &&& new.buffer@.len() == 0
            &&& new == (HackState {
                buffer: new.buffer,
                keystrokes: (old.keystrokes + 1) as u32,
                errors: (old.errors + 1) as u32,
                combo: 0,
                flash_error_ms: HACK_FLASH_MS,
                ..old
            })
        }
    }

    /// `new` is `old` after Enter: the command completes when all of it has
    /// been typed; otherwise nothing happens.
    pub open spec fn after_submit(old: HackState, new: HackState, cfg: GameConfig) -> bool {
        if old.buffer@ == old.current@ {
            HackState::completed(old, new, cfg)
        } else {
            new == old
        }
    }

    /// `new` is `old` after Backspace: the last typed character is gone.
    pub open spec fn after_backspace(old: HackState, new: HackState) -> bool {
        &&& new.buffer@ == if old.buffer@.len() == 0 {
            old.buffer@
        } else {
            old.buffer@.drop_last()
        }
        &&& new == (HackState { buffer: new.buffer, ..old })
    }

    /// `self` is a game that has just started at difficulty `diff`: nothing
    /// typed, no points, a first command drawn.
    pub open spec fn fresh(self, diff: Difficulty, cfg: GameConfig) -> bool {
        &&& self.diff == diff
        &&& hack_candidate(cfg, diff, self.current@)
        &&& self.buffer@.len() == 0
        &&& self.flash_error_ms == 0
        &&& self.last_complete_pulse_ms == 0
        &&& self.score == 0
        &&& self.combo == 0
        &&& self.max_combo == 0
        &&& self.commands_done == 0
        &&& self.elapsed_ms == 0
        &&& self.time_limit_ms == at_least_one_second(cfg.hack_time_limit_ms)
        &&& self.keystrokes == 0
        &&& self.correct_keystrokes == 0
        &&& self.errors == 0
    }

    /// A new game at difficulty `diff`.
    pub fn new(diff: Difficulty, cfg: &GameConfig) -> (s: Self)
        ensures
            s.wf(),
            s.fresh(diff, *cfg),
    {
        HackState {
            current: random_hack_command(cfg, diff),
            diff,
            buffer: String::new(),
            flash_error_ms: 0,
            last_complete_pulse_ms: 0,
            score: 0,
            combo: 0,
            max_combo: 0,
            commands_done: 0,
            elapsed_ms: 0,
            time_limit_ms: hack_time_limit(cfg),
            keystrokes: 0,
            correct_keystrokes: 0,
            errors: 0,
        }
    }

    /// Time left, in milliseconds (never below zero).
    pub fn time_remaining(&self) -> (r: u64)
        ensures
            r == if self.time_limit_ms > self.elapsed_ms {
                self.time_limit_ms - self.elapsed_ms
            } else {
                0
            },
    {
        self.time_limit_ms.saturating_sub(self.elapsed_ms)
    }

    /// The game is over once the time limit is reached.
    pub fn is_over(&self) -> (r: bool)
        ensures
            r == self.spec_is_over(),
    {
        self.elapsed_ms >= self.time_limit_ms
    }

    /// Typing speed in words per minute.
    pub fn wpm(&self) -> (r: u32)
        ensures
            r == words_per_minute(self.correct_keystrokes, self.elapsed_ms),
    {
        wpm_of(self.correct_keystrokes, self.elapsed_ms)
    }

    /// Whether completing the command keeps every counter within `u32`.
    pub fn fits_completion(&self) -> (r: bool)
        ensures
            r == self.can_complete(),
    {
        if self.combo == u32::MAX || self.commands_done == u32::MAX {
            return false;
        }
        let len = self.current.as_str().unicode_len() as u128;
        let combo = (self.combo + 1) as u128;
        let bonus: u128 = if len > 10 {
            (len - 10) * 2
        } else {
            0
        };
        assert(len * 5 + bonus <= 0x1_0000_0000_0000_0000 * 7) by (nonlinear_arith)
            requires
                len < 0x1_0000_0000_0000_0000,
                bonus <= len * 2,
        ;
        let mult: u128 = 1 + combo / 5;
        assert((len * 5 + bonus) * mult <= 0x1_0000_0000_0000_0000 * 7 * 0x1_0000_0000) by (nonlinear_arith)
            requires
                len * 5 + bonus <= 0x1_0000_0000_0000_0000 * 7,
                mult <= 0x1_0000_0000,
        ;
        let total = (self.score as u128) + (len * 5 + bonus) * mult;
        total <= u32::MAX as u128
    }

    /// Whether typing `c` keeps every counter within `u32`.
    pub fn fits_key(&self, c: char) -> (r: bool)
        ensures
            r == self.can_type(c),
    {
        if self.is_over() {
            return true;
        }
        if self.keystrokes == u32::MAX {
            return false;
        }
        let next_idx = self.buffer.as_str().unicode_len();
        let len = self.current.as_str().unicode_len();
        let expects = next_idx < len && self.current.as_str().get_char(next_idx) == c;
        if expects {
            if self.correct_keystrokes == u32::MAX {
                return false;
            }
            if next_idx + 1 == len {
                return self.fits_completion();
            }
            true
        } else {
            self.errors < u32::MAX
        }
    }

    /// Whether Enter keeps every counter within `u32`.
    pub fn fits_submit(&self) -> (r: bool)
        ensures
            r == self.can_submit(),
    {
        if self.buffer == self.current {
            self.fits_completion()
        } else {
            true
        }
    }

    /// Lets `dt_ms` milliseconds pass: the clock runs (unless the game is
    /// over) and the flash and pulse fade.
    pub fn tick(&mut self, dt_ms: u32)
        ensures
            HackState::after_tick(*old(self), *final(self), dt_ms),
    {
        if self.is_over() {
            return;
        }
        self.elapsed_ms = self.elapsed_ms.saturating_add(dt_ms as u64);
        self.flash_error_ms = self.flash_error_ms.saturating_sub(dt_ms as u64);
        self.last_complete_pulse_ms = self.last_complete_pulse_ms.saturating_sub(dt_ms as u64);
    }

    /// A key typed. The expected character extends the buffer (and completes
    /// the command when it is the last one); any other flashes the input,
    /// counts an error, resets the combo and empties the buffer, with no
    /// loss of points. Nothing happens once the game is over.
    pub fn type_char(&mut self, c: char, cfg: &GameConfig)
        requires
            old(self).wf(),
            old(self).can_type(c),
        ensures
            final(self).wf(),
            HackState::after_key(*old(self), *final(self), c, *cfg),
    {
        if self.is_over() {
            return;
        }
        self.keystrokes = self.keystrokes + 1;
        let next_idx = self.buffer.as_str().unicode_len();
        let len = self.current.as_str().unicode_len();
        let matches = next_idx < len && self.current.as_str().get_char(next_idx) == c;
        if matches {
            push_char(&mut self.buffer, c);
            self.correct_keystrokes = self.correct_keystrokes + 1;
            proof {
                if self.buffer@.len() == self.current@.len() {
                    assert(self.buffer@ =~= self.current@);
                }
            }
            if self.buffer == self.current {
                let ghost before = *self;
                self.complete_command(cfg);
                proof {
                    let w = choose|draws: Seq<Seq<char>>| #[trigger] redrawn(
                        *cfg,
                        before.diff,
                        before.current@,
                        draws,
                        self.current@,
                    );
                    assert(redrawn(*cfg, old(self).diff, old(self).current@, w, self.current@));
                }
            } else {
                assert(self.buffer@.is_prefix_of(self.current@)) by {
                    assert(self.buffer@ =~= self.current@.subrange(0, self.buffer@.len() as int));
                }
            }
        } else {
            self.flash_error_ms = HACK_FLASH_MS;
            self.errors = self.errors + 1;
            self.combo = 0;
            self.buffer = String::new();
            assert(self.buffer@ =~= self.current@.subrange(0, 0));
        }
    }

    /// Removes the last typed character, if any.
    pub fn backspace(&mut self)
        requires
            old(self).wf(),
        ensures
            final(self).wf(),
            HackState::after_backspace(*old(self), *final(self)),
    {
        let _ = pop_char(&mut self.buffer);
        assert(self.buffer@.is_prefix_of(self.current@)) by {
            assert(self.buffer@ =~= self.current@.subrange(0, self.buffer@.len() as int));
        }
    }

    /// Enter: completes the command when all of it has been typed;
    /// otherwise nothing happens.
    pub fn submit(&mut self, cfg: &GameConfig)
        requires
            old(self).wf(),
            old(self).can_submit(),
        ensures
            final(self).wf(),
            HackState::after_submit(*old(self), *final(self), *cfg),
    {
        if self.buffer == self.current {
            self.complete_command(cfg);
        }
    }

    /// Scores the command just typed and draws the next one, trying up to
    /// five times for one that differs from it.
    fn complete_command(&mut self, cfg: &GameConfig)
        requires
            old(self).buffer@ == old(self).current@,
            old(self).combo <= old(self).max_combo,
            old(self).can_complete(),
        ensures
            final(self).wf(),
            HackState::completed(*old(self), *final(self), *cfg),
    {
        self.combo = self.combo + 1;
        if self.combo > self.max_combo {
            self.max_combo = self.combo;
        }
        self.commands_done = self.commands_done + 1;
        let n = self.current.as_str().unicode_len();
        proof {
            lemma_points_bound(n as int, self.combo as int);
        }
        let len: u32 = n as u32;
        self.score = self.score + points(len, self.combo);
        self.buffer = String::new();
        self.last_complete_pulse_ms = HACK_PULSE_MS;
        let next = next_command(cfg, self.diff, &self.current);
        self.current = next;
        assert(self.buffer@ =~= self.current@.subrange(0, 0));
    }
}

} // verus!
