//! Shared game types: difficulty, game mode, end-of-game summary, and the
//! session that runs either mode behind one interface.

use crate::config::GameConfig;
use crate::hack::{words_per_minute, HackState};
use crate::speedrunner::SpeedRunnerState;
use vstd::prelude::*;

verus! {

/// The three difficulty levels a player can pick.
#[derive(Clone, Copy, Debug, PartialEq, Eq, Structural)]
pub enum Difficulty {
    Easy,
    Normal,
    Insane,
}

impl Difficulty {
    /// Label shown on screens and written to the score board.
    pub fn label(self) -> (r: &'static str)
        ensures
            r@ == difficulty_label(self)@,
    {
        match self {
            Difficulty::Easy => "Easy",
            Difficulty::Normal => "Normal",
            Difficulty::Insane => "Insane",
        }
    }
}

/// The label of each difficulty.
pub open spec fn difficulty_label(d: Difficulty) -> &'static str {
    match d {
        Difficulty::Easy => "Easy",
        Difficulty::Normal => "Normal",
        Difficulty::Insane => "Insane",
    }
}

/// The two game modes.
#[derive(Clone, Copy, Debug, PartialEq, Eq, Structural)]
pub enum GameMode {
    SpeedRunner,
    HackTimeAttack,
}

/// The label of each mode.
pub open spec fn mode_label(m: GameMode) -> &'static str {
    match m {
        GameMode::SpeedRunner => "Speed Runner",
        GameMode::HackTimeAttack => "Hack Time Attack",
    }
}

/// The one-line description of each mode.
pub open spec fn mode_description(m: GameMode) -> &'static str {
    match m {
        GameMode::SpeedRunner => "Tape les commandes qui tombent avant qu'elles ne touchent le sol. 3 vies, score-attack.",
        GameMode::HackTimeAttack => "Hack la Matrice : tape un maximum de commandes en 2 minutes. Score pondéré par longueur.",
    }
}

impl GameMode {
    /// Every mode, in menu order.
    pub fn all() -> (v: Vec<GameMode>)
        ensures
            v@ == seq![GameMode::SpeedRunner, GameMode::HackTimeAttack],
    {
        vec![GameMode::SpeedRunner, GameMode::HackTimeAttack]
    }

    /// Label shown on screens and written to the score board.
    pub fn label(self) -> (r: &'static str)
        ensures
            r@ == mode_label(self)@,
    {
        match self {
            GameMode::SpeedRunner => "Speed Runner",
            GameMode::HackTimeAttack => "Hack Time Attack",
        }
    }

    /// One-line description shown in the menu.
    pub fn description(self) -> (r: &'static str)
        ensures
            r@ == mode_description(self)@,
    {
        match self {
            GameMode::SpeedRunner => "Tape les commandes qui tombent avant qu'elles ne touchent le sol. 3 vies, score-attack.",
            GameMode::HackTimeAttack => "Hack la Matrice : tape un maximum de commandes en 2 minutes. Score pondéré par longueur.",
        }
    }
}

/// Results of a finished game.
#[derive(Clone, Copy, Debug, PartialEq, Eq, Structural)]
pub struct Summary {
    pub score: u32,
    pub wpm: u32,
    pub max_combo: u32,
    pub elapsed_secs: u32,
    pub items_done: u32,
}

/// Whole seconds in `ms` milliseconds, capped at `u32::MAX`.
pub open spec fn whole_seconds(ms: u64) -> u32 {
    if ms / 1000 > u32::MAX {
        u32::MAX
    } else {
        (ms / 1000) as u32
    }
}

fn seconds_of(ms: u64) -> (r: u32)
    ensures
        r == whole_seconds(ms),
{
    let s = ms / 1000;
    if s > u32::MAX as u64 {
        u32::MAX
    } else {
        s as u32
    }
}

/// A game in progress, of either mode.
pub enum Session {
    SpeedRunner(SpeedRunnerState),
    Hack(HackState),
}

impl Session {
    pub open spec fn wf(self) -> bool {
        match self {
            Session::SpeedRunner(s) => s.wf(),
            Session::Hack(s) => s.wf(),
        }
    }

    pub open spec fn spec_mode(self) -> GameMode {
        match self {
            Session::SpeedRunner(_) => GameMode::SpeedRunner,
            Session::Hack(_) => GameMode::HackTimeAttack,
        }
    }

    pub open spec fn spec_difficulty(self) -> Difficulty {
        match self {
            Session::SpeedRunner(s) => s.diff,
            Session::Hack(s) => s.diff,
        }
    }

    pub open spec fn spec_is_over(self) -> bool {
        match self {
            Session::SpeedRunner(s) => s.spec_is_over(),
            Session::Hack(s) => s.spec_is_over(),
        }
    }

    pub open spec fn spec_score(self) -> u32 {
        match self {
            Session::SpeedRunner(s) => s.score,
            Session::Hack(s) => s.score,
        }
    }

    pub open spec fn spec_summary(self) -> Summary {
        match self {
            Session::SpeedRunner(s) => Summary {
                score: s.score,
                wpm: words_per_minute(s.correct_keystrokes, s.elapsed_ms),
                max_combo: s.max_combo,
                elapsed_secs: whole_seconds(s.elapsed_ms),
                items_done: s.commands_completed,
            },
            Session::Hack(s) => Summary {
                score: s.score,
                wpm: words_per_minute(s.correct_keystrokes, s.elapsed_ms),
                max_combo: s.max_combo,
                elapsed_secs: whole_seconds(s.elapsed_ms),
                items_done: s.commands_done,
            },
        }
    }

    pub open spec fn can_tick(self) -> bool {
        match self {
            Session::SpeedRunner(s) => s.can_tick(),
            Session::Hack(s) => true,
        }
    }

    pub open spec fn can_type(self, c: char) -> bool {
        match self {
            Session::SpeedRunner(s) => s.can_type(c),
            Session::Hack(s) => s.can_type(c),
        }
    }

    pub open spec fn can_submit(self) -> bool {
        match self {
            Session::SpeedRunner(s) => s.can_submit(),
            Session::Hack(s) => s.can_submit(),
        }
    }

    /// `new` is `old` after `dt_ms` milliseconds, in the game's own terms.
    pub open spec fn after_tick(old: Session, new: Session, dt_ms: u32, cfg: GameConfig) -> bool {
        match (old, new) {
            (Session::SpeedRunner(o), Session::SpeedRunner(n)) => SpeedRunnerState::after_tick(
                o,
                n,
                dt_ms,
                cfg,
            ),
            (Session::Hack(o), Session::Hack(n)) => HackState::after_tick(o, n, dt_ms),
            _ => false,
        }
    }

    /// `new` is `old` after the key `c`, in the game's own terms.
    pub open spec fn after_key(old: Session, new: Session, c: char, cfg: GameConfig) -> bool {
        match (old, new) {
            (Session::SpeedRunner(o), Session::SpeedRunner(n)) => SpeedRunnerState::after_key(
                o,
                n,
                c,
            ),
            (Session::Hack(o), Session::Hack(n)) => HackState::after_key(o, n, c, cfg),
            _ => false,
        }
    }

    /// `new` is `old` after Backspace, in the game's own terms.
    pub open spec fn after_backspace(old: Session, new: Session) -> bool {
        match (old, new) {
            (Session::SpeedRunner(o), Session::SpeedRunner(n)) => SpeedRunnerState::after_backspace(o, n),
            (Session::Hack(o), Session::Hack(n)) => HackState::after_backspace(o, n),
            _ => false,
        }
    }

    /// `new` is `old` after Enter, in the game's own terms.
    pub open spec fn after_submit(old: Session, new: Session, cfg: GameConfig) -> bool {
        match (old, new) {
            (Session::SpeedRunner(o), Session::SpeedRunner(n)) => SpeedRunnerState::after_submit(o, n),
            (Session::Hack(o), Session::Hack(n)) => HackState::after_submit(o, n, cfg),
            _ => false,
        }
    }

    /// A new game of `mode` at difficulty `diff`.
    pub fn new(mode: GameMode, diff: Difficulty, cfg: &GameConfig) -> (s: Self)
        ensures
            s.wf(),
            s.spec_mode() == mode,
            s.spec_difficulty() == diff,
            mode == GameMode::SpeedRunner ==> (s matches Session::SpeedRunner(g) && g.fresh(diff, *cfg)),
            mode == GameMode::HackTimeAttack ==> (s matches Session::Hack(g) && g.fresh(diff, *cfg)),
    {
        match mode {
            GameMode::SpeedRunner => Session::SpeedRunner(SpeedRunnerState::new(diff, cfg)),
            GameMode::HackTimeAttack => Session::Hack(HackState::new(diff, cfg)),
        }
    }

    /// The mode being played.
    pub fn mode(&self) -> (m: GameMode)
        ensures
            m == self.spec_mode(),
    {
        match self {
            Session::SpeedRunner(_) => GameMode::SpeedRunner,
            Session::Hack(_) => GameMode::HackTimeAttack,
        }
    }

    /// The difficulty being played.
    pub fn difficulty(&self) -> (d: Difficulty)
        ensures
            d == self.spec_difficulty(),
    {
        match self {
            Session::SpeedRunner(s) => s.diff,
            Session::Hack(s) => s.diff,
        }
    }

    /// Whether a tick keeps every counter within range.
    pub fn fits_tick(&self) -> (r: bool)
        ensures
            r == self.can_tick(),
    {
        match self {
            Session::SpeedRunner(s) => s.fits_tick(),
            Session::Hack(_) => true,
        }
    }

    /// Whether typing `c` keeps every counter within range.
    pub fn fits_key(&self, c: char) -> (r: bool)
        ensures
            r == self.can_type(c),
    {
        match self {
            Session::SpeedRunner(s) => s.fits_key(c),
            Session::Hack(s) => s.fits_key(c),
        }
    }

    /// Whether Enter keeps every counter within range.
    pub fn fits_submit(&self) -> (r: bool)
        ensures
            r == self.can_submit(),
    {
        match self {
            Session::SpeedRunner(s) => s.fits_submit(),
            Session::Hack(s) => s.fits_submit(),
        }
    }

    /// Lets `dt_ms` milliseconds pass in the game.
    pub fn tick(&mut self, dt_ms: u32, cfg: &GameConfig)
        requires
            old(self).wf(),
            old(self).can_tick(),
        ensures
            final(self).wf(),
            Session::after_tick(*old(self), *final(self), dt_ms, *cfg),
    {
        match self {
            Session::SpeedRunner(s) => s.tick(dt_ms, cfg),
            Session::Hack(s) => s.tick(dt_ms),
        }
    }

    /// Records the size of the play area; only Speed Runner uses it.
    pub fn set_area(&mut self, w: u16, h: u16)
        ensures
            match *old(self) {
                Session::SpeedRunner(s) => *final(self) == Session::SpeedRunner(
                    SpeedRunnerState { area_w: w, area_h: h, ..s },
                ),
                Session::Hack(_) => *final(self) == *old(self),
            },
    {
        if let Session::SpeedRunner(s) = self {
            s.set_area(w, h);
        }
    }

    /// A key typed in the game.
    pub fn type_char(&mut self, c: char, cfg: &GameConfig)
        requires
            old(self).wf(),
            old(self).can_type(c),
        ensures
            final(self).wf(),
            Session::after_key(*old(self), *final(self), c, *cfg),
    {
        match self {
            Session::SpeedRunner(s) => s.type_char(c),
            Session::Hack(s) => s.type_char(c, cfg),
        }
    }

    /// Removes the last typed character.
    pub fn backspace(&mut self)
        requires
            old(self).wf(),
        ensures
            final(self).wf(),
            Session::after_backspace(*old(self), *final(self)),
    {
        match self {
            Session::SpeedRunner(s) => s.backspace(),
            Session::Hack(s) => s.backspace(),
        }
    }

    /// Enter pressed in the game.
    pub fn submit(&mut self, cfg: &GameConfig)
        requires
            old(self).wf(),
            old(self).can_submit(),
        ensures
            final(self).wf(),
            Session::after_submit(*old(self), *final(self), *cfg),
    {
        match self {
            Session::SpeedRunner(s) => s.submit(),
            Session::Hack(s) => s.submit(cfg),
        }
    }

    /// Whether the game is over.
    pub fn is_over(&self) -> (r: bool)
        ensures
            r == self.spec_is_over(),
    {
        match self {
            Session::SpeedRunner(s) => s.is_over(),
            Session::Hack(s) => s.is_over(),
        }
    }

    /// The results so far.
    pub fn summary(&self) -> (r: Summary)
        ensures
            r == self.spec_summary(),
    {
        match self {
            Session::SpeedRunner(s) => Summary {
                score: s.score,
                wpm: s.wpm(),
                max_combo: s.max_combo,
                elapsed_secs: seconds_of(s.elapsed_ms),
                items_done: s.commands_completed,
            },
            Session::Hack(s) => Summary {
                score: s.score,
                wpm: s.wpm(),
                max_combo: s.max_combo,
                elapsed_secs: seconds_of(s.elapsed_ms),
                items_done: s.commands_done,
            },
        }
    }
}

} // verus!
