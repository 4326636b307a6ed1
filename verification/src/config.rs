//! Game settings: the duration of each mode and the pools of commands to
//! type, and the random choice of the next command.
//!
//! Durations are counted in milliseconds. The settings are read and parsed
//! outside the library; a missing key takes the defaults of
//! [`GameConfig::default`].

use crate::game::Difficulty;
use crate::random::{below, chance, choose_from, new_rng};
use vstd::prelude::*;

verus! {

/// The commands of one mode, by tier: short, intermediate, long, and rare
/// easter eggs.
pub struct ModePools {
    pub tier1: Vec<String>,
    pub tier2: Vec<String>,
    pub tier3: Vec<String>,
    pub easter: Vec<String>,
}

/// All settings of the game.
pub struct GameConfig {
    /// Longest Speed Runner game, in milliseconds.
    pub speedrunner_time_limit_ms: u64,
    /// Length of a Hack Time Attack game, in milliseconds.
    pub hack_time_limit_ms: u64,
    pub speedrunner_commands: ModePools,
    pub hack_commands: ModePools,
}

impl Default for ModePools {
    fn default() -> (r: ModePools)
        ensures
            r.tier1@.len() == 0,
            r.tier2@.len() == 0,
            r.tier3@.len() == 0,
            r.easter@.len() == 0,
    {
        ModePools { tier1: Vec::new(), tier2: Vec::new(), tier3: Vec::new(), easter: Vec::new() }
    }
}

/// Default Speed Runner duration: 180 s.
pub const DEFAULT_SPEEDRUNNER_TIME_MS: u64 = 180_000;

/// Default Hack Time Attack duration: 120 s.
pub const DEFAULT_HACK_TIME_MS: u64 = 120_000;

impl Default for GameConfig {
    fn default() -> (r: GameConfig)
        ensures
            r.speedrunner_time_limit_ms == DEFAULT_SPEEDRUNNER_TIME_MS,
            r.hack_time_limit_ms == DEFAULT_HACK_TIME_MS,
            r.speedrunner_commands.tier1@.len() == 0,
            r.speedrunner_commands.tier2@.len() == 0,
            r.speedrunner_commands.tier3@.len() == 0,
            r.speedrunner_commands.easter@.len() == 0,
            r.hack_commands.tier1@.len() == 0,
            r.hack_commands.tier2@.len() == 0,
            r.hack_commands.tier3@.len() == 0,
            r.hack_commands.easter@.len() == 0,
    {
        GameConfig {
            speedrunner_time_limit_ms: DEFAULT_SPEEDRUNNER_TIME_MS,
            hack_time_limit_ms: DEFAULT_HACK_TIME_MS,
            speedrunner_commands: ModePools::default(),
            hack_commands: ModePools::default(),
        }
    }
}

/// A duration is never shorter than one second.
pub open spec fn at_least_one_second(ms: u64) -> u64 {
    if ms < 1000 {
        1000
    } else {
        ms
    }
}

/// Duration of a Speed Runner game, in milliseconds (at least one second).
pub fn speedrunner_time_limit(cfg: &GameConfig) -> (r: u64)
    ensures
        r == at_least_one_second(cfg.speedrunner_time_limit_ms),
{
    if cfg.speedrunner_time_limit_ms < 1000 {
        1000
    } else {
        cfg.speedrunner_time_limit_ms
    }
}

/// Duration of a Hack Time Attack game, in milliseconds (at least one second).
pub fn hack_time_limit(cfg: &GameConfig) -> (r: u64)
    ensures
        r == at_least_one_second(cfg.hack_time_limit_ms),
{
    if cfg.hack_time_limit_ms < 1000 {
        1000
    } else {
        cfg.hack_time_limit_ms
    }
}

/// The three ordinary tiers of a pool.
#[derive(Clone, Copy, Debug, PartialEq, Eq, Structural)]
pub enum Tier {
    Tier1,
    Tier2,
    Tier3,
}

/// The commands of tier `t`.
pub open spec fn pool_of(p: ModePools, t: Tier) -> Seq<String> {
    match t {
        Tier::Tier1 => p.tier1@,
        Tier::Tier2 => p.tier2@,
        Tier::Tier3 => p.tier3@,
    }
}

/// `s` is one of the commands of `pool`.
pub open spec fn in_pool(pool: Seq<String>, s: Seq<char>) -> bool {
    exists|i: int| 0 <= i < pool.len() && #[trigger] pool[i]@ == s
}

/// `s` can come out of a draw in tier `t`: one of its commands; when that
/// tier is empty, one of the first non-empty tier; when all are empty, the
/// fallback command.
pub open spec fn tier_draw(p: ModePools, t: Tier, fallback: Seq<char>, s: Seq<char>) -> bool {
    if pool_of(p, t).len() > 0 {
        in_pool(pool_of(p, t), s)
    } else if p.tier1@.len() > 0 {
        in_pool(p.tier1@, s)
    } else if p.tier2@.len() > 0 {
        in_pool(p.tier2@, s)
    } else if p.tier3@.len() > 0 {
        in_pool(p.tier3@, s)
    } else {
        s == fallback
    }
}

/// Tier of a Speed Runner command, from the draws: `early` says that less
/// than 30 s have passed, `coin` is a 40 % draw, `roll` a draw below 100.
/// Easy stays in tier 1; Normal stays in tier 1 for the first 30 s and then
/// takes tier 1 or 2; Insane takes tier 1 (20 %), 2 (45 %) or 3 (35 %).
pub fn speedrun_tier(diff: Difficulty, early: bool, coin: bool, roll: u64) -> (t: Tier)
    ensures
        t == spec_speedrun_tier(diff, early, coin, roll),
{
    match diff {
        Difficulty::Easy => Tier::Tier1,
        Difficulty::Normal => if early || coin {
            Tier::Tier1
        } else {
            Tier::Tier2
        },
        Difficulty::Insane => if roll < 20 {
            Tier::Tier1
        } else if roll < 65 {
            Tier::Tier2
        } else {
            Tier::Tier3
        },
    }
}

pub open spec fn spec_speedrun_tier(diff: Difficulty, early: bool, coin: bool, roll: u64) -> Tier {
    match diff {
        Difficulty::Easy => Tier::Tier1,
        Difficulty::Normal => if early || coin {
            Tier::Tier1
        } else {
            Tier::Tier2
        },
        Difficulty::Insane => if roll < 20 {
            Tier::Tier1
        } else if roll < 65 {
            Tier::Tier2
        } else {
            Tier::Tier3
        },
    }
}

/// Tier of a Hack Time Attack command, from the draws: `coin` is a 50 % draw,
/// `roll` a draw below 100. Easy stays in tier 1; Normal takes tier 1 or 2;
/// Insane takes tier 1 (20 %), 2 (40 %) or 3 (40 %).
pub fn hack_tier(diff: Difficulty, coin: bool, roll: u64) -> (t: Tier)
    ensures
        t == spec_hack_tier(diff, coin, roll),
{
    match diff {
        Difficulty::Easy => Tier::Tier1,
        Difficulty::Normal => if coin {
            Tier::Tier1
        } else {
            Tier::Tier2
        },
        Difficulty::Insane => if roll < 20 {
            Tier::Tier1
        } else if roll < 60 {
            Tier::Tier2
        } else {
            Tier::Tier3
        },
    }
}

pub open spec fn spec_hack_tier(diff: Difficulty, coin: bool, roll: u64) -> Tier {
    match diff {
        Difficulty::Easy => Tier::Tier1,
        Difficulty::Normal => if coin {
            Tier::Tier1
        } else {
            Tier::Tier2
        },
        Difficulty::Insane => if roll < 20 {
            Tier::Tier1
        } else if roll < 60 {
            Tier::Tier2
        } else {
            Tier::Tier3
        },
    }
}

/// One random command of `pool`, or `fallback` when it is empty.
fn pick(rng: &mut rand::rngs::ThreadRng, pool: &Vec<String>, fallback: &str) -> (r: String)
    ensures
        pool@.len() > 0 ==> in_pool(pool@, r@),
        pool@.len() == 0 ==> r@ == fallback@,
{
    match choose_from(rng, pool) {
        Some(s) => s,
        None => fallback.to_owned(),
    }
}

/// One random command of the first non-empty of `tier1`, `tier2`, `tier3`.
fn fallback_from(
    rng: &mut rand::rngs::ThreadRng,
    tier1: &Vec<String>,
    tier2: &Vec<String>,
    tier3: &Vec<String>,
    default: &str,
) -> (r: Option<String>)
    ensures
        tier1@.len() > 0 ==> (r matches Some(s) && in_pool(tier1@, s@)),
        tier1@.len() == 0 && tier2@.len() > 0 ==> (r matches Some(s) && in_pool(tier2@, s@)),
        tier1@.len() == 0 && tier2@.len() == 0 && tier3@.len() > 0 ==> (r matches Some(s)
            && in_pool(tier3@, s@)),
        tier1@.len() == 0 && tier2@.len() == 0 && tier3@.len() == 0 ==> r is None,
{
    if tier1.len() > 0 {
        Some(pick(rng, tier1, default))
    } else if tier2.len() > 0 {
        Some(pick(rng, tier2, default))
    } else if tier3.len() > 0 {
        Some(pick(rng, tier3, default))
    } else {
        None
    }
}

/// A command of tier `t` of `p`, or of the first non-empty tier, or `fallback`.
fn draw_in_tier(rng: &mut rand::rngs::ThreadRng, p: &ModePools, t: Tier, fallback: &str) -> (r:
    String)
    ensures
        tier_draw(*p, t, fallback@, r@),
{
    let pool: &Vec<String> = match t {
        Tier::Tier1 => &p.tier1,
        Tier::Tier2 => &p.tier2,
        Tier::Tier3 => &p.tier3,
    };
    if pool.len() > 0 {
        pick(rng, pool, fallback)
    } else {
        match fallback_from(rng, &p.tier1, &p.tier2, &p.tier3, fallback) {
            Some(s) => s,
            None => fallback.to_owned(),
        }
    }
}

/// `s` can be the next Speed Runner command at difficulty `diff` after
/// `elapsed_ms`: an easter egg, or a draw in a tier that the difficulty
/// allows (see [`speedrun_tier`]), with "ls" when every pool is empty.
pub open spec fn speedrun_candidate(cfg: GameConfig, diff: Difficulty, elapsed_ms: u64, s: Seq<
    char,
>) -> bool {
    let p = cfg.speedrunner_commands;
    let f = "ls"@;
    ||| in_pool(p.easter@, s)
    ||| tier_draw(p, Tier::Tier1, f, s)
    ||| (diff == Difficulty::Normal && elapsed_ms >= 30_000 && tier_draw(p, Tier::Tier2, f, s))
    ||| (diff == Difficulty::Insane && (tier_draw(p, Tier::Tier2, f, s) || tier_draw(
        p,
        Tier::Tier3,
        f,
        s,
    )))
}

/// `s` can be the next Hack Time Attack command at difficulty `diff`: an
/// easter egg, or a draw in a tier that the difficulty allows (see
/// [`hack_tier`]), with "ls /etc" when every pool is empty.
pub open spec fn hack_candidate(cfg: GameConfig, diff: Difficulty, s: Seq<char>) -> bool {
    let p = cfg.hack_commands;
    let f = "ls /etc"@;
    ||| in_pool(p.easter@, s)
    ||| tier_draw(p, Tier::Tier1, f, s)
    ||| (diff != Difficulty::Easy && tier_draw(p, Tier::Tier2, f, s))
    ||| (diff == Difficulty::Insane && tier_draw(p, Tier::Tier3, f, s))
}

/// A random Speed Runner command: an easter egg one time in 25 (when there
/// are any), else a command of the tier that [`speedrun_tier`] gives.
pub fn random_speedrun_command(cfg: &GameConfig, diff: Difficulty, elapsed_ms: u64) -> (r: String)
    ensures
        speedrun_candidate(*cfg, diff, elapsed_ms, r@),
{
    let p = &cfg.speedrunner_commands;
    let mut rng = new_rng();
    if p.easter.len() > 0 && chance(&mut rng, 1, 25) {
        return pick(&mut rng, &p.easter, "wake up neo");
    }
    let early = elapsed_ms < 30_000;
    let coin = match diff {
        Difficulty::Normal => !early && chance(&mut rng, 2, 5),
        _ => false,
    };
    let roll = match diff {
        Difficulty::Insane => below(&mut rng, 100),
        _ => 0,
    };
    let t = speedrun_tier(diff, early, coin, roll);
    draw_in_tier(&mut rng, p, t, "ls")
}

/// A random Hack Time Attack command: an easter egg one time in 20 (when
/// there are any), else a command of the tier that [`hack_tier`] gives.
pub fn random_hack_command(cfg: &GameConfig, diff: Difficulty) -> (r: String)
    ensures
        hack_candidate(*cfg, diff, r@),
{
    let p = &cfg.hack_commands;
    let mut rng = new_rng();
    if p.easter.len() > 0 && chance(&mut rng, 1, 20) {
        return pick(&mut rng, &p.easter, "i know kung fu");
    }
    let coin = match diff {
        Difficulty::Normal => chance(&mut rng, 1, 2),
        _ => false,
    };
    let roll = match diff {
        Difficulty::Insane => below(&mut rng, 100),
        _ => 0,
    };
    let t = hack_tier(diff, coin, roll);
    draw_in_tier(&mut rng, p, t, "ls /etc")
}

} // verus!
