//! Screen geometry and the figures that the screens show: rectangles,
//! truncated text, the clock of a game, the statistics of a player.

use crate::game::{mode_label, GameMode};
use crate::score::ScoreEntry;
use crate::speedrunner::FallingCommand;
use crate::text::{push_char, starts_with};
use vstd::prelude::*;

verus! {

/// A rectangle of terminal cells.
#[derive(Clone, Copy, Debug, PartialEq, Eq, Structural)]
pub struct Rect {
    pub x: u16,
    pub y: u16,
    pub width: u16,
    pub height: u16,
}

/// `r` shrunk by `dx` columns on each side and `dy` rows at top and bottom.
pub fn inner_of(r: Rect, dx: u16, dy: u16) -> (i: Rect)
    requires
        r.x + dx <= u16::MAX,
        r.y + dy <= u16::MAX,
    ensures
        i.x == r.x + dx,
        i.y == r.y + dy,
        i.width == if r.width > 2 * dx {
            r.width - 2 * dx
        } else {
            0
        },
        i.height == if r.height > 2 * dy {
            r.height - 2 * dy
        } else {
            0
        },
{
    let w: u16 = if (r.width as u32) > 2 * (dx as u32) {
        ((r.width as u32) - 2 * (dx as u32)) as u16
    } else {
        0
    };
    let h: u16 = if (r.height as u32) > 2 * (dy as u32) {
        ((r.height as u32) - 2 * (dy as u32)) as u16
    } else {
        0
    };
    Rect { x: r.x + dx, y: r.y + dy, width: w, height: h }
}

/// The rectangle of `w` × `h` cells (no larger than `area`) centred in
/// `area`.
pub fn center_rect(area: Rect, w: u16, h: u16) -> (c: Rect)
    requires
        area.x + (area.width - (if w < area.width {
            w
        } else {
            area.width
        })) / 2 <= u16::MAX,
        area.y + (area.height - (if h < area.height {
            h
        } else {
            area.height
        })) / 2 <= u16::MAX,
    ensures
        c.width == if w < area.width {
            w
        } else {
            area.width
        },
        c.height == if h < area.height {
            h
        } else {
            area.height
        },
        c.x == area.x + (area.width - c.width) / 2,
        c.y == area.y + (area.height - c.height) / 2,
{
    let w = if w < area.width {
        w
    } else {
        area.width
    };
    let h = if h < area.height {
        h
    } else {
        area.height
    };
    Rect { x: area.x + (area.width - w) / 2, y: area.y + (area.height - h) / 2, width: w, height: h }
}

/// `s` cut to `max` characters, the last one replaced by an ellipsis when
/// something was cut.
pub open spec fn spec_truncate(s: Seq<char>, max: usize) -> Seq<char> {
    if s.len() <= max {
        s
    } else {
        s.take(if max > 0 {
            max - 1
        } else {
            0
        }).push('…')
    }
}

/// `s` cut to at most `max` characters, with an ellipsis when cut.
pub fn truncate(s: &str, max: usize) -> (r: String)
    ensures
        r@ == spec_truncate(s@, max),
{
    let n = s.unicode_len();
    if n <= max {
        return s.to_owned();
    }
    let keep: usize = if max > 0 {
        max - 1
    } else {
        0
    };
    let mut out = s.substring_char(0, keep).to_owned();
    push_char(&mut out, '…');
    assert(s@.subrange(0, keep as int) =~= s@.take(keep as int));
    out
}

/// How urgent the clock of a game looks.
#[derive(Clone, Copy, Debug, PartialEq, Eq, Structural)]
pub enum TimerTone {
    /// 30 s or more left.
    Calm,
    /// Less than 30 s left.
    Warning,
    /// Less than 15 s left.
    Critical,
}

/// The tone of a clock showing `remaining_ms`.
pub open spec fn spec_timer_tone(remaining_ms: u64) -> TimerTone {
    if remaining_ms < 15_000 {
        TimerTone::Critical
    } else if remaining_ms < 30_000 {
        TimerTone::Warning
    } else {
        TimerTone::Calm
    }
}

/// The tone of a clock showing `remaining_ms`.
pub fn timer_tone(remaining_ms: u64) -> (t: TimerTone)
    ensures
        t == spec_timer_tone(remaining_ms),
{
    if remaining_ms < 15_000 {
        TimerTone::Critical
    } else if remaining_ms < 30_000 {
        TimerTone::Warning
    } else {
        TimerTone::Calm
    }
}

/// Minutes and seconds of the whole seconds in `remaining_ms` (capped at
/// `u32::MAX` seconds).
pub fn clock(remaining_ms: u64) -> (r: (u32, u32))
    ensures
        ({
            let secs = if remaining_ms / 1000 > u32::MAX {
                u32::MAX as int
            } else {
                (remaining_ms / 1000) as int
            };
            r.0 == secs / 60 && r.1 == secs % 60
        }),
{
    let s = remaining_ms / 1000;
    let secs: u32 = if s > u32::MAX as u64 {
        u32::MAX
    } else {
        s as u32
    };
    (secs / 60, secs % 60)
}

/// How many of `width` cells of a time bar are lit when `remaining_ms` of
/// `limit_ms` are left.
pub fn bar_fill(width: u16, remaining_ms: u64, limit_ms: u64) -> (r: u16)
    requires
        limit_ms > 0,
    ensures
        r == if remaining_ms >= limit_ms {
            width as int
        } else {
            width * remaining_ms / (limit_ms as int)
        },
{
    if remaining_ms >= limit_ms {
        return width;
    }
    assert((width as u128) * (remaining_ms as u128) <= 0xffff * 0xffff_ffff_ffff_ffff) by (nonlinear_arith)
        requires
            width <= 0xffff,
            remaining_ms <= 0xffff_ffff_ffff_ffff,
    ;
    let f = (width as u128) * (remaining_ms as u128) / (limit_ms as u128);
    assert((width as int) * (remaining_ms as int) / (limit_ms as int) <= width as int) by (nonlinear_arith)
        requires
            remaining_ms < limit_ms,
            limit_ms > 0,
    ;
    f as u16
}

/// Whether letter `i` of the `n` letters of the menu subtitle shows its
/// second word at `millis` (milliseconds of any clock). The subtitle runs a
/// 4 s cycle: the first word for 1.5 s; a 0.5 s morph during which letter
/// `i` turns once `i / n` falls below the progress of the morph, so the
/// letters turn from the left; the second word for 1.5 s; and a 0.5 s morph
/// back during which the first word returns from the left.
pub open spec fn glitch_shows_second(millis: u64, i: int, n: int) -> bool {
    let m = millis % 4000;
    if m < 1500 {
        false
    } else if m < 2000 {
        i * 500 < (m - 1500) * n
    } else if m < 3500 {
        i < n
    } else {
        i * 500 >= (m - 3500) * n
    }
}

/// For each of the `n` letters of the menu subtitle, whether it shows its
/// second word at `millis`.
pub fn glitch_mask(millis: u64, n: usize) -> (r: Vec<bool>)
    ensures
        r.len() == n,
        forall|i: int| 0 <= i < n ==> r[i] == glitch_shows_second(millis, i, n as int),
{
    let m: u64 = millis % 4000;
    let mut r: Vec<bool> = Vec::new();
    let mut i: usize = 0;
    while i < n
        invariant
            i <= n,
            r.len() == i,
            m == millis % 4000,
            forall|j: int| 0 <= j < i ==> r[j] == glitch_shows_second(millis, j, n as int),
        decreases n - i,
    {
        let a: u128 = (i as u128) * 500;
        let shown = if m < 1500 {
            false
        } else if m < 2000 {
            let p: u128 = (m - 1500) as u128;
            assert(p * (n as u128) <= 500 * 0x1_0000_0000_0000_0000) by (nonlinear_arith)
                requires
                    p < 500,
                    n < 0x1_0000_0000_0000_0000,
            ;
            a < p * (n as u128)
        } else if m < 3500 {
            i < n
        } else {
            let p: u128 = (m - 3500) as u128;
            assert(p * (n as u128) <= 500 * 0x1_0000_0000_0000_0000) by (nonlinear_arith)
                requires
                    p < 500,
                    n < 0x1_0000_0000_0000_0000,
            ;
            a >= p * (n as u128)
        };
        r.push(shown);
        i = i + 1;
    }
    r
}

/// A character of a falling command, at its place on the screen.
#[derive(Clone, Copy, Debug, PartialEq, Eq, Structural)]
pub struct CommandCell {
    pub x: u16,
    pub y: u16,
    pub ch: char,
    /// The buffer is a start of this command and already covers this
    /// character.
    pub typed: bool,
}

/// The row of `c` within the play area: its whole rows, capped at
/// `u16::MAX`.
pub open spec fn command_row(c: FallingCommand) -> int {
    if c.y_milli / 1000 > u16::MAX {
        u16::MAX as int
    } else {
        (c.y_milli / 1000) as int
    }
}

/// How many characters of `c` fit before the right edge of `area`.
pub open spec fn visible_chars(c: FallingCommand, area: Rect) -> int {
    let room = area.width - c.x;
    if room <= 0 {
        0
    } else if c.text@.len() < room {
        c.text@.len() as int
    } else {
        room
    }
}

/// Character `i` of command `c` at its place in `area`, marked as typed
/// when `typed` is a non-empty start of the command that covers it.
pub open spec fn command_cell(c: FallingCommand, typed: Seq<char>, area: Rect, i: int) -> CommandCell {
    CommandCell {
        x: (area.x + c.x + i) as u16,
        y: (area.y + command_row(c)) as u16,
        ch: c.text@[i],
        typed: typed.len() > 0 && typed.is_prefix_of(c.text@) && i < typed.len(),
    }
}

/// The cells that command `c` shows in `area` while `typed` has been typed:
/// none once it is below the area, else its characters from its column on,
/// up to the right edge.
pub open spec fn cells_of_command(c: FallingCommand, typed: Seq<char>, area: Rect) -> Seq<CommandCell> {
    if command_row(c) >= area.height {
        Seq::empty()
    } else {
        Seq::new(visible_chars(c, area) as nat, |i: int| command_cell(c, typed, area, i))
    }
}

/// The cells of all of `cmds`, command after command.
pub open spec fn command_cells(cmds: Seq<FallingCommand>, typed: Seq<char>, area: Rect) -> Seq<CommandCell>
    decreases cmds.len(),
{
    if cmds.len() == 0 {
        Seq::empty()
    } else {
        command_cells(cmds.drop_last(), typed, area) + cells_of_command(cmds.last(), typed, area)
    }
}

/// The cells to draw for the falling commands `cmds` in the play area
/// `area` while `typed` has been typed.
pub fn falling_cells(cmds: &Vec<FallingCommand>, typed: &str, area: Rect) -> (r: Vec<CommandCell>)
    requires
        area.x + area.width <= u16::MAX,
        area.y + area.height <= u16::MAX,
    ensures
        r@ == command_cells(cmds@, typed@, area),
{
    let tl = typed.unicode_len();
    let mut out: Vec<CommandCell> = Vec::new();
    let mut k: usize = 0;
    while k < cmds.len()
        invariant
            k <= cmds@.len(),
            tl == typed@.len(),
            area.x + area.width <= u16::MAX,
            area.y + area.height <= u16::MAX,
            out@ == command_cells(cmds@.take(k as int), typed@, area),
        decreases cmds@.len() - k,
    {
        let c = &cmds[k];
        let ghost base = out@;
        let ghost cells = cells_of_command(*c, typed@, area);
        let rows = c.y_milli / 1000;
        let row: u16 = if rows > 65535 {
            65535
        } else {
            rows as u16
        };
        if row < area.height {
            let matched = tl > 0 && starts_with(c.text.as_str(), typed);
            let n = c.text.as_str().unicode_len();
            let room: usize = if c.x < area.width {
                (area.width - c.x) as usize
            } else {
                0
            };
            let vis: usize = if n < room {
                n
            } else {
                room
            };
            assert(vis == visible_chars(*c, area));
            assert(cells.len() == vis);
            let mut i: usize = 0;
            while i < vis
                invariant
                    i <= vis,
                    vis == visible_chars(*c, area),
                    vis <= room,
                    room == area.width - c.x || room == 0,
                    vis <= c.text@.len(),
                    tl == typed@.len(),
                    row == command_row(*c),
                    row < area.height,
                    matched == (typed@.len() > 0 && typed@.is_prefix_of(c.text@)),
                    area.x + area.width <= u16::MAX,
                    area.y + area.height <= u16::MAX,
                    cells == cells_of_command(*c, typed@, area),
                    cells.len() == vis,
                    out@ == base + cells.take(i as int),
                decreases vis - i,
            {
                let cell = CommandCell {
                    x: area.x + c.x + (i as u16),
                    y: area.y + row,
                    ch: c.text.as_str().get_char(i),
                    typed: matched && i < tl,
                };
                out.push(cell);
                proof {
                    assert(cells.take(i + 1) =~= cells.take(i as int).push(cells[i as int]));
                }
                i = i + 1;
            }
            proof {
                assert(cells.take(vis as int) =~= cells);
            }
        } else {
            proof {
                assert(cells =~= Seq::<CommandCell>::empty());
                assert(out@ =~= base + cells);
            }
        }
        proof {
            assert(cmds@.take(k + 1).drop_last() =~= cmds@.take(k as int));
            assert(cmds@.take(k + 1).last() == cmds@[k as int]);
        }
        k = k + 1;
    }
    proof {
        assert(cmds@.take(cmds@.len() as int) =~= cmds@);
    }
    out
}

/// How a character of the command to type looks.
#[derive(Clone, Copy, Debug, PartialEq, Eq, Structural)]
pub enum GlyphState {
    /// Already typed.
    Typed,
    /// The next one to type.
    Cursor,
    /// Still to come.
    Pending,
}

/// A character of the command to type, at its place on the screen.
#[derive(Clone, Copy, Debug, PartialEq, Eq, Structural)]
pub struct TargetCell {
    pub x: u16,
    pub y: u16,
    pub ch: char,
    pub state: GlyphState,
}

/// The column where a command of `len` characters starts when centred in
/// `area` (its width counted modulo 2^16); at the left edge when it is as
/// wide as the area or wider.
pub open spec fn target_start(area: Rect, len: nat) -> int {
    let w = len % 0x10000;
    if w >= area.width {
        area.x as int
    } else {
        area.x + (area.width - w) / 2
    }
}

/// Character `i` of the command `cmd`, drawn from column `start` on the
/// middle row of `area`, with `typed` characters typed.
pub open spec fn target_glyph(cmd: Seq<char>, typed: nat, area: Rect, start: int, i: int) -> TargetCell {
    TargetCell {
        x: (start + i) as u16,
        y: (area.y + area.height / 2) as u16,
        ch: cmd[i],
        state: if i < typed {
            GlyphState::Typed
        } else if i == typed {
            GlyphState::Cursor
        } else {
            GlyphState::Pending
        },
    }
}

/// The cells of the command `cmd` with `typed` characters typed, centred on
/// the middle row of `area` and cut at its right edge.
pub open spec fn target_glyphs(cmd: Seq<char>, typed: nat, area: Rect) -> Seq<TargetCell> {
    let start = target_start(area, cmd.len());
    let room = area.x + area.width - start;
    let n = if cmd.len() < room {
        cmd.len() as int
    } else {
        room
    };
    Seq::new(n as nat, |i: int| target_glyph(cmd, typed, area, start, i))
}

/// The cells to draw for the command `cmd` of a Hack Time Attack game with
/// `typed` characters typed, in `area`.
pub fn hack_target_cells(cmd: &str, typed: usize, area: Rect) -> (r: Vec<TargetCell>)
    requires
        area.x + area.width <= u16::MAX,
        area.y + area.height <= u16::MAX,
    ensures
        r@ == target_glyphs(cmd@, typed as nat, area),
{
    let len = cmd.unicode_len();
    let w: u16 = (len % 65536) as u16;
    let start: u16 = if w >= area.width {
        area.x
    } else {
        area.x + (area.width - w) / 2
    };
    assert(start == target_start(area, cmd@.len()));
    let room: usize = (area.x + area.width - start) as usize;
    let n: usize = if len < room {
        len
    } else {
        room
    };
    let y: u16 = area.y + area.height / 2;
    let ghost glyphs = target_glyphs(cmd@, typed as nat, area);
    let mut out: Vec<TargetCell> = Vec::new();
    let mut i: usize = 0;
    while i < n
        invariant
            i <= n,
            n <= len,
            len == cmd@.len(),
            n == glyphs.len(),
            start + n <= area.x + area.width,
            start == target_start(area, cmd@.len()),
            y == area.y + area.height / 2,
            area.x + area.width <= u16::MAX,
            glyphs == target_glyphs(cmd@, typed as nat, area),
            out@ == glyphs.take(i as int),
        decreases n - i,
    {
        let state = if i < typed {
            GlyphState::Typed
        } else if i == typed {
            GlyphState::Cursor
        } else {
            GlyphState::Pending
        };
        out.push(TargetCell { x: start + (i as u16), y, ch: cmd.get_char(i), state });
        proof {
            assert(glyphs.take(i + 1) =~= glyphs.take(i as int).push(glyphs[i as int]));
        }
        i = i + 1;
    }
    proof {
        assert(glyphs.take(n as int) =~= glyphs);
    }
    out
}

/// The figures of a player's card.
#[derive(Clone, Copy, Debug, PartialEq, Eq, Structural)]
pub struct PlayerStats {
    pub runs: usize,
    pub best_score: u32,
    pub avg_score: u32,
    pub max_combo: u32,
    pub max_wpm: u32,
    pub speedrunner_runs: usize,
    pub hack_runs: usize,
}

/// Sum of the scores of `v`.
pub open spec fn total_score(v: Seq<ScoreEntry>) -> int
    decreases v.len(),
{
    if v.len() == 0 {
        0
    } else {
        total_score(v.drop_last()) + v.last().score
    }
}

/// Highest value of `f` over `v`, 0 when `v` is empty.
pub open spec fn max_of(v: Seq<ScoreEntry>, f: spec_fn(ScoreEntry) -> u32) -> u32
    decreases v.len(),
{
    if v.len() == 0 {
        0
    } else {
        let m = max_of(v.drop_last(), f);
        if f(v.last()) > m {
            f(v.last())
        } else {
            m
        }
    }
}

/// Best score of `v`, 0 when `v` is empty.
pub open spec fn max_score(v: Seq<ScoreEntry>) -> u32
    decreases v.len(),
{
    if v.len() == 0 {
        0
    } else {
        let m = max_score(v.drop_last());
        if v.last().score > m {
            v.last().score
        } else {
            m
        }
    }
}

/// Number of games of `v` whose mode is labelled `label`.
pub open spec fn count_mode(v: Seq<ScoreEntry>, label: Seq<char>) -> nat
    decreases v.len(),
{
    if v.len() == 0 {
        0
    } else {
        count_mode(v.drop_last(), label) + if v.last().mode@ == label {
            1nat
        } else {
            0nat
        }
    }
}

/// The card of a player whose games are `runs`.
pub open spec fn spec_player_stats(runs: Seq<ScoreEntry>) -> PlayerStats {
    PlayerStats {
        runs: runs.len() as usize,
        best_score: max_score(runs),
        avg_score: if runs.len() == 0 {
            0
        } else {
            (total_score(runs) / (runs.len() as int)) as u32
        },
        max_combo: max_of(runs, |e: ScoreEntry| e.max_combo),
        max_wpm: max_of(runs, |e: ScoreEntry| e.wpm),
        speedrunner_runs: count_mode(runs, mode_label(GameMode::SpeedRunner)@) as usize,
        hack_runs: count_mode(runs, mode_label(GameMode::HackTimeAttack)@) as usize,
    }
}

proof fn lemma_total_bound(v: Seq<ScoreEntry>)
    ensures
        0 <= total_score(v) <= v.len() * (u32::MAX as int),
        total_score(v) <= max_score(v) * v.len(),
    decreases v.len(),
{
    if v.len() > 0 {
        lemma_total_bound(v.drop_last());
        let m0 = max_score(v.drop_last());
        let m = max_score(v);
        let n = v.len() - 1;
        assert(m0 * n <= m * n) by (nonlinear_arith)
            requires
                m0 <= m,
                n >= 0,
        ;
        assert(m * n + m == m * v.len()) by (nonlinear_arith)
            requires
                n == v.len() - 1,
        ;
    }
}

proof fn lemma_count_bound(v: Seq<ScoreEntry>, label: Seq<char>)
    ensures
        count_mode(v, label) <= v.len(),
    decreases v.len(),
{
    if v.len() > 0 {
        lemma_count_bound(v.drop_last(), label);
    }
}

/// The figures of a player's card: number of games, best and average score
/// (rounded down), best combo and speed, games per mode.
pub fn player_stats(runs: &Vec<&ScoreEntry>) -> (s: PlayerStats)
    ensures
        s == spec_player_stats(runs@.map_values(|r: &ScoreEntry| *r)),
{
    let ghost v = runs@.map_values(|r: &ScoreEntry| *r);
    let n = runs.len();
    let mut total: u128 = 0;
    let mut best: u32 = 0;
    let mut combo: u32 = 0;
    let mut wpm: u32 = 0;
    let mut sr: usize = 0;
    let mut hk: usize = 0;
    let sr_label = GameMode::SpeedRunner.label().to_owned();
    let hk_label = GameMode::HackTimeAttack.label().to_owned();
    let mut i: usize = 0;
    while i < n
        invariant
            n == v.len(),
            v == runs@.map_values(|r: &ScoreEntry| *r),
            i <= n,
            sr_label@ == mode_label(GameMode::SpeedRunner)@,
            hk_label@ == mode_label(GameMode::HackTimeAttack)@,
            total == total_score(v.take(i as int)),
            best == max_score(v.take(i as int)),
            combo == max_of(v.take(i as int), |e: ScoreEntry| e.max_combo),
            wpm == max_of(v.take(i as int), |e: ScoreEntry| e.wpm),
            sr == count_mode(v.take(i as int), sr_label@),
            hk == count_mode(v.take(i as int), hk_label@),
        decreases n - i,
    {
        let e = runs[i];
        proof {
            assert(v.take(i + 1).drop_last() =~= v.take(i as int));
            assert(v.take(i + 1).last() == *e);
            lemma_total_bound(v.take(i as int));
            lemma_count_bound(v.take(i as int), sr_label@);
            lemma_count_bound(v.take(i as int), hk_label@);
            assert(i * (u32::MAX as int) <= 0xffff_ffff_ffff_ffff * 0xffff_ffff) by (nonlinear_arith)
                requires
                    i <= 0xffff_ffff_ffff_ffff,
            ;
        }
        total = total + e.score as u128;
        if e.score > best {
            best = e.score;
        }
        if e.max_combo > combo {
            combo = e.max_combo;
        }
        if e.wpm > wpm {
            wpm = e.wpm;
        }
        if e.mode == sr_label {
            sr = sr + 1;
        }
        if e.mode == hk_label {
            hk = hk + 1;
        }
        i = i + 1;
    }
    assert(v.take(n as int) =~= v);
    let avg: u32 = if n == 0 {
        0
    } else {
        proof {
            lemma_total_bound(v);
            assert((total as int) / (n as int) <= best as int) by (nonlinear_arith)
                requires
                    total as int <= (best as int) * (n as int),
                    n > 0,
            ;
        }
        (total / (n as u128)) as u32
    };
    PlayerStats {
        runs: n,
        best_score: best,
        avg_score: avg,
        max_combo: combo,
        max_wpm: wpm,
        speedrunner_runs: sr,
        hack_runs: hk,
    }
}

/// The points of the chart of a player's progress for the mode labelled
/// `label`: for each game of `runs` in that mode, its number among all the
/// games (counted from 1) and its score.
pub open spec fn score_points(runs: Seq<ScoreEntry>, label: Seq<char>) -> Seq<(u64, u32)>
    decreases runs.len(),
{
    if runs.len() == 0 {
        Seq::empty()
    } else {
        let rest = score_points(runs.drop_last(), label);
        if runs.last().mode@ == label {
            rest.push((runs.len() as u64, runs.last().score))
        } else {
            rest
        }
    }
}

/// The points of the chart of a player's progress in mode `mode`.
pub fn mode_series(runs: &Vec<&ScoreEntry>, mode: GameMode) -> (r: Vec<(u64, u32)>)
    ensures
        r@ == score_points(runs@.map_values(|e: &ScoreEntry| *e), mode_label(mode)@),
{
    let ghost v = runs@.map_values(|e: &ScoreEntry| *e);
    let label = mode.label().to_owned();
    let n = runs.len();
    let mut r: Vec<(u64, u32)> = Vec::new();
    let mut i: usize = 0;
    while i < n
        invariant
            n == v.len(),
            v == runs@.map_values(|e: &ScoreEntry| *e),
            i <= n,
            label@ == mode_label(mode)@,
            r@ == score_points(v.take(i as int), label@),
        decreases n - i,
    {
        let e = runs[i];
        proof {
            assert(v.take(i + 1).drop_last() =~= v.take(i as int));
            assert(v.take(i + 1).last() == *e);
        }
        if e.mode == label {
            r.push(((i as u64) + 1, e.score));
        }
        i = i + 1;
    }
    assert(v.take(n as int) =~= v);
    r
}

/// The last `k` games of `runs` (all of them when there are fewer), in
/// their order.
pub fn last_runs<'a>(runs: &Vec<&'a ScoreEntry>, k: usize) -> (r: Vec<&'a ScoreEntry>)
    ensures
        r@ == runs@.subrange(
            if runs@.len() > k {
                runs@.len() - k
            } else {
                0
            },
            runs@.len() as int,
        ),
{
    let n = runs.len();
    let start: usize = if n > k {
        n - k
    } else {
        0
    };
    let mut r: Vec<&ScoreEntry> = Vec::new();
    let mut i: usize = start;
    while i < n
        invariant
            n == runs@.len(),
            start <= i <= n,
            r@ == runs@.subrange(start as int, i as int),
        decreases n - i,
    {
        r.push(runs[i]);
        assert(runs@.subrange(start as int, i + 1) =~= runs@.subrange(start as int, i as int).push(runs@[i as int]));
        i = i + 1;
    }
    r
}

/// The entries of the board that a filter keeps: all of them, or those of
/// one mode (by label), in order.
pub open spec fn filtered_entries(v: Seq<ScoreEntry>, filter: Option<GameMode>) -> Seq<ScoreEntry>
    decreases v.len(),
{
    if v.len() == 0 {
        Seq::empty()
    } else {
        let rest = filtered_entries(v.drop_last(), filter);
        match filter {
            None => rest.push(v.last()),
            Some(m) => if v.last().mode@ == mode_label(m)@ {
                rest.push(v.last())
            } else {
                rest
            },
        }
    }
}

/// The entries of the board that a filter keeps.
pub fn filter_entries<'a>(entries: &'a Vec<ScoreEntry>, filter: Option<GameMode>) -> (r: Vec<&'a ScoreEntry>)
    ensures
        r@.map_values(|e: &ScoreEntry| *e) == filtered_entries(entries@, filter),
{
    let label: Option<String> = match filter {
        None => None,
        Some(m) => Some(m.label().to_owned()),
    };
    let n = entries.len();
    let mut r: Vec<&ScoreEntry> = Vec::new();
    let mut i: usize = 0;
    while i < n
        invariant
            n == entries@.len(),
            i <= n,
            filter is None ==> label is None,
            filter matches Some(m) ==> (label matches Some(l) && l@ == mode_label(m)@),
            r@.map_values(|e: &ScoreEntry| *e) == filtered_entries(entries@.take(i as int), filter),
        decreases n - i,
    {
        let e = &entries[i];
        let ghost before = r@;
        assert(entries@.take(i + 1).drop_last() =~= entries@.take(i as int));
        let keep = match &label {
            None => true,
            Some(l) => e.mode == *l,
        };
        if keep {
            r.push(e);
            assert(r@.map_values(|e: &ScoreEntry| *e) =~= before.map_values(|e: &ScoreEntry| *e).push(*e));
        }
        i = i + 1;
    }
    assert(entries@.take(n as int) =~= entries@);
    r
}

} // verus!
