//! Properties of the game that span several operations, proved from the
//! contracts of the operations.

use crate::config::{at_least_one_second, GameConfig};
use crate::daily::{day_at_offset, on_day, rank_by_score, score_slot, zone_day};
use crate::game::{Difficulty, GameMode, Session};
use crate::hack::HackState;
use crate::handlers::{
    difficulty_at, difficulty_index, difficulty_step, game_over_step, menu_step, next_filter,
    players_step, ranked_players, sat_sub, started, Action, Key,
};
use crate::screen::{ascii_digits, spec_valid_contact, Identity, Screen};
use crate::layout::spec_truncate;
use crate::rain::{rain_cells, trail_cells, Column, RainCell};
use crate::score::{
    key_char, key_chars, rank_by_time, time_slot,
    rfc3339_instant, row_entry, spec_instant, Cell,
    absorb, find_key, first_game, games_of, group, lemma_insert_multiset, spec_identity_key, PlayerView,
    ScoreEntry,
};
use crate::speedrunner::{
    difficulty_factor, fall_step, missed_count, spawn_interval, spec_base_fall_speed,
    spec_base_spawn_interval, SpeedRunnerState, START_LIVES,
};
use vstd::prelude::*;

verus! {

/// No key, Enter, Backspace or tick ever lowers the score of a game.
pub proof fn law_score_never_decreases(old: Session, new: Session, c: char, dt_ms: u32, cfg: GameConfig)
    ensures
        Session::after_key(old, new, c, cfg) ==> new.spec_score() >= old.spec_score(),
        Session::after_submit(old, new, cfg) ==> new.spec_score() >= old.spec_score(),
        Session::after_backspace(old, new) ==> new.spec_score() == old.spec_score(),
        Session::after_tick(old, new, dt_ms, cfg) ==> new.spec_score() == old.spec_score(),
{
}

/// A Speed Runner game never gains a life: keys and Enter leave the lives
/// alone, a tick removes one per command that reached the ground.
pub proof fn law_lives_never_increase(old: SpeedRunnerState, new: SpeedRunnerState, c: char, dt_ms: u32, cfg: GameConfig)
    ensures
        SpeedRunnerState::after_key(old, new, c) ==> new.lives == old.lives,
        SpeedRunnerState::after_submit(old, new) ==> new.lives == old.lives,
        SpeedRunnerState::after_backspace(old, new) ==> new.lives == old.lives,
        SpeedRunnerState::after_tick(old, new, dt_ms, cfg) ==> new.lives <= old.lives,
{
}

/// Commands missed by the ticks of `states` (each state the tick of the one
/// before it by `dts`).
pub open spec fn total_missed(states: Seq<SpeedRunnerState>, dts: Seq<u32>) -> nat
    decreases states.len(),
{
    if states.len() <= 1 {
        0
    } else {
        let o = states[states.len() - 2];
        let dt = dts[states.len() - 2];
        let elapsed = if o.elapsed_ms + dt > u64::MAX {
            u64::MAX
        } else {
            (o.elapsed_ms + dt) as u64
        };
        total_missed(states.drop_last(), dts) + missed_count(
            o.commands@,
            crate::speedrunner::fall_step(o.diff, elapsed, dt),
            o.fall_limit(),
        )
    }
}

/// Three commands reaching the ground end a Speed Runner game: over a run
/// of ticks from a new game, the lives left are three minus the commands
/// missed (never below zero), and the game is over once three are missed.
pub proof fn law_three_misses_end_the_game(
    states: Seq<SpeedRunnerState>,
    dts: Seq<u32>,
    diff: Difficulty,
    cfg: GameConfig,
)
    requires
        states.len() >= 1,
        dts.len() + 1 >= states.len(),
        states[0].fresh(diff, cfg),
        forall|i: int|
            0 <= i < states.len() - 1 ==> SpeedRunnerState::after_tick(
                #[trigger] states[i],
                states[i + 1],
                dts[i],
                cfg,
            ),
    ensures
        states.last().lives == if total_missed(states, dts) >= START_LIVES {
            0
        } else {
            START_LIVES - total_missed(states, dts)
        },
        total_missed(states, dts) >= START_LIVES ==> states.last().spec_is_over(),
    decreases states.len(),
{
    if states.len() > 1 {
        let prev = states.drop_last();
        assert forall|i: int| 0 <= i < prev.len() - 1 implies SpeedRunnerState::after_tick(
            #[trigger] prev[i],
            prev[i + 1],
            dts[i],
            cfg,
        ) by {
            assert(prev[i] == states[i] && prev[i + 1] == states[i + 1]);
            assert(SpeedRunnerState::after_tick(states[i], states[i + 1], dts[i], cfg));
        }
        law_three_misses_end_the_game(prev, dts, diff, cfg);
        let k = states.len() - 2;
        assert(SpeedRunnerState::after_tick(states[k], states[k + 1], dts[k], cfg));
        assert(prev.last() == states[k]);
    }
}

/// Backspace undoes a correct key that did not finish the command: the
/// typed text is back to what it was.
pub proof fn law_backspace_undoes_a_correct_key(
    o: HackState,
    m: HackState,
    n: HackState,
    c: char,
    cfg: GameConfig,
)
    requires
        !o.spec_is_over(),
        o.expects(c),
        !o.completes_with(c),
        HackState::after_key(o, m, c, cfg),
        HackState::after_backspace(m, n),
    ensures
        n.buffer@ == o.buffer@,
        n.current == o.current,
        n.score == o.score,
        n.combo == o.combo,
{
    assert(o.buffer@.push(c).drop_last() =~= o.buffer@);
}

/// The same holds in Speed Runner, for a key that the buffer keeps.
pub proof fn law_backspace_undoes_a_kept_key(
    o: SpeedRunnerState,
    m: SpeedRunnerState,
    n: SpeedRunnerState,
    c: char,
)
    requires
        crate::speedrunner::prefix_of_some(o.commands@, o.buffer@.push(c)),
        SpeedRunnerState::after_key(o, m, c),
        SpeedRunnerState::after_backspace(m, n),
    ensures
        n.buffer@ == o.buffer@,
        n.commands == o.commands,
        n.score == o.score,
        n.combo == o.combo,
{
    assert(o.buffer@.push(c).drop_last() =~= o.buffer@);
}

/// A wrong key costs no points in Hack Time Attack: it resets the combo,
/// empties the buffer and keeps the score.
pub proof fn law_wrong_key_costs_no_points(o: HackState, n: HackState, c: char, cfg: GameConfig)
    requires
        !o.spec_is_over(),
        !o.expects(c),
        HackState::after_key(o, n, c, cfg),
    ensures
        n.score == o.score,
        n.combo == 0,
        n.buffer@.len() == 0,
        n.current == o.current,
{
}

/// Once a Hack Time Attack game is over, nothing changes it any more.
pub proof fn law_finished_hack_game_is_frozen(o: HackState, n: HackState, c: char, dt_ms: u32, cfg: GameConfig)
    requires
        o.spec_is_over(),
    ensures
        HackState::after_key(o, n, c, cfg) ==> n == o,
        HackState::after_tick(o, n, dt_ms) ==> n == o,
{
}

/// A game never lasts less than one second.
pub proof fn law_time_limit_at_least_one_second(ms: u64)
    ensures
        at_least_one_second(ms) >= 1000,
        ms >= 1000 ==> at_least_one_second(ms) == ms,
{
}

/// The main menu selection stays on one of its five items: Up and Down
/// move it by one without leaving the list, q and Esc quit, and any other
/// key leaves it where it is.
pub proof fn law_menu_selection_stays_in_menu(sel: usize, sel2: usize, key: Key, a: Action)
    requires
        sel <= 4,
        menu_step(sel, sel2, key, a),
    ensures
        sel2 <= 4,
        key == Key::Up ==> sel2 == sat_sub(sel as int, 1),
        key == Key::Down ==> sel2 == if sel < 4 {
            sel + 1
        } else {
            4
        },
        key == Key::Char('q') || key == Key::Esc ==> a is Quit,
        key != Key::Up && key != Key::Down ==> sel2 == sel,
{
}

/// Going back to the choice of difficulty selects the difficulty just
/// played, and starting from there plays it again.
pub proof fn law_difficulty_round_trip(d: Difficulty)
    ensures
        difficulty_at(difficulty_index(d)) == d,
        difficulty_index(d) <= 2,
{
}

/// Pressing F three times brings the score board back to its filter.
pub proof fn law_filter_cycles_in_three(f: Option<GameMode>)
    ensures
        next_filter(next_filter(next_filter(f))) == f,
        next_filter(f) != f,
{
}

/// A truncated text never exceeds its limit, and keeps the start of the
/// text.
pub proof fn law_truncate_fits(s: Seq<char>, max: usize)
    requires
        max >= 1,
    ensures
        spec_truncate(s, max).len() <= max,
        s.len() <= max ==> spec_truncate(s, max) == s,
        s.len() > max ==> spec_truncate(s, max).take(max - 1) == s.take(max - 1),
{
    if s.len() > max {
        assert(spec_truncate(s, max).take(max - 1) =~= s.take(max - 1));
    }
}

/// Sum of the games counted in `ps`.
pub open spec fn total_runs(ps: Seq<PlayerView>) -> nat
    decreases ps.len(),
{
    if ps.len() == 0 {
        0
    } else {
        total_runs(ps.drop_last()) + ps.last().runs
    }
}

proof fn lemma_total_runs_update(ps: Seq<PlayerView>, i: int, p: PlayerView)
    requires
        0 <= i < ps.len(),
    ensures
        total_runs(ps.update(i, p)) == total_runs(ps) - ps[i].runs + p.runs,
    decreases ps.len(),
{
    if i < ps.len() - 1 {
        lemma_total_runs_update(ps.drop_last(), i, p);
        assert(ps.update(i, p).drop_last() =~= ps.drop_last().update(i, p));
    } else {
        assert(ps.update(i, p).drop_last() =~= ps.drop_last());
    }
}

/// Every game of the board counts in exactly one player: the runs of the
/// players add up to the number of games.
pub proof fn law_every_game_counts_once(entries: Seq<ScoreEntry>)
    ensures
        total_runs(group(entries)) == entries.len(),
    decreases entries.len(),
{
    if entries.len() > 0 {
        law_every_game_counts_once(entries.drop_last());
        let ps = group(entries.drop_last());
        let e = entries.last();
        let i = find_key(ps, spec_identity_key(e.contact@));
        lemma_find_key_range(ps, spec_identity_key(e.contact@));
        if i >= 0 {
            lemma_total_runs_update(ps, i, absorb(ps[i], e));
        } else {
            assert(ps.push(first_game(e)).drop_last() =~= ps);
        }
    }
}

proof fn lemma_find_key_range(ps: Seq<PlayerView>, k: Seq<char>)
    ensures
        -1 <= find_key(ps, k) < ps.len(),
    decreases ps.len(),
{
    if ps.len() > 0 {
        lemma_find_key_range(ps.drop_last(), k);
    }
}

/// Every glyph of the backdrop is drawn inside the area it is drawn in.
pub proof fn law_rain_stays_in_area(cols: Seq<Column>, k: int, width: u16, height: u16)
    requires
        0 <= k <= width,
        k <= cols.len(),
    ensures
        forall|i: int|
            0 <= i < rain_cells(cols, k, height).len() ==> (#[trigger] rain_cells(cols, k, height)[i]).x
                < width && rain_cells(cols, k, height)[i].y < height,
    decreases k,
{
    if k > 0 {
        law_rain_stays_in_area(cols, k - 1, width, height);
        lemma_trail_in_area(cols[k - 1], (k - 1) as u16, cols[k - 1].length as int, height);
        let a = rain_cells(cols, k - 1, height);
        let b = trail_cells(cols[k - 1], (k - 1) as u16, cols[k - 1].length as int, height);
        assert forall|i: int| 0 <= i < (a + b).len() implies (#[trigger] (a + b)[i]).x < width
            && (a + b)[i].y < height by {
            if i >= a.len() {
                assert((a + b)[i] == b[i - a.len()]);
            }
        }
    }
}

proof fn lemma_trail_in_area(c: Column, x: u16, n: int, height: u16)
    ensures
        forall|i: int|
            0 <= i < trail_cells(c, x, n, height).len() ==> (#[trigger] trail_cells(c, x, n, height)[i]).x
                == x && trail_cells(c, x, n, height)[i].y < height,
    decreases n,
{
    if n > 0 {
        lemma_trail_in_area(c, x, n - 1, height);
    }
}


/// Keys of the players of `ps` are pairwise different.
pub open spec fn distinct_keys(ps: Seq<PlayerView>) -> bool {
    forall|i: int, j: int| 0 <= i < j < ps.len() ==> ps[i].key != ps[j].key
}

proof fn lemma_find_key_found(ps: Seq<PlayerView>, k: Seq<char>)
    ensures
        -1 <= find_key(ps, k) < ps.len(),
        find_key(ps, k) >= 0 ==> ps[find_key(ps, k)].key == k,
        find_key(ps, k) < 0 ==> forall|i: int| 0 <= i < ps.len() ==> #[trigger] ps[i].key != k,
{
    crate::score::lemma_find_key(ps, k);
}

/// Latest instant of the games of `v`, the earliest `i128` when `v` is
/// empty.
pub open spec fn latest_time(v: Seq<ScoreEntry>) -> i128
    decreases v.len(),
{
    if v.len() == 0 {
        i128::MIN
    } else {
        let m = latest_time(v.drop_last());
        if v.last().timestamp_ns > m {
            v.last().timestamp_ns
        } else {
            m
        }
    }
}

/// Each player of the board stands for exactly the games of its key: as
/// many runs as those games, their best score, the instant of the latest of
/// them, and no two players share a key.
pub proof fn law_players_match_their_games(entries: Seq<ScoreEntry>)
    ensures
        distinct_keys(group(entries)),
        forall|i: int|
            0 <= i < group(entries).len() ==> {
                let p = #[trigger] group(entries)[i];
                &&& p.runs == games_of(entries, p.key).len()
                &&& p.best_score == crate::layout::max_score(games_of(entries, p.key))
                &&& p.last_played_ns == latest_time(games_of(entries, p.key))
            },
        forall|k: Seq<char>|
            #![trigger games_of(entries, k)]
            games_of(entries, k).len() > 0 ==> find_key(group(entries), k) >= 0,
    decreases entries.len(),
{
    if entries.len() > 0 {
        let prev = entries.drop_last();
        law_players_match_their_games(prev);
        let ps = group(prev);
        let e = entries.last();
        let k = spec_identity_key(e.contact@);
        let j = find_key(ps, k);
        lemma_find_key_found(ps, k);
        lemma_find_key_range(ps, k);
        let g = group(entries);
        assert(games_of(entries, k) == games_of(prev, k).push(e));
        assert forall|k2: Seq<char>| k2 != k implies #[trigger] games_of(entries, k2) == games_of(prev, k2) by {}
        if j >= 0 {
            assert(g == ps.update(j, absorb(ps[j], e)));
            assert forall|i: int| 0 <= i < g.len() implies {
                let p = #[trigger] g[i];
                &&& p.runs == games_of(entries, p.key).len()
                &&& p.best_score == crate::layout::max_score(games_of(entries, p.key))
                &&& p.last_played_ns == latest_time(games_of(entries, p.key))
            } by {
                if i == j {
                    assert(games_of(entries, k).drop_last() == games_of(prev, k));
                } else {
                    assert(g[i] == ps[i]);
                    assert(ps[i].key != ps[j].key);
                }
            }
            assert forall|k2: Seq<char>| #![trigger games_of(entries, k2)]
                games_of(entries, k2).len() > 0 implies find_key(g, k2) >= 0 by {
                lemma_find_key_found(g, k2);
                if k2 == k {
                    assert(g[j].key == k);
                } else {
                    assert(games_of(entries, k2) == games_of(prev, k2));
                    let t = find_key(ps, k2);
                    lemma_find_key_found(ps, k2);
                    lemma_find_key_range(ps, k2);
                    assert(g[t].key == ps[t].key);
                }
            }
        } else {
            assert(g == ps.push(first_game(e)));
            assert(games_of(prev, k).len() == 0) by {
                if games_of(prev, k).len() > 0 {
                    assert(find_key(ps, k) >= 0);
                }
            }
            assert(games_of(entries, k) =~= seq![e]);
            assert forall|i: int| 0 <= i < g.len() implies {
                let p = #[trigger] g[i];
                &&& p.runs == games_of(entries, p.key).len()
                &&& p.best_score == crate::layout::max_score(games_of(entries, p.key))
                &&& p.last_played_ns == latest_time(games_of(entries, p.key))
            } by {
                if i == ps.len() {
                    assert(games_of(entries, k).drop_last() =~= Seq::<ScoreEntry>::empty());
                    assert(crate::layout::max_score(Seq::<ScoreEntry>::empty()) == 0);
                    assert(latest_time(Seq::<ScoreEntry>::empty()) == i128::MIN);
                    assert(crate::layout::max_score(games_of(entries, k)) == e.score);
                    assert(g[i] == first_game(e));
                } else {
                    assert(g[i] == ps[i]);
                    assert(ps[i].key != k);
                    assert(games_of(entries, ps[i].key) == games_of(prev, ps[i].key));
                }
            }
            assert forall|k2: Seq<char>| #![trigger games_of(entries, k2)]
                games_of(entries, k2).len() > 0 implies find_key(g, k2) >= 0 by {
                lemma_find_key_found(g, k2);
                if k2 == k {
                    assert(g[ps.len() as int].key == k);
                } else {
                    assert(games_of(entries, k2) == games_of(prev, k2));
                    let t = find_key(ps, k2);
                    lemma_find_key_found(ps, k2);
                    lemma_find_key_range(ps, k2);
                    assert(g[t].key == ps[t].key);
                }
            }
        }
    }
}

proof fn lemma_score_slot_split(s: Seq<ScoreEntry>, score: u32)
    ensures
        0 <= score_slot(s, score) <= s.len(),
        forall|j: int| 0 <= j < score_slot(s, score) ==> #[trigger] s[j].score >= score,
        score_slot(s, score) < s.len() ==> s[score_slot(s, score)].score < score,
    decreases s.len(),
{
    if s.len() > 0 && s[0].score >= score {
        lemma_score_slot_split(s.drop_first(), score);
        assert forall|j: int| 0 <= j < score_slot(s, score) implies #[trigger] s[j].score >= score by {
            if j > 0 {
                assert(s[j] == s.drop_first()[j - 1]);
            }
        }
    }
}

/// A day's table lists its games best score first, each exactly as often
/// as it was played that day.
pub proof fn law_day_table_is_ranked(s: Seq<ScoreEntry>)
    ensures
        forall|i: int, j: int|
            0 <= i < j < rank_by_score(s).len() ==> rank_by_score(s)[i].score >= rank_by_score(
                s,
            )[j].score,
        rank_by_score(s).to_multiset() =~= s.to_multiset(),
    decreases s.len(),
{
    broadcast use vstd::seq_lib::group_to_multiset_ensures;

    if s.len() > 0 {
        let prev = s.drop_last();
        law_day_table_is_ranked(prev);
        let r = rank_by_score(prev);
        let x = s.last();
        let p = score_slot(r, x.score);
        lemma_score_slot_split(r, x.score);
        let t = r.insert(p, x);
        assert(rank_by_score(s) == t);
        lemma_insert_multiset(r, p, x);
        assert(s =~= prev.push(x));
        assert(s.to_multiset() =~= prev.to_multiset().insert(x));
        assert forall|i: int, j: int| 0 <= i < j < t.len() implies t[i].score >= t[j].score by {
            if j < p {
                assert(t[i] == r[i] && t[j] == r[j]);
            } else if j == p {
                assert(t[i] == r[i]);
            } else if i < p {
                assert(t[i] == r[i] && t[j] == r[j - 1]);
            } else if i == p {
                assert(t[j] == r[j - 1]);
                assert(r[p].score < x.score);
                if j - 1 > p {
                    assert(r[p].score >= r[j - 1].score);
                }
            } else {
                assert(t[i] == r[i - 1] && t[j] == r[j - 1]);
            }
        }
    }
}

/// The games in the table of day `d` are exactly the games played that
/// day.
pub proof fn law_day_table_holds_its_games(es: Seq<ScoreEntry>, days: Seq<i128>, d: i128)
    requires
        es.len() == days.len(),
    ensures
        forall|k: int| 0 <= k < es.len() && days[k] == d ==> on_day(es, days, d).contains(#[trigger] es[k]),
        forall|x: ScoreEntry|
            on_day(es, days, d).contains(x) ==> exists|k: int|
                0 <= k < es.len() && days[k] == d && #[trigger] es[k] == x,
    decreases es.len(),
{
    if es.len() > 0 {
        let pe = es.drop_last();
        let pd = days.drop_last();
        law_day_table_holds_its_games(pe, pd, d);
        let rest = on_day(pe, pd, d);
        let o = on_day(es, days, d);
        assert forall|k: int| 0 <= k < es.len() && days[k] == d implies o.contains(#[trigger] es[k]) by {
            if k == es.len() - 1 {
                assert(o.last() == es[k]);
            } else {
                assert(pe[k] == es[k] && pd[k] == days[k]);
                assert(rest.contains(pe[k]));
                let i = choose|i: int| 0 <= i < rest.len() && rest[i] == pe[k];
                assert(o[i] == rest[i]);
            }
        }
        assert forall|x: ScoreEntry| o.contains(x) implies exists|k: int|
            0 <= k < es.len() && days[k] == d && #[trigger] es[k] == x by {
            let i = choose|i: int| 0 <= i < o.len() && o[i] == x;
            if days.last() == d && i == o.len() - 1 {
                assert(es[es.len() - 1] == x);
            } else {
                assert(o[i] == rest[i]);
                assert(rest.contains(x));
                let k = choose|k: int| 0 <= k < pe.len() && pd[k] == d && #[trigger] pe[k] == x;
                assert(es[k] == pe[k] && days[k] == pd[k]);
            }
        }
    }
}

/// Speed Runner gets harder as the game goes on: later, commands fall at
/// least as far in the same time, and come at least as often.
pub proof fn law_speed_runner_gets_harder(d: Difficulty, e1: u64, e2: u64, dt_ms: u32)
    requires
        e1 <= e2,
    ensures
        fall_step(d, e1, dt_ms) <= fall_step(d, e2, dt_ms),
        spawn_interval(d, e2) <= spawn_interval(d, e1),
{
    let f1 = difficulty_factor(e1);
    let f2 = difficulty_factor(e2);
    vstd::arithmetic::div_mod::lemma_div_is_ordered(e1 as int, e2 as int, 100);
    assert(1 <= f1 <= f2);
    let b = spec_base_fall_speed(d) as int;
    vstd::arithmetic::mul::lemma_mul_inequality(f1, f2, b);
    assert(b * f1 <= b * f2) by {
        vstd::arithmetic::mul::lemma_mul_is_commutative(b, f1);
        vstd::arithmetic::mul::lemma_mul_is_commutative(b, f2);
    }
    vstd::arithmetic::mul::lemma_mul_inequality(b * f1, b * f2, dt_ms as int);
    vstd::arithmetic::div_mod::lemma_div_is_ordered(b * f1 * dt_ms, b * f2 * dt_ms, 1_000_000);
    let s = spec_base_spawn_interval(d) as int * 1000;
    vstd::arithmetic::div_mod::lemma_div_is_ordered_by_denominator(s, f1, f2);
}

/// A row as the board is written and read back: the timestamp as an RFC 3339
/// text, the name, contact, mode and difficulty as texts, the counts as
/// numbers (with whatever text the reader gives them).
pub open spec fn written_row(e: ScoreEntry, stamp: String, number_texts: Seq<String>) -> Seq<Cell> {
    seq![
        Cell::Text(stamp),
        Cell::Text(e.name),
        Cell::Text(e.contact),
        Cell::Text(e.mode),
        Cell::Text(e.difficulty),
        Cell::Number { rounded: e.score, text: number_texts[0] },
        Cell::Number { rounded: e.wpm, text: number_texts[1] },
        Cell::Number { rounded: e.max_combo, text: number_texts[2] },
        Cell::Number { rounded: e.items_done, text: number_texts[3] },
        Cell::Number { rounded: e.duration_secs, text: number_texts[4] },
    ]
}

/// A game written to the board reads back as the same game, provided that
/// its timestamp text names its instant.
pub proof fn law_written_row_reads_back(e: ScoreEntry, stamp: String, number_texts: Seq<String>, now: i128)
    requires
        number_texts.len() == 5,
        rfc3339_instant(stamp@) matches Some(t) && spec_instant(t.0, t.1) == e.timestamp_ns,
    ensures
        written_row(e, stamp, number_texts).len() == crate::score::COLUMNS,
        row_entry(e, written_row(e, stamp, number_texts), now),
{
}

proof fn lemma_time_slot_split(s: Seq<ScoreEntry>, t: i128)
    ensures
        0 <= time_slot(s, t) <= s.len(),
        forall|j: int| 0 <= j < time_slot(s, t) ==> #[trigger] s[j].timestamp_ns <= t,
        time_slot(s, t) < s.len() ==> s[time_slot(s, t)].timestamp_ns > t,
    decreases s.len(),
{
    if s.len() > 0 && s[0].timestamp_ns <= t {
        lemma_time_slot_split(s.drop_first(), t);
        assert forall|j: int| 0 <= j < time_slot(s, t) implies #[trigger] s[j].timestamp_ns <= t by {
            if j > 0 {
                assert(s[j] == s.drop_first()[j - 1]);
            }
        }
    }
}

/// Ordering games by time puts them oldest first and keeps every game.
proof fn lemma_rank_by_time(s: Seq<ScoreEntry>)
    ensures
        rank_by_time(s).len() == s.len(),
        forall|i: int, j: int|
            0 <= i < j < rank_by_time(s).len() ==> rank_by_time(s)[i].timestamp_ns
                <= rank_by_time(s)[j].timestamp_ns,
        rank_by_time(s).to_multiset() =~= s.to_multiset(),
    decreases s.len(),
{
    broadcast use vstd::seq_lib::group_to_multiset_ensures;

    if s.len() > 0 {
        let prev = s.drop_last();
        lemma_rank_by_time(prev);
        let r = rank_by_time(prev);
        let x = s.last();
        let p = time_slot(r, x.timestamp_ns);
        lemma_time_slot_split(r, x.timestamp_ns);
        let t = r.insert(p, x);
        assert(rank_by_time(s) == t);
        lemma_insert_multiset(r, p, x);
        assert(s =~= prev.push(x));
        assert(s.to_multiset() =~= prev.to_multiset().insert(x));
        assert forall|i: int, j: int| 0 <= i < j < t.len() implies t[i].timestamp_ns
            <= t[j].timestamp_ns by {
            if j < p {
                assert(t[i] == r[i] && t[j] == r[j]);
            } else if j == p {
                assert(t[i] == r[i]);
            } else if i < p {
                assert(t[i] == r[i] && t[j] == r[j - 1]);
            } else if i == p {
                assert(t[j] == r[j - 1]);
                assert(r[p].timestamp_ns > x.timestamp_ns);
                if j - 1 > p {
                    assert(r[p].timestamp_ns <= r[j - 1].timestamp_ns);
                }
            } else {
                assert(t[i] == r[i - 1] && t[j] == r[j - 1]);
            }
        }
    }
}

/// The best score and the latest instant of a non-empty list of games are
/// reached by one of them and bound all of them.
proof fn lemma_best_and_latest(v: Seq<ScoreEntry>)
    ensures
        forall|j: int|
            0 <= j < v.len() ==> #[trigger] v[j].score <= crate::layout::max_score(v)
                && v[j].timestamp_ns <= latest_time(v),
        v.len() > 0 ==> exists|j: int| 0 <= j < v.len() && #[trigger] v[j].score == crate::layout::max_score(v),
        v.len() > 0 ==> exists|j: int| 0 <= j < v.len() && #[trigger] v[j].timestamp_ns == latest_time(v),
    decreases v.len(),
{
    if v.len() > 0 {
        let w = v.drop_last();
        lemma_best_and_latest(w);
        assert forall|j: int| 0 <= j < v.len() implies #[trigger] v[j].score <= crate::layout::max_score(v)
            && v[j].timestamp_ns <= latest_time(v) by {
            if j < w.len() {
                assert(v[j] == w[j]);
            }
        }
        if crate::layout::max_score(v) == v.last().score {
            assert(v[v.len() - 1].score == crate::layout::max_score(v));
        } else {
            let j = choose|j: int| 0 <= j < w.len() && #[trigger] w[j].score == crate::layout::max_score(w);
            assert(v[j] == w[j]);
            assert(v[j].score == crate::layout::max_score(v));
        }
        if latest_time(v) == v.last().timestamp_ns {
            assert(v[v.len() - 1].timestamp_ns == latest_time(v));
        } else {
            let j = choose|j: int| 0 <= j < w.len() && #[trigger] w[j].timestamp_ns == latest_time(w);
            assert(v[j] == w[j]);
            assert(v[j].timestamp_ns == latest_time(v));
        }
    }
}

/// The runs of a player, oldest first, agree with the player's line of the
/// board: as many games as its runs, none above its best score and one at
/// it, and the last of them played at its latest instant.
pub proof fn law_player_runs_match_player(entries: Seq<ScoreEntry>, i: int)
    requires
        0 <= i < group(entries).len(),
    ensures
        ({
            let p = group(entries)[i];
            let r = rank_by_time(games_of(entries, p.key));
            &&& r.len() == p.runs
            &&& r.len() > 0
            &&& forall|j: int| 0 <= j < r.len() ==> #[trigger] r[j].score <= p.best_score
            &&& exists|j: int| 0 <= j < r.len() && #[trigger] r[j].score == p.best_score
            &&& r.last().timestamp_ns == p.last_played_ns
        }),
{
    law_players_match_their_games(entries);
    let p = group(entries)[i];
    let g = games_of(entries, p.key);
    let r = rank_by_time(g);
    assert(p.runs == g.len());
    assert(p.best_score == crate::layout::max_score(g));
    assert(p.last_played_ns == latest_time(g));
    lemma_players_have_games(entries, i);
    lemma_rank_by_time(g);
    lemma_best_and_latest(g);
    assert forall|x: ScoreEntry| r.contains(x) <==> g.contains(x) by {
        r.to_multiset_ensures();
        g.to_multiset_ensures();
        assert(r.contains(x) <==> r.to_multiset().count(x) > 0);
        assert(g.contains(x) <==> g.to_multiset().count(x) > 0);
    }
    assert forall|j: int| 0 <= j < r.len() implies #[trigger] r[j].score <= p.best_score
        && r[j].timestamp_ns <= p.last_played_ns by {
        assert(r.contains(r[j]));
        assert(g.contains(r[j]));
        let k = choose|k: int| 0 <= k < g.len() && g[k] == r[j];
        assert(g[k].score <= crate::layout::max_score(g));
    }
    let kb = choose|k: int| 0 <= k < g.len() && #[trigger] g[k].score == crate::layout::max_score(g);
    let kt = choose|k: int| 0 <= k < g.len() && #[trigger] g[k].timestamp_ns == latest_time(g);
    assert(g.contains(g[kb]));
    assert(g.contains(g[kt]));
    assert(r.contains(g[kb]));
    assert(r.contains(g[kt]));
    let jb = choose|j: int| 0 <= j < r.len() && r[j] == g[kb];
    assert(r[jb].score == p.best_score);
    let jt = choose|j: int| 0 <= j < r.len() && r[j] == g[kt];
    assert(r[jt].timestamp_ns <= r[r.len() - 1].timestamp_ns);
    assert(r[r.len() - 1].score <= p.best_score);
    assert(r[r.len() - 1].timestamp_ns <= p.last_played_ns);
}

/// A player of the board has at least one game.
proof fn lemma_players_have_games(entries: Seq<ScoreEntry>, i: int)
    requires
        0 <= i < group(entries).len(),
    ensures
        group(entries)[i].runs >= 1,
    decreases entries.len(),
{
    let ps = group(entries.drop_last());
    let e = entries.last();
    let j = find_key(ps, spec_identity_key(e.contact@));
    lemma_find_key_range(ps, spec_identity_key(e.contact@));
    if i < ps.len() {
        lemma_players_have_games(entries.drop_last(), i);
    }
}

/// Going to the choice of difficulty from the end of a game and pressing
/// Enter there replays the same mode at the same difficulty for the same
/// player.
pub proof fn law_difficulty_survives_the_choice(
    identity: Identity,
    mode: GameMode,
    d: Difficulty,
    a1: Action,
    sel2: usize,
    a2: Action,
    cfg: GameConfig,
)
    requires
        game_over_step(identity, mode, d, Key::Char('d'), a1, cfg),
        a1 matches Action::Goto(Screen::DifficultySelect { mode: m, identity: who, selected })
            && difficulty_step(m, who, selected, sel2, Key::Enter, a2, cfg),
    ensures
        a2 matches Action::Goto(Screen::Playing { identity: who, session }) && who == identity
            && started(session, mode, d, cfg),
{
}

/// On the players screen, the arrows keep the selection on a player and
/// inside the ten rows shown, moving it by at most one.
pub proof fn law_players_selection_stays_in_view(
    entries: Seq<ScoreEntry>,
    sel: usize,
    scroll: u16,
    sel2: usize,
    scroll2: u16,
    key: Key,
    a: Action,
)
    requires
        0 < ranked_players(entries).len() <= u16::MAX,
        sel < ranked_players(entries).len(),
        scroll <= sel < scroll + 10,
        key == Key::Up || key == Key::Down || key == Key::Char('j') || key == Key::Char('k'),
        players_step(entries, sel, scroll, sel2, scroll2, key, a),
    ensures
        a is Nothing,
        sel2 < ranked_players(entries).len(),
        scroll2 <= sel2 < scroll2 + 10,
        sel2 <= sel + 1,
        sel <= sel2 + 1,
{
}

proof fn lemma_digits_append(s: Seq<char>, t: Seq<char>)
    ensures
        ascii_digits(s + t) >= ascii_digits(s),
    decreases t.len(),
{
    if t.len() > 0 {
        lemma_digits_append(s, t.drop_last());
        assert((s + t).drop_last() =~= s + t.drop_last());
    }
}

/// Typing more characters after a valid contact never makes it invalid.
pub proof fn law_contact_stays_valid(s: Seq<char>, t: Seq<char>)
    requires
        spec_valid_contact(s),
    ensures
        spec_valid_contact(s + t),
{
    lemma_digits_append(s, t);
    if s.contains('@') && s.contains('.') && s.len() >= 5 {
        let i = choose|i: int| 0 <= i < s.len() && s[i] == '@';
        let j = choose|j: int| 0 <= j < s.len() && s[j] == '.';
        assert((s + t)[i] == '@');
        assert((s + t)[j] == '.');
    }
}

/// The players screen lists the players of a board in one order that
/// depends on the games alone: two boards with the same games, game for
/// game, list the same players in the same order, so the row picked on the
/// screen is the player opened.
pub proof fn law_player_order_depends_on_games_only(e1: Seq<ScoreEntry>, e2: Seq<ScoreEntry>)
    requires
        e1.len() == e2.len(),
        forall|k: int| 0 <= k < e1.len() ==> #[trigger] e1[k] == e2[k],
    ensures
        ranked_players(e1) == ranked_players(e2),
{
    assert(e1 =~= e2);
}

proof fn lemma_key_chars_kept(s: Seq<char>)
    ensures
        forall|i: int| 0 <= i < key_chars(s).len() ==> key_char(#[trigger] key_chars(s)[i]),
    decreases s.len(),
{
    if s.len() > 0 {
        let w = s.drop_last();
        lemma_key_chars_kept(w);
        assert forall|i: int| 0 <= i < key_chars(s).len() implies key_char(#[trigger] key_chars(s)[i]) by {
            if i < key_chars(w).len() {
                if key_char(s.last()) {
                    assert(key_chars(s)[i] == key_chars(w)[i]);
                } else {
                    assert(key_chars(s) == key_chars(w));
                }
            }
        }
    }
}

proof fn lemma_key_chars_of_kept(k: Seq<char>)
    requires
        forall|i: int| 0 <= i < k.len() ==> key_char(#[trigger] k[i]),
    ensures
        key_chars(k) == k,
    decreases k.len(),
{
    if k.len() > 0 {
        let w = k.drop_last();
        assert forall|i: int| 0 <= i < w.len() implies key_char(#[trigger] w[i]) by {
            assert(w[i] == k[i]);
        }
        lemma_key_chars_of_kept(w);
        assert(key_char(k[k.len() - 1]));
        assert(w.push(k.last()) =~= k);
    }
}

/// A player key is its own key, wherever lowercasing leaves it as it is:
/// it holds no whitespace, dot or dash, so trimming and filtering keep it
/// whole. (`str::to_lowercase` is not documented to leave lowercased text
/// alone, so that case is what this law speaks of.)
pub proof fn law_key_is_its_own_key(contact: Seq<char>)
    ensures
        crate::text::lowercase(spec_identity_key(contact)) == spec_identity_key(contact)
            ==> spec_identity_key(spec_identity_key(contact)) == spec_identity_key(contact),
{
    let k = spec_identity_key(contact);
    lemma_key_chars_kept(crate::text::lowercase(crate::text::spec_trim(contact)));
    assert(crate::text::spec_trim(k) == k) by {
        if k.len() > 0 {
            assert(key_char(k[0]));
            assert(crate::text::trim_start_index(k) == 0);
            assert(key_char(k.last()));
            assert(k.last() == k[k.len() - 1]);
            assert(crate::text::trim_end_index(k) == k.len());
            assert(k.subrange(0, k.len() as int) =~= k);
        }
    }
    if crate::text::lowercase(k) == k {
        lemma_key_chars_of_kept(k);
    }
}

/// The combo a game is on.
pub open spec fn session_combo(s: Session) -> u32 {
    match s {
        Session::SpeedRunner(g) => g.combo,
        Session::Hack(g) => g.combo,
    }
}

/// The best combo that a game's summary reports never drops: no key,
/// Enter, Backspace or tick lowers it, and it is never below the combo the
/// game is on. So at the end it is the best combo the game ever reached,
/// even after a miss or a wrong key has reset the combo.
pub proof fn law_best_combo_never_drops(old: Session, new: Session, c: char, dt_ms: u32, cfg: GameConfig)
    requires
        old.wf(),
    ensures
        old.spec_summary().max_combo >= session_combo(old),
        Session::after_key(old, new, c, cfg) ==> new.spec_summary().max_combo
            >= old.spec_summary().max_combo,
        Session::after_submit(old, new, cfg) ==> new.spec_summary().max_combo
            >= old.spec_summary().max_combo,
        Session::after_backspace(old, new) ==> new.spec_summary().max_combo
            == old.spec_summary().max_combo,
        Session::after_tick(old, new, dt_ms, cfg) ==> new.spec_summary().max_combo
            == old.spec_summary().max_combo,
{
}

/// Each player of the board carries the name and contact of one of its
/// games played at its latest instant: the latest game of its key, not the
/// best-scoring one.
pub open spec fn named_after_latest_game(entries: Seq<ScoreEntry>, p: PlayerView) -> bool {
    exists|j: int|
        0 <= j < games_of(entries, p.key).len() && #[trigger] games_of(entries, p.key)[j].timestamp_ns
            == p.last_played_ns && games_of(entries, p.key)[j].name@ == p.name && games_of(
            entries,
            p.key,
        )[j].contact@ == p.contact
}

/// Every player of the board is named after its latest game.
pub proof fn law_player_named_after_latest_game(entries: Seq<ScoreEntry>)
    ensures
        forall|i: int|
            0 <= i < group(entries).len() ==> named_after_latest_game(entries, #[trigger] group(entries)[i]),
    decreases entries.len(),
{
    if entries.len() > 0 {
        let prev = entries.drop_last();
        law_player_named_after_latest_game(prev);
        law_players_match_their_games(prev);
        let ps = group(prev);
        let e = entries.last();
        let k = spec_identity_key(e.contact@);
        let j = find_key(ps, k);
        lemma_find_key_found(ps, k);
        let g = group(entries);
        assert(games_of(entries, k) == games_of(prev, k).push(e));
        assert forall|k2: Seq<char>| k2 != k implies #[trigger] games_of(entries, k2) == games_of(prev, k2) by {}
        assert forall|i: int| 0 <= i < g.len() implies named_after_latest_game(entries, #[trigger] g[i]) by {
            if j >= 0 && i == j {
                let p = ps[j];
                let gp = games_of(prev, k);
                let ge = games_of(entries, k);
                assert(g[i] == absorb(p, e));
                assert(p.key == k);
                assert(g[i].key == k);
                if e.timestamp_ns > p.last_played_ns {
                    let w = ge.len() - 1;
                    assert(ge[w] == e);
                    assert(ge[w].timestamp_ns == g[i].last_played_ns && ge[w].name@ == g[i].name
                        && ge[w].contact@ == g[i].contact);
                } else {
                    assert(named_after_latest_game(prev, ps[i]));
                    let w = choose|w: int|
                        0 <= w < gp.len() && #[trigger] gp[w].timestamp_ns == p.last_played_ns
                            && gp[w].name@ == p.name && gp[w].contact@ == p.contact;
                    assert(ge[w] == gp[w]);
                    assert(ge[w].timestamp_ns == g[i].last_played_ns && ge[w].name@ == g[i].name
                        && ge[w].contact@ == g[i].contact);
                }
            } else if j < 0 && i == ps.len() {
                assert(g[i] == first_game(e));
                assert(games_of(prev, k).len() == 0) by {
                    if games_of(prev, k).len() > 0 {
                        assert(find_key(ps, k) >= 0);
                    }
                }
                let ge = games_of(entries, k);
                assert(ge =~= seq![e]);
                assert(ge[0] == e);
                assert(g[i].key == k);
                assert(ge[0].timestamp_ns == g[i].last_played_ns && ge[0].name@ == g[i].name
                    && ge[0].contact@ == g[i].contact);
            } else {
                assert(g[i] == ps[i]);
                assert(named_after_latest_game(prev, ps[i]));
                let p = ps[i];
                if j >= 0 {
                    assert(ps[i].key != ps[j].key);
                }
                assert(p.key != k);
                assert(games_of(entries, p.key) == games_of(prev, p.key));
                let w = choose|w: int|
                    0 <= w < games_of(prev, p.key).len() && #[trigger] games_of(prev, p.key)[w].timestamp_ns
                        == p.last_played_ns && games_of(prev, p.key)[w].name@ == p.name
                        && games_of(prev, p.key)[w].contact@ == p.contact;
                assert(games_of(entries, p.key)[w] == games_of(prev, p.key)[w]);
                assert(games_of(entries, p.key)[w].timestamp_ns == g[i].last_played_ns);
            }
        }
    }
}

/// A game is filed under the day a clock in some time zone shows when it
/// ends: within one of its UTC day, never after its UTC day when it ends at
/// midnight UTC, never before it when it ends in the last second of the UTC
/// day, and exactly its UTC day on a clock that keeps UTC.
pub proof fn law_game_day_follows_a_clock(secs: int, d: int)
    requires
        zone_day(secs, d),
    ensures
        secs / 86_400 + 719_163 - 1 <= d <= secs / 86_400 + 719_163 + 1,
        secs % 86_400 == 0 ==> d <= secs / 86_400 + 719_163,
        secs % 86_400 == 86_399 ==> d >= secs / 86_400 + 719_163,
        day_at_offset(secs, 0) == secs / 86_400 + 719_163,
{
    let off = choose|off: int| -86_400 < off < 86_400 && d == #[trigger] day_at_offset(secs, off);
    assert(d == (secs + off) / 86_400 + 719_163);
}

} // verus!
