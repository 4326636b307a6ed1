use matrix_speedrunner::config::{hack_tier, speedrun_tier, speedrunner_time_limit, hack_time_limit, random_hack_command, random_speedrun_command, GameConfig, ModePools, Tier};
use matrix_speedrunner::game::{Difficulty, GameMode, Session, Summary};
use matrix_speedrunner::hack::{first_fresh, wpm_of, HackState, HACK_FLASH_MS, HACK_PULSE_MS};
use matrix_speedrunner::speedrunner::{base_fall_speed, base_spawn_interval, SpeedRunnerState, START_LIVES};

fn pools(tier1: &[&str]) -> ModePools {
    ModePools {
        tier1: tier1.iter().map(|s| s.to_string()).collect(),
        tier2: Vec::new(),
        tier3: Vec::new(),
        easter: Vec::new(),
    }
}

fn config_with(sr: &[&str], hack: &[&str]) -> GameConfig {
    GameConfig {
        speedrunner_time_limit_ms: 180_000,
        hack_time_limit_ms: 120_000,
        speedrunner_commands: pools(sr),
        hack_commands: pools(hack),
    }
}

#[test]
fn labels_of_difficulties_and_modes() {
    assert_eq!(Difficulty::Easy.label(), "Easy");
    assert_eq!(Difficulty::Normal.label(), "Normal");
    assert_eq!(Difficulty::Insane.label(), "Insane");
    assert_eq!(GameMode::SpeedRunner.label(), "Speed Runner");
    assert_eq!(GameMode::HackTimeAttack.label(), "Hack Time Attack");
    assert!(GameMode::SpeedRunner.description().contains("3 vies"));
    assert!(GameMode::HackTimeAttack.description().contains("2 minutes"));
    assert_eq!(GameMode::all(), vec![GameMode::SpeedRunner, GameMode::HackTimeAttack]);
}

#[test]
fn default_durations_are_three_and_two_minutes() {
    let cfg = GameConfig::default();
    assert_eq!(speedrunner_time_limit(&cfg), 180_000);
    assert_eq!(hack_time_limit(&cfg), 120_000);
}

#[test]
fn durations_never_below_one_second() {
    let mut cfg = GameConfig::default();
    cfg.speedrunner_time_limit_ms = 0;
    cfg.hack_time_limit_ms = 999;
    assert_eq!(speedrunner_time_limit(&cfg), 1000);
    assert_eq!(hack_time_limit(&cfg), 1000);
    cfg.hack_time_limit_ms = 99_999_000;
    assert_eq!(hack_time_limit(&cfg), 99_999_000);
}

#[test]
fn tiers_follow_difficulty_and_draws() {
    assert_eq!(speedrun_tier(Difficulty::Easy, false, false, 99), Tier::Tier1);
    assert_eq!(speedrun_tier(Difficulty::Normal, true, false, 0), Tier::Tier1);
    assert_eq!(speedrun_tier(Difficulty::Normal, false, true, 0), Tier::Tier1);
    assert_eq!(speedrun_tier(Difficulty::Normal, false, false, 0), Tier::Tier2);
    assert_eq!(speedrun_tier(Difficulty::Insane, false, false, 19), Tier::Tier1);
    assert_eq!(speedrun_tier(Difficulty::Insane, false, false, 20), Tier::Tier2);
    assert_eq!(speedrun_tier(Difficulty::Insane, false, false, 64), Tier::Tier2);
    assert_eq!(speedrun_tier(Difficulty::Insane, false, false, 65), Tier::Tier3);
    assert_eq!(hack_tier(Difficulty::Easy, false, 0), Tier::Tier1);
    assert_eq!(hack_tier(Difficulty::Normal, true, 0), Tier::Tier1);
    assert_eq!(hack_tier(Difficulty::Normal, false, 0), Tier::Tier2);
    assert_eq!(hack_tier(Difficulty::Insane, false, 59), Tier::Tier2);
    assert_eq!(hack_tier(Difficulty::Insane, false, 60), Tier::Tier3);
}

#[test]
fn empty_pools_fall_back() {
    let cfg = GameConfig::default();
    assert_eq!(random_hack_command(&cfg, Difficulty::Insane), "ls /etc");
    assert_eq!(random_speedrun_command(&cfg, Difficulty::Normal, 60_000), "ls");
}

#[test]
fn an_empty_tier_draws_from_the_first_non_empty_one() {
    let mut cfg = GameConfig::default();
    cfg.hack_commands.tier3 = vec!["nmap -sV 10.0.0.1".to_string()];
    for _ in 0..20 {
        assert_eq!(random_hack_command(&cfg, Difficulty::Easy), "nmap -sV 10.0.0.1");
    }
    let cfg = config_with(&["pwd", "ls"], &[]);
    for _ in 0..20 {
        let c = random_speedrun_command(&cfg, Difficulty::Easy, 0);
        assert!(c == "pwd" || c == "ls");
    }
}

#[test]
fn hack_new_game() {
    let cfg = GameConfig::default();
    let g = HackState::new(Difficulty::Normal, &cfg);
    assert_eq!(g.current, "ls /etc");
    assert_eq!(g.buffer, "");
    assert_eq!(g.score, 0);
    assert_eq!(g.time_limit_ms, 120_000);
    assert_eq!(g.time_remaining(), 120_000);
    assert!(!g.is_over());
    assert_eq!(g.wpm(), 0);
}

#[test]
fn hack_command_scores_five_per_char() {
    let cfg = GameConfig::default();
    let mut g = HackState::new(Difficulty::Easy, &cfg);
    for c in "ls /etc".chars() {
        g.type_char(c, &cfg);
    }
    // auto-validation: 7 chars × 5, combo 1 → multiplier 1
    assert_eq!(g.score, 35);
    assert_eq!(g.combo, 1);
    assert_eq!(g.max_combo, 1);
    assert_eq!(g.commands_done, 1);
    assert_eq!(g.buffer, "");
    assert_eq!(g.last_complete_pulse_ms, HACK_PULSE_MS);
    assert_eq!(g.keystrokes, 7);
    assert_eq!(g.correct_keystrokes, 7);
    assert_eq!(g.current, "ls /etc");
}

#[test]
fn hack_long_command_bonus_and_combo_multiplier() {
    let cfg = config_with(&[], &["kubectl rollout restart"]);
    let mut g = HackState::new(Difficulty::Easy, &cfg);
    assert_eq!(g.current, "kubectl rollout restart");
    let mut scores = Vec::new();
    for _ in 0..5 {
        for c in "kubectl rollout restart".chars() {
            g.type_char(c, &cfg);
        }
        scores.push(g.score);
    }
    // 23 chars: 23 × 5 + 13 × 2 = 141; the fifth command has combo 5 → ×2
    assert_eq!(scores, vec![141, 282, 423, 564, 846]);
    assert_eq!(g.combo, 5);
}

#[test]
fn hack_wrong_key_resets_without_penalty() {
    let cfg = GameConfig::default();
    let mut g = HackState::new(Difficulty::Easy, &cfg);
    for c in "ls /etc".chars() {
        g.type_char(c, &cfg);
    }
    g.type_char('l', &cfg);
    g.type_char('x', &cfg);
    assert_eq!(g.buffer, "");
    assert_eq!(g.combo, 0);
    assert_eq!(g.max_combo, 1);
    assert_eq!(g.errors, 1);
    assert_eq!(g.score, 35);
    assert_eq!(g.flash_error_ms, HACK_FLASH_MS);
}

#[test]
fn hack_backspace_and_submit() {
    let cfg = GameConfig::default();
    let mut g = HackState::new(Difficulty::Easy, &cfg);
    g.type_char('l', &cfg);
    g.type_char('s', &cfg);
    g.backspace();
    assert_eq!(g.buffer, "l");
    g.backspace();
    g.backspace();
    assert_eq!(g.buffer, "");
    g.submit(&cfg);
    assert_eq!(g.score, 0);
    assert_eq!(g.commands_done, 0);
}

#[test]
fn hack_time_runs_out() {
    let cfg = GameConfig::default();
    let mut g = HackState::new(Difficulty::Easy, &cfg);
    g.flash_error_ms = 300;
    g.tick(100);
    assert_eq!(g.elapsed_ms, 100);
    assert_eq!(g.flash_error_ms, 200);
    g.tick(119_900);
    assert!(g.is_over());
    assert_eq!(g.time_remaining(), 0);
    g.tick(5000);
    assert_eq!(g.elapsed_ms, 120_000);
    g.type_char('l', &cfg);
    assert_eq!(g.keystrokes, 0);
}

#[test]
fn words_per_minute() {
    assert_eq!(wpm_of(50, 999), 0);
    assert_eq!(wpm_of(50, 60_000), 10);
    assert_eq!(wpm_of(7, 1000), 84);
    assert_eq!(wpm_of(u32::MAX, 1000), u32::MAX);
}

#[test]
fn speedrunner_speeds() {
    assert_eq!(base_fall_speed(Difficulty::Easy), 1500);
    assert_eq!(base_fall_speed(Difficulty::Insane), 3500);
    assert_eq!(base_spawn_interval(Difficulty::Easy), 3000);
    assert_eq!(base_spawn_interval(Difficulty::Normal), 2000);
    assert_eq!(base_spawn_interval(Difficulty::Insane), 1200);
}

#[test]
fn speedrunner_spawn_type_submit() {
    let cfg = GameConfig::default();
    let mut g = SpeedRunnerState::new(Difficulty::Easy, &cfg);
    assert_eq!(g.lives, START_LIVES);
    assert!(g.commands.is_empty());
    g.tick(500, &cfg);
    assert_eq!(g.commands.len(), 1);
    assert_eq!(g.commands[0].text, "ls");
    assert_eq!(g.commands[0].y_milli, 1000);
    assert!(g.commands[0].x < 76);
    // next spawn: 3 s / factor 1.005
    assert_eq!(g.spawn_timer_ms, 3000 * 1000 / 1005);
    g.type_char('l');
    g.type_char('s');
    assert_eq!(g.buffer, "ls");
    assert_eq!(g.correct_keystrokes, 2);
    g.submit();
    // 2 bytes × 10 × (1 + 1 / 5)
    assert_eq!(g.score, 20);
    assert_eq!(g.combo, 1);
    assert_eq!(g.commands_completed, 1);
    assert!(g.commands.is_empty());
    assert_eq!(g.buffer, "");
}

#[test]
fn speedrunner_wrong_key_and_wrong_submit() {
    let cfg = GameConfig::default();
    let mut g = SpeedRunnerState::new(Difficulty::Easy, &cfg);
    g.tick(500, &cfg);
    g.type_char('x');
    assert_eq!(g.buffer, "");
    assert_eq!(g.flash_error_ms, 250);
    g.type_char('l');
    g.backspace();
    g.submit();
    assert_eq!(g.score, 0);
    g.type_char('l');
    g.submit();
    assert_eq!(g.combo, 0);
    assert_eq!(g.buffer, "");
    assert_eq!(g.commands.len(), 1);
}

#[test]
fn speedrunner_three_misses_end_the_game() {
    let cfg = GameConfig::default();
    let mut g = SpeedRunnerState::new(Difficulty::Insane, &cfg);
    g.set_area(40, 4);
    for _ in 0..3 {
        // a command appears at row 1, which is already the floor of a 4-row area
        g.spawn_timer_ms = 1;
        g.tick(1, &cfg);
        g.type_char('l');
        g.tick(1, &cfg);
        assert!(g.commands.is_empty());
        assert_eq!(g.buffer, "");
    }
    assert_eq!(g.lives, 0);
    assert!(g.is_over());
}

#[test]
fn speedrunner_commands_fall() {
    let cfg = GameConfig::default();
    let mut g = SpeedRunnerState::new(Difficulty::Easy, &cfg);
    g.tick(500, &cfg);
    g.spawn_timer_ms = 100_000;
    g.tick(1000, &cfg);
    // 1.5 rows per second × factor 1.015 at 1.5 s
    assert_eq!(g.commands[0].y_milli, 1000 + 1500 * 1015 * 1000 / 1_000_000);
    assert_eq!(g.elapsed_ms, 1500);
}

#[test]
fn session_dispatches_to_its_mode() {
    let cfg = GameConfig::default();
    let mut s = Session::new(GameMode::HackTimeAttack, Difficulty::Insane, &cfg);
    assert_eq!(s.mode(), GameMode::HackTimeAttack);
    assert_eq!(s.difficulty(), Difficulty::Insane);
    for c in "ls /etc".chars() {
        assert!(s.fits_key(c));
        s.type_char(c, &cfg);
    }
    s.set_area(10, 10);
    assert!(s.fits_tick());
    s.tick(2000, &cfg);
    assert_eq!(
        s.summary(),
        Summary { score: 35, wpm: 42, max_combo: 1, elapsed_secs: 2, items_done: 1 }
    );
    assert!(!s.is_over());
    let mut s = Session::new(GameMode::SpeedRunner, Difficulty::Easy, &cfg);
    assert_eq!(s.mode(), GameMode::SpeedRunner);
    s.set_area(100, 50);
    match &s {
        Session::SpeedRunner(g) => assert_eq!((g.area_w, g.area_h), (100, 50)),
        Session::Hack(_) => panic!("wrong mode"),
    }
    s.backspace();
    assert!(s.fits_submit());
    s.submit(&cfg);
    assert_eq!(s.summary().score, 0);
}

#[test]
fn speedrunner_gets_faster_over_time() {
    let cfg = GameConfig::default();
    let mut early = SpeedRunnerState::new(Difficulty::Normal, &cfg);
    early.tick(500, &cfg);
    early.spawn_timer_ms = 1_000_000;
    let mut late = SpeedRunnerState::new(Difficulty::Normal, &cfg);
    late.set_area(80, 1000);
    late.tick(500, &cfg);
    late.spawn_timer_ms = 1_000_000;
    late.elapsed_ms = 60_000;
    let y0 = early.commands[0].y_milli;
    early.tick(100, &cfg);
    late.tick(100, &cfg);
    let early_step = early.commands[0].y_milli - y0;
    let late_step = late.commands[0].y_milli - y0;
    // 2.5 rows per second: × 1.006 at 0.6 s, × 1.601 at 60.1 s
    assert_eq!(early_step, 2500 * 1006 * 100 / 1_000_000);
    assert_eq!(late_step, 2500 * 1601 * 100 / 1_000_000);
    assert!(late_step > early_step);
    // and the next command comes sooner
    early.spawn_timer_ms = 1;
    late.spawn_timer_ms = 1;
    early.tick(1, &cfg);
    late.tick(1, &cfg);
    assert_eq!(early.spawn_timer_ms, 2000 * 1000 / 1006);
    assert_eq!(late.spawn_timer_ms, 2000 * 1000 / 1601);
    assert!(late.spawn_timer_ms < early.spawn_timer_ms);
}

#[test]
fn next_hack_command_avoids_the_previous_one() {
    let v = |xs: &[&str]| xs.iter().map(|x| x.to_string()).collect::<Vec<String>>();
    let prev = "ls /etc".to_string();
    assert_eq!(first_fresh(&prev, &v(&["id -u"])), "id -u");
    assert_eq!(first_fresh(&prev, &v(&["ls /etc", "ls /etc", "ps aux"])), "ps aux");
    assert_eq!(first_fresh(&prev, &v(&["ls /etc", "id -u", "ps aux"])), "id -u");
    // five repeats: the sixth draw is kept whatever it is
    assert_eq!(first_fresh(&prev, &v(&["ls /etc"; 6])), "ls /etc");
    let mut last_kept = v(&["ls /etc"; 5]);
    last_kept.push("sudo -l".to_string());
    assert_eq!(first_fresh(&prev, &last_kept), "sudo -l");
    // a single-command pool repeats it after the redraws
    let cfg = config_with(&[], &["uname -a"]);
    let mut g = HackState::new(Difficulty::Easy, &cfg);
    for c in "uname -a".chars() {
        g.type_char(c, &cfg);
    }
    assert_eq!(g.commands_done, 1);
    assert_eq!(g.current, "uname -a");
}
