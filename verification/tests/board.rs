use matrix_speedrunner::daily::{day_name, rank_days, scores_by_day, DayName};
use matrix_speedrunner::game::GameMode;
use matrix_speedrunner::layout::{
    bar_fill, center_rect, clock, falling_cells, filter_entries, glitch_mask, hack_target_cells,
    inner_of, last_runs, mode_series, player_stats, timer_tone, truncate, GlyphState, PlayerStats, Rect,
    TimerTone,
};
use matrix_speedrunner::speedrunner::FallingCommand;
use matrix_speedrunner::numfmt::{format_i64, parse_u32};
use matrix_speedrunner::rain::{Rain, Shade};
use matrix_speedrunner::score::{
    aggregate_players, cell_string, cell_u32, entries_from_rows, entry_from_row, header_names,
    identity_key, parse_timestamp, runs_for_player, Cell, ScoreEntry,
};
use matrix_speedrunner::text::{starts_with, trim};

fn entry(name: &str, contact: &str, mode: &str, score: u32, ts: i128) -> ScoreEntry {
    ScoreEntry {
        name: name.to_string(),
        contact: contact.to_string(),
        mode: mode.to_string(),
        difficulty: "Easy".to_string(),
        score,
        wpm: score / 2,
        max_combo: score % 7,
        duration_secs: 30,
        items_done: 1,
        timestamp_ns: ts,
    }
}

fn text(s: &str) -> Cell {
    Cell::Text(s.to_string())
}

#[test]
fn identity_keys() {
    assert_eq!(identity_key("x", "  John.Doe-X@Mail.com "), "johndoex@mailcom");
    assert_eq!(identity_key("y", "06 12-34.56 78"), "0612345678");
    assert_eq!(identity_key("anything", "neo@matrix.io"), identity_key("else", " NEO@Matrix.io"));
    assert_eq!(identity_key("z", ""), "");
    let k = identity_key("x", "  John.Doe-X@Mail.com ");
    assert_eq!(identity_key("other", &k), k);
}

#[test]
fn trimming_and_prefixes() {
    assert_eq!(trim("  a b \t\n"), "a b");
    assert_eq!(trim("\u{3000}x\u{a0}"), "x");
    assert_eq!(trim("   "), "");
    assert!(starts_with("git commit", "git"));
    assert!(starts_with("git", ""));
    assert!(!starts_with("git", "gitk"));
}

#[test]
fn numbers_in_and_out() {
    assert_eq!(parse_u32("42"), Some(42));
    assert_eq!(parse_u32("+7"), Some(7));
    assert_eq!(parse_u32("4294967295"), Some(u32::MAX));
    assert_eq!(parse_u32("4294967296"), None);
    assert_eq!(parse_u32(""), None);
    assert_eq!(parse_u32("+"), None);
    assert_eq!(parse_u32("-1"), None);
    assert_eq!(parse_u32("1a"), None);
    assert_eq!(format_i64(0), "0");
    assert_eq!(format_i64(-123), "-123");
    assert_eq!(format_i64(i64::MIN), i64::MIN.to_string());
    assert_eq!(format_i64(i64::MAX), i64::MAX.to_string());
}

#[test]
fn cells() {
    assert_eq!(cell_string(&Cell::Int(-5)), "-5");
    assert_eq!(cell_string(&Cell::Bool(true)), "true");
    assert_eq!(cell_string(&Cell::Empty), "");
    assert_eq!(cell_string(&Cell::Number { rounded: 3, text: "2.5".to_string() }), "2.5");
    assert_eq!(cell_u32(&Cell::Int(-5)), 0);
    assert_eq!(cell_u32(&Cell::Int(12)), 12);
    assert_eq!(cell_u32(&Cell::Int(1 << 32 | 3)), 3);
    assert_eq!(cell_u32(&text(" 77 ")), 77);
    assert_eq!(cell_u32(&text("seven")), 0);
    assert_eq!(cell_u32(&Cell::Number { rounded: 3, text: "2.5".to_string() }), 3);
    assert_eq!(cell_u32(&Cell::Bool(true)), 0);
    assert_eq!(parse_timestamp(&text("1970-01-01T00:00:01Z"), 99), 1_000_000_000);
    assert_eq!(parse_timestamp(&Cell::DateTimeIso("1970-01-01T01:00:00+01:00".to_string()), 99), 0);
    assert_eq!(parse_timestamp(&text("yesterday"), 99), 99);
    // instants far from 1970 keep their value
    assert_eq!(
        parse_timestamp(&text("1500-01-01T00:00:00Z"), 99),
        -14_831_769_600i128 * 1_000_000_000
    );
    assert_eq!(
        parse_timestamp(&text("2500-06-01T00:00:00.5Z"), 99),
        16_738_272_000i128 * 1_000_000_000 + 500_000_000
    );
    assert_eq!(parse_timestamp(&Cell::Int(5), 99), 99);
    assert_eq!(
        parse_timestamp(&Cell::DateTime { text: "x".to_string(), instant_ns: Some(5) }, 99),
        5
    );
}

#[test]
fn rows_of_the_sheet() {
    assert_eq!(header_names().len(), 10);
    assert_eq!(header_names()[0], "timestamp");
    assert_eq!(header_names()[9], "duration_secs");
    let full = vec![
        text("2024-05-10T14:32:18+02:00"),
        text("Neo"),
        text("neo@matrix.io"),
        text("Speed Runner"),
        text("Insane"),
        Cell::Int(120),
        Cell::Number { rounded: 45, text: "44.6".to_string() },
        text("3"),
        Cell::Int(4),
        Cell::Int(180),
    ];
    let e = entry_from_row(&full, 0).unwrap();
    assert_eq!(e.name, "Neo");
    assert_eq!(e.mode, "Speed Runner");
    assert_eq!(e.difficulty, "Insane");
    assert_eq!((e.score, e.wpm, e.max_combo, e.items_done, e.duration_secs), (120, 45, 3, 4, 180));
    assert_eq!(e.timestamp_ns, 1_715_344_338_000_000_000);
    assert!(entry_from_row(&full[..9].iter().map(copy_cell).collect(), 0).is_none());
    let rows = vec![
        header_names().iter().map(|h| text(h)).collect::<Vec<_>>(),
        full.iter().map(copy_cell).collect(),
        vec![text("short")],
        full.iter().map(copy_cell).collect(),
    ];
    let entries = entries_from_rows(&rows, 0);
    assert_eq!(entries.len(), 2);
    assert!(entries_from_rows(&Vec::new(), 0).is_empty());
}

fn copy_cell(c: &Cell) -> Cell {
    match c {
        Cell::Text(s) => Cell::Text(s.clone()),
        Cell::Int(i) => Cell::Int(*i),
        Cell::Number { rounded, text } => Cell::Number { rounded: *rounded, text: text.clone() },
        Cell::Bool(b) => Cell::Bool(*b),
        Cell::DateTime { text, instant_ns } => Cell::DateTime { text: text.clone(), instant_ns: *instant_ns },
        Cell::DateTimeIso(s) => Cell::DateTimeIso(s.clone()),
        Cell::DurationIso(s) => Cell::DurationIso(s.clone()),
        Cell::Empty => Cell::Empty,
    }
}

#[test]
fn players_are_grouped_and_ranked() {
    let entries = vec![
        entry("Neo", "neo@matrix.io", "Speed Runner", 100, 10),
        entry("Trinity", "trin@zion.org", "Hack Time Attack", 300, 20),
        entry("Thomas", " NEO@matrix.io", "Hack Time Attack", 250, 30),
        entry("Morpheus", "0612345678", "Speed Runner", 250, 5),
        entry("Old Neo", "neo@matrix.io", "Speed Runner", 10, 1),
    ];
    let players = aggregate_players(&entries);
    let keys: Vec<&str> = players.iter().map(|p| p.key.as_str()).collect();
    assert_eq!(keys, vec!["trin@zionorg", "neo@matrixio", "0612345678"]);
    let neo = &players[1];
    assert_eq!(neo.runs, 3);
    assert_eq!(neo.best_score, 250);
    assert_eq!(neo.last_played_ns, 30);
    assert_eq!(neo.name, "Thomas");
    assert_eq!(neo.contact, " NEO@matrix.io");
    assert_eq!(players.iter().map(|p| p.runs).sum::<u32>(), 5);
    assert!(aggregate_players(&Vec::new()).is_empty());
}

#[test]
fn runs_of_a_player_oldest_first() {
    let entries = vec![
        entry("Neo", "neo@matrix.io", "Speed Runner", 100, 10),
        entry("Trinity", "trin@zion.org", "Hack Time Attack", 300, 20),
        entry("Thomas", " NEO@matrix.io", "Hack Time Attack", 250, 3),
        entry("Old Neo", "neo@matrix.io", "Speed Runner", 10, 10),
    ];
    let runs = runs_for_player(&entries, "neo@matrixio");
    let scores: Vec<u32> = runs.iter().map(|e| e.score).collect();
    assert_eq!(scores, vec![250, 100, 10]);
    let neo = aggregate_players(&entries).into_iter().find(|p| p.key == "neo@matrixio").unwrap();
    assert_eq!(runs.len(), neo.runs as usize);
    assert_eq!(runs.iter().map(|e| e.score).max(), Some(neo.best_score));
    assert_eq!(runs.last().unwrap().timestamp_ns, neo.last_played_ns);
    let stats = player_stats(&runs);
    assert_eq!(
        stats,
        PlayerStats {
            runs: 3,
            best_score: 250,
            avg_score: 120,
            max_combo: 250 % 7,
            max_wpm: 125,
            speedrunner_runs: 2,
            hack_runs: 1,
        }
    );
    let last = last_runs(&runs, 2);
    assert_eq!(last.iter().map(|e| e.score).collect::<Vec<_>>(), vec![100, 10]);
    assert_eq!(last_runs(&runs, 5).len(), 3);
    assert!(runs_for_player(&entries, "nobody").is_empty());
    assert_eq!(player_stats(&Vec::new()).avg_score, 0);
    assert_eq!(mode_series(&runs, GameMode::SpeedRunner), vec![(2, 100), (3, 10)]);
    assert_eq!(mode_series(&runs, GameMode::HackTimeAttack), vec![(1, 250)]);
}

#[test]
fn board_filter() {
    let entries = vec![
        entry("a", "a@b.cd", "Speed Runner", 1, 1),
        entry("b", "b@b.cd", "Hack Time Attack", 2, 2),
        entry("c", "c@b.cd", "Speed Runner", 3, 3),
    ];
    assert_eq!(filter_entries(&entries, None).len(), 3);
    let sr: Vec<u32> = filter_entries(&entries, Some(GameMode::SpeedRunner)).iter().map(|e| e.score).collect();
    assert_eq!(sr, vec![1, 3]);
    assert_eq!(filter_entries(&entries, Some(GameMode::HackTimeAttack)).len(), 1);
}

#[test]
fn geometry_and_text() {
    let area = Rect { x: 2, y: 1, width: 80, height: 24 };
    assert_eq!(center_rect(area, 70, 22), Rect { x: 7, y: 2, width: 70, height: 22 });
    assert_eq!(center_rect(area, 100, 40), area);
    assert_eq!(inner_of(area, 2, 1), Rect { x: 4, y: 2, width: 76, height: 22 });
    assert_eq!(inner_of(Rect { x: 0, y: 0, width: 3, height: 1 }, 2, 1).width, 0);
    assert_eq!(truncate("hello", 10), "hello");
    assert_eq!(truncate("hello world", 5), "hell…");
    assert_eq!(truncate("hello", 0), "…");
    assert_eq!(truncate("éèà", 3), "éèà");
}

#[test]
fn clock_and_bar() {
    assert_eq!(clock(125_999), (2, 5));
    assert_eq!(clock(0), (0, 0));
    assert_eq!(timer_tone(14_999), TimerTone::Critical);
    assert_eq!(timer_tone(15_000), TimerTone::Warning);
    assert_eq!(timer_tone(30_000), TimerTone::Calm);
    assert_eq!(bar_fill(40, 60_000, 120_000), 20);
    assert_eq!(bar_fill(40, 200_000, 120_000), 40);
    assert_eq!(bar_fill(40, 0, 120_000), 0);
}

#[test]
fn rain_backdrop() {
    let mut rain = Rain::new(0, 0);
    assert_eq!((rain.w, rain.h), (1, 1));
    rain.resize(30, 12);
    assert_eq!(rain.columns.len(), 30);
    for col in &rain.columns {
        assert_eq!(col.chars.len(), 12);
        assert!(col.length >= 4 && col.length < 12);
        assert!(col.head_y_milli < 0 && col.head_y_milli >= -12_000);
        assert!(col.speed_milli >= 5000 && col.speed_milli < 20_000);
    }
    for _ in 0..200 {
        rain.tick(50);
        for cell in rain.cells(20, 10) {
            assert!(cell.x < 20 && cell.y < 10);
        }
    }
    let col = &mut rain.columns[0];
    col.head_y_milli = 5500;
    col.length = 6;
    let cells: Vec<_> = rain.cells(1, 12).into_iter().collect();
    assert_eq!(cells.len(), 6);
    assert_eq!((cells[0].y, cells[0].shade), (5, Shade::Bright));
    assert_eq!((cells[1].y, cells[1].shade), (4, Shade::Mid));
    assert_eq!((cells[2].y, cells[2].shade), (3, Shade::Dim));
    assert_eq!(cells[5].y, 0);
}

#[test]
fn subtitle_morph_cycle() {
    assert_eq!(glitch_mask(0, 11), vec![false; 11]);
    assert_eq!(glitch_mask(1499, 11), vec![false; 11]);
    let half: Vec<bool> = (0..11).map(|i| i < 6).collect();
    assert_eq!(glitch_mask(1750, 11), half);
    assert_eq!(glitch_mask(5750, 11), half);
    assert_eq!(glitch_mask(2000, 11), vec![true; 11]);
    assert_eq!(glitch_mask(3499, 11), vec![true; 11]);
    assert_eq!(glitch_mask(3500, 11), vec![true; 11]);
    let back: Vec<bool> = (0..11).map(|i| i >= 6).collect();
    assert_eq!(glitch_mask(3750, 11), back);
    assert_eq!(glitch_mask(1750, 0), Vec::<bool>::new());
}

#[test]
fn falling_commands_on_screen() {
    let area = Rect { x: 1, y: 2, width: 10, height: 5 };
    let cmds = vec![
        FallingCommand { text: "ls -la".to_string(), x: 0, y_milli: 1500 },
        FallingCommand { text: "git status".to_string(), x: 6, y_milli: 3999 },
        FallingCommand { text: "pwd".to_string(), x: 2, y_milli: 5000 },
    ];
    let cells = falling_cells(&cmds, "ls", area);
    assert_eq!(cells.len(), 6 + 4);
    assert_eq!((cells[0].x, cells[0].y, cells[0].ch, cells[0].typed), (1, 3, 'l', true));
    assert_eq!((cells[1].ch, cells[1].typed), ('s', true));
    assert_eq!((cells[2].ch, cells[2].typed), (' ', false));
    assert_eq!((cells[6].x, cells[6].y, cells[6].ch, cells[6].typed), (7, 5, 'g', false));
    assert_eq!(cells[9].ch, ' ');
    let none_typed = falling_cells(&cmds, "", area);
    assert!(none_typed.iter().all(|c| !c.typed));
    let other = falling_cells(&cmds, "x", area);
    assert!(other.iter().all(|c| !c.typed));
}

#[test]
fn hack_command_centred() {
    let area = Rect { x: 4, y: 2, width: 20, height: 7 };
    let cells = hack_target_cells("nmap -sV", 3, area);
    assert_eq!(cells.len(), 8);
    assert_eq!((cells[0].x, cells[0].y, cells[0].ch), (10, 5, 'n'));
    assert_eq!(cells[2].state, GlyphState::Typed);
    assert_eq!(cells[3].state, GlyphState::Cursor);
    assert_eq!(cells[4].state, GlyphState::Pending);
    assert_eq!(cells[7].x, 17);
    let narrow = Rect { x: 0, y: 0, width: 4, height: 1 };
    let cut = hack_target_cells("nmap -sV", 0, narrow);
    assert_eq!(cut.len(), 4);
    assert_eq!((cut[0].x, cut[3].x, cut[3].ch), (0, 3, 'p'));
}

#[test]
fn board_by_day_newest_first_best_first() {
    let entries = vec![
        entry("a", "a@x.io", "Speed Runner", 120, 1),
        entry("b", "b@x.io", "Speed Runner", 300, 2),
        entry("c", "c@x.io", "Hack Time Attack", 120, 3),
        entry("d", "d@x.io", "Speed Runner", 50, 4),
        entry("e", "e@x.io", "Speed Runner", 300, 5),
    ];
    let refs: Vec<&ScoreEntry> = entries.iter().collect();
    let days = vec![738_000, 738_002, 738_000, 738_001, 738_000];
    let board = rank_days(&refs, &days);
    let shape: Vec<(i128, Vec<&str>)> = board
        .iter()
        .map(|b| (b.day, b.entries.iter().map(|e| e.name.as_str()).collect()))
        .collect();
    assert_eq!(
        shape,
        vec![
            (738_002, vec!["b"]),
            (738_001, vec!["d"]),
            (738_000, vec!["e", "a", "c"]),
        ]
    );
    assert!(rank_days(&Vec::new(), &Vec::new()).is_empty());
    let one_day = scores_by_day(&refs[..1].to_vec());
    assert_eq!(one_day.len(), 1);
    assert_eq!(one_day[0].entries[0].name, "a");
    // the game at 1 ns after the epoch falls within a day of 1 January 1970
    assert!((719_162..=719_164).contains(&one_day[0].day));
}

#[test]
fn names_of_days() {
    assert_eq!(day_name(738_000, 738_000), DayName::Today);
    assert_eq!(day_name(737_999, 738_000), DayName::Yesterday);
    assert_eq!(day_name(737_998, 738_000), DayName::Dated);
    assert_eq!(day_name(738_001, 738_000), DayName::Dated);
}

#[test]
fn written_row_reads_back() {
    let e = entry("Trinity", "trin@zion.org", "Hack Time Attack", 880, 1_715_344_338_000_000_000);
    let num = |v: u32| Cell::Number { rounded: v, text: v.to_string() };
    let row = vec![
        text("2024-05-10T14:32:18+02:00"),
        text(&e.name),
        text(&e.contact),
        text(&e.mode),
        text(&e.difficulty),
        num(e.score),
        num(e.wpm),
        num(e.max_combo),
        num(e.items_done),
        num(e.duration_secs),
    ];
    let back = entry_from_row(&row, 0).unwrap();
    assert_eq!(
        (back.name, back.contact, back.mode, back.difficulty),
        (e.name.clone(), e.contact.clone(), e.mode.clone(), e.difficulty.clone())
    );
    assert_eq!(
        (back.score, back.wpm, back.max_combo, back.items_done, back.duration_secs, back.timestamp_ns),
        (e.score, e.wpm, e.max_combo, e.items_done, e.duration_secs, e.timestamp_ns)
    );
}
