use matrix_speedrunner::config::GameConfig;
use matrix_speedrunner::game::{Difficulty, GameMode, Session, Summary};
use matrix_speedrunner::handlers::{fits, handle, Action, Key};
use matrix_speedrunner::score::ScoreEntry;
use matrix_speedrunner::screen::{
    game_over_screen, menu_items, score_entry, valid_contact, IdField, Identity, MenuItem, Screen,
};

fn entry(name: &str, contact: &str, mode: &str, score: u32, ts: i128) -> ScoreEntry {
    ScoreEntry {
        name: name.to_string(),
        contact: contact.to_string(),
        mode: mode.to_string(),
        difficulty: "Normal".to_string(),
        score,
        wpm: 30,
        max_combo: 2,
        duration_secs: 60,
        items_done: 3,
        timestamp_ns: ts,
    }
}

fn neo() -> Identity {
    Identity { name: "Neo".to_string(), contact: "neo@matrix.io".to_string() }
}

#[test]
fn menu_lists_modes_then_rules_scores_quit() {
    let items = menu_items();
    assert_eq!(
        items,
        vec![
            MenuItem::Mode(GameMode::SpeedRunner),
            MenuItem::Mode(GameMode::HackTimeAttack),
            MenuItem::Rules,
            MenuItem::Scores,
            MenuItem::Quit,
        ]
    );
    let labels: Vec<&str> = items.iter().map(|i| i.label()).collect();
    assert_eq!(labels, vec!["Speed Runner", "Hack Time Attack", "Rules", "Scores", "Quit"]);
    assert_eq!(MenuItem::Quit.description(), "Sortir de la Matrice.");
    assert_eq!(MenuItem::Rules.description(), "Règles du jeu, contrôles et calcul du score.");
    assert_eq!(MenuItem::Scores.description(), "Tableau des scores du concours, par jour.");
}

#[test]
fn contacts() {
    assert!(valid_contact("a@b.c"));
    assert!(!valid_contact("a@b."));
    assert!(valid_contact("06 12 34 56 78"));
    assert!(!valid_contact("0612345"));
    assert!(!valid_contact(""));
    assert!(!valid_contact("neo"));
    assert!(!valid_contact("neo@matrix"));
    // four characters (five bytes) are too few for an email
    assert!(!valid_contact("é@.a"));
    assert!(valid_contact("é@.ab"));
    // typing on after a valid contact keeps it valid
    assert!(valid_contact("a@b.c and more"));
    assert!(valid_contact("06 12 34 56 78 poste 12"));
}

#[test]
fn menu_navigation() {
    let cfg = GameConfig::default();
    let mut s = Screen::Menu { selected: 0 };
    assert!(matches!(handle(&mut s, Key::Up, &cfg), Action::Nothing));
    assert!(matches!(s, Screen::Menu { selected: 0 }));
    for _ in 0..10 {
        handle(&mut s, Key::Down, &cfg);
    }
    assert!(matches!(s, Screen::Menu { selected: 4 }));
    assert!(matches!(handle(&mut s, Key::Enter, &cfg), Action::Quit));
    let mut s = Screen::Menu { selected: 3 };
    assert!(matches!(handle(&mut s, Key::Enter, &cfg), Action::ShowScores));
    let mut s = Screen::Menu { selected: 2 };
    assert!(matches!(handle(&mut s, Key::Enter, &cfg), Action::Goto(Screen::Rules { scroll: 0 })));
    let mut s = Screen::Menu { selected: 1 };
    match handle(&mut s, Key::Enter, &cfg) {
        Action::Goto(Screen::EnterIdentity { mode, name, contact, field, error }) => {
            assert_eq!(mode, GameMode::HackTimeAttack);
            assert!(name.is_empty() && contact.is_empty());
            assert_eq!(field, IdField::Name);
            assert!(error.is_none());
        }
        _ => panic!("expected the identity screen"),
    }
    assert!(matches!(handle(&mut s, Key::Char('q'), &cfg), Action::Quit));
    assert!(matches!(handle(&mut s, Key::Esc, &cfg), Action::Quit));
}

#[test]
fn rules_scrolling() {
    let cfg = GameConfig::default();
    let mut s = Screen::Rules { scroll: 0 };
    handle(&mut s, Key::Up, &cfg);
    handle(&mut s, Key::PageDown, &cfg);
    handle(&mut s, Key::Down, &cfg);
    assert!(matches!(s, Screen::Rules { scroll: 9 }));
    handle(&mut s, Key::PageUp, &cfg);
    assert!(matches!(s, Screen::Rules { scroll: 1 }));
    handle(&mut s, Key::Home, &cfg);
    assert!(matches!(s, Screen::Rules { scroll: 0 }));
    assert!(matches!(handle(&mut s, Key::Backspace, &cfg), Action::Goto(Screen::Menu { selected: 0 })));
}

#[test]
fn identity_entry_and_validation() {
    let cfg = GameConfig::default();
    let mut s = Screen::EnterIdentity {
        mode: GameMode::SpeedRunner,
        name: String::new(),
        contact: String::new(),
        field: IdField::Name,
        error: None,
    };
    assert!(matches!(handle(&mut s, Key::Enter, &cfg), Action::Nothing));
    match &s {
        Screen::EnterIdentity { error, field, .. } => {
            assert_eq!(error.as_deref(), Some("Le nom ne peut pas être vide."));
            assert_eq!(*field, IdField::Name);
        }
        _ => panic!(),
    }
    for c in "  Trinity ".chars() {
        handle(&mut s, Key::Char(c), &cfg);
    }
    handle(&mut s, Key::Tab, &cfg);
    for c in "trin@zion.org".chars() {
        handle(&mut s, Key::Char(c), &cfg);
    }
    handle(&mut s, Key::Char('x'), &cfg);
    handle(&mut s, Key::Backspace, &cfg);
    handle(&mut s, Key::Up, &cfg);
    handle(&mut s, Key::Down, &cfg);
    match handle(&mut s, Key::Enter, &cfg) {
        Action::Goto(Screen::DifficultySelect { mode, identity, selected }) => {
            assert_eq!(mode, GameMode::SpeedRunner);
            assert_eq!(identity.name, "Trinity");
            assert_eq!(identity.contact, "trin@zion.org");
            assert_eq!(selected, 1);
        }
        _ => panic!("expected the difficulty screen"),
    }
}

#[test]
fn identity_rejects_bad_contact_and_caps_length() {
    let cfg = GameConfig::default();
    let mut s = Screen::EnterIdentity {
        mode: GameMode::SpeedRunner,
        name: "Neo".to_string(),
        contact: "12345".to_string(),
        field: IdField::Contact,
        error: None,
    };
    handle(&mut s, Key::Enter, &cfg);
    match &s {
        Screen::EnterIdentity { error, field, .. } => {
            assert_eq!(error.as_deref(), Some("Email ou numéro de téléphone requis."));
            assert_eq!(*field, IdField::Contact);
        }
        _ => panic!(),
    }
    handle(&mut s, Key::Tab, &cfg);
    for _ in 0..100 {
        handle(&mut s, Key::Char('a'), &cfg);
    }
    match &s {
        Screen::EnterIdentity { name, .. } => assert_eq!(name.chars().count(), 60),
        _ => panic!(),
    }
    assert!(matches!(handle(&mut s, Key::Esc, &cfg), Action::Goto(Screen::Menu { selected: 0 })));
}

#[test]
fn difficulty_choice_starts_a_game() {
    let cfg = GameConfig::default();
    let mut s = Screen::DifficultySelect { mode: GameMode::HackTimeAttack, identity: neo(), selected: 1 };
    handle(&mut s, Key::Down, &cfg);
    handle(&mut s, Key::Down, &cfg);
    assert!(matches!(s, Screen::DifficultySelect { selected: 2, .. }));
    match handle(&mut s, Key::Enter, &cfg) {
        Action::Goto(Screen::Playing { identity, session }) => {
            assert_eq!(identity.name, "Neo");
            assert_eq!(session.mode(), GameMode::HackTimeAttack);
            assert_eq!(session.difficulty(), Difficulty::Insane);
        }
        _ => panic!("expected a game"),
    }
    handle(&mut s, Key::Up, &cfg);
    handle(&mut s, Key::Up, &cfg);
    handle(&mut s, Key::Up, &cfg);
    match handle(&mut s, Key::Enter, &cfg) {
        Action::Goto(Screen::Playing { session, .. }) => assert_eq!(session.difficulty(), Difficulty::Easy),
        _ => panic!("expected a game"),
    }
}

#[test]
fn playing_forwards_keys() {
    let cfg = GameConfig::default();
    let mut s = Screen::Playing {
        identity: neo(),
        session: Session::new(GameMode::HackTimeAttack, Difficulty::Easy, &cfg),
    };
    for c in "ls /etc".chars() {
        assert!(fits(&s, Key::Char(c)));
        assert!(matches!(handle(&mut s, Key::Char(c), &cfg), Action::Nothing));
    }
    handle(&mut s, Key::Char('l'), &cfg);
    handle(&mut s, Key::Backspace, &cfg);
    handle(&mut s, Key::Enter, &cfg);
    match &s {
        Screen::Playing { session, .. } => assert_eq!(session.summary().score, 35),
        _ => panic!(),
    }
    assert!(matches!(handle(&mut s, Key::Esc, &cfg), Action::Goto(Screen::Menu { selected: 0 })));
}

#[test]
fn game_over_options() {
    let cfg = GameConfig::default();
    let summary = Summary { score: 10, wpm: 1, max_combo: 1, elapsed_secs: 3, items_done: 1 };
    let mut s = Screen::GameOver {
        identity: neo(),
        mode: GameMode::SpeedRunner,
        difficulty: Difficulty::Insane,
        summary,
        saved: true,
    };
    assert!(matches!(handle(&mut s, Key::Char('q'), &cfg), Action::Quit));
    assert!(matches!(handle(&mut s, Key::Char('m'), &cfg), Action::Goto(Screen::Menu { selected: 0 })));
    assert!(matches!(handle(&mut s, Key::Char('s'), &cfg), Action::ShowScores));
    assert!(matches!(
        handle(&mut s, Key::Char('d'), &cfg),
        Action::Goto(Screen::DifficultySelect { mode: GameMode::SpeedRunner, selected: 2, .. })
    ));
    match handle(&mut s, Key::Char('r'), &cfg) {
        Action::Goto(Screen::Playing { identity, session }) => {
            assert_eq!(identity.contact, "neo@matrix.io");
            assert_eq!(session.mode(), GameMode::SpeedRunner);
            assert_eq!(session.difficulty(), Difficulty::Insane);
        }
        _ => panic!("expected a new game"),
    }
    assert!(matches!(handle(&mut s, Key::Char('z'), &cfg), Action::Nothing));
}

#[test]
fn scores_filter_and_scroll() {
    let cfg = GameConfig::default();
    let entries = vec![entry("a", "a@b.cd", "Speed Runner", 5, 1), entry("b", "b@b.cd", "Hack Time Attack", 7, 2)];
    let mut s = Screen::Scores { entries: entries.clone_entries(), scroll: 0, filter: None };
    handle(&mut s, Key::Char('f'), &cfg);
    assert!(matches!(s, Screen::Scores { filter: Some(GameMode::SpeedRunner), .. }));
    handle(&mut s, Key::Char('f'), &cfg);
    assert!(matches!(s, Screen::Scores { filter: Some(GameMode::HackTimeAttack), .. }));
    handle(&mut s, Key::Char('f'), &cfg);
    assert!(matches!(s, Screen::Scores { filter: None, .. }));
    for _ in 0..5 {
        handle(&mut s, Key::Char('j'), &cfg);
    }
    assert!(matches!(s, Screen::Scores { scroll: 1, .. }));
    handle(&mut s, Key::PageDown, &cfg);
    assert!(matches!(s, Screen::Scores { scroll: 11, .. }));
    handle(&mut s, Key::Char('k'), &cfg);
    assert!(matches!(s, Screen::Scores { scroll: 10, .. }));
    match handle(&mut s, Key::Char('p'), &cfg) {
        Action::Goto(Screen::Players { entries, selected: 0, scroll: 0 }) => assert_eq!(entries.len(), 2),
        _ => panic!("expected the players"),
    }
    assert!(matches!(handle(&mut s, Key::Esc, &cfg), Action::Goto(Screen::Menu { selected: 0 })));
    assert!(matches!(handle(&mut s, Key::Enter, &cfg), Action::Goto(Screen::Menu { selected: 0 })));
}

trait CloneEntries {
    fn clone_entries(&self) -> Vec<ScoreEntry>;
}

impl CloneEntries for Vec<ScoreEntry> {
    fn clone_entries(&self) -> Vec<ScoreEntry> {
        matrix_speedrunner::score::clone_entries(self)
    }
}

#[test]
fn players_navigation_and_detail() {
    let cfg = GameConfig::default();
    let entries = vec![
        entry("a", "a@b.cd", "Speed Runner", 5, 1),
        entry("b", "b@b.cd", "Hack Time Attack", 7, 2),
        entry("A", "A@B.CD", "Speed Runner", 3, 3),
    ];
    let mut s = Screen::Players { entries: entries.clone_entries(), selected: 0, scroll: 0 };
    for _ in 0..5 {
        handle(&mut s, Key::Down, &cfg);
    }
    assert!(matches!(s, Screen::Players { selected: 1, scroll: 0, .. }));
    match handle(&mut s, Key::Enter, &cfg) {
        Action::Goto(Screen::PlayerDetail { key, .. }) => assert_eq!(key, "a@bcd"),
        _ => panic!("expected a player"),
    }
    handle(&mut s, Key::PageUp, &cfg);
    assert!(matches!(s, Screen::Players { selected: 0, scroll: 0, .. }));
    match handle(&mut s, Key::Enter, &cfg) {
        Action::Goto(Screen::PlayerDetail { key, .. }) => assert_eq!(key, "b@bcd"),
        _ => panic!("expected a player"),
    }
    handle(&mut s, Key::PageDown, &cfg);
    assert!(matches!(s, Screen::Players { selected: 1, scroll: 10, .. }));
    handle(&mut s, Key::Up, &cfg);
    assert!(matches!(s, Screen::Players { selected: 0, scroll: 0, .. }));
    assert!(matches!(handle(&mut s, Key::Esc, &cfg), Action::Goto(Screen::Scores { scroll: 0, filter: None, .. })));
    assert!(matches!(handle(&mut s, Key::Char('q'), &cfg), Action::Quit));
    let mut d = Screen::PlayerDetail { entries, key: "a@bcd".to_string() };
    assert!(matches!(handle(&mut d, Key::Enter, &cfg), Action::Goto(Screen::Players { selected: 0, scroll: 0, .. })));
    assert!(matches!(handle(&mut d, Key::Char('q'), &cfg), Action::Quit));
    assert!(matches!(handle(&mut d, Key::Char('x'), &cfg), Action::Nothing));
}

#[test]
fn players_window_follows_selection() {
    let cfg = GameConfig::default();
    let entries: Vec<ScoreEntry> =
        (0..12).map(|i| entry("p", &format!("p{i}@x.io"), "Speed Runner", 100 - i, i as i128)).collect();
    let mut s = Screen::Players { entries, selected: 0, scroll: 0 };
    for _ in 0..10 {
        handle(&mut s, Key::Char('j'), &cfg);
    }
    assert!(matches!(s, Screen::Players { selected: 10, scroll: 1, .. }));
    handle(&mut s, Key::Down, &cfg);
    assert!(matches!(s, Screen::Players { selected: 11, scroll: 2, .. }));
    handle(&mut s, Key::Down, &cfg);
    assert!(matches!(s, Screen::Players { selected: 11, scroll: 2, .. }));
    for _ in 0..10 {
        handle(&mut s, Key::Char('k'), &cfg);
    }
    assert!(matches!(s, Screen::Players { selected: 1, scroll: 1, .. }));
    handle(&mut s, Key::Up, &cfg);
    assert!(matches!(s, Screen::Players { selected: 0, scroll: 0, .. }));
}

#[test]
fn players_on_an_empty_board() {
    let cfg = GameConfig::default();
    let mut s = Screen::Players { entries: Vec::new(), selected: 0, scroll: 0 };
    handle(&mut s, Key::Down, &cfg);
    assert!(matches!(s, Screen::Players { selected: 0, scroll: 0, .. }));
    assert!(matches!(handle(&mut s, Key::Enter, &cfg), Action::Nothing));
}

#[test]
fn end_of_game_entry_and_screen() {
    let cfg = GameConfig::default();
    let mut session = Session::new(GameMode::HackTimeAttack, Difficulty::Normal, &cfg);
    for c in "ls /etc".chars() {
        session.type_char(c, &cfg);
    }
    session.tick(120_000, &cfg);
    assert!(session.is_over());
    let e = score_entry(&neo(), &session, 42);
    assert_eq!(e.name, "Neo");
    assert_eq!(e.contact, "neo@matrix.io");
    assert_eq!(e.mode, "Hack Time Attack");
    assert_eq!(e.difficulty, "Normal");
    assert_eq!(e.score, 35);
    assert_eq!(e.items_done, 1);
    assert_eq!(e.duration_secs, 120);
    assert_eq!(e.wpm, 0);
    assert_eq!(e.timestamp_ns, 42);
    match game_over_screen(neo(), &session, false) {
        Screen::GameOver { mode, difficulty, summary, saved, .. } => {
            assert_eq!(mode, GameMode::HackTimeAttack);
            assert_eq!(difficulty, Difficulty::Normal);
            assert_eq!(summary.score, 35);
            assert!(!saved);
        }
        _ => panic!(),
    }
}
