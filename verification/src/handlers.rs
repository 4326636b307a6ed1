//! What each key does on each screen: the decisions of the application's
//! event loop, from the current screen and a key to the updated screen and
//! an action for the loop to carry out.

use crate::config::GameConfig;
use crate::game::{Difficulty, GameMode, Session};
use crate::score::{aggregate_players, clone_entries, group, lemma_rank_len, rank_by_best, views, ScoreEntry};
use crate::screen::{spec_menu_items, spec_valid_contact, valid_contact, menu_items, IdField, Identity, MenuItem, Screen};
use crate::text::{pop_char, push_char, spec_trim, trim};
use vstd::prelude::*;

verus! {

/// A key press, as the event loop hands it over.
#[derive(Clone, Copy, Debug, PartialEq, Eq, Structural)]
pub enum Key {
    Char(char),
    Up,
    Down,
    Enter,
    Esc,
    Tab,
    Backspace,
    PageUp,
    PageDown,
    Home,
    Other,
}

/// What the event loop does after a key.
pub enum Action {
    /// Stay on the screen as it now is.
    Nothing,
    Quit,
    Goto(Screen),
    /// Show the score board, freshly read from its file.
    ShowScores,
}

/// `a - b`, or 0.
pub open spec fn sat_sub(a: int, b: int) -> int {
    if a > b {
        a - b
    } else {
        0
    }
}

/// `a + b` capped at `u16::MAX`.
pub open spec fn sat_add16(a: u16, b: int) -> u16 {
    if a + b > u16::MAX {
        u16::MAX
    } else {
        (a + b) as u16
    }
}

/// The smaller of `a` and `b`.
pub open spec fn min_int(a: int, b: int) -> int {
    if a < b {
        a
    } else {
        b
    }
}

/// `a` is a move to the main menu, first item selected.
pub open spec fn to_menu(a: Action) -> bool {
    a matches Action::Goto(Screen::Menu { selected }) && selected == 0
}

/// `s` is a game of `mode` at `diff` that has just started.
pub open spec fn started(s: Session, mode: GameMode, diff: Difficulty, cfg: GameConfig) -> bool {
    &&& s.wf()
    &&& s.spec_mode() == mode
    &&& s.spec_difficulty() == diff
    &&& match s {
        Session::SpeedRunner(g) => g.fresh(diff, cfg),
        Session::Hack(g) => g.fresh(diff, cfg),
    }
}

/// The difficulty at position `i` of the difficulty list.
pub open spec fn difficulty_at(i: usize) -> Difficulty {
    if i == 0 {
        Difficulty::Easy
    } else if i == 1 {
        Difficulty::Normal
    } else {
        Difficulty::Insane
    }
}

/// The position of `d` in the difficulty list.
pub open spec fn difficulty_index(d: Difficulty) -> usize {
    match d {
        Difficulty::Easy => 0,
        Difficulty::Normal => 1,
        Difficulty::Insane => 2,
    }
}

/// Main menu: q/Esc quit, arrows move within the five items, Enter opens
/// the selected item.
pub open spec fn menu_step(sel: usize, sel2: usize, key: Key, a: Action) -> bool {
    if key == Key::Char('q') || key == Key::Esc {
        a is Quit && sel2 == sel
    } else if key == Key::Up {
        a is Nothing && sel2 == sat_sub(sel as int, 1)
    } else if key == Key::Down {
        a is Nothing && sel2 == min_int(sel + 1, 4)
    } else if key == Key::Enter {
        &&& sel2 == sel
        &&& if sel < 5 {
            match spec_menu_items()[sel as int] {
                MenuItem::Mode(m) => a matches Action::Goto(
                    Screen::EnterIdentity { mode, name, contact, field, error },
                ) && mode == m && name@.len() == 0 && contact@.len() == 0 && field
                    == IdField::Name && error is None,
                MenuItem::Rules => a matches Action::Goto(Screen::Rules { scroll }) && scroll == 0,
                MenuItem::Scores => a is ShowScores,
                MenuItem::Quit => a is Quit,
            }
        } else {
            a is Quit
        }
    } else {
        a is Nothing && sel2 == sel
    }
}

fn on_menu(selected: &mut usize, key: Key) -> (a: Action)
    requires
        key == Key::Down ==> *old(selected) < usize::MAX,
    ensures
        menu_step(*old(selected), *final(selected), key, a),
{
    let items = menu_items();
    match key {
        Key::Char('q') | Key::Esc => Action::Quit,
        Key::Up => {
            *selected = if *selected > 0 {
                *selected - 1
            } else {
                0
            };
            Action::Nothing
        },
        Key::Down => {
            let next = *selected + 1;
            *selected = if next < items.len() - 1 {
                next
            } else {
                items.len() - 1
            };
            Action::Nothing
        },
        Key::Enter => {
            if *selected < items.len() {
                match items[*selected] {
                    MenuItem::Mode(mode) => Action::Goto(
                        Screen::EnterIdentity {
                            mode,
                            name: String::new(),
                            contact: String::new(),
                            field: IdField::Name,
                            error: None,
                        },
                    ),
                    MenuItem::Rules => Action::Goto(Screen::Rules { scroll: 0 }),
                    MenuItem::Scores => Action::ShowScores,
                    MenuItem::Quit => Action::Quit,
                }
            } else {
                Action::Quit
            }
        },
        _ => Action::Nothing,
    }
}

/// Rules: q/Esc/Backspace back to the menu, arrows and pages scroll, Home
/// goes to the top.
pub open spec fn rules_step(scroll: u16, scroll2: u16, key: Key, a: Action) -> bool {
    if key == Key::Char('q') || key == Key::Esc || key == Key::Backspace {
        to_menu(a) && scroll2 == scroll
    } else if key == Key::Up {
        a is Nothing && scroll2 == sat_sub(scroll as int, 1)
    } else if key == Key::Down {
        a is Nothing && scroll2 == sat_add16(scroll, 1)
    } else if key == Key::PageUp {
        a is Nothing && scroll2 == sat_sub(scroll as int, 8)
    } else if key == Key::PageDown {
        a is Nothing && scroll2 == sat_add16(scroll, 8)
    } else if key == Key::Home {
        a is Nothing && scroll2 == 0
    } else {
        a is Nothing && scroll2 == scroll
    }
}

fn on_rules(scroll: &mut u16, key: Key) -> (a: Action)
    ensures
        rules_step(*old(scroll), *final(scroll), key, a),
{
    match key {
        Key::Char('q') | Key::Esc | Key::Backspace => Action::Goto(Screen::Menu { selected: 0 }),
        Key::Up => {
            *scroll = scroll.saturating_sub(1);
            Action::Nothing
        },
        Key::Down => {
            *scroll = scroll.saturating_add(1);
            Action::Nothing
        },
        Key::PageUp => {
            *scroll = scroll.saturating_sub(8);
            Action::Nothing
        },
        Key::PageDown => {
            *scroll = scroll.saturating_add(8);
            Action::Nothing
        },
        Key::Home => {
            *scroll = 0;
            Action::Nothing
        },
        _ => Action::Nothing,
    }
}

/// Longest name or contact that can be typed, in characters.
pub const MAX_FIELD_CHARS: usize = 60;

/// `t2` is `t` after a character is typed into it: appended unless the
/// field already holds the longest text allowed.
pub open spec fn typed_into(t: Seq<char>, t2: Seq<char>, c: char) -> bool {
    t2 == if t.len() < MAX_FIELD_CHARS {
        t.push(c)
    } else {
        t
    }
}

/// `t2` is `t` without its last character, if any.
pub open spec fn erased(t: Seq<char>, t2: Seq<char>) -> bool {
    t2 == if t.len() == 0 {
        t
    } else {
        t.drop_last()
    }
}

/// Identity screen: Esc back to the menu, Tab/Up/Down pick the field,
/// Backspace and characters edit it, Enter checks both fields (name not
/// empty, contact an email or a phone number, both trimmed) and moves on to
/// the choice of difficulty.
pub open spec fn identity_step(
    mode: GameMode,
    name: Seq<char>,
    contact: Seq<char>,
    field: IdField,
    error: Option<String>,
    name2: Seq<char>,
    contact2: Seq<char>,
    field2: IdField,
    error2: Option<String>,
    key: Key,
    a: Action,
) -> bool {
    if key == Key::Esc {
        to_menu(a) && name2 == name && contact2 == contact && field2 == field && error2 == error
    } else if key == Key::Tab || key == Key::Up || key == Key::Down {
        &&& a is Nothing
        &&& name2 == name && contact2 == contact && error2 == error
        &&& field2 == if key == Key::Up {
            IdField::Name
        } else if key == Key::Down {
            IdField::Contact
        } else if field == IdField::Name {
            IdField::Contact
        } else {
            IdField::Name
        }
    } else if key == Key::Backspace || key is Char {
        &&& a is Nothing
        &&& field2 == field && error2 == error
        &&& field == IdField::Name ==> contact2 == contact && if key is Char {
            typed_into(name, name2, key->Char_0)
        } else {
            erased(name, name2)
        }
        &&& field == IdField::Contact ==> name2 == name && if key is Char {
            typed_into(contact, contact2, key->Char_0)
        } else {
            erased(contact, contact2)
        }
    } else if key == Key::Enter {
        &&& name2 == name && contact2 == contact
        &&& if spec_trim(name).len() == 0 {
            &&& a is Nothing
            &&& field2 == IdField::Name
            &&& error2 matches Some(e) && e@ == "Le nom ne peut pas être vide."@
        } else if !spec_valid_contact(spec_trim(contact)) {
            &&& a is Nothing
            &&& field2 == IdField::Contact
            &&& error2 matches Some(e) && e@ == "Email ou numéro de téléphone requis."@
        } else {
            &&& field2 == field && error2 == error
            &&& a matches Action::Goto(Screen::DifficultySelect { mode: m, identity, selected })
            &&& m == mode && selected == 1
            &&& identity.name@ == spec_trim(name)
            &&& identity.contact@ == spec_trim(contact)
        }
    } else {
        a is Nothing && name2 == name && contact2 == contact && field2 == field && error2 == error
    }
}

fn on_identity(
    mode: GameMode,
    name: &mut String,
    contact: &mut String,
    field: &mut IdField,
    error: &mut Option<String>,
    key: Key,
) -> (a: Action)
    ensures
        identity_step(
            mode,
            old(name)@,
            old(contact)@,
            *old(field),
            *old(error),
            final(name)@,
            final(contact)@,
            *final(field),
            *final(error),
            key,
            a,
        ),
{
    match key {
        Key::Esc => Action::Goto(Screen::Menu { selected: 0 }),
        Key::Tab => {
            *field = if *field == IdField::Name {
                IdField::Contact
            } else {
                IdField::Name
            };
            Action::Nothing
        },
        Key::Up => {
            *field = IdField::Name;
            Action::Nothing
        },
        Key::Down => {
            *field = IdField::Contact;
            Action::Nothing
        },
        Key::Backspace => {
            match *field {
                IdField::Name => {
                    let _ = pop_char(name);
                },
                IdField::Contact => {
                    let _ = pop_char(contact);
                },
            }
            Action::Nothing
        },
        Key::Char(c) => {
            match *field {
                IdField::Name => {
                    if name.as_str().unicode_len() < MAX_FIELD_CHARS {
                        push_char(name, c);
                    }
                },
                IdField::Contact => {
                    if contact.as_str().unicode_len() < MAX_FIELD_CHARS {
                        push_char(contact, c);
                    }
                },
            }
            Action::Nothing
        },
        Key::Enter => {
            let n = trim(name.as_str());
            let c = trim(contact.as_str());
            if n.unicode_len() == 0 {
                *error = Some("Le nom ne peut pas être vide.".to_owned());
                *field = IdField::Name;
                Action::Nothing
            } else if !valid_contact(c) {
                *error = Some("Email ou numéro de téléphone requis.".to_owned());
                *field = IdField::Contact;
                Action::Nothing
            } else {
                let identity = Identity { name: n.to_owned(), contact: c.to_owned() };
                Action::Goto(Screen::DifficultySelect { mode, identity, selected: 1 })
            }
        },
        _ => Action::Nothing,
    }
}

/// Choice of difficulty: Esc back to the menu, arrows move within the three
/// levels, Enter starts a game at the selected one.
pub open spec fn difficulty_step(
    mode: GameMode,
    identity: Identity,
    sel: usize,
    sel2: usize,
    key: Key,
    a: Action,
    cfg: GameConfig,
) -> bool {
    if key == Key::Esc {
        to_menu(a) && sel2 == sel
    } else if key == Key::Up {
        a is Nothing && sel2 == sat_sub(sel as int, 1)
    } else if key == Key::Down {
        a is Nothing && sel2 == min_int(sel + 1, 2)
    } else if key == Key::Enter {
        &&& sel2 == sel
        &&& a matches Action::Goto(Screen::Playing { identity: who, session })
        &&& who == identity
        &&& started(session, mode, difficulty_at(sel), cfg)
    } else {
        a is Nothing && sel2 == sel
    }
}

fn on_difficulty(
    mode: GameMode,
    identity: &Identity,
    selected: &mut usize,
    key: Key,
    cfg: &GameConfig,
) -> (a: Action)
    requires
        key == Key::Down ==> *old(selected) < usize::MAX,
    ensures
        difficulty_step(mode, *identity, *old(selected), *final(selected), key, a, *cfg),
{
    match key {
        Key::Esc => Action::Goto(Screen::Menu { selected: 0 }),
        Key::Up => {
            *selected = if *selected > 0 {
                *selected - 1
            } else {
                0
            };
            Action::Nothing
        },
        Key::Down => {
            *selected = if *selected + 1 < 2 {
                *selected + 1
            } else {
                2
            };
            Action::Nothing
        },
        Key::Enter => {
            let diff = match *selected {
                0 => Difficulty::Easy,
                1 => Difficulty::Normal,
                _ => Difficulty::Insane,
            };
            Action::Goto(
                Screen::Playing {
                    identity: identity.duplicate(),
                    session: Session::new(mode, diff, cfg),
                },
            )
        },
        _ => Action::Nothing,
    }
}

/// In a game: Esc back to the menu; Enter, Backspace and characters go to
/// the game.
pub open spec fn playing_step(s: Session, s2: Session, key: Key, a: Action, cfg: GameConfig) -> bool {
    if key == Key::Esc {
        to_menu(a) && s2 == s
    } else if key == Key::Enter {
        a is Nothing && Session::after_submit(s, s2, cfg)
    } else if key == Key::Backspace {
        a is Nothing && Session::after_backspace(s, s2)
    } else if key is Char {
        a is Nothing && Session::after_key(s, s2, key->Char_0, cfg)
    } else {
        a is Nothing && s2 == s
    }
}

/// What a game needs for a key not to overflow any counter.
pub open spec fn playing_fits(s: Session, key: Key) -> bool {
    &&& key == Key::Enter ==> s.can_submit()
    &&& key is Char ==> s.can_type(key->Char_0)
}

fn on_playing(session: &mut Session, key: Key, cfg: &GameConfig) -> (a: Action)
    requires
        old(session).wf(),
        playing_fits(*old(session), key),
    ensures
        final(session).wf(),
        playing_step(*old(session), *final(session), key, a, *cfg),
{
    match key {
        Key::Esc => Action::Goto(Screen::Menu { selected: 0 }),
        Key::Enter => {
            session.submit(cfg);
            Action::Nothing
        },
        Key::Backspace => {
            session.backspace();
            Action::Nothing
        },
        Key::Char(c) => {
            session.type_char(c, cfg);
            Action::Nothing
        },
        _ => Action::Nothing,
    }
}

/// End of a game: q quits, Esc/m back to the menu, s to the scores, d to the
/// choice of difficulty (current level selected), r/Enter replays the same
/// mode at the same level for the same player.
pub open spec fn game_over_step(
    identity: Identity,
    mode: GameMode,
    difficulty: Difficulty,
    key: Key,
    a: Action,
    cfg: GameConfig,
) -> bool {
    if key == Key::Char('q') {
        a is Quit
    } else if key == Key::Esc || key == Key::Char('m') {
        to_menu(a)
    } else if key == Key::Char('s') {
        a is ShowScores
    } else if key == Key::Char('d') {
        &&& a matches Action::Goto(Screen::DifficultySelect { mode: m, identity: who, selected })
        &&& m == mode && who == identity && selected == difficulty_index(difficulty)
    } else if key == Key::Char('r') || key == Key::Enter {
        &&& a matches Action::Goto(Screen::Playing { identity: who, session })
        &&& who == identity
        &&& started(session, mode, difficulty, cfg)
    } else {
        a is Nothing
    }
}

fn on_game_over(
    identity: &Identity,
    mode: GameMode,
    difficulty: Difficulty,
    key: Key,
    cfg: &GameConfig,
) -> (a: Action)
    ensures
        game_over_step(*identity, mode, difficulty, key, a, *cfg),
{
    match key {
        Key::Char('q') => Action::Quit,
        Key::Esc | Key::Char('m') => Action::Goto(Screen::Menu { selected: 0 }),
        Key::Char('s') => Action::ShowScores,
        Key::Char('d') => Action::Goto(
            Screen::DifficultySelect {
                mode,
                identity: identity.duplicate(),
                selected: match difficulty {
                    Difficulty::Easy => 0,
                    Difficulty::Normal => 1,
                    Difficulty::Insane => 2,
                },
            },
        ),
        Key::Char('r') | Key::Enter => Action::Goto(
            Screen::Playing {
                identity: identity.duplicate(),
                session: Session::new(mode, difficulty, cfg),
            },
        ),
        _ => Action::Nothing,
    }
}

/// The next filter of the score board: all modes, Speed Runner, Hack Time
/// Attack, and around again.
pub open spec fn next_filter(f: Option<GameMode>) -> Option<GameMode> {
    match f {
        None => Some(GameMode::SpeedRunner),
        Some(GameMode::SpeedRunner) => Some(GameMode::HackTimeAttack),
        Some(GameMode::HackTimeAttack) => None,
    }
}

/// Score board: q/Esc/Enter back to the menu, p to the players, f changes the
/// filter (back to the top), arrows/j/k and pages scroll (Down no further
/// than the number of entries).
pub open spec fn scores_step(
    entries: Seq<ScoreEntry>,
    scroll: u16,
    filter: Option<GameMode>,
    scroll2: u16,
    filter2: Option<GameMode>,
    key: Key,
    a: Action,
) -> bool {
    if key == Key::Char('q') || key == Key::Esc || key == Key::Enter {
        to_menu(a) && scroll2 == scroll && filter2 == filter
    } else if key == Key::Char('p') {
        &&& scroll2 == scroll && filter2 == filter
        &&& a matches Action::Goto(Screen::Players { entries: e, selected, scroll: s })
        &&& e@ == entries && selected == 0 && s == 0
    } else if key == Key::Char('f') {
        a is Nothing && filter2 == next_filter(filter) && scroll2 == 0
    } else if key == Key::Down || key == Key::Char('j') {
        a is Nothing && filter2 == filter && scroll2 == min_int(
            scroll + 1,
            sat_sub((entries.len() as u16) as int, 1),
        )
    } else if key == Key::Up || key == Key::Char('k') {
        a is Nothing && filter2 == filter && scroll2 == sat_sub(scroll as int, 1)
    } else if key == Key::PageDown {
        a is Nothing && filter2 == filter && scroll2 == sat_add16(scroll, 10)
    } else if key == Key::PageUp {
        a is Nothing && filter2 == filter && scroll2 == sat_sub(scroll as int, 10)
    } else {
        a is Nothing && scroll2 == scroll && filter2 == filter
    }
}

fn on_scores(
    entries: &Vec<ScoreEntry>,
    scroll: &mut u16,
    filter: &mut Option<GameMode>,
    key: Key,
) -> (a: Action)
    requires
        key == Key::Down || key == Key::Char('j') ==> *old(scroll) < u16::MAX,
    ensures
        scores_step(entries@, *old(scroll), *old(filter), *final(scroll), *final(filter), key, a),
{
    match key {
        Key::Char('q') | Key::Esc | Key::Enter => Action::Goto(Screen::Menu { selected: 0 }),
        Key::Char('p') => Action::Goto(
            Screen::Players { entries: clone_entries(entries), selected: 0, scroll: 0 },
        ),
        Key::Char('f') => {
            *filter = match *filter {
                None => Some(GameMode::SpeedRunner),
                Some(GameMode::SpeedRunner) => Some(GameMode::HackTimeAttack),
                Some(GameMode::HackTimeAttack) => None,
            };
            *scroll = 0;
            Action::Nothing
        },
        Key::Down | Key::Char('j') => {
            let max = entries.len() as u16;
            let cap = max.saturating_sub(1);
            let next = *scroll + 1;
            *scroll = if next < cap {
                next
            } else {
                cap
            };
            Action::Nothing
        },
        Key::Up | Key::Char('k') => {
            *scroll = scroll.saturating_sub(1);
            Action::Nothing
        },
        Key::PageDown => {
            *scroll = scroll.saturating_add(10);
            Action::Nothing
        },
        Key::PageUp => {
            *scroll = scroll.saturating_sub(10);
            Action::Nothing
        },
        _ => Action::Nothing,
    }
}

/// The players of a board, in the order the players screen lists them.
pub open spec fn ranked_players(entries: Seq<ScoreEntry>) -> Seq<crate::score::PlayerView> {
    rank_by_best(group(entries))
}

/// Players screen: q quits, Esc back to the board, arrows/j/k and pages move
/// the selection (the view follows it), Enter opens the selected player.
pub open spec fn players_step(
    entries: Seq<ScoreEntry>,
    sel: usize,
    scroll: u16,
    sel2: usize,
    scroll2: u16,
    key: Key,
    a: Action,
) -> bool {
    let count = ranked_players(entries).len() as int;
    if key == Key::Char('q') {
        a is Quit && sel2 == sel && scroll2 == scroll
    } else if key == Key::Esc {
        &&& sel2 == sel && scroll2 == scroll
        &&& a matches Action::Goto(Screen::Scores { entries: e, scroll: s, filter })
        &&& e@ == entries && s == 0 && filter is None
    } else if key == Key::Down || key == Key::Char('j') {
        &&& a is Nothing
        &&& count == 0 ==> sel2 == sel && scroll2 == scroll
        &&& count > 0 ==> {
            &&& sel2 == min_int(sel + 1, count - 1)
            &&& scroll2 == if (sel2 as u16) >= sat_add16(scroll, 10) {
                sat_add16(scroll, 1)
            } else {
                scroll
            }
        }
    } else if key == Key::Up || key == Key::Char('k') {
        &&& a is Nothing
        &&& sel2 == sat_sub(sel as int, 1)
        &&& scroll2 == if (sel2 as u16) < scroll {
            sel2 as u16
        } else {
            scroll
        }
    } else if key == Key::PageDown {
        a is Nothing && sel2 == min_int(sel + 10, sat_sub(count, 1)) && scroll2 == sat_add16(
            scroll,
            10,
        )
    } else if key == Key::PageUp {
        a is Nothing && sel2 == sat_sub(sel as int, 10) && scroll2 == sat_sub(scroll as int, 10)
    } else if key == Key::Enter {
        &&& sel2 == sel && scroll2 == scroll
        &&& sel < count ==> (a matches Action::Goto(Screen::PlayerDetail { entries: e, key: k })
            && e@ == entries && k@ == ranked_players(entries)[sel as int].key)
        &&& sel >= count ==> a is Nothing
    } else {
        a is Nothing && sel2 == sel && scroll2 == scroll
    }
}

/// What the players screen needs for a key not to overflow.
pub open spec fn players_fits(entries: Seq<ScoreEntry>, sel: usize, key: Key) -> bool {
    &&& entries.len() <= u32::MAX
    &&& (key == Key::Down || key == Key::Char('j')) ==> sel < usize::MAX
    &&& key == Key::PageDown ==> sel + 10 <= usize::MAX
}

fn on_players(entries: &Vec<ScoreEntry>, selected: &mut usize, scroll: &mut u16, key: Key) -> (a:
    Action)
    requires
        players_fits(entries@, *old(selected), key),
    ensures
        players_step(entries@, *old(selected), *old(scroll), *final(selected), *final(scroll), key, a),
{
    let players = aggregate_players(entries);
    let count = players.len();
    proof {
        lemma_rank_len(group(entries@));
        assert(views(players@).len() == players@.len());
    }
    match key {
        Key::Char('q') => Action::Quit,
        Key::Esc => Action::Goto(
            Screen::Scores { entries: clone_entries(entries), scroll: 0, filter: None },
        ),
        Key::Down | Key::Char('j') => {
            if count > 0 {
                let next = *selected + 1;
                *selected = if next < count - 1 {
                    next
                } else {
                    count - 1
                };
                if (*selected as u16) >= scroll.saturating_add(10) {
                    *scroll = scroll.saturating_add(1);
                }
            }
            Action::Nothing
        },
        Key::Up | Key::Char('k') => {
            *selected = if *selected > 0 {
                *selected - 1
            } else {
                0
            };
            if (*selected as u16) < *scroll {
                *scroll = *selected as u16;
            }
            Action::Nothing
        },
        Key::PageDown => {
            let next = *selected + 10;
            let cap = count.saturating_sub(1);
            *selected = if next < cap {
                next
            } else {
                cap
            };
            *scroll = scroll.saturating_add(10);
            Action::Nothing
        },
        Key::PageUp => {
            *selected = selected.saturating_sub(10);
            *scroll = scroll.saturating_sub(10);
            Action::Nothing
        },
        Key::Enter => {
            if *selected < count {
                let k = players[*selected].key.clone();
                assert(k@ == views(players@)[*selected as int].key);
                Action::Goto(Screen::PlayerDetail { entries: clone_entries(entries), key: k })
            } else {
                Action::Nothing
            }
        },
        _ => Action::Nothing,
    }
}

/// Player detail: q quits; Esc, Backspace and Enter go back to the players.
pub open spec fn detail_step(entries: Seq<ScoreEntry>, key: Key, a: Action) -> bool {
    if key == Key::Char('q') {
        a is Quit
    } else if key == Key::Esc || key == Key::Backspace || key == Key::Enter {
        &&& a matches Action::Goto(Screen::Players { entries: e, selected, scroll })
        &&& e@ == entries && selected == 0 && scroll == 0
    } else {
        a is Nothing
    }
}

fn on_player_detail(entries: &Vec<ScoreEntry>, key: Key) -> (a: Action)
    ensures
        detail_step(entries@, key, a),
{
    match key {
        Key::Char('q') => Action::Quit,
        Key::Esc | Key::Backspace | Key::Enter => Action::Goto(
            Screen::Players { entries: clone_entries(entries), selected: 0, scroll: 0 },
        ),
        _ => Action::Nothing,
    }
}

/// What a key needs on a screen for no counter to overflow.
pub open spec fn key_fits(s: Screen, key: Key) -> bool {
    match s {
        Screen::Menu { selected } => key == Key::Down ==> selected < usize::MAX,
        Screen::DifficultySelect { selected, .. } => key == Key::Down ==> selected < usize::MAX,
        Screen::Playing { session, .. } => playing_fits(session, key),
        Screen::Scores { scroll, .. } => (key == Key::Down || key == Key::Char('j')) ==> scroll
            < u16::MAX,
        Screen::Players { entries, selected, .. } => players_fits(entries@, selected, key),
        _ => true,
    }
}

/// A screen that an action moves to satisfies its invariant.
pub open spec fn action_wf(a: Action) -> bool {
    a matches Action::Goto(s) ==> s.wf()
}

/// `new` and `a` are what the key `key` makes of the screen `old`.
pub open spec fn handled(old: Screen, new: Screen, key: Key, a: Action, cfg: GameConfig) -> bool {
    match old {
        Screen::Menu { selected } => new matches Screen::Menu { selected: s2 } && menu_step(
            selected,
            s2,
            key,
            a,
        ),
        Screen::Rules { scroll } => new matches Screen::Rules { scroll: s2 } && rules_step(
            scroll,
            s2,
            key,
            a,
        ),
        Screen::EnterIdentity { mode, name, contact, field, error } => new matches Screen::EnterIdentity {
            mode: m2,
            name: n2,
            contact: c2,
            field: f2,
            error: e2,
        } && m2 == mode && identity_step(
            mode,
            name@,
            contact@,
            field,
            error,
            n2@,
            c2@,
            f2,
            e2,
            key,
            a,
        ),
        Screen::DifficultySelect { mode, identity, selected } => new matches Screen::DifficultySelect {
            mode: m2,
            identity: i2,
            selected: s2,
        } && m2 == mode && i2 == identity && difficulty_step(mode, identity, selected, s2, key, a, cfg),
        Screen::Playing { identity, session } => new matches Screen::Playing {
            identity: i2,
            session: s2,
        } && i2 == identity && playing_step(session, s2, key, a, cfg),
        Screen::GameOver { identity, mode, difficulty, summary, saved } => new == old
            && game_over_step(identity, mode, difficulty, key, a, cfg),
        Screen::Scores { entries, scroll, filter } => new matches Screen::Scores {
            entries: e2,
            scroll: s2,
            filter: f2,
        } && e2 == entries && scores_step(entries@, scroll, filter, s2, f2, key, a),
        Screen::Players { entries, selected, scroll } => new matches Screen::Players {
            entries: e2,
            selected: s2,
            scroll: sc2,
        } && e2 == entries && players_step(entries@, selected, scroll, s2, sc2, key, a),
        Screen::PlayerDetail { entries, key: k } => new == old && detail_step(entries@, key, a),
    }
}

/// Handles a key on the current screen: updates the screen in place and
/// says what the event loop does next.
pub fn handle(screen: &mut Screen, key: Key, cfg: &GameConfig) -> (a: Action)
    requires
        old(screen).wf(),
        key_fits(*old(screen), key),
    ensures
        final(screen).wf(),
        action_wf(a),
        handled(*old(screen), *final(screen), key, a, *cfg),
{
    match screen {
        Screen::Menu { selected } => on_menu(selected, key),
        Screen::Rules { scroll } => on_rules(scroll, key),
        Screen::EnterIdentity { mode, name, contact, field, error } => {
            on_identity(*mode, name, contact, field, error, key)
        },
        Screen::DifficultySelect { mode, identity, selected } => {
            on_difficulty(*mode, identity, selected, key, cfg)
        },
        Screen::Playing { session, .. } => on_playing(session, key, cfg),
        Screen::GameOver { identity, mode, difficulty, .. } => {
            on_game_over(identity, *mode, *difficulty, key, cfg)
        },
        Screen::Scores { entries, scroll, filter } => on_scores(entries, scroll, filter, key),
        Screen::Players { entries, selected, scroll } => on_players(entries, selected, scroll, key),
        Screen::PlayerDetail { entries, .. } => on_player_detail(entries, key),
    }
}


/// Whether the key keeps every counter of the screen within range (see
/// [`key_fits`]).
pub fn fits(screen: &Screen, key: Key) -> (r: bool)
    ensures
        r == key_fits(*screen, key),
{
    match screen {
        Screen::Menu { selected } => key != Key::Down || *selected < usize::MAX,
        Screen::DifficultySelect { selected, .. } => key != Key::Down || *selected < usize::MAX,
        Screen::Playing { session, .. } => match key {
            Key::Enter => session.fits_submit(),
            Key::Char(c) => session.fits_key(c),
            _ => true,
        },
        Screen::Scores { scroll, .. } => !(key == Key::Down || key == Key::Char('j')) || *scroll
            < u16::MAX,
        Screen::Players { entries, selected, .. } => {
            entries.len() <= u32::MAX as usize && (!(key == Key::Down || key == Key::Char('j'))
                || *selected < usize::MAX) && (key != Key::PageDown || *selected <= usize::MAX - 10)
        },
        _ => true,
    }
}
} // verus!
