//! The screens of the application: who is playing, which screen shows, and
//! the items of the main menu.

use crate::game::{difficulty_label, mode_description, mode_label, Difficulty, GameMode, Session, Summary};
use crate::score::ScoreEntry;
use vstd::prelude::*;

verus! {

/// The player of a game.
pub struct Identity {
    pub name: String,
    pub contact: String,
}

impl Identity {
    /// A copy of the identity.
    pub fn duplicate(&self) -> (r: Identity)
        ensures
            r == *self,
    {
        Identity { name: self.name.clone(), contact: self.contact.clone() }
    }
}

/// The field being typed on the identity screen.
#[derive(Clone, Copy, Debug, PartialEq, Eq, Structural)]
pub enum IdField {
    Name,
    Contact,
}

/// What the application shows, with the state of that screen.
pub enum Screen {
    /// Main menu; `selected` indexes [`menu_items`].
    Menu { selected: usize },
    Rules { scroll: u16 },
    EnterIdentity {
        mode: GameMode,
        name: String,
        contact: String,
        field: IdField,
        error: Option<String>,
    },
    DifficultySelect { mode: GameMode, identity: Identity, selected: usize },
    Playing { identity: Identity, session: Session },
    GameOver {
        identity: Identity,
        mode: GameMode,
        difficulty: Difficulty,
        summary: Summary,
        saved: bool,
    },
    Scores { entries: Vec<ScoreEntry>, scroll: u16, filter: Option<GameMode> },
    Players { entries: Vec<ScoreEntry>, selected: usize, scroll: u16 },
    PlayerDetail { entries: Vec<ScoreEntry>, key: String },
}

impl Screen {
    /// The game on screen, if any, satisfies its invariant.
    pub open spec fn wf(self) -> bool {
        match self {
            Screen::Playing { session, .. } => session.wf(),
            _ => true,
        }
    }
}

/// An item of the main menu.
#[derive(Clone, Copy, Debug, PartialEq, Eq, Structural)]
pub enum MenuItem {
    Mode(GameMode),
    Rules,
    Scores,
    Quit,
}

/// The label of each menu item.
pub open spec fn item_label(i: MenuItem) -> &'static str {
    match i {
        MenuItem::Mode(m) => mode_label(m),
        MenuItem::Rules => "Rules",
        MenuItem::Scores => "Scores",
        MenuItem::Quit => "Quit",
    }
}

/// The description of each menu item.
pub open spec fn item_description(i: MenuItem) -> &'static str {
    match i {
        MenuItem::Mode(m) => mode_description(m),
        MenuItem::Rules => "Règles du jeu, contrôles et calcul du score.",
        MenuItem::Scores => "Tableau des scores du concours, par jour.",
        MenuItem::Quit => "Sortir de la Matrice.",
    }
}

impl MenuItem {
    /// The label shown in the menu.
    pub fn label(self) -> (r: &'static str)
        ensures
            r@ == item_label(self)@,
    {
        match self {
            MenuItem::Mode(m) => m.label(),
            MenuItem::Rules => "Rules",
            MenuItem::Scores => "Scores",
            MenuItem::Quit => "Quit",
        }
    }

    /// The description shown under the selected item.
    pub fn description(self) -> (r: &'static str)
        ensures
            r@ == item_description(self)@,
    {
        match self {
            MenuItem::Mode(m) => m.description(),
            MenuItem::Rules => "Règles du jeu, contrôles et calcul du score.",
            MenuItem::Scores => "Tableau des scores du concours, par jour.",
            MenuItem::Quit => "Sortir de la Matrice.",
        }
    }
}

/// The menu, in order: the game modes, then Rules, Scores, Quit.
pub open spec fn spec_menu_items() -> Seq<MenuItem> {
    seq![
        MenuItem::Mode(GameMode::SpeedRunner),
        MenuItem::Mode(GameMode::HackTimeAttack),
        MenuItem::Rules,
        MenuItem::Scores,
        MenuItem::Quit,
    ]
}

/// The items of the main menu, in order.
pub fn menu_items() -> (v: Vec<MenuItem>)
    ensures
        v@ == spec_menu_items(),
{
    let modes = GameMode::all();
    let mut v: Vec<MenuItem> = Vec::new();
    let mut i: usize = 0;
    while i < modes.len()
        invariant
            modes@ == seq![GameMode::SpeedRunner, GameMode::HackTimeAttack],
            i <= modes@.len(),
            v@ == modes@.take(i as int).map_values(|m: GameMode| MenuItem::Mode(m)),
        decreases modes@.len() - i,
    {
        v.push(MenuItem::Mode(modes[i]));
        assert(modes@.take(i + 1) =~= modes@.take(i as int).push(modes@[i as int]));
        i = i + 1;
    }
    v.push(MenuItem::Rules);
    v.push(MenuItem::Scores);
    v.push(MenuItem::Quit);
    assert(v@ =~= spec_menu_items());
    v
}

/// Number of ASCII digits in `s`.
pub open spec fn ascii_digits(s: Seq<char>) -> nat
    decreases s.len(),
{
    if s.len() == 0 {
        0
    } else {
        ascii_digits(s.drop_last()) + if '0' <= s.last() && s.last() <= '9' {
            1nat
        } else {
            0nat
        }
    }
}

/// A contact is an email (an `@`, a `.`, at least 5 characters) or a
/// phone number (at least 8 digits).
pub open spec fn spec_valid_contact(s: Seq<char>) -> bool {
    &&& s.len() > 0
    &&& {
        ||| (s.contains('@') && s.contains('.') && s.len() >= 5)
        ||| ascii_digits(s) >= 8
    }
}

/// Whether `s` contains `c`.
fn has_char(s: &str, c: char) -> (r: bool)
    ensures
        r == s@.contains(c),
{
    let n = s.unicode_len();
    let mut i: usize = 0;
    while i < n
        invariant
            n == s@.len(),
            i <= n,
            forall|j: int| 0 <= j < i ==> s@[j] != c,
        decreases n - i,
    {
        if s.get_char(i) == c {
            return true;
        }
        i = i + 1;
    }
    false
}

/// Whether `s` is a plausible email or phone number.
pub fn valid_contact(s: &str) -> (r: bool)
    ensures
        r == spec_valid_contact(s@),
{
    let n = s.unicode_len();
    if n == 0 {
        return false;
    }
    let is_email = has_char(s, '@') && has_char(s, '.') && n >= 5;
    let mut digits: usize = 0;
    let mut i: usize = 0;
    while i < n
        invariant
            n == s@.len(),
            i <= n,
            digits == ascii_digits(s@.take(i as int)),
            digits <= i,
        decreases n - i,
    {
        let c = s.get_char(i);
        assert(s@.take(i + 1).drop_last() =~= s@.take(i as int));
        if '0' <= c && c <= '9' {
            digits = digits + 1;
        }
        i = i + 1;
    }
    assert(s@.take(n as int) =~= s@);
    is_email || digits >= 8
}


/// The board entry of the finished game `session`, played by `identity`,
/// ended at `timestamp_ns`.
pub open spec fn entry_of_game(e: ScoreEntry, identity: Identity, session: Session, timestamp_ns: i128) -> bool {
    let sum = session.spec_summary();
    &&& e.name == identity.name
    &&& e.contact == identity.contact
    &&& e.mode@ == mode_label(session.spec_mode())@
    &&& e.difficulty@ == difficulty_label(session.spec_difficulty())@
    &&& e.score == sum.score
    &&& e.wpm == sum.wpm
    &&& e.max_combo == sum.max_combo
    &&& e.duration_secs == sum.elapsed_secs
    &&& e.items_done == sum.items_done
    &&& e.timestamp_ns == timestamp_ns
}

/// The board entry of a finished game.
pub fn score_entry(identity: &Identity, session: &Session, timestamp_ns: i128) -> (e: ScoreEntry)
    ensures
        entry_of_game(e, *identity, *session, timestamp_ns),
{
    let summary = session.summary();
    ScoreEntry {
        name: identity.name.clone(),
        contact: identity.contact.clone(),
        mode: session.mode().label().to_owned(),
        difficulty: session.difficulty().label().to_owned(),
        score: summary.score,
        wpm: summary.wpm,
        max_combo: summary.max_combo,
        duration_secs: summary.elapsed_secs,
        items_done: summary.items_done,
        timestamp_ns,
    }
}

/// The end-of-game screen of `session`, played by `identity`; `saved` says
/// whether its entry reached the board.
pub fn game_over_screen(identity: Identity, session: &Session, saved: bool) -> (s: Screen)
    ensures
        s matches Screen::GameOver { identity: who, mode, difficulty, summary, saved: ok } && who
            == identity && mode == session.spec_mode() && difficulty == session.spec_difficulty()
            && summary == session.spec_summary() && ok == saved,
{
    Screen::GameOver {
        identity,
        mode: session.mode(),
        difficulty: session.difficulty(),
        summary: session.summary(),
        saved,
    }
}
} // verus!
