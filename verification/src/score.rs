//! The score board: one entry per finished game, read from the rows of the
//! score sheet, grouped by player.
//!
//! Instants are counted in nanoseconds since the Unix epoch.

use crate::numfmt::{format_i64, parse_u32, spec_decimal, spec_parse_u32};
use crate::text::{is_whitespace, lowercase, push_char, spec_is_whitespace, spec_trim, to_lowercase, trim};
use vstd::prelude::*;

verus! {

/// One finished game.
pub struct ScoreEntry {
    pub name: String,
    pub contact: String,
    pub mode: String,
    pub difficulty: String,
    pub score: u32,
    pub wpm: u32,
    pub max_combo: u32,
    pub duration_secs: u32,
    pub items_done: u32,
    /// When the game ended, in nanoseconds since the Unix epoch.
    pub timestamp_ns: i128,
}

impl ScoreEntry {
    /// A copy of the entry.
    pub fn duplicate(&self) -> (r: ScoreEntry)
        ensures
            r == *self,
    {
        ScoreEntry {
            name: self.name.clone(),
            contact: self.contact.clone(),
            mode: self.mode.clone(),
            difficulty: self.difficulty.clone(),
            score: self.score,
            wpm: self.wpm,
            max_combo: self.max_combo,
            duration_secs: self.duration_secs,
            items_done: self.items_done,
            timestamp_ns: self.timestamp_ns,
        }
    }
}

/// A copy of every entry.
pub fn clone_entries(v: &Vec<ScoreEntry>) -> (r: Vec<ScoreEntry>)
    ensures
        r@ == v@,
{
    let mut r: Vec<ScoreEntry> = Vec::new();
    let mut i: usize = 0;
    while i < v.len()
        invariant
            i <= v@.len(),
            r@ == v@.take(i as int),
        decreases v@.len() - i,
    {
        r.push(v[i].duplicate());
        assert(v@.take(i + 1) =~= v@.take(i as int).push(v@[i as int]));
        i = i + 1;
    }
    assert(v@.take(v@.len() as int) =~= v@);
    r
}

/// Column titles of the score sheet, in order.
pub open spec fn headers() -> Seq<&'static str> {
    seq![
        "timestamp",
        "name",
        "contact",
        "mode",
        "difficulty",
        "score",
        "wpm",
        "max_combo",
        "items_done",
        "duration_secs",
    ]
}

/// Column titles of the score sheet, in order.
pub fn header_names() -> (v: Vec<&'static str>)
    ensures
        v@ == headers(),
{
    vec![
        "timestamp",
        "name",
        "contact",
        "mode",
        "difficulty",
        "score",
        "wpm",
        "max_combo",
        "items_done",
        "duration_secs",
    ]
}

/// Number of columns of a complete row.
pub const COLUMNS: usize = 10;

/// A cell of the score sheet, as the spreadsheet reader hands it over.
/// Fractional numbers and spreadsheet dates are converted on the way in:
/// a number carries its rounded value and its text, a date its text and the
/// instant it stands for.
pub enum Cell {
    Text(String),
    Int(i64),
    Number { rounded: u32, text: String },
    Bool(bool),
    DateTime { text: String, instant_ns: Option<i128> },
    DateTimeIso(String),
    DurationIso(String),
    Empty,
}

/// The text of a cell.
pub open spec fn spec_cell_string(c: Cell) -> Seq<char> {
    match c {
        Cell::Text(s) => s@,
        Cell::Number { text, .. } => text@,
        Cell::Int(i) => spec_decimal(i as int),
        Cell::Bool(b) => if b {
            "true"@
        } else {
            "false"@
        },
        Cell::DateTime { text, .. } => text@,
        Cell::DateTimeIso(s) => s@,
        Cell::DurationIso(s) => s@,
        Cell::Empty => Seq::empty(),
    }
}

/// The text of a cell.
pub fn cell_string(c: &Cell) -> (r: String)
    ensures
        r@ == spec_cell_string(*c),
{
    match c {
        Cell::Text(s) => s.clone(),
        Cell::Number { text, .. } => text.clone(),
        Cell::Int(i) => format_i64(*i),
        Cell::Bool(b) => if *b {
            "true".to_owned()
        } else {
            "false".to_owned()
        },
        Cell::DateTime { text, .. } => text.clone(),
        Cell::DateTimeIso(s) => s.clone(),
        Cell::DurationIso(s) => s.clone(),
        Cell::Empty => String::new(),
    }
}

/// The count in a cell: a whole number (negative ones count as 0, large ones
/// keep their low 32 bits), a rounded fractional number, or a text that
/// parses as one once trimmed; 0 for anything else.
pub open spec fn spec_cell_u32(c: Cell) -> u32 {
    match c {
        Cell::Int(i) => if i < 0 {
            0
        } else {
            i as u32
        },
        Cell::Number { rounded, .. } => rounded,
        Cell::Text(s) => match spec_parse_u32(spec_trim(s@)) {
            Some(v) => v,
            None => 0,
        },
        _ => 0,
    }
}

/// The count in a cell.
pub fn cell_u32(c: &Cell) -> (r: u32)
    ensures
        r == spec_cell_u32(*c),
{
    match c {
        Cell::Int(i) => if *i < 0 {
            0
        } else {
            *i as u32
        },
        Cell::Number { rounded, .. } => *rounded,
        Cell::Text(s) => match parse_u32(trim(s.as_str())) {
            Some(v) => v,
            None => 0,
        },
        _ => 0,
    }
}

/// What chrono reads of an RFC 3339 text: the whole seconds since the Unix
/// epoch and the nanoseconds past them; `None` when the text is not RFC
/// 3339.
pub uninterp spec fn rfc3339_instant(s: Seq<char>) -> Option<(i64, u32)>;

/// Calls `chrono::DateTime::parse_from_rfc3339` and reads the instant with
/// `timestamp` and `timestamp_subsec_nanos`. The result is named, not
/// described.
#[verifier::external_body]
pub(crate) fn parse_rfc3339(s: &str) -> (r: Option<(i64, u32)>)
    ensures
        r == rfc3339_instant(s@),
{
    chrono::DateTime::parse_from_rfc3339(s).ok().map(|dt| (dt.timestamp(), dt.timestamp_subsec_nanos()))
}

/// Calls `chrono::Local::now` and reads the instant with `timestamp` and
/// `timestamp_subsec_nanos`. Nothing is claimed of the clock.
#[verifier::external_body]
pub(crate) fn clock_now() -> (i64, u32) {
    let t = chrono::Local::now();
    (t.timestamp(), t.timestamp_subsec_nanos())
}

/// Nanoseconds since the Unix epoch of the instant `secs` seconds and
/// `nanos` nanoseconds after it, counted as chrono counts them.
pub open spec fn spec_instant(secs: i64, nanos: u32) -> i128 {
    (secs * 1_000_000_000 + nanos) as i128
}

/// Computes [`spec_instant`].
pub fn instant(secs: i64, nanos: u32) -> (r: i128)
    ensures
        r == spec_instant(secs, nanos),
        r == secs * 1_000_000_000 + nanos,
{
    (secs as i128) * 1_000_000_000 + (nanos as i128)
}

/// The current instant, in nanoseconds since the Unix epoch.
pub fn now_ns() -> i128 {
    let (secs, nanos) = clock_now();
    instant(secs, nanos)
}

/// The instant a cell stands for, when it stands for one.
pub open spec fn spec_cell_instant(c: Cell) -> Option<i128> {
    match c {
        Cell::DateTimeIso(s) => match rfc3339_instant(s@) {
            Some(t) => Some(spec_instant(t.0, t.1)),
            None => None,
        },
        Cell::Text(s) => match rfc3339_instant(s@) {
            Some(t) => Some(spec_instant(t.0, t.1)),
            None => None,
        },
        Cell::DateTime { instant_ns, .. } => instant_ns,
        _ => None,
    }
}

/// The instant of a timestamp cell, or `now` when it names none.
pub open spec fn spec_parse_timestamp(c: Cell, now: i128) -> i128 {
    match spec_cell_instant(c) {
        Some(t) => t,
        None => now,
    }
}

/// The instant of a timestamp cell, or `now` when it names none.
pub fn parse_timestamp(c: &Cell, now: i128) -> (r: i128)
    ensures
        r == spec_parse_timestamp(*c, now),
{
    let parsed = match c {
        Cell::DateTimeIso(s) => parse_rfc3339(s.as_str()),
        Cell::Text(s) => parse_rfc3339(s.as_str()),
        Cell::DateTime { instant_ns, .. } => {
            return match instant_ns {
                Some(t) => *t,
                None => now,
            };
        },
        _ => None,
    };
    match parsed {
        Some((secs, nanos)) => instant(secs, nanos),
        None => now,
    }
}

/// `e` is the entry that the complete row `row` holds, `now` standing in for
/// a timestamp that names no instant.
pub open spec fn row_entry(e: ScoreEntry, row: Seq<Cell>, now: i128) -> bool {
    &&& e.timestamp_ns == spec_parse_timestamp(row[0], now)
    &&& e.name@ == spec_cell_string(row[1])
    &&& e.contact@ == spec_cell_string(row[2])
    &&& e.mode@ == spec_cell_string(row[3])
    &&& e.difficulty@ == spec_cell_string(row[4])
    &&& e.score == spec_cell_u32(row[5])
    &&& e.wpm == spec_cell_u32(row[6])
    &&& e.max_combo == spec_cell_u32(row[7])
    &&& e.items_done == spec_cell_u32(row[8])
    &&& e.duration_secs == spec_cell_u32(row[9])
}

/// The entry of a row: `None` when the row is incomplete (fewer than ten
/// cells), cells read in the order of [`headers`] otherwise.
pub fn entry_from_row(row: &Vec<Cell>, now: i128) -> (r: Option<ScoreEntry>)
    ensures
        row@.len() < COLUMNS ==> r is None,
        row@.len() >= COLUMNS ==> (r matches Some(e) && row_entry(e, row@, now)),
{
    if row.len() < COLUMNS {
        return None;
    }
    Some(
        ScoreEntry {
            timestamp_ns: parse_timestamp(&row[0], now),
            name: cell_string(&row[1]),
            contact: cell_string(&row[2]),
            mode: cell_string(&row[3]),
            difficulty: cell_string(&row[4]),
            score: cell_u32(&row[5]),
            wpm: cell_u32(&row[6]),
            max_combo: cell_u32(&row[7]),
            items_done: cell_u32(&row[8]),
            duration_secs: cell_u32(&row[9]),
        },
    )
}

/// The complete rows among `rows`, in order.
pub open spec fn complete_rows(rows: Seq<Vec<Cell>>) -> Seq<Seq<Cell>>
    decreases rows.len(),
{
    if rows.len() == 0 {
        Seq::empty()
    } else if rows.last()@.len() >= COLUMNS {
        complete_rows(rows.drop_last()).push(rows.last()@)
    } else {
        complete_rows(rows.drop_last())
    }
}

/// `r` are the entries of the sheet `rows`: its first row holds the titles,
/// incomplete rows are skipped, the others give one entry each, in order.
pub open spec fn sheet_entries(r: Seq<ScoreEntry>, rows: Seq<Vec<Cell>>, now: i128) -> bool {
    &&& rows.len() == 0 ==> r.len() == 0
    &&& rows.len() > 0 ==> {
        let body = complete_rows(rows.drop_first());
        &&& r.len() == body.len()
        &&& forall|i: int| 0 <= i < r.len() ==> row_entry(#[trigger] r[i], body[i], now)
    }
}

/// The entries of a sheet: its first row holds the titles, incomplete rows
/// are skipped, the others give one entry each, in order.
pub fn entries_from_rows(rows: &Vec<Vec<Cell>>, now: i128) -> (r: Vec<ScoreEntry>)
    ensures
        sheet_entries(r@, rows@, now),
{
    let mut out: Vec<ScoreEntry> = Vec::new();
    if rows.len() == 0 {
        return out;
    }
    let ghost tail = rows@.drop_first();
    let mut i: usize = 1;
    while i < rows.len()
        invariant
            1 <= i <= rows@.len(),
            tail == rows@.drop_first(),
            out@.len() == complete_rows(tail.take(i - 1)).len(),
            forall|j: int|
                0 <= j < out@.len() ==> row_entry(
                    #[trigger] out@[j],
                    complete_rows(tail.take(i - 1))[j],
                    now,
                ),
        decreases rows@.len() - i,
    {
        assert(tail.take(i as int).drop_last() =~= tail.take(i - 1));
        assert(tail.take(i as int).last() == rows@[i as int]);
        match entry_from_row(&rows[i], now) {
            Some(e) => {
                out.push(e);
            },
            None => {},
        }
        i = i + 1;
    }
    assert(tail.take(rows@.len() - 1) =~= tail);
    out
}


/// The current instant, then the entries of a sheet (see
/// [`entries_from_rows`]); that instant stands in for unreadable timestamps.
pub fn entries_from_sheet(rows: &Vec<Vec<Cell>>) -> (r: Vec<ScoreEntry>)
    ensures
        exists|now: i128| #[trigger] sheet_entries(r@, rows@, now),
{
    let now = now_ns();
    let r = entries_from_rows(rows, now);
    assert(sheet_entries(r@, rows@, now));
    r
}

/// A character that a player key keeps: not whitespace, `.` or `-`.
pub open spec fn key_char(c: char) -> bool {
    !spec_is_whitespace(c) && c != '.' && c != '-'
}

/// The characters of `s` that a player key keeps, in order.
pub open spec fn key_chars(s: Seq<char>) -> Seq<char>
    decreases s.len(),
{
    if s.len() == 0 {
        Seq::empty()
    } else if key_char(s.last()) {
        key_chars(s.drop_last()).push(s.last())
    } else {
        key_chars(s.drop_last())
    }
}

/// The key that identifies a player: the contact, trimmed, lowercased,
/// without whitespace, dots or dashes. The name plays no part.
pub open spec fn spec_identity_key(contact: Seq<char>) -> Seq<char> {
    key_chars(lowercase(spec_trim(contact)))
}

/// The key that groups the games of one player.
pub fn identity_key(_name: &str, contact: &str) -> (r: String)
    ensures
        r@ == spec_identity_key(contact@),
{
    let low = to_lowercase(trim(contact));
    let s = low.as_str();
    let n = s.unicode_len();
    let mut out = String::new();
    let mut i: usize = 0;
    while i < n
        invariant
            n == s@.len(),
            i <= n,
            out@ == key_chars(s@.take(i as int)),
        decreases n - i,
    {
        let c = s.get_char(i);
        assert(s@.take(i + 1).drop_last() =~= s@.take(i as int));
        if !is_whitespace(c) && c != '.' && c != '-' {
            push_char(&mut out, c);
        }
        i = i + 1;
    }
    assert(s@.take(n as int) =~= s@);
    out
}

/// What the board shows of one player.
pub struct PlayerSummary {
    pub key: String,
    pub name: String,
    pub contact: String,
    pub runs: u32,
    pub best_score: u32,
    /// When the player last played, in nanoseconds since the Unix epoch.
    pub last_played_ns: i128,
}

/// The mathematical content of a [`PlayerSummary`].
pub struct PlayerView {
    pub key: Seq<char>,
    pub name: Seq<char>,
    pub contact: Seq<char>,
    pub runs: nat,
    pub best_score: u32,
    pub last_played_ns: i128,
}

impl View for PlayerSummary {
    type V = PlayerView;

    open spec fn view(&self) -> PlayerView {
        PlayerView {
            key: self.key@,
            name: self.name@,
            contact: self.contact@,
            runs: self.runs as nat,
            best_score: self.best_score,
            last_played_ns: self.last_played_ns,
        }
    }
}

/// The views of `ps`, in order.
pub open spec fn views(ps: Seq<PlayerSummary>) -> Seq<PlayerView> {
    ps.map_values(|p: PlayerSummary| p@)
}

/// Index of the player with key `k` in `ps`, or -1.
pub open spec fn find_key(ps: Seq<PlayerView>, k: Seq<char>) -> int
    decreases ps.len(),
{
    if ps.len() == 0 {
        -1
    } else if find_key(ps.drop_last(), k) >= 0 {
        find_key(ps.drop_last(), k)
    } else if ps.last().key == k {
        ps.len() - 1
    } else {
        -1
    }
}

/// `p` once `e` is counted in: one more run, the best score kept, and the
/// name and contact of the latest game.
pub open spec fn absorb(p: PlayerView, e: ScoreEntry) -> PlayerView {
    let later = e.timestamp_ns > p.last_played_ns;
    PlayerView {
        key: p.key,
        name: if later {
            e.name@
        } else {
            p.name
        },
        contact: if later {
            e.contact@
        } else {
            p.contact
        },
        runs: p.runs + 1,
        best_score: if e.score > p.best_score {
            e.score
        } else {
            p.best_score
        },
        last_played_ns: if later {
            e.timestamp_ns
        } else {
            p.last_played_ns
        },
    }
}

/// The player that `e` alone makes.
pub open spec fn first_game(e: ScoreEntry) -> PlayerView {
    PlayerView {
        key: spec_identity_key(e.contact@),
        name: e.name@,
        contact: e.contact@,
        runs: 1,
        best_score: e.score,
        last_played_ns: e.timestamp_ns,
    }
}

/// The players of `entries`, in the order of their first game.
pub open spec fn group(entries: Seq<ScoreEntry>) -> Seq<PlayerView>
    decreases entries.len(),
{
    if entries.len() == 0 {
        Seq::empty()
    } else {
        let ps = group(entries.drop_last());
        let e = entries.last();
        let i = find_key(ps, spec_identity_key(e.contact@));
        if i >= 0 {
            ps.update(i, absorb(ps[i], e))
        } else {
            ps.push(first_game(e))
        }
    }
}

/// Scores never increase along `ps`.
pub open spec fn by_best_desc(ps: Seq<PlayerView>) -> bool {
    forall|i: int, j: int| 0 <= i < j < ps.len() ==> ps[i].best_score >= ps[j].best_score
}

impl PlayerSummary {
    /// A copy of the summary.
    pub fn duplicate(&self) -> (r: PlayerSummary)
        ensures
            r@ == self@,
    {
        PlayerSummary {
            key: self.key.clone(),
            name: self.name.clone(),
            contact: self.contact.clone(),
            runs: self.runs,
            best_score: self.best_score,
            last_played_ns: self.last_played_ns,
        }
    }
}

/// What [`find_key`] finds: the first player with the key, or none.
pub proof fn lemma_find_key(ps: Seq<PlayerView>, k: Seq<char>)
    ensures
        -1 <= find_key(ps, k) < ps.len(),
        find_key(ps, k) == -1 ==> forall|i: int| 0 <= i < ps.len() ==> #[trigger] ps[i].key != k,
        find_key(ps, k) >= 0 ==> ps[find_key(ps, k)].key == k,
        find_key(ps, k) >= 0 ==> forall|i: int|
            0 <= i < find_key(ps, k) ==> #[trigger] ps[i].key != k,
    decreases ps.len(),
{
    if ps.len() > 0 {
        lemma_find_key(ps.drop_last(), k);
        assert forall|i: int| 0 <= i < ps.len() - 1 implies #[trigger] ps[i] == ps.drop_last()[i] by {}
    }
}

/// Multiset of a sequence with one more item inserted anywhere.
pub(crate) proof fn lemma_insert_multiset<A>(s: Seq<A>, pos: int, x: A)
    requires
        0 <= pos <= s.len(),
    ensures
        s.insert(pos, x).to_multiset() =~= s.to_multiset().insert(x),
{
    broadcast use vstd::seq_lib::group_to_multiset_ensures;

    let t = s.insert(pos, x);
    assert(t.remove(pos) =~= s);
    assert(t[pos] == x);
    assert(t.contains(x));
}

/// Where a player with best score `b` goes in `s`: after every player with
/// at least that score at the head of `s`.
pub open spec fn best_slot(s: Seq<PlayerView>, b: u32) -> int
    decreases s.len(),
{
    if s.len() == 0 || s[0].best_score < b {
        0
    } else {
        1 + best_slot(s.drop_first(), b)
    }
}

/// `ps` ranked by best score, highest first, ties in their order in `ps`.
pub open spec fn rank_by_best(ps: Seq<PlayerView>) -> Seq<PlayerView>
    decreases ps.len(),
{
    if ps.len() == 0 {
        Seq::empty()
    } else {
        let r = rank_by_best(ps.drop_last());
        r.insert(best_slot(r, ps.last().best_score), ps.last())
    }
}

proof fn lemma_best_slot_bounds(s: Seq<PlayerView>, b: u32)
    ensures
        0 <= best_slot(s, b) <= s.len(),
    decreases s.len(),
{
    if s.len() > 0 && s[0].best_score >= b {
        lemma_best_slot_bounds(s.drop_first(), b);
    }
}

/// Ranking keeps the number of players.
pub proof fn lemma_rank_len(ps: Seq<PlayerView>)
    ensures
        rank_by_best(ps).len() == ps.len(),
    decreases ps.len(),
{
    if ps.len() > 0 {
        lemma_rank_len(ps.drop_last());
        lemma_best_slot_bounds(rank_by_best(ps.drop_last()), ps.last().best_score);
    }
}

proof fn lemma_best_slot(s: Seq<PlayerView>, b: u32, pos: int)
    requires
        0 <= pos <= s.len(),
        forall|j: int| 0 <= j < pos ==> #[trigger] s[j].best_score >= b,
        pos == s.len() || s[pos].best_score < b,
    ensures
        best_slot(s, b) == pos,
    decreases pos,
{
    if pos > 0 {
        assert(s[0].best_score >= b);
        assert forall|j: int| 0 <= j < pos - 1 implies #[trigger] s.drop_first()[j].best_score
            >= b by {
            assert(s.drop_first()[j] == s[j + 1]);
        }
        if pos < s.len() {
            assert(s.drop_first()[pos - 1] == s[pos]);
        }
        lemma_best_slot(s.drop_first(), b, pos - 1);
    }
}

/// Inserts `x` into `sorted`, after every player with at least its score.
fn insert_by_best(sorted: &mut Vec<PlayerSummary>, x: PlayerSummary)
    requires
        by_best_desc(views(old(sorted)@)),
    ensures
        by_best_desc(views(final(sorted)@)),
        views(final(sorted)@).to_multiset() =~= views(old(sorted)@).to_multiset().insert(x@),
        views(final(sorted)@) == views(old(sorted)@).insert(
            best_slot(views(old(sorted)@), x.best_score),
            x@,
        ),
{
    let n = sorted.len();
    let mut pos: usize = 0;
    while pos < n && sorted[pos].best_score >= x.best_score
        invariant
            n == sorted@.len(),
            pos <= n,
            forall|j: int| 0 <= j < pos ==> #[trigger] sorted@[j].best_score >= x.best_score,
        decreases n - pos,
    {
        pos = pos + 1;
    }
    let ghost before = sorted@;
    proof {
        assert forall|j: int| 0 <= j < pos implies #[trigger] views(before)[j].best_score
            >= x.best_score by {
            assert(before[j].best_score >= x.best_score);
        }
        lemma_best_slot(views(before), x.best_score, pos as int);
    }
    sorted.insert(pos, x);
    proof {
        assert(views(sorted@) =~= views(before).insert(pos as int, x@));
        lemma_insert_multiset(views(before), pos as int, x@);
        assert forall|i: int, j: int| 0 <= i < j < sorted@.len() implies sorted@[i].best_score
            >= sorted@[j].best_score by {
            if j < pos {
                assert(sorted@[i] == before[i] && sorted@[j] == before[j]);
                assert(views(before)[i].best_score >= views(before)[j].best_score);
            } else if j == pos {
                assert(sorted@[i] == before[i]);
            } else if i < pos {
                assert(sorted@[i] == before[i] && sorted@[j] == before[j - 1]);
                if pos < n {
                    assert(before[pos as int].best_score < x.best_score);
                    assert(views(before)[pos as int].best_score >= views(before)[j - 1].best_score);
                }
            } else if i == pos {
                assert(sorted@[j] == before[j - 1]);
                assert(before[pos as int].best_score < x.best_score);
                if j - 1 > pos {
                    assert(views(before)[pos as int].best_score >= views(before)[j - 1].best_score);
                }
            } else {
                assert(sorted@[i] == before[i - 1] && sorted@[j] == before[j - 1]);
                assert(views(before)[i - 1].best_score >= views(before)[j - 1].best_score);
            }
        }
        assert forall|i: int, j: int| 0 <= i < j < sorted@.len() implies views(sorted@)[i].best_score
            >= views(sorted@)[j].best_score by {
            assert(sorted@[i].best_score >= sorted@[j].best_score);
        }
    }
}

/// One summary per player (see [`group`]), best score first; players with
/// the same best score keep the order of their first game.
pub fn aggregate_players(entries: &Vec<ScoreEntry>) -> (r: Vec<PlayerSummary>)
    requires
        entries@.len() <= u32::MAX,
    ensures
        views(r@) == rank_by_best(group(entries@)),
        by_best_desc(views(r@)),
        views(r@).to_multiset() =~= group(entries@).to_multiset(),
{
    let n = entries.len();
    let mut ps: Vec<PlayerSummary> = Vec::new();
    let mut i: usize = 0;
    while i < n
        invariant
            n == entries@.len(),
            n <= u32::MAX,
            i <= n,
            views(ps@) == group(entries@.take(i as int)),
            forall|j: int| 0 <= j < ps@.len() ==> #[trigger] ps@[j].runs <= i,
        decreases n - i,
    {
        let e = &entries[i];
        let k = identity_key(e.name.as_str(), e.contact.as_str());
        proof {
            assert(entries@.take(i + 1).drop_last() =~= entries@.take(i as int));
            assert(entries@.take(i + 1).last() == entries@[i as int]);
            lemma_find_key(views(ps@), k@);
        }
        let m = ps.len();
        let mut j: usize = 0;
        while j < m && ps[j].key != k
            invariant
                m == ps@.len(),
                j <= m,
                forall|t: int| 0 <= t < j ==> #[trigger] ps@[t].key@ != k@,
            decreases m - j,
        {
            j = j + 1;
        }
        let ghost old_views = views(ps@);
        if j < m {
            assert(find_key(old_views, k@) == j as int) by {
                assert(old_views[j as int].key == k@);
                if find_key(old_views, k@) < j {
                    assert(old_views[find_key(old_views, k@)].key == k@);
                    assert(ps@[find_key(old_views, k@)].key@ != k@);
                }
            }
            let p = &ps[j];
            let later = e.timestamp_ns > p.last_played_ns;
            let updated = PlayerSummary {
                key: p.key.clone(),
                name: if later {
                    e.name.clone()
                } else {
                    p.name.clone()
                },
                contact: if later {
                    e.contact.clone()
                } else {
                    p.contact.clone()
                },
                runs: p.runs + 1,
                best_score: if e.score > p.best_score {
                    e.score
                } else {
                    p.best_score
                },
                last_played_ns: if later {
                    e.timestamp_ns
                } else {
                    p.last_played_ns
                },
            };
            ps.set(j, updated);
            assert(views(ps@) =~= old_views.update(j as int, absorb(old_views[j as int], *e)));
        } else {
            assert(find_key(old_views, k@) == -1) by {
                if find_key(old_views, k@) >= 0 {
                    assert(ps@[find_key(old_views, k@)].key@ != k@);
                }
            }
            ps.push(
                PlayerSummary {
                    key: k,
                    name: e.name.clone(),
                    contact: e.contact.clone(),
                    runs: 1,
                    best_score: e.score,
                    last_played_ns: e.timestamp_ns,
                },
            );
            assert(views(ps@) =~= old_views.push(first_game(*e)));
        }
        i = i + 1;
    }
    assert(entries@.take(n as int) =~= entries@);
    let mut sorted: Vec<PlayerSummary> = Vec::new();
    proof {
        broadcast use vstd::seq_lib::group_to_multiset_ensures;

        assert(views(sorted@) =~= views(ps@).take(0));
    }
    let g = ps.len();
    let mut t: usize = 0;
    while t < g
        invariant
            g == ps@.len(),
            t <= g,
            by_best_desc(views(sorted@)),
            views(sorted@).to_multiset() =~= views(ps@).take(t as int).to_multiset(),
            views(sorted@) == rank_by_best(views(ps@).take(t as int)),
        decreases g - t,
    {
        let x = ps[t].duplicate();
        insert_by_best(&mut sorted, x);
        proof {
            broadcast use vstd::seq_lib::group_to_multiset_ensures;

            assert(views(ps@).take(t + 1) =~= views(ps@).take(t as int).push(views(ps@)[t as int]));
            assert(views(ps@).take(t + 1).drop_last() =~= views(ps@).take(t as int));
        }
        t = t + 1;
    }
    assert(views(ps@).take(g as int) =~= views(ps@));
    sorted
}

/// The games of the player with key `key`, in board order.
pub open spec fn games_of(entries: Seq<ScoreEntry>, key: Seq<char>) -> Seq<ScoreEntry>
    decreases entries.len(),
{
    if entries.len() == 0 {
        Seq::empty()
    } else if spec_identity_key(entries.last().contact@) == key {
        games_of(entries.drop_last(), key).push(entries.last())
    } else {
        games_of(entries.drop_last(), key)
    }
}

/// The entries that `v` points to.
pub open spec fn derefs(v: Seq<&ScoreEntry>) -> Seq<ScoreEntry> {
    v.map_values(|r: &ScoreEntry| *r)
}

/// Instants never decrease along `v`.
pub open spec fn by_time_asc(v: Seq<ScoreEntry>) -> bool {
    forall|i: int, j: int| 0 <= i < j < v.len() ==> v[i].timestamp_ns <= v[j].timestamp_ns
}

/// Where a game at instant `t` goes in `s`: after every game no later than
/// it at the head of `s`.
pub open spec fn time_slot(s: Seq<ScoreEntry>, t: i128) -> int
    decreases s.len(),
{
    if s.len() == 0 || s[0].timestamp_ns > t {
        0
    } else {
        1 + time_slot(s.drop_first(), t)
    }
}

/// `v` ordered by instant, oldest first, ties in their order in `v`.
pub open spec fn rank_by_time(v: Seq<ScoreEntry>) -> Seq<ScoreEntry>
    decreases v.len(),
{
    if v.len() == 0 {
        Seq::empty()
    } else {
        let r = rank_by_time(v.drop_last());
        r.insert(time_slot(r, v.last().timestamp_ns), v.last())
    }
}

proof fn lemma_time_slot(s: Seq<ScoreEntry>, t: i128, pos: int)
    requires
        0 <= pos <= s.len(),
        forall|j: int| 0 <= j < pos ==> #[trigger] s[j].timestamp_ns <= t,
        pos == s.len() || s[pos].timestamp_ns > t,
    ensures
        time_slot(s, t) == pos,
    decreases pos,
{
    if pos > 0 {
        assert(s[0].timestamp_ns <= t);
        assert forall|j: int| 0 <= j < pos - 1 implies #[trigger] s.drop_first()[j].timestamp_ns
            <= t by {
            assert(s.drop_first()[j] == s[j + 1]);
        }
        if pos < s.len() {
            assert(s.drop_first()[pos - 1] == s[pos]);
        }
        lemma_time_slot(s.drop_first(), t, pos - 1);
    }
}

/// Inserts `e` into `sorted`, after every game no later than it.
fn insert_by_time<'a>(sorted: &mut Vec<&'a ScoreEntry>, e: &'a ScoreEntry)
    requires
        by_time_asc(derefs(old(sorted)@)),
    ensures
        by_time_asc(derefs(final(sorted)@)),
        derefs(final(sorted)@).to_multiset() =~= derefs(old(sorted)@).to_multiset().insert(*e),
        derefs(final(sorted)@) == derefs(old(sorted)@).insert(
            time_slot(derefs(old(sorted)@), e.timestamp_ns),
            *e,
        ),
{
    let n = sorted.len();
    let mut pos: usize = 0;
    while pos < n && sorted[pos].timestamp_ns <= e.timestamp_ns
        invariant
            n == sorted@.len(),
            pos <= n,
            forall|j: int| 0 <= j < pos ==> #[trigger] sorted@[j].timestamp_ns <= e.timestamp_ns,
        decreases n - pos,
    {
        pos = pos + 1;
    }
    let ghost before = derefs(sorted@);
    proof {
        assert forall|j: int| 0 <= j < pos implies #[trigger] before[j].timestamp_ns
            <= e.timestamp_ns by {
            assert(before[j] == *sorted@[j]);
        }
        if pos < n {
            assert(before[pos as int] == *sorted@[pos as int]);
        }
        lemma_time_slot(before, e.timestamp_ns, pos as int);
    }
    sorted.insert(pos, e);
    proof {
        let after = derefs(sorted@);
        assert(after =~= before.insert(pos as int, *e));
        lemma_insert_multiset(before, pos as int, *e);
        assert forall|i: int, j: int| 0 <= i < j < after.len() implies after[i].timestamp_ns
            <= after[j].timestamp_ns by {
            if j < pos {
                assert(after[i] == before[i] && after[j] == before[j]);
            } else if j == pos {
                assert(after[i] == before[i]);
                assert(after[i] == *sorted@[i]);
            } else if i < pos {
                assert(after[i] == before[i] && after[j] == before[j - 1]);
                if pos < n {
                    assert(before[pos as int] == *sorted@[pos + 1]);
                    assert(before[pos as int].timestamp_ns > e.timestamp_ns);
                    assert(before[pos as int].timestamp_ns <= before[j - 1].timestamp_ns);
                }
                assert(after[i] == *sorted@[i]);
            } else if i == pos {
                assert(after[j] == before[j - 1]);
                assert(before[pos as int] == *sorted@[pos + 1]);
                if j - 1 > pos {
                    assert(before[pos as int].timestamp_ns <= before[j - 1].timestamp_ns);
                }
            } else {
                assert(after[i] == before[i - 1] && after[j] == before[j - 1]);
            }
        }
    }
}

/// The games of the player with key `key`, oldest first; games at the same
/// instant keep their board order.
pub fn runs_for_player<'a>(entries: &'a Vec<ScoreEntry>, key: &str) -> (r: Vec<&'a ScoreEntry>)
    ensures
        derefs(r@) == rank_by_time(games_of(entries@, key@)),
        by_time_asc(derefs(r@)),
        derefs(r@).to_multiset() =~= games_of(entries@, key@).to_multiset(),
{
    let n = entries.len();
    let wanted = key.to_owned();
    let mut sorted: Vec<&ScoreEntry> = Vec::new();
    proof {
        broadcast use vstd::seq_lib::group_to_multiset_ensures;

        assert(derefs(sorted@) =~= games_of(entries@.take(0), key@));
    }
    let mut i: usize = 0;
    while i < n
        invariant
            n == entries@.len(),
            i <= n,
            wanted@ == key@,
            by_time_asc(derefs(sorted@)),
            derefs(sorted@).to_multiset() =~= games_of(entries@.take(i as int), key@).to_multiset(),
            derefs(sorted@) == rank_by_time(games_of(entries@.take(i as int), key@)),
        decreases n - i,
    {
        let e = &entries[i];
        let k = identity_key(e.name.as_str(), e.contact.as_str());
        proof {
            broadcast use vstd::seq_lib::group_to_multiset_ensures;

            assert(entries@.take(i + 1).drop_last() =~= entries@.take(i as int));
            assert(entries@.take(i + 1).last() == entries@[i as int]);
        }
        if k == wanted {
            insert_by_time(&mut sorted, e);
            proof {
                let g = games_of(entries@.take(i + 1), key@);
                assert(g.drop_last() =~= games_of(entries@.take(i as int), key@));
            }
        }
        i = i + 1;
    }
    assert(entries@.take(n as int) =~= entries@);
    sorted
}

} // verus!
