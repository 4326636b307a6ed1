//! The score board by day: one table per calendar day, the most recent day
//! first, each day's games ranked by score.

use crate::score::{derefs, ScoreEntry};
use chrono::{Datelike, TimeZone};
use vstd::prelude::*;

verus! {

/// The games of one day, best score first.
pub struct DayScores<'a> {
    /// The day, counted as by `chrono::Datelike::num_days_from_ce` (day 1 is
    /// 1 January of year 1).
    pub day: i128,
    pub entries: Vec<&'a ScoreEntry>,
}

/// The whole seconds of the instant `ns` (nanoseconds since the Unix
/// epoch), rounded down.
pub open spec fn epoch_secs(ns: i128) -> int {
    ns / 1_000_000_000
}

/// The day of the instant `ns` in UTC, counted as by `num_days_from_ce`
/// (1 January 1970 is day 719 163).
pub open spec fn utc_day(ns: i128) -> int {
    epoch_secs(ns) / 86_400 + 719_163
}

/// Seconds within which chrono can place any instant in every time zone:
/// about 253 000 years either side of 1970, inside chrono's range with
/// more than a day to spare.
pub const LOCAL_SECS_LIMIT: i64 = 8_000_000_000_000;

/// The day, counted as by `num_days_from_ce`, of the instant `secs` seconds
/// after the epoch seen on a clock `off` seconds ahead of UTC.
pub open spec fn day_at_offset(secs: int, off: int) -> int {
    (secs + off) / 86_400 + 719_163
}

/// `d` is the calendar day of the instant `secs` in some time zone: the
/// day on a clock less than a day ahead of or behind UTC.
pub open spec fn zone_day(secs: int, d: int) -> bool {
    exists|off: int| -86_400 < off < 86_400 && d == #[trigger] day_at_offset(secs, off)
}

/// Calls `chrono::Local.timestamp_opt(secs, 0)`, then `single`,
/// `date_naive` and `num_days_from_ce`: the calendar day of the instant in
/// the machine's time zone. Within the bound of `requires` chrono builds the
/// UTC date and time (`DateTime::from_timestamp` fails only far outside it)
/// and adds the zone's offset, a `FixedOffset` of less than a day either
/// way, without leaving its range; the local date is the date of the UTC
/// time plus that offset. So there is a day, and it is the day at some such
/// offset. That is all that is claimed: which offset depends on the zone.
#[verifier::external_body]
pub(crate) fn local_day(secs: i64) -> (d: Option<i32>)
    requires
        -LOCAL_SECS_LIMIT <= secs <= LOCAL_SECS_LIMIT,
    ensures
        d.is_some(),
        secs / 86_400 + 719_163 - 1 <= d.unwrap() <= secs / 86_400 + 719_163 + 1,
        zone_day(secs as int, d.unwrap() as int),
{
    chrono::Local.timestamp_opt(secs, 0).single().map(|t| t.date_naive().num_days_from_ce())
}

/// The whole seconds of `ns`, rounded down.
fn secs_of(ns: i128) -> (r: i128)
    ensures
        r == epoch_secs(ns),
{
    if ns >= 0 {
        ns / 1_000_000_000
    } else {
        -((-(ns + 1)) / 1_000_000_000) - 1
    }
}

/// The day of the game at instant `ns` in the machine's time zone; an
/// instant too far from 1970 for chrono to place keeps its UTC day.
fn day_of(ns: i128) -> (d: i128)
    ensures
        utc_day(ns) - 1 <= d <= utc_day(ns) + 1,
        zone_day(epoch_secs(ns), d as int),
{
    let secs = secs_of(ns);
    if -(LOCAL_SECS_LIMIT as i128) <= secs && secs <= LOCAL_SECS_LIMIT as i128 {
        match local_day(secs as i64) {
            Some(d) => d as i128,
            None => 0,
        }
    } else if secs >= 0 {
        assert(day_at_offset(secs as int, 0) == secs / 86_400 + 719_163);
        secs / 86_400 + 719_163
    } else {
        let d = -((-(secs + 1)) / 86_400) - 1 + 719_163;
        assert(day_at_offset(secs as int, 0) == d);
        d
    }
}

/// The games of `es` played on day `d`, in their order (`days[i]` is the
/// day of `es[i]`).
pub open spec fn on_day(es: Seq<ScoreEntry>, days: Seq<i128>, d: i128) -> Seq<ScoreEntry>
    decreases es.len(),
{
    if es.len() == 0 || days.len() == 0 {
        Seq::empty()
    } else {
        let rest = on_day(es.drop_last(), days.drop_last(), d);
        if days.last() == d {
            rest.push(es.last())
        } else {
            rest
        }
    }
}

/// Where a game scoring `score` goes in `s`: after every game with at least
/// that score at the head of `s`.
pub open spec fn score_slot(s: Seq<ScoreEntry>, score: u32) -> int
    decreases s.len(),
{
    if s.len() == 0 || s[0].score < score {
        0
    } else {
        1 + score_slot(s.drop_first(), score)
    }
}

/// `s` ranked by score, highest first; equal scores keep their order in
/// `s`.
pub open spec fn rank_by_score(s: Seq<ScoreEntry>) -> Seq<ScoreEntry>
    decreases s.len(),
{
    if s.len() == 0 {
        Seq::empty()
    } else {
        let r = rank_by_score(s.drop_last());
        r.insert(score_slot(r, s.last().score), s.last())
    }
}

/// Day `d` has a table on `board`.
pub open spec fn shows_day(board: Seq<DayScores>, d: i128) -> bool {
    exists|i: int| 0 <= i < board.len() && #[trigger] board[i].day == d
}

/// `board` is the score board by day of the games `es` played on `days`:
/// every day that has a game, once, the most recent first, each with its
/// games ranked by score.
pub open spec fn day_board(es: Seq<ScoreEntry>, days: Seq<i128>, board: Seq<DayScores>) -> bool {
    &&& forall|i: int, j: int| 0 <= i < j < board.len() ==> board[i].day > board[j].day
    &&& forall|i: int| 0 <= i < board.len() ==> days.contains(#[trigger] board[i].day)
    &&& forall|k: int| 0 <= k < days.len() ==> shows_day(board, #[trigger] days[k])
    &&& forall|i: int|
        0 <= i < board.len() ==> derefs(#[trigger] board[i].entries@) == rank_by_score(
            on_day(es, days, board[i].day),
        )
}

proof fn lemma_score_slot_bounds(s: Seq<ScoreEntry>, score: u32)
    ensures
        0 <= score_slot(s, score) <= s.len(),
    decreases s.len(),
{
    if s.len() > 0 && s[0].score >= score {
        lemma_score_slot_bounds(s.drop_first(), score);
    }
}

proof fn lemma_score_slot(s: Seq<ScoreEntry>, score: u32, pos: int)
    requires
        0 <= pos <= s.len(),
        forall|j: int| 0 <= j < pos ==> #[trigger] s[j].score >= score,
        pos == s.len() || s[pos].score < score,
    ensures
        score_slot(s, score) == pos,
    decreases pos,
{
    if pos > 0 {
        assert(s[0].score >= score);
        assert forall|j: int| 0 <= j < pos - 1 implies #[trigger] s.drop_first()[j].score >= score by {
            assert(s.drop_first()[j] == s[j + 1]);
        }
        if pos < s.len() {
            assert(s.drop_first()[pos - 1] == s[pos]);
        }
        lemma_score_slot(s.drop_first(), score, pos - 1);
    }
}

/// Inserts `x` into `ranked`, after every game with at least its score.
fn insert_by_score<'a>(ranked: &mut Vec<&'a ScoreEntry>, x: &'a ScoreEntry)
    ensures
        derefs(final(ranked)@) == derefs(old(ranked)@).insert(
            score_slot(derefs(old(ranked)@), x.score),
            *x,
        ),
{
    let n = ranked.len();
    let mut pos: usize = 0;
    while pos < n && ranked[pos].score >= x.score
        invariant
            n == ranked@.len(),
            pos <= n,
            forall|j: int| 0 <= j < pos ==> #[trigger] ranked@[j].score >= x.score,
        decreases n - pos,
    {
        pos = pos + 1;
    }
    let ghost before = ranked@;
    proof {
        assert forall|j: int| 0 <= j < pos implies #[trigger] derefs(before)[j].score >= x.score by {
            assert(before[j].score >= x.score);
        }
        lemma_score_slot(derefs(before), x.score, pos as int);
    }
    ranked.insert(pos, x);
    assert(derefs(ranked@) =~= derefs(before).insert(pos as int, *x));
}

/// The games of `entries` played on day `d` (`days[i]` is the day of
/// `entries[i]`), ranked by score, equal scores in board order.
fn ranked_on_day<'a>(entries: &Vec<&'a ScoreEntry>, days: &Vec<i128>, d: i128) -> (r: Vec<
    &'a ScoreEntry,
>)
    requires
        entries@.len() == days@.len(),
    ensures
        derefs(r@) == rank_by_score(on_day(derefs(entries@), days@, d)),
{
    let ghost es = derefs(entries@);
    let n = entries.len();
    let mut r: Vec<&'a ScoreEntry> = Vec::new();
    let mut t: usize = 0;
    while t < n
        invariant
            n == entries@.len(),
            n == days@.len(),
            es == derefs(entries@),
            t <= n,
            derefs(r@) == rank_by_score(on_day(es.take(t as int), days@.take(t as int), d)),
        decreases n - t,
    {
        proof {
            let s1 = es.take(t + 1);
            let d1 = days@.take(t + 1);
            assert(s1.drop_last() =~= es.take(t as int));
            assert(d1.drop_last() =~= days@.take(t as int));
            assert(s1.last() == *entries@[t as int]);
            assert(d1.last() == days@[t as int]);
        }
        if days[t] == d {
            let ghost prev = on_day(es.take(t as int), days@.take(t as int), d);
            insert_by_score(&mut r, entries[t]);
            proof {
                assert(on_day(es.take(t + 1), days@.take(t + 1), d) == prev.push(*entries@[t as int]));
                assert(prev.push(*entries@[t as int]).drop_last() =~= prev);
            }
        }
        t = t + 1;
    }
    proof {
        assert(es.take(n as int) =~= es);
        assert(days@.take(n as int) =~= days@);
    }
    r
}

/// Every day of `days`, once each, the most recent first.
fn distinct_days_desc(days: &Vec<i128>) -> (r: Vec<i128>)
    ensures
        forall|i: int, j: int| 0 <= i < j < r@.len() ==> r@[i] > r@[j],
        forall|i: int| 0 <= i < r@.len() ==> days@.contains(#[trigger] r@[i]),
        forall|k: int| 0 <= k < days@.len() ==> r@.contains(#[trigger] days@[k]),
{
    let n = days.len();
    let mut r: Vec<i128> = Vec::new();
    let mut t: usize = 0;
    while t < n
        invariant
            n == days@.len(),
            t <= n,
            forall|i: int, j: int| 0 <= i < j < r@.len() ==> r@[i] > r@[j],
            forall|i: int| 0 <= i < r@.len() ==> days@.contains(#[trigger] r@[i]),
            forall|k: int| 0 <= k < t ==> r@.contains(#[trigger] days@[k]),
        decreases n - t,
    {
        let d = days[t];
        let m = r.len();
        let mut p: usize = 0;
        while p < m && r[p] > d
            invariant
                m == r@.len(),
                p <= m,
                forall|j: int| 0 <= j < p ==> #[trigger] r@[j] > d,
            decreases m - p,
        {
            p = p + 1;
        }
        let ghost before = r@;
        if p < m && r[p] == d {
            assert(r@.contains(days@[t as int]));
        } else {
            r.insert(p, d);
            proof {
                assert(r@[p as int] == d);
                assert(days@.contains(d)) by {
                    assert(days@[t as int] == d);
                }
                assert forall|i: int, j: int| 0 <= i < j < r@.len() implies r@[i] > r@[j] by {
                    if j < p {
                        assert(r@[i] == before[i] && r@[j] == before[j]);
                    } else if j == p {
                        assert(r@[i] == before[i]);
                    } else if i < p {
                        assert(r@[i] == before[i] && r@[j] == before[j - 1]);
                        assert(before[p as int] <= d);
                        if j - 1 > p {
                            assert(before[p as int] > before[j - 1]);
                        }
                    } else if i == p {
                        assert(r@[j] == before[j - 1]);
                        assert(before[p as int] < d);
                        if j - 1 > p {
                            assert(before[p as int] > before[j - 1]);
                        }
                    } else {
                        assert(r@[i] == before[i - 1] && r@[j] == before[j - 1]);
                    }
                }
                assert forall|i: int| 0 <= i < r@.len() implies days@.contains(#[trigger] r@[i]) by {
                    if i < p {
                        assert(r@[i] == before[i]);
                    } else if i > p {
                        assert(r@[i] == before[i - 1]);
                    }
                }
                assert forall|k: int| 0 <= k <= t implies r@.contains(#[trigger] days@[k]) by {
                    if k == t {
                        assert(r@[p as int] == days@[k]);
                    } else {
                        let i = choose|i: int| 0 <= i < before.len() && before[i] == days@[k];
                        if i < p {
                            assert(r@[i] == before[i]);
                        } else {
                            assert(r@[i + 1] == before[i]);
                        }
                    }
                }
            }
        }
        t = t + 1;
    }
    r
}

/// The score board by day of `entries`, where `days[i]` is the day of
/// `entries[i]`.
pub fn rank_days<'a>(entries: &Vec<&'a ScoreEntry>, days: &Vec<i128>) -> (r: Vec<DayScores<'a>>)
    requires
        entries@.len() == days@.len(),
    ensures
        day_board(derefs(entries@), days@, r@),
{
    let keys = distinct_days_desc(days);
    let m = keys.len();
    let mut r: Vec<DayScores<'a>> = Vec::new();
    let mut i: usize = 0;
    while i < m
        invariant
            m == keys@.len(),
            entries@.len() == days@.len(),
            i <= m,
            r@.len() == i,
            forall|a: int, b: int| 0 <= a < b < keys@.len() ==> keys@[a] > keys@[b],
            forall|a: int| 0 <= a < keys@.len() ==> days@.contains(#[trigger] keys@[a]),
            forall|k: int| 0 <= k < days@.len() ==> keys@.contains(#[trigger] days@[k]),
            forall|a: int| 0 <= a < i ==> #[trigger] r@[a].day == keys@[a],
            forall|a: int|
                0 <= a < i ==> derefs(#[trigger] r@[a].entries@) == rank_by_score(
                    on_day(derefs(entries@), days@, r@[a].day),
                ),
        decreases m - i,
    {
        let d = keys[i];
        let group = ranked_on_day(entries, days, d);
        r.push(DayScores { day: d, entries: group });
        i = i + 1;
    }
    proof {
        assert forall|k: int| 0 <= k < days@.len() implies shows_day(r@, #[trigger] days@[k]) by {
            assert(keys@.contains(days@[k]));
            let a = choose|a: int| 0 <= a < keys@.len() && keys@[a] == days@[k];
            assert(r@[a].day == keys@[a]);
        }
        assert forall|a: int| 0 <= a < r@.len() implies days@.contains(#[trigger] r@[a].day) by {
            assert(r@[a].day == keys@[a]);
        }
        assert forall|a: int, b: int| 0 <= a < b < r@.len() implies r@[a].day > r@[b].day by {
            assert(r@[a].day == keys@[a]);
            assert(r@[b].day == keys@[b]);
        }
    }
    r
}

/// Each of `days` is within one of the UTC day of the game at the same
/// place in `es`.
pub open spec fn near_utc_days(es: Seq<ScoreEntry>, days: Seq<i128>) -> bool {
    &&& days.len() == es.len()
    &&& forall|k: int|
        0 <= k < days.len() ==> utc_day(es[k].timestamp_ns) - 1 <= #[trigger] days[k] <= utc_day(
            es[k].timestamp_ns,
        ) + 1
}

/// Each of `days` is the calendar day, in some time zone, of the game at
/// the same place in `es`.
pub open spec fn zone_days(es: Seq<ScoreEntry>, days: Seq<i128>) -> bool {
    &&& days.len() == es.len()
    &&& forall|k: int| 0 <= k < days.len() ==> zone_day(epoch_secs(es[k].timestamp_ns), #[trigger] days[k] as int)
}

/// The score board by day of `entries`, each game on its calendar day in
/// the machine's time zone (within one of its UTC day).
pub fn scores_by_day<'a>(entries: &Vec<&'a ScoreEntry>) -> (r: Vec<DayScores<'a>>)
    ensures
        exists|days: Seq<i128>|
            near_utc_days(derefs(entries@), days) && zone_days(derefs(entries@), days)
                && #[trigger] day_board(derefs(entries@), days, r@),
{
    let n = entries.len();
    let mut days: Vec<i128> = Vec::new();
    let mut t: usize = 0;
    while t < n
        invariant
            n == entries@.len(),
            t <= n,
            days@.len() == t,
            forall|k: int|
                0 <= k < t ==> utc_day(entries@[k].timestamp_ns) - 1 <= #[trigger] days@[k]
                    <= utc_day(entries@[k].timestamp_ns) + 1,
            forall|k: int| 0 <= k < t ==> zone_day(epoch_secs(entries@[k].timestamp_ns), #[trigger] days@[k] as int),
        decreases n - t,
    {
        days.push(day_of(entries[t].timestamp_ns));
        t = t + 1;
    }
    let r = rank_days(entries, &days);
    assert(near_utc_days(derefs(entries@), days@));
    assert(zone_days(derefs(entries@), days@));
    r
}

/// How a day is named on the board.
#[derive(Clone, Copy, Debug, PartialEq, Eq, Structural)]
pub enum DayName {
    Today,
    Yesterday,
    /// Any other day, named by its date.
    Dated,
}

/// The name of day `day` seen on day `today`.
pub fn day_name(day: i128, today: i128) -> (r: DayName)
    ensures
        r == if today - day == 0 {
            DayName::Today
        } else if today - day == 1 {
            DayName::Yesterday
        } else {
            DayName::Dated
        },
{
    if day == today {
        DayName::Today
    } else if day < i128::MAX && today == day + 1 {
        DayName::Yesterday
    } else {
        DayName::Dated
    }
}

} // verus!
