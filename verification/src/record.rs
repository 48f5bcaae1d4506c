//! The time record: for each date, for each session, for each part, the
//! seconds tracked. Stored as `date -> session id -> part index -> seconds`.

use vstd::prelude::*;

use crate::text::{push_decimal, decimal, str_eq};

verus! {

/// Seconds tracked for one part (keyed by the part's index in decimal).
#[derive(Debug, Clone)]
pub struct PartEntry {
    pub part: String,
    pub seconds: u64,
}

/// The parts tracked for one session on one date.
#[derive(Debug, Clone)]
pub struct SessionEntry {
    pub session_id: String,
    pub parts: Vec<PartEntry>,
}

/// The sessions tracked on one date (`YYYY-MM-DD`).
#[derive(Debug, Clone)]
pub struct DayEntry {
    pub date: String,
    pub sessions: Vec<SessionEntry>,
}

/// The whole record, one entry per date.
#[derive(Debug, Clone)]
pub struct PomodoroRecord {
    pub days: Vec<DayEntry>,
}

// ---------------------------------------------------------------------------
// Keys and lookup
// ---------------------------------------------------------------------------

/// Index of the first key equal to `k`.
pub open spec fn first_index(keys: Seq<Seq<char>>, k: Seq<char>) -> Option<int>
    decreases keys.len(),
{
    if keys.len() == 0 {
        None
    } else {
        match first_index(keys.drop_last(), k) {
            Some(i) => Some(i),
            None => if keys.last() == k {
                Some(keys.len() - 1)
            } else {
                None
            },
        }
    }
}

/// No key occurs twice.
pub open spec fn keys_unique(keys: Seq<Seq<char>>) -> bool {
    forall|i: int, j: int| 0 <= i < j < keys.len() ==> keys[i] != keys[j]
}

pub open spec fn day_keys(days: Seq<DayEntry>) -> Seq<Seq<char>> {
    days.map_values(|d: DayEntry| d.date@)
}

pub open spec fn session_keys(sessions: Seq<SessionEntry>) -> Seq<Seq<char>> {
    sessions.map_values(|s: SessionEntry| s.session_id@)
}

pub open spec fn part_keys(parts: Seq<PartEntry>) -> Seq<Seq<char>> {
    parts.map_values(|p: PartEntry| p.part@)
}

/// The record is a map at every level: no date, no session of a date and
/// no part of a session occurs twice.
pub open spec fn record_well_formed(days: Seq<DayEntry>) -> bool {
    &&& keys_unique(day_keys(days))
    &&& forall|i: int| 0 <= i < days.len() ==> #[trigger] sessions_well_formed(days[i].sessions@)
}

pub open spec fn sessions_well_formed(sessions: Seq<SessionEntry>) -> bool {
    &&& keys_unique(session_keys(sessions))
    &&& forall|i: int| 0 <= i < sessions.len() ==> keys_unique(part_keys(#[trigger] sessions[i].parts@))
}

/// The entry for a date.
pub open spec fn day_of(days: Seq<DayEntry>, date: Seq<char>) -> Option<DayEntry> {
    match first_index(day_keys(days), date) {
        Some(i) => Some(days[i]),
        None => None,
    }
}

/// The entry for a session within a date.
pub open spec fn session_of(sessions: Seq<SessionEntry>, id: Seq<char>) -> Option<SessionEntry> {
    match first_index(session_keys(sessions), id) {
        Some(i) => Some(sessions[i]),
        None => None,
    }
}

/// The seconds of a part within a session.
pub open spec fn part_of(parts: Seq<PartEntry>, key: Seq<char>) -> Option<u64> {
    match first_index(part_keys(parts), key) {
        Some(i) => Some(parts[i].seconds),
        None => None,
    }
}

/// The seconds recorded for (date, session, part), if any.
pub open spec fn recorded(days: Seq<DayEntry>, date: Seq<char>, id: Seq<char>, key: Seq<char>) -> Option<u64> {
    match day_of(days, date) {
        Some(d) => match session_of(d.sessions@, id) {
            Some(s) => part_of(s.parts@, key),
            None => None,
        },
        None => None,
    }
}

/// Whether the record holds an entry for (date, session).
pub open spec fn has_session(days: Seq<DayEntry>, date: Seq<char>, id: Seq<char>) -> bool {
    match day_of(days, date) {
        Some(d) => session_of(d.sessions@, id) is Some,
        None => false,
    }
}

// ---------------------------------------------------------------------------
// Totals
// ---------------------------------------------------------------------------

/// Sum of a sequence of natural numbers.
pub open spec fn sum_of(s: Seq<nat>) -> nat
    decreases s.len(),
{
    if s.len() == 0 {
        0
    } else {
        sum_of(s.drop_last()) + s.last()
    }
}

/// Seconds recorded over the parts of a session.
pub open spec fn parts_total(parts: Seq<PartEntry>) -> nat {
    sum_of(parts.map_values(|p: PartEntry| p.seconds as nat))
}

/// Seconds recorded over the sessions of a date.
pub open spec fn sessions_total(sessions: Seq<SessionEntry>) -> nat {
    sum_of(sessions.map_values(|s: SessionEntry| parts_total(s.parts@)))
}

/// Seconds recorded on a date, over all sessions and parts (0 when the
/// date has no entry).
pub open spec fn day_total(days: Seq<DayEntry>, date: Seq<char>) -> nat {
    match day_of(days, date) {
        Some(d) => sessions_total(d.sessions@),
        None => 0,
    }
}

// ---------------------------------------------------------------------------
// Lemmas
// ---------------------------------------------------------------------------

/// What `first_index` finds: the first index holding `k`.
pub proof fn lemma_first_index(keys: Seq<Seq<char>>, k: Seq<char>)
    ensures
        first_index(keys, k) matches Some(i) ==> {
            &&& 0 <= i < keys.len()
            &&& keys[i] == k
            &&& forall|j: int| 0 <= j < i ==> keys[j] != k
        },
        first_index(keys, k) is None ==> forall|j: int| 0 <= j < keys.len() ==> keys[j] != k,
    decreases keys.len(),
{
    if keys.len() > 0 {
        lemma_first_index(keys.drop_last(), k);
        assert forall|j: int| 0 <= j < keys.len() - 1 implies keys[j] == keys.drop_last()[j] by {}
    }
}

/// `first_index` is determined by where `k` first occurs.
proof fn lemma_first_index_is(keys: Seq<Seq<char>>, k: Seq<char>, i: int)
    requires
        0 <= i < keys.len(),
        keys[i] == k,
        forall|j: int| 0 <= j < i ==> keys[j] != k,
    ensures
        first_index(keys, k) == Some(i),
{
    lemma_first_index(keys, k);
}

/// `first_index` finds nothing when `k` does not occur.
proof fn lemma_first_index_none(keys: Seq<Seq<char>>, k: Seq<char>)
    requires
        forall|j: int| 0 <= j < keys.len() ==> keys[j] != k,
    ensures
        first_index(keys, k) is None,
{
    lemma_first_index(keys, k);
}

/// Appending a key changes the lookup only of a key absent before.
proof fn lemma_first_index_push(keys: Seq<Seq<char>>, k: Seq<char>, q: Seq<char>)
    ensures
        first_index(keys.push(k), q) == match first_index(keys, q) {
            Some(i) => Some(i),
            None => if q == k {
                Some(keys.len() as int)
            } else {
                None
            },
        },
{
    assert(keys.push(k).drop_last() =~= keys);
}

proof fn lemma_sum_push(s: Seq<nat>, v: nat)
    ensures
        sum_of(s.push(v)) == sum_of(s) + v,
{
    assert(s.push(v).drop_last() =~= s);
}

proof fn lemma_sum_update(s: Seq<nat>, i: int, v: nat)
    requires
        0 <= i < s.len(),
    ensures
        sum_of(s.update(i, v)) + s[i] == sum_of(s) + v,
    decreases s.len(),
{
    if i < s.len() - 1 {
        assert(s.update(i, v).drop_last() =~= s.drop_last().update(i, v));
        lemma_sum_update(s.drop_last(), i, v);
    } else {
        assert(s.update(i, v).drop_last() =~= s.drop_last());
    }
}

proof fn lemma_sum_prefix(s: Seq<nat>, n: int)
    requires
        0 <= n <= s.len(),
    ensures
        sum_of(s.subrange(0, n)) <= sum_of(s),
    decreases s.len() - n,
{
    if n < s.len() {
        lemma_sum_prefix(s, n + 1);
        assert(s.subrange(0, n + 1).drop_last() =~= s.subrange(0, n));
    } else {
        assert(s.subrange(0, n) =~= s);
    }
}

proof fn lemma_sum_prefix_step(s: Seq<nat>, n: int)
    requires
        0 <= n < s.len(),
    ensures
        sum_of(s.subrange(0, n + 1)) == sum_of(s.subrange(0, n)) + s[n],
{
    assert(s.subrange(0, n + 1).drop_last() =~= s.subrange(0, n));
}

// ---------------------------------------------------------------------------
// Reading
// ---------------------------------------------------------------------------

/// Index of the entry for a date.
fn find_day(days: &Vec<DayEntry>, date: &str) -> (r: Option<usize>)
    ensures
        r matches Some(i) ==> first_index(day_keys(days@), date@) == Some(i as int),
        r is None ==> first_index(day_keys(days@), date@) is None,
{
    let mut i: usize = 0;
    while i < days.len()
        invariant
            i <= days@.len(),
            forall|j: int| 0 <= j < i ==> day_keys(days@)[j] != date@,
        decreases days@.len() - i,
    {
        if str_eq(days[i].date.as_str(), date) {
            proof { lemma_first_index_is(day_keys(days@), date@, i as int); }
            return Some(i);
        }
        i = i + 1;
    }
    proof { lemma_first_index_none(day_keys(days@), date@); }
    None
}

/// Index of the entry for a session.
fn find_session_entry(sessions: &Vec<SessionEntry>, id: &str) -> (r: Option<usize>)
    ensures
        r matches Some(i) ==> first_index(session_keys(sessions@), id@) == Some(i as int),
        r is None ==> first_index(session_keys(sessions@), id@) is None,
{
    let mut i: usize = 0;
    while i < sessions.len()
        invariant
            i <= sessions@.len(),
            forall|j: int| 0 <= j < i ==> session_keys(sessions@)[j] != id@,
        decreases sessions@.len() - i,
    {
        if str_eq(sessions[i].session_id.as_str(), id) {
            proof { lemma_first_index_is(session_keys(sessions@), id@, i as int); }
            return Some(i);
        }
        i = i + 1;
    }
    proof { lemma_first_index_none(session_keys(sessions@), id@); }
    None
}

/// Index of the entry for a part.
fn find_part_entry(parts: &Vec<PartEntry>, key: &str) -> (r: Option<usize>)
    ensures
        r matches Some(i) ==> first_index(part_keys(parts@), key@) == Some(i as int),
        r is None ==> first_index(part_keys(parts@), key@) is None,
{
    let mut i: usize = 0;
    while i < parts.len()
        invariant
            i <= parts@.len(),
            forall|j: int| 0 <= j < i ==> part_keys(parts@)[j] != key@,
        decreases parts@.len() - i,
    {
        if str_eq(parts[i].part.as_str(), key) {
            proof { lemma_first_index_is(part_keys(parts@), key@, i as int); }
            return Some(i);
        }
        i = i + 1;
    }
    proof { lemma_first_index_none(part_keys(parts@), key@); }
    None
}

/// The seconds over the parts of a session, or `None` when the sum does not
/// fit in `u64`.
fn checked_parts_total(parts: &Vec<PartEntry>) -> (r: Option<u64>)
    ensures
        r matches Some(t) ==> t == parts_total(parts@),
        r is None ==> parts_total(parts@) > u64::MAX,
{
    let ghost s = parts@.map_values(|p: PartEntry| p.seconds as nat);
    let mut acc: u64 = 0;
    let mut i: usize = 0;
    while i < parts.len()
        invariant
            s == parts@.map_values(|p: PartEntry| p.seconds as nat),
            i <= parts@.len(),
            acc == sum_of(s.subrange(0, i as int)),
        decreases parts@.len() - i,
    {
        proof {
            lemma_sum_prefix_step(s, i as int);
            lemma_sum_prefix(s, i + 1);
        }
        match acc.checked_add(parts[i].seconds) {
            Some(v) => acc = v,
            None => return None,
        }
        i = i + 1;
    }
    assert(s.subrange(0, i as int) =~= s);
    Some(acc)
}

/// The seconds over the sessions of a date, or `None` when the sum does not
/// fit in `u64`.
fn checked_sessions_total(sessions: &Vec<SessionEntry>) -> (r: Option<u64>)
    ensures
        r matches Some(t) ==> t == sessions_total(sessions@),
        r is None ==> sessions_total(sessions@) > u64::MAX,
{
    let ghost s = sessions@.map_values(|x: SessionEntry| parts_total(x.parts@));
    let mut acc: u64 = 0;
    let mut i: usize = 0;
    while i < sessions.len()
        invariant
            s == sessions@.map_values(|x: SessionEntry| parts_total(x.parts@)),
            i <= sessions@.len(),
            acc == sum_of(s.subrange(0, i as int)),
        decreases sessions@.len() - i,
    {
        proof {
            lemma_sum_prefix_step(s, i as int);
            lemma_sum_prefix(s, i + 1);
        }
        let part_sum = match checked_parts_total(&sessions[i].parts) {
            Some(v) => v,
            None => return None,
        };
        match acc.checked_add(part_sum) {
            Some(v) => acc = v,
            None => return None,
        }
        i = i + 1;
    }
    assert(s.subrange(0, i as int) =~= s);
    Some(acc)
}

/// Today's total tracked seconds (summed over all sessions and parts), or
/// `None` when that sum does not fit in `u64`.
pub fn checked_daily_total(record: &PomodoroRecord, today: &str) -> (r: Option<u64>)
    ensures
        r matches Some(t) ==> t == day_total(record.days@, today@),
        r is None ==> day_total(record.days@, today@) > u64::MAX,
{
    proof {
        lemma_first_index(day_keys(record.days@), today@);
    }
    match find_day(&record.days, today) {
        Some(i) => checked_sessions_total(&record.days[i].sessions),
        None => Some(0),
    }
}

/// Today's total tracked seconds, summed over all sessions and parts.
pub fn load_daily_total(record: &PomodoroRecord, today: &str) -> (r: u64)
    requires
        day_total(record.days@, today@) <= u64::MAX,
    ensures
        r == day_total(record.days@, today@),
{
    checked_daily_total(record, today).unwrap()
}


// ---------------------------------------------------------------------------
// Writing
// ---------------------------------------------------------------------------

/// The seconds held, or 0 when there is no entry.
pub open spec fn or_zero(v: Option<u64>) -> nat {
    match v {
        Some(x) => x as nat,
        None => 0,
    }
}

/// The seconds of part `key` of session `id` among a date's sessions.
pub open spec fn session_part(sessions: Seq<SessionEntry>, id: Seq<char>, key: Seq<char>) -> Option<u64> {
    match session_of(sessions, id) {
        Some(s) => part_of(s.parts@, key),
        None => None,
    }
}

proof fn lemma_element_le_sum(s: Seq<nat>, i: int)
    requires
        0 <= i < s.len(),
    ensures
        s[i] <= sum_of(s),
{
    lemma_sum_update(s, i, 0);
}

/// Adds `seconds` to part `key`, creating the entry when needed.
fn add_to_parts(parts: &mut Vec<PartEntry>, key: String, seconds: u64)
    requires
        parts_total(old(parts)@) + seconds <= u64::MAX,
    ensures
        parts_total(final(parts)@) == parts_total(old(parts)@) + seconds,
        forall|q: Seq<char>| #[trigger]
            part_of(final(parts)@, q) == if q == key@ {
                Some((or_zero(part_of(old(parts)@, key@)) + seconds) as u64)
            } else {
                part_of(old(parts)@, q)
            },
        keys_unique(part_keys(old(parts)@)) ==> keys_unique(part_keys(final(parts)@)),
{
    let ghost s0 = parts@;
    let ghost k0 = part_keys(s0);
    let ghost a0 = s0.map_values(|p: PartEntry| p.seconds as nat);
    proof {
        lemma_first_index(k0, key@);
    }
    match find_part_entry(parts, key.as_str()) {
        Some(i) => {
            proof {
                lemma_element_le_sum(a0, i as int);
            }
            let mut e = parts.remove(i);
            e.seconds = e.seconds + seconds;
            parts.insert(i, e);
            proof {
                assert(parts@ =~= s0.update(i as int, e));
                assert(part_keys(parts@) =~= k0);
                assert(parts@.map_values(|p: PartEntry| p.seconds as nat) =~= a0.update(
                    i as int,
                    e.seconds as nat,
                ));
                lemma_sum_update(a0, i as int, e.seconds as nat);
                assert forall|q: Seq<char>| #[trigger]
                    part_of(parts@, q) == if q == key@ {
                        Some((or_zero(part_of(s0, key@)) + seconds) as u64)
                    } else {
                        part_of(s0, q)
                    } by {
                    lemma_first_index(k0, q);
                }
            }
        },
        None => {
            let e = PartEntry { part: key, seconds };
            parts.push(e);
            proof {
                assert(part_keys(parts@) =~= k0.push(key@));
                assert(parts@.map_values(|p: PartEntry| p.seconds as nat) =~= a0.push(
                    seconds as nat,
                ));
                lemma_sum_push(a0, seconds as nat);
                assert forall|q: Seq<char>| #[trigger]
                    part_of(parts@, q) == if q == key@ {
                        Some((or_zero(part_of(s0, key@)) + seconds) as u64)
                    } else {
                        part_of(s0, q)
                    } by {
                    lemma_first_index_push(k0, key@, q);
                    lemma_first_index(k0, q);
                }
            }
        },
    }
}

/// Adds `seconds` to part `key` of session `id`, creating entries when
/// needed.
fn add_to_sessions(sessions: &mut Vec<SessionEntry>, id: &str, key: String, seconds: u64)
    requires
        sessions_total(old(sessions)@) + seconds <= u64::MAX,
    ensures
        sessions_total(final(sessions)@) == sessions_total(old(sessions)@) + seconds,
        forall|sid: Seq<char>|
            sid != id@ ==> #[trigger] session_of(final(sessions)@, sid) == session_of(
                old(sessions)@,
                sid,
            ),
        session_of(final(sessions)@, id@) is Some,
        forall|q: Seq<char>| #[trigger]
            session_part(final(sessions)@, id@, q) == if q == key@ {
                Some((or_zero(session_part(old(sessions)@, id@, key@)) + seconds) as u64)
            } else {
                session_part(old(sessions)@, id@, q)
            },
        sessions_well_formed(old(sessions)@) ==> sessions_well_formed(final(sessions)@),
{
    let ghost s0 = sessions@;
    let ghost k0 = session_keys(s0);
    proof {
        lemma_first_index(k0, id@);
    }
    let si = match find_session_entry(sessions, id) {
        Some(i) => i,
        None => {
            let fresh = SessionEntry { session_id: id.to_string(), parts: Vec::new() };
            sessions.push(fresh);
            proof {
                let a0 = s0.map_values(|x: SessionEntry| parts_total(x.parts@));
                assert(sessions@.map_values(|x: SessionEntry| parts_total(x.parts@)) =~= a0.push(
                    parts_total(fresh.parts@),
                ));
                assert(parts_total(fresh.parts@) == 0) by {
                    assert(fresh.parts@.map_values(|p: PartEntry| p.seconds as nat) =~= Seq::<
                        nat,
                    >::empty());
                }
                lemma_sum_push(a0, 0);
                assert(session_keys(sessions@) =~= k0.push(id@));
                assert forall|sid: Seq<char>| #[trigger]
                    session_of(sessions@, sid) == if sid == id@ {
                        Some(fresh)
                    } else {
                        session_of(s0, sid)
                    } by {
                    lemma_first_index_push(k0, id@, sid);
                    lemma_first_index(k0, sid);
                }
                assert forall|q: Seq<char>| #[trigger] part_of(fresh.parts@, q) is None by {
                    lemma_first_index(part_keys(fresh.parts@), q);
                }
                assert(keys_unique(part_keys(fresh.parts@)));
            }
            sessions.len() - 1
        },
    };
    let ghost s1 = sessions@;
    let ghost k1 = session_keys(s1);
    let ghost a1 = s1.map_values(|x: SessionEntry| parts_total(x.parts@));
    proof {
        lemma_first_index(k1, id@);
        assert(first_index(k1, id@) == Some(si as int));
        lemma_element_le_sum(a1, si as int);
    }
    let mut entry = sessions.remove(si);
    let ghost before = entry;
    add_to_parts(&mut entry.parts, key, seconds);
    sessions.insert(si, entry);
    proof {
        assert(sessions@ =~= s1.update(si as int, entry));
        assert(session_keys(sessions@) =~= k1);
        assert(sessions@.map_values(|x: SessionEntry| parts_total(x.parts@)) =~= a1.update(
            si as int,
            parts_total(entry.parts@),
        ));
        lemma_sum_update(a1, si as int, parts_total(entry.parts@));
        assert forall|sid: Seq<char>| sid != id@ implies #[trigger] session_of(sessions@, sid)
            == session_of(s1, sid) by {
            lemma_first_index(k1, sid);
        }
        assert forall|q: Seq<char>| #[trigger]
            session_part(sessions@, id@, q) == if q == key@ {
                Some((or_zero(session_part(s0, id@, key@)) + seconds) as u64)
            } else {
                session_part(s0, id@, q)
            } by {}
        if sessions_well_formed(s0) {
            assert forall|i: int| 0 <= i < sessions@.len() implies keys_unique(
                part_keys(#[trigger] sessions@[i].parts@),
            ) by {
                if i != si {
                    assert(sessions@[i] == s1[i]);
                }
            }
        }
    }
}

/// Records `seconds` of tracked time for a session's part on `today`.
/// Returns the new total of the day.
pub fn add_record_seconds(
    record: &mut PomodoroRecord,
    today: &str,
    session_id: &str,
    part_index: usize,
    seconds: u64,
) -> (r: u64)
    requires
        day_total(old(record).days@, today@) + seconds <= u64::MAX,
    ensures
        r == day_total(final(record).days@, today@),
        r == day_total(old(record).days@, today@) + seconds,
        forall|d: Seq<char>, sid: Seq<char>, q: Seq<char>| #[trigger]
            recorded(final(record).days@, d, sid, q) == if d == today@ && sid == session_id@ && q
                == decimal(part_index as nat) {
                Some((or_zero(recorded(old(record).days@, d, sid, q)) + seconds) as u64)
            } else {
                recorded(old(record).days@, d, sid, q)
            },
        forall|d: Seq<char>|
            d != today@ ==> #[trigger] day_of(final(record).days@, d) == day_of(
                old(record).days@,
                d,
            ),
        forall|d: Seq<char>, sid: Seq<char>| #[trigger]
            has_session(final(record).days@, d, sid) == (has_session(old(record).days@, d, sid)
                || (d == today@ && sid == session_id@)),
        record_well_formed(old(record).days@) ==> record_well_formed(final(record).days@),
        final(record).days@.len() == old(record).days@.len() + if day_of(
            old(record).days@,
            today@,
        ) is None {
            1int
        } else {
            0int
        },
        forall|i: int|
            0 <= i < old(record).days@.len() ==> #[trigger] final(record).days@[i].date
                == old(record).days@[i].date,
        day_of(old(record).days@, today@) is None ==> final(record).days@.last().date@ == today@,
{
    let mut key = String::new();
    push_decimal(&mut key, part_index as u64);
    assert(key@ =~= decimal(part_index as nat));
    let ghost d0 = record.days@;
    let ghost k0 = day_keys(d0);
    proof {
        lemma_first_index(k0, today@);
    }
    let di = match find_day(&record.days, today) {
        Some(i) => i,
        None => {
            let fresh = DayEntry { date: today.to_string(), sessions: Vec::new() };
            record.days.push(fresh);
            proof {
                assert(day_keys(record.days@) =~= k0.push(today@));
                assert forall|d: Seq<char>| #[trigger]
                    day_of(record.days@, d) == if d == today@ {
                        Some(fresh)
                    } else {
                        day_of(d0, d)
                    } by {
                    lemma_first_index_push(k0, today@, d);
                    lemma_first_index(k0, d);
                }
                assert(sessions_total(fresh.sessions@) == 0) by {
                    assert(fresh.sessions@.map_values(|x: SessionEntry| parts_total(x.parts@))
                        =~= Seq::<nat>::empty());
                }
                assert forall|sid: Seq<char>| #[trigger] session_of(fresh.sessions@, sid) is None by {
                    lemma_first_index(session_keys(fresh.sessions@), sid);
                }
                assert(sessions_well_formed(fresh.sessions@));
                if record_well_formed(d0) {
                    assert forall|i: int| 0 <= i < record.days@.len() implies sessions_well_formed(
                        #[trigger] record.days@[i].sessions@,
                    ) by {
                        if i < d0.len() {
                            assert(record.days@[i] == d0[i]);
                            assert(sessions_well_formed(d0[i].sessions@));
                        } else {
                            assert(record.days@[i] == fresh);
                        }
                    }
                }
            }
            record.days.len() - 1
        },
    };
    let ghost d1 = record.days@;
    let ghost k1 = day_keys(d1);
    proof {
        lemma_first_index(k1, today@);
        assert(first_index(k1, today@) == Some(di as int));
        assert(record_well_formed(d0) ==> record_well_formed(d1));
    }
    proof {
        assert(forall|i: int| 0 <= i < d0.len() ==> #[trigger] d1[i] == d0[i]);
        assert(d1.len() == d0.len() + if day_of(d0, today@) is None { 1int } else { 0int });
        assert(day_of(d0, today@) is None ==> d1.last().date@ == today@);
    }
    let mut day = record.days.remove(di);
    let ghost before = day;
    assert(before == d1[di as int]);
    add_to_sessions(&mut day.sessions, session_id, key, seconds);
    let total = checked_sessions_total(&day.sessions).unwrap();
    record.days.insert(di, day);
    proof {
        assert(record.days@ =~= d1.update(di as int, day));
        assert(day_keys(record.days@) =~= k1);
        assert forall|d: Seq<char>| d != today@ implies #[trigger] day_of(record.days@, d)
            == day_of(d1, d) by {
            lemma_first_index(k1, d);
        }
        assert(day_of(record.days@, today@) == Some(day));
        assert forall|d: Seq<char>, sid: Seq<char>, q: Seq<char>| #[trigger]
            recorded(record.days@, d, sid, q) == if d == today@ && sid == session_id@ && q
                == decimal(part_index as nat) {
                Some((or_zero(recorded(d0, d, sid, q)) + seconds) as u64)
            } else {
                recorded(d0, d, sid, q)
            } by {
            if d == today@ {
                if sid == session_id@ {
                    assert(session_part(day.sessions@, sid, q) == recorded(record.days@, d, sid, q));
                }
            }
        }
        if record_well_formed(d0) {
            assert forall|i: int| 0 <= i < record.days@.len() implies sessions_well_formed(
                #[trigger] record.days@[i].sessions@,
            ) by {
                if i != di {
                    assert(record.days@[i] == d1[i]);
                    assert(sessions_well_formed(d1[i].sessions@));
                } else {
                    assert(sessions_well_formed(d1[i].sessions@));
                }
            }
        }
    }
    total
}

} // verus!
