//! The domain model: sessions made of timed parts, and the settings that
//! hold them.

use vstd::prelude::*;

use crate::text::str_eq;
use vstd::string::*;

verus! {

/// One timed part of a session (for example "Work" or "Break").
#[derive(Debug, Clone)]
pub struct SessionPart {
    pub name: String,
    pub minutes: u64,
    /// When true, the part does not end at zero: it runs on into overtime
    /// until the user continues.
    pub extendable: bool,
    /// When true, time spent on this part is recorded to the daily log.
    pub track_time: bool,
}

/// A named sequence of parts, identified by a UUID.
#[derive(Debug, Clone)]
pub struct Session {
    /// Stable UUID, generated on creation. Empty only before the library
    /// assigns one.
    pub id: String,
    pub name: String,
    pub parts: Vec<SessionPart>,
}

/// The user's sessions.
#[derive(Debug, Clone)]
pub struct PomodoroSettings {
    pub sessions: Vec<Session>,
}

/// Mathematical model of a [`SessionPart`].
pub struct PartView {
    pub name: Seq<char>,
    pub minutes: u64,
    pub extendable: bool,
    pub track_time: bool,
}

/// Mathematical model of a [`Session`].
pub struct SessionView {
    pub id: Seq<char>,
    pub name: Seq<char>,
    pub parts: Seq<PartView>,
}

impl View for SessionPart {
    type V = PartView;

    open spec fn view(&self) -> PartView {
        PartView {
            name: self.name@,
            minutes: self.minutes,
            extendable: self.extendable,
            track_time: self.track_time,
        }
    }
}

/// The models of a sequence of parts.
pub open spec fn parts_view(parts: Seq<SessionPart>) -> Seq<PartView> {
    parts.map_values(|p: SessionPart| p@)
}

impl View for Session {
    type V = SessionView;

    open spec fn view(&self) -> SessionView {
        SessionView { id: self.id@, name: self.name@, parts: parts_view(self.parts@) }
    }
}

/// The models of a sequence of sessions.
pub open spec fn sessions_view(sessions: Seq<Session>) -> Seq<SessionView> {
    sessions.map_values(|s: Session| s@)
}

impl View for PomodoroSettings {
    type V = Seq<SessionView>;

    open spec fn view(&self) -> Seq<SessionView> {
        sessions_view(self.sessions@)
    }
}

/// Index of the first session whose id is `id`.
pub open spec fn index_of_id(sessions: Seq<SessionView>, id: Seq<char>) -> Option<int>
    decreases sessions.len(),
{
    if sessions.len() == 0 {
        None
    } else {
        match index_of_id(sessions.drop_last(), id) {
            Some(i) => Some(i),
            None => if sessions.last().id == id {
                Some(sessions.len() - 1)
            } else {
                None
            },
        }
    }
}

/// What `index_of_id` finds: the first index holding `id`, or nothing when
/// no session holds it.
pub proof fn lemma_index_of_id(sessions: Seq<SessionView>, id: Seq<char>)
    ensures
        index_of_id(sessions, id) matches Some(i) ==> {
            &&& 0 <= i < sessions.len()
            &&& sessions[i].id == id
            &&& forall|j: int| 0 <= j < i ==> sessions[j].id != id
        },
        index_of_id(sessions, id) is None ==> forall|j: int|
            0 <= j < sessions.len() ==> sessions[j].id != id,
    decreases sessions.len(),
{
    if sessions.len() > 0 {
        lemma_index_of_id(sessions.drop_last(), id);
        assert forall|j: int| 0 <= j < sessions.len() - 1 implies sessions[j]
            == sessions.drop_last()[j] by {}
    }
}

/// Index of the session with `id`, or of the first session when there is
/// none: the session a state with that active id shows.
pub open spec fn active_index(sessions: Seq<SessionView>, id: Seq<char>) -> int {
    match index_of_id(sessions, id) {
        Some(i) => i,
        None => 0,
    }
}

/// Seconds a part of `minutes` lasts (`minutes` counts seconds in test mode),
/// as the signed value the timer counts down.
pub open spec fn part_seconds(minutes: u64, test_mode: bool) -> i64 {
    if test_mode {
        minutes as i64
    } else {
        (minutes * 60) as i64
    }
}

/// Whether converting `minutes` to seconds stays within `u64`.
pub open spec fn seconds_fit(minutes: u64, test_mode: bool) -> bool {
    test_mode || minutes * 60 <= u64::MAX
}

/// Convert configured minutes to seconds. When `test_mode` is true, treats
/// minutes as seconds so end-to-end runs complete in seconds.
pub fn minutes_to_seconds(minutes: u64, test_mode: bool) -> (r: i64)
    requires
        seconds_fit(minutes, test_mode),
    ensures
        r == part_seconds(minutes, test_mode),
        test_mode && minutes <= i64::MAX ==> r == minutes,
        !test_mode && minutes * 60 <= i64::MAX ==> r == minutes * 60,
{
    if test_mode {
        minutes as i64
    } else {
        (minutes * 60) as i64
    }
}

/// Find a session's array index by its UUID. Returns `None` if not found.
pub fn find_session_index(sessions: &[Session], id: &str) -> (r: Option<usize>)
    ensures
        r matches Some(i) ==> index_of_id(sessions_view(sessions@), id@) == Some(i as int),
        r is None ==> index_of_id(sessions_view(sessions@), id@) is None,
{
    let ghost v = sessions_view(sessions@);
    let mut i: usize = 0;
    while i < sessions.len()
        invariant
            i <= sessions@.len(),
            v == sessions_view(sessions@),
            index_of_id(v.subrange(0, i as int), id@) is None,
        decreases sessions@.len() - i,
    {
        assert(v.subrange(0, i + 1).drop_last() =~= v.subrange(0, i as int));
        if str_eq(sessions[i].id.as_str(), id) {
            assert(index_of_id(v.subrange(0, i + 1), id@) == Some(i as int));
            proof {
                lemma_index_of_id_prefix(v, id@, i + 1);
            }
            return Some(i);
        }
        i = i + 1;
    }
    assert(v.subrange(0, i as int) =~= v);
    None
}

/// A first match found in a prefix is the first match of the whole.
proof fn lemma_index_of_id_prefix(s: Seq<SessionView>, id: Seq<char>, n: int)
    requires
        0 <= n <= s.len(),
        index_of_id(s.subrange(0, n), id) is Some,
    ensures
        index_of_id(s, id) == index_of_id(s.subrange(0, n), id),
    decreases s.len() - n,
{
    if n < s.len() {
        assert(s.subrange(0, n + 1).drop_last() =~= s.subrange(0, n));
        lemma_index_of_id_prefix(s, id, n + 1);
    } else {
        assert(s.subrange(0, n) =~= s);
    }
}

impl SessionPart {
    /// A copy of the part.
    pub fn duplicate(&self) -> (r: SessionPart)
        ensures
            r@ == self@,
    {
        SessionPart {
            name: self.name.clone(),
            minutes: self.minutes,
            extendable: self.extendable,
            track_time: self.track_time,
        }
    }
}

impl Session {
    /// A copy of the session.
    pub fn duplicate(&self) -> (r: Session)
        ensures
            r@ == self@,
    {
        let mut parts: Vec<SessionPart> = Vec::new();
        let mut i: usize = 0;
        while i < self.parts.len()
            invariant
                i <= self.parts@.len(),
                parts@.len() == i,
                parts_view(parts@) == parts_view(self.parts@).subrange(0, i as int),
            decreases self.parts@.len() - i,
        {
            let p = self.parts[i].duplicate();
            let ghost prev = parts@;
            parts.push(p);
            proof {
                assert forall|k: int| 0 <= k < i + 1 implies #[trigger] parts_view(parts@)[k]
                    == parts_view(self.parts@)[k] by {
                    if k < i {
                        assert(parts@[k] == prev[k]);
                        assert(parts_view(prev)[k] == parts_view(self.parts@).subrange(0, i as int)[k]);
                    }
                }
            }
            i = i + 1;
            assert(parts_view(parts@) =~= parts_view(self.parts@).subrange(0, i as int));
        }
        assert(parts_view(parts@) =~= parts_view(self.parts@));
        Session { id: self.id.clone(), name: self.name.clone(), parts }
    }
}

/// A copy of a list of sessions.
pub fn duplicate_sessions(sessions: &Vec<Session>) -> (r: Vec<Session>)
    ensures
        sessions_view(r@) == sessions_view(sessions@),
{
    let mut out: Vec<Session> = Vec::new();
    let mut i: usize = 0;
    while i < sessions.len()
        invariant
            i <= sessions@.len(),
            out@.len() == i,
            sessions_view(out@) == sessions_view(sessions@).subrange(0, i as int),
        decreases sessions@.len() - i,
    {
        let s = sessions[i].duplicate();
        let ghost prev = out@;
        out.push(s);
        proof {
            assert forall|k: int| 0 <= k < i + 1 implies #[trigger] sessions_view(out@)[k]
                == sessions_view(sessions@)[k] by {
                if k < i {
                    assert(out@[k] == prev[k]);
                    assert(sessions_view(prev)[k] == sessions_view(sessions@).subrange(0, i as int)[k]);
                }
            }
        }
        i = i + 1;
        assert(sessions_view(out@) =~= sessions_view(sessions@).subrange(0, i as int));
    }
    assert(sessions_view(out@) =~= sessions_view(sessions@));
    out
}


/// Whether a character is a lowercase hexadecimal digit.
pub open spec fn is_lower_hex(c: char) -> bool {
    (48 <= c as u32 && c as u32 <= 57) || (97 <= c as u32 && c as u32 <= 102)
}

/// Whether a text is a version-4 UUID in its lowercase hyphenated form
/// (`xxxxxxxx-xxxx-4xxx-xxxx-xxxxxxxxxxxx`).
pub open spec fn is_uuid_text(s: Seq<char>) -> bool {
    &&& s.len() == 36
    &&& forall|i: int|
        0 <= i < 36 ==> if i == 8 || i == 13 || i == 18 || i == 23 {
            #[trigger] s[i] == '-'
        } else {
            is_lower_hex(s[i])
        }
    &&& s[14] == '4'
}

/// A fresh random session id: `uuid::Uuid::new_v4()` rendered with
/// `to_string()`. The uuid crate renders a `Uuid` through its lowercase
/// hyphenated form and `new_v4` sets the version nibble to 4; which id
/// comes out is left to chance, and the call panics when the operating
/// system cannot supply random bytes.
#[verifier::external_body]
pub(crate) fn new_session_id() -> (r: String)
    ensures
        is_uuid_text(r@),
{
    uuid::Uuid::new_v4().to_string()
}

/// Model of a part built from its fields.
pub open spec fn part_view(name: Seq<char>, minutes: u64, extendable: bool, track_time: bool) -> PartView {
    PartView { name, minutes, extendable, track_time }
}

/// The shape of the default settings: one "Pomodoro" session with a
/// tracked 25-minute "Work" part and an untracked 5-minute "Break" part.
pub open spec fn is_default_settings(v: Seq<SessionView>) -> bool {
    &&& v.len() == 1
    &&& is_uuid_text(v[0].id)
    &&& v[0].name == "Pomodoro"@
    &&& v[0].parts == seq![
        part_view("Work"@, 25, false, true),
        part_view("Break"@, 5, false, false),
    ]
}

/// A part built from its fields.
pub(crate) fn make_part(name: &str, minutes: u64, extendable: bool, track_time: bool) -> (r: SessionPart)
    ensures
        r@ == part_view(name@, minutes, extendable, track_time),
{
    SessionPart { name: name.to_string(), minutes, extendable, track_time }
}

/// A session with a fresh id and two parts.
pub(crate) fn make_two_part_session(name: &str, first: SessionPart, second: SessionPart) -> (r: Session)
    ensures
        is_uuid_text(r@.id),
        r@.name == name@,
        r@.parts == seq![first@, second@],
{
    let mut parts: Vec<SessionPart> = Vec::new();
    parts.push(first);
    parts.push(second);
    assert(parts_view(parts@) =~= seq![first@, second@]);
    Session { id: new_session_id(), name: name.to_string(), parts }
}

impl Default for PomodoroSettings {
    fn default() -> (r: Self)
        ensures
            is_default_settings(r@),
    {
        let session = make_two_part_session(
            "Pomodoro",
            make_part("Work", 25, false, true),
            make_part("Break", 5, false, false),
        );
        let mut sessions: Vec<Session> = Vec::new();
        sessions.push(session);
        assert(sessions_view(sessions@) =~= seq![session@]);
        PomodoroSettings { sessions }
    }
}

} // verus!
