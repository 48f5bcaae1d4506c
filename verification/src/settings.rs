//! The settings file: its parsed form, the migrations from older formats,
//! and the rules a list of sessions must follow.

use vstd::prelude::*;
use vstd::string::*;

use crate::model::{
    find_session_index, index_of_id, is_default_settings, is_uuid_text, make_part,
    make_two_part_session, new_session_id, part_view, parts_view, sessions_view, PartView,
    PomodoroSettings, Session, SessionPart, SessionView,
};
use crate::text::{blank, decimal, is_blank, push_decimal};

verus! {

/// What the settings file's `activeSession` (or `activeSessionId`) entry
/// holds.
#[derive(Debug, Clone)]
pub enum ActiveRef {
    /// A string: a session UUID.
    Text(String),
    /// A number, with its value when it is an integer that fits `u64`.
    Number(Option<u64>),
    /// Any other value.
    Other,
}

/// A part as stored in the settings file.
#[derive(Debug, Clone)]
pub struct PartDef {
    pub name: String,
    pub minutes: u64,
    pub extendable: bool,
    pub track_time: bool,
}

/// A session as stored in the settings file.
#[derive(Debug, Clone)]
pub struct SessionDef {
    pub id: String,
    pub name: String,
    pub parts: Vec<PartDef>,
}

/// The parsed settings file. The `work_minutes` .. `session_type` fields
/// are only present in files of the older format.
#[derive(Debug, Clone, Default)]
pub struct SettingsFile {
    pub sessions: Option<Vec<SessionDef>>,
    pub active_session: Option<ActiveRef>,
    pub work_minutes: Option<u64>,
    pub break_minutes: Option<u64>,
    pub play_minutes: Option<u64>,
    pub play_break_minutes: Option<u64>,
    pub session_type: Option<String>,
}

impl View for PartDef {
    type V = PartView;

    open spec fn view(&self) -> PartView {
        PartView {
            name: self.name@,
            minutes: self.minutes,
            extendable: self.extendable,
            track_time: self.track_time,
        }
    }
}

/// The models of a sequence of stored parts.
pub open spec fn part_defs_view(parts: Seq<PartDef>) -> Seq<PartView> {
    parts.map_values(|p: PartDef| p@)
}

impl View for SessionDef {
    type V = SessionView;

    open spec fn view(&self) -> SessionView {
        SessionView { id: self.id@, name: self.name@, parts: part_defs_view(self.parts@) }
    }
}

/// The models of a sequence of stored sessions.
pub open spec fn session_defs_view(defs: Seq<SessionDef>) -> Seq<SessionView> {
    defs.map_values(|d: SessionDef| d@)
}

/// `value.unwrap_or(default)`.
pub open spec fn or_default(value: Option<u64>, default: u64) -> u64 {
    match value {
        Some(v) => v,
        None => default,
    }
}

/// The sessions built from an older settings file: "Pomodoro" (Work /
/// Break) and "Play / Break" (Play / Break), with the stored minutes or
/// 25 / 5 by default; only the first part of each is tracked.
pub open spec fn is_legacy_settings(v: Seq<SessionView>, file: SettingsFile) -> bool {
    &&& v.len() == 2
    &&& is_uuid_text(v[0].id)
    &&& is_uuid_text(v[1].id)
    &&& v[0].name == "Pomodoro"@
    &&& v[0].parts == seq![
        part_view("Work"@, or_default(file.work_minutes, 25), false, true),
        part_view("Break"@, or_default(file.break_minutes, 5), false, false),
    ]
    &&& v[1].name == "Play / Break"@
    &&& v[1].parts == seq![
        part_view("Play"@, or_default(file.play_minutes, 25), false, true),
        part_view("Break"@, or_default(file.play_break_minutes, 5), false, false),
    ]
}

fn option_or(value: Option<u64>, default: u64) -> (r: u64)
    ensures
        r == or_default(value, default),
{
    match value {
        Some(v) => v,
        None => default,
    }
}

/// Build default sessions from the minutes of an older settings file.
pub fn legacy_sessions(file: &SettingsFile) -> (r: Vec<Session>)
    ensures
        is_legacy_settings(sessions_view(r@), *file),
{
    let wm = option_or(file.work_minutes, 25);
    let bm = option_or(file.break_minutes, 5);
    let pm = option_or(file.play_minutes, 25);
    let pbm = option_or(file.play_break_minutes, 5);
    let pomodoro = make_two_part_session(
        "Pomodoro",
        make_part("Work", wm, false, true),
        make_part("Break", bm, false, false),
    );
    let play = make_two_part_session(
        "Play / Break",
        make_part("Play", pm, false, true),
        make_part("Break", pbm, false, false),
    );
    let mut sessions: Vec<Session> = Vec::new();
    sessions.push(pomodoro);
    sessions.push(play);
    assert(sessions_view(sessions@) =~= seq![pomodoro@, play@]);
    sessions
}


impl PartDef {
    /// The domain part with the same fields.
    fn to_part(&self) -> (r: SessionPart)
        ensures
            r@ == self@,
    {
        SessionPart {
            name: self.name.clone(),
            minutes: self.minutes,
            extendable: self.extendable,
            track_time: self.track_time,
        }
    }

    /// A copy of the stored part.
    fn duplicate(&self) -> (r: PartDef)
        ensures
            r@ == self@,
    {
        PartDef {
            name: self.name.clone(),
            minutes: self.minutes,
            extendable: self.extendable,
            track_time: self.track_time,
        }
    }
}

impl SessionDef {
    /// The domain session with the same fields.
    fn to_session(&self) -> (r: Session)
        ensures
            r@ == self@,
    {
        let mut parts: Vec<SessionPart> = Vec::new();
        let mut i: usize = 0;
        while i < self.parts.len()
            invariant
                i <= self.parts@.len(),
                parts@.len() == i,
                forall|k: int| 0 <= k < i ==> #[trigger] parts@[k]@ == self.parts@[k]@,
            decreases self.parts@.len() - i,
        {
            let p = self.parts[i].to_part();
            parts.push(p);
            i = i + 1;
        }
        assert(parts_view(parts@) =~= part_defs_view(self.parts@));
        Session { id: self.id.clone(), name: self.name.clone(), parts }
    }

    /// A copy of the stored session with another id.
    fn with_id(&self, id: String) -> (r: SessionDef)
        ensures
            r@ == (SessionView { id: id@, ..self@ }),
    {
        let mut parts: Vec<PartDef> = Vec::new();
        let mut i: usize = 0;
        while i < self.parts.len()
            invariant
                i <= self.parts@.len(),
                parts@.len() == i,
                forall|k: int| 0 <= k < i ==> #[trigger] parts@[k]@ == self.parts@[k]@,
            decreases self.parts@.len() - i,
        {
            let p = self.parts[i].duplicate();
            parts.push(p);
            i = i + 1;
        }
        assert(part_defs_view(parts@) =~= part_defs_view(self.parts@));
        SessionDef { id, name: self.name.clone(), parts }
    }
}

/// The id of the first session, or the empty text when there is none.
pub open spec fn first_id(v: Seq<SessionView>) -> Seq<char> {
    if v.len() > 0 {
        v[0].id
    } else {
        Seq::empty()
    }
}

/// The active session id named by a settings file: the stored id when a
/// session has it, the session at a stored (older format) index when there
/// is one, and otherwise the first session's id.
pub open spec fn resolve_active(v: Seq<SessionView>, active: Option<ActiveRef>) -> Seq<char> {
    match active {
        Some(ActiveRef::Text(id)) => if index_of_id(v, id@) is Some {
            id@
        } else {
            first_id(v)
        },
        Some(ActiveRef::Number(Some(n))) => if (n as usize) < v.len() {
            v[(n as usize) as int].id
        } else {
            first_id(v)
        },
        _ => first_id(v),
    }
}

/// Whether a file is of the older format (no sessions, but work or play
/// minutes).
pub open spec fn is_legacy_file(file: SettingsFile) -> bool {
    file.sessions is None && (file.work_minutes is Some || file.play_minutes is Some)
}

/// The settings and active id that a parsed settings file stands for: its
/// sessions when it has them; sessions migrated from the older format's
/// minutes; or the default settings for an empty file.
pub open spec fn is_settings_of_file(file: SettingsFile, v: Seq<SessionView>, active: Seq<char>) -> bool {
    match file.sessions {
        Some(defs) => v == session_defs_view(defs@) && active == resolve_active(
            session_defs_view(defs@),
            file.active_session,
        ),
        None => if file.work_minutes is Some || file.play_minutes is Some {
            is_legacy_settings(v, file) && active == v[0].id
        } else {
            is_default_settings(v) && active == v[0].id
        },
    }
}

/// The domain sessions of stored sessions.
fn sessions_from_defs(defs: &Vec<SessionDef>) -> (r: Vec<Session>)
    ensures
        sessions_view(r@) == session_defs_view(defs@),
{
    let mut out: Vec<Session> = Vec::new();
    let mut i: usize = 0;
    while i < defs.len()
        invariant
            i <= defs@.len(),
            out@.len() == i,
            forall|k: int| 0 <= k < i ==> #[trigger] out@[k]@ == defs@[k]@,
        decreases defs@.len() - i,
    {
        let s = defs[i].to_session();
        out.push(s);
        i = i + 1;
    }
    assert(sessions_view(out@) =~= session_defs_view(defs@));
    out
}

/// The id of the first session, or an empty string.
fn first_session_id(sessions: &Vec<Session>) -> (r: String)
    ensures
        r@ == first_id(sessions_view(sessions@)),
{
    if sessions.len() > 0 {
        sessions[0].id.clone()
    } else {
        String::new()
    }
}

/// Convert a parsed settings file into the domain model and the active
/// session id.
pub fn settings_from_file(file: SettingsFile) -> (r: (PomodoroSettings, String))
    ensures
        is_settings_of_file(file, r.0@, r.1@),
{
    match &file.sessions {
        Some(defs) => {
            let sessions = sessions_from_defs(defs);
            let ghost v = sessions_view(sessions@);
            let active_id = match &file.active_session {
                Some(ActiveRef::Text(id)) => {
                    if find_session_index(sessions.as_slice(), id.as_str()).is_some() {
                        id.clone()
                    } else {
                        first_session_id(&sessions)
                    }
                },
                Some(ActiveRef::Number(Some(n))) => {
                    let idx = *n as usize;
                    if idx < sessions.len() {
                        sessions[idx].id.clone()
                    } else {
                        first_session_id(&sessions)
                    }
                },
                _ => first_session_id(&sessions),
            };
            (PomodoroSettings { sessions }, active_id)
        },
        None => {
            if file.work_minutes.is_some() || file.play_minutes.is_some() {
                let sessions = legacy_sessions(&file);
                let active_id = sessions[0].id.clone();
                (PomodoroSettings { sessions }, active_id)
            } else {
                let settings = PomodoroSettings::default();
                let active_id = settings.sessions[0].id.clone();
                (settings, active_id)
            }
        },
    }
}

/// Load settings from a parsed file, migrating from the older format if
/// necessary. The flag is true when the settings were migrated and should
/// be written back so that the migration happens once.
pub fn load_settings(file: SettingsFile) -> (r: (PomodoroSettings, String, bool))
    ensures
        is_settings_of_file(file, r.0@, r.1@),
        r.2 == is_legacy_file(file),
{
    let has_legacy = file.sessions.is_none() && (file.work_minutes.is_some()
        || file.play_minutes.is_some());
    let (settings, active_id) = settings_from_file(file);
    (settings, active_id, has_legacy)
}


/// A stored session after the id migration: same name and parts; a fresh
/// UUID when it had no id.
pub open spec fn is_migrated_session(before: SessionView, after: SessionView) -> bool {
    &&& after.name == before.name
    &&& after.parts == before.parts
    &&& if before.id.len() == 0 {
        is_uuid_text(after.id)
    } else {
        after.id == before.id
    }
}

/// The stored session that an older file's numeric `activeSession` names,
/// when the file has sessions and the number is in range.
pub open spec fn numbered_active(parsed: SettingsFile, root_active_session: Option<ActiveRef>) -> Option<int> {
    match (root_active_session, parsed.sessions) {
        (Some(ActiveRef::Number(Some(n))), Some(defs)) => if (n as usize) < defs@.len() {
            Some((n as usize) as int)
        } else {
            None
        },
        _ => None,
    }
}

/// Finish reading a settings file: `parsed` is the file as deserialized,
/// `root_active_session` and `root_active_session_id` are the raw
/// `activeSession` and `activeSessionId` entries of the JSON document.
/// Sessions without an id receive a fresh UUID; an older file's numeric
/// `activeSession` is then turned into the id of the session it indexes
/// (the one just given when that session had none), so that the reference
/// and the session agree; a newer file's `activeSessionId` becomes the
/// active session.
pub fn load_settings_file(
    parsed: SettingsFile,
    root_active_session: Option<ActiveRef>,
    root_active_session_id: Option<ActiveRef>,
) -> (r: SettingsFile)
    ensures
        r.work_minutes == parsed.work_minutes,
        r.break_minutes == parsed.break_minutes,
        r.play_minutes == parsed.play_minutes,
        r.play_break_minutes == parsed.play_break_minutes,
        r.session_type == parsed.session_type,
        r.sessions is Some <==> parsed.sessions is Some,
        parsed.sessions matches Some(before) ==> r.sessions matches Some(after) && after@.len()
            == before@.len() && forall|i: int|
            0 <= i < before@.len() ==> is_migrated_session(
                #[trigger] before@[i]@,
                after@[i]@,
            ),
        numbered_active(parsed, root_active_session) matches Some(k) ==> r.active_session matches Some(
            ActiveRef::Text(t),
        ) && t@ == r.sessions->0@[k].id@,
        numbered_active(parsed, root_active_session) is None && root_active_session is Some
            ==> r.active_session == parsed.active_session,
        root_active_session is None ==> r.active_session == if root_active_session_id is Some {
            root_active_session_id
        } else {
            parsed.active_session
        },
{
    let SettingsFile {
        sessions,
        active_session,
        work_minutes,
        break_minutes,
        play_minutes,
        play_break_minutes,
        session_type,
    } = parsed;
    let mut active_session = active_session;

    // Sessions without an id receive one.
    let sessions = match sessions {
        Some(defs) => {
            let mut out: Vec<SessionDef> = Vec::new();
            let mut i: usize = 0;
            while i < defs.len()
                invariant
                    i <= defs@.len(),
                    out@.len() == i,
                    forall|k: int|
                        0 <= k < i ==> is_migrated_session(#[trigger] defs@[k]@, out@[k]@),
                decreases defs@.len() - i,
            {
                let id = if defs[i].id.as_str().is_empty() {
                    new_session_id()
                } else {
                    defs[i].id.clone()
                };
                let d = defs[i].with_id(id);
                out.push(d);
                i = i + 1;
            }
            Some(out)
        },
        None => None,
    };

    // An older file stores the active session as an index; it now names
    // the id that session carries.
    match &root_active_session {
        Some(active) => {
            if let ActiveRef::Number(Some(n)) = active {
                if let Some(defs) = &sessions {
                    let idx = *n as usize;
                    if idx < defs.len() {
                        active_session = Some(ActiveRef::Text(defs[idx].id.clone()));
                    }
                }
            }
        },
        None => {
            if root_active_session_id.is_some() {
                active_session = root_active_session_id;
            }
        },
    }

    SettingsFile {
        sessions,
        active_session,
        work_minutes,
        break_minutes,
        play_minutes,
        play_break_minutes,
        session_type,
    }
}


/// Index of the first part of `parts` (from `j` on) whose minutes lie
/// outside 1..=120.
pub open spec fn first_bad_part(parts: Seq<PartView>, j: int) -> Option<int>
    decreases parts.len() - j,
{
    if j < 0 || j >= parts.len() {
        None
    } else if parts[j].minutes < 1 || parts[j].minutes > 120 {
        Some(j)
    } else {
        first_bad_part(parts, j + 1)
    }
}

/// What is wrong with the session at position `i`, if anything: a blank
/// name, a number of parts outside 1..=10, or a part whose minutes lie
/// outside 1..=120 (the first such part).
pub open spec fn session_error(s: SessionView, i: int) -> Option<Seq<char>> {
    if is_blank(s.name) {
        Some("Session "@ + decimal((i + 1) as nat) + " name cannot be empty"@)
    } else if s.parts.len() < 1 || s.parts.len() > 10 {
        Some("Session '"@ + s.name + "' must have between 1 and 10 parts"@)
    } else {
        match first_bad_part(s.parts, 0) {
            Some(pi) => Some(
                "Part "@ + decimal((pi + 1) as nat) + " in session '"@ + s.name
                    + "' must be between 1 and 120 minutes"@,
            ),
            None => None,
        }
    }
}

/// The error of the first faulty session from position `i` on.
pub open spec fn first_session_error(v: Seq<SessionView>, i: int) -> Option<Seq<char>>
    decreases v.len() - i,
{
    if i < 0 || i >= v.len() {
        None
    } else {
        match session_error(v[i], i) {
            Some(e) => Some(e),
            None => first_session_error(v, i + 1),
        }
    }
}

/// Why a list of sessions is refused, if it is: there must be 1 to 5
/// sessions, each passing `session_error`; the first fault found is the one
/// reported.
pub open spec fn validation_error(v: Seq<SessionView>) -> Option<Seq<char>> {
    if v.len() < 1 || v.len() > 5 {
        Some("Must have between 1 and 5 sessions"@)
    } else {
        first_session_error(v, 0)
    }
}

/// The rules a list of sessions must follow: 1 to 5 sessions, each with a
/// name that is not blank and 1 to 10 parts of 1 to 120 minutes.
pub open spec fn sessions_valid(v: Seq<SessionView>) -> bool {
    &&& 1 <= v.len() <= 5
    &&& forall|i: int|
        0 <= i < v.len() ==> {
            &&& !is_blank(#[trigger] v[i].name)
            &&& 1 <= v[i].parts.len() <= 10
            &&& forall|j: int| 0 <= j < v[i].parts.len() ==> 1 <= #[trigger] v[i].parts[j].minutes <= 120
        }
}

proof fn lemma_first_bad_part(parts: Seq<PartView>, k: int)
    requires
        0 <= k,
    ensures
        first_bad_part(parts, k) is None <==> forall|j: int|
            k <= j < parts.len() ==> 1 <= #[trigger] parts[j].minutes <= 120,
    decreases parts.len() - k,
{
    if k < parts.len() {
        lemma_first_bad_part(parts, k + 1);
    }
}

proof fn lemma_first_session_error(v: Seq<SessionView>, k: int)
    requires
        0 <= k,
    ensures
        first_session_error(v, k) is None <==> forall|i: int|
            k <= i < v.len() ==> #[trigger] session_error(v[i], i) is None,
    decreases v.len() - k,
{
    if k < v.len() {
        lemma_first_session_error(v, k + 1);
    }
}

/// A list of sessions passes validation exactly when it follows the rules.
pub proof fn lemma_validation(v: Seq<SessionView>)
    ensures
        validation_error(v) is None <==> sessions_valid(v),
{
    lemma_first_session_error(v, 0);
    assert forall|i: int| 0 <= i < v.len() implies (session_error(v[i], i) is None <==> {
        &&& !is_blank(v[i].name)
        &&& 1 <= v[i].parts.len() <= 10
        &&& forall|j: int| 0 <= j < v[i].parts.len() ==> 1 <= #[trigger] v[i].parts[j].minutes <= 120
    }) by {
        lemma_first_bad_part(v[i].parts, 0);
    }
    if validation_error(v) is None {
        assert forall|i: int| 0 <= i < v.len() implies {
            &&& !is_blank(#[trigger] v[i].name)
            &&& 1 <= v[i].parts.len() <= 10
            &&& forall|j: int| 0 <= j < v[i].parts.len() ==> 1 <= #[trigger] v[i].parts[j].minutes <= 120
        } by {
            assert(session_error(v[i], i) is None);
        }
    }
    if sessions_valid(v) {
        assert forall|i: int| 0 <= i < v.len() implies #[trigger] session_error(v[i], i) is None by {
            assert(!is_blank(v[i].name));
        }
    }
}

/// Validate a list of sessions before it replaces the settings.
pub fn validate_sessions(sessions: &[Session]) -> (r: Result<(), String>)
    ensures
        r is Ok <==> validation_error(sessions_view(sessions@)) is None,
        r matches Err(e) ==> Some(e@) == validation_error(sessions_view(sessions@)),
{
    let ghost v = sessions_view(sessions@);
    if sessions.len() == 0 || sessions.len() > 5 {
        return Err("Must have between 1 and 5 sessions".to_string());
    }
    let mut si: usize = 0;
    while si < sessions.len()
        invariant
            v == sessions_view(sessions@),
            1 <= v.len() <= 5,
            si <= v.len(),
            validation_error(v) == first_session_error(v, si as int),
        decreases v.len() - si,
    {
        let session = &sessions[si];
        assert(session@ == v[si as int]);
        if blank(session.name.as_str()) {
            let mut e = String::new();
            e.append("Session ");
            push_decimal(&mut e, (si + 1) as u64);
            e.append(" name cannot be empty");
            return Err(e);
        }
        if session.parts.len() == 0 || session.parts.len() > 10 {
            let mut e = String::new();
            e.append("Session '");
            e.append(session.name.as_str());
            e.append("' must have between 1 and 10 parts");
            return Err(e);
        }
        let mut pi: usize = 0;
        while pi < session.parts.len()
            invariant
                v == sessions_view(sessions@),
                si < v.len(),
                validation_error(v) == first_session_error(v, si as int),
                session@ == v[si as int],
                !is_blank(session@.name),
                1 <= session.parts@.len() <= 10,
                pi <= session.parts@.len(),
                first_bad_part(session@.parts, 0) == first_bad_part(session@.parts, pi as int),
            decreases session.parts@.len() - pi,
        {
            assert(session.parts@[pi as int]@ == session@.parts[pi as int]);
            let minutes = session.parts[pi].minutes;
            if minutes < 1 || minutes > 120 {
                let mut e = String::new();
                e.append("Part ");
                push_decimal(&mut e, (pi + 1) as u64);
                e.append(" in session '");
                e.append(session.name.as_str());
                e.append("' must be between 1 and 120 minutes");
                return Err(e);
            }
            pi = pi + 1;
        }
        si = si + 1;
    }
    Ok(())
}

} // verus!
