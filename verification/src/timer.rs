//! The timer: its state, the snapshot a frontend renders, and the
//! transitions taken by the commands and by the once-per-second tick.

use vstd::prelude::*;
use vstd::string::*;

use crate::model::{
    active_index, duplicate_sessions, find_session_index, index_of_id, lemma_index_of_id,
    minutes_to_seconds, new_session_id, part_seconds, seconds_fit, sessions_view, PartView,
    PomodoroSettings, Session, SessionView,
};
use crate::settings::{
    is_migrated_session, lemma_validation, validate_sessions, validation_error,
};
use crate::text::{blank, decimal, is_blank, push_decimal};

verus! {

/// The snapshot of the timer that a frontend renders.
#[derive(Debug, Clone)]
pub struct TimerTick {
    pub remaining_seconds: i64,
    pub session_name: String,
    pub part_name: String,
    pub part_index: usize,
    pub running: bool,
    pub paused: bool,
    pub daily_total_seconds: u64,
    pub active_session_id: String,
    pub session_count: usize,
}

/// The timer's state.
#[derive(Debug)]
pub struct PomodoroState {
    /// UUID of the currently active session.
    pub active_session_id: String,
    pub current_part_index: usize,
    pub remaining_seconds: i64,
    pub settings: PomodoroSettings,
    pub running: bool,
    pub paused: bool,
    /// Accumulated tracked overtime seconds for the current part (recorded
    /// on Continue/Stop). Only increments when the part tracks time.
    pub overtime_tracked_seconds: u64,
    /// Whether the window is in dock mode.
    pub is_docked: bool,
    /// When true, a part's minutes are counted as seconds.
    pub test_mode: bool,
    /// Moves on at every Start, so that the ticking loop of an earlier run
    /// can tell that it is no longer the current one.
    pub run_generation: u64,
}

/// Mathematical model of a [`PomodoroState`].
pub struct StateView {
    pub active_session_id: Seq<char>,
    pub current_part_index: usize,
    pub remaining_seconds: i64,
    pub sessions: Seq<SessionView>,
    pub running: bool,
    pub paused: bool,
    pub overtime_tracked_seconds: u64,
    pub is_docked: bool,
    pub test_mode: bool,
    pub run_generation: u64,
}

impl View for PomodoroState {
    type V = StateView;

    open spec fn view(&self) -> StateView {
        StateView {
            active_session_id: self.active_session_id@,
            current_part_index: self.current_part_index,
            remaining_seconds: self.remaining_seconds,
            sessions: self.settings@,
            running: self.running,
            paused: self.paused,
            overtime_tracked_seconds: self.overtime_tracked_seconds,
            is_docked: self.is_docked,
            test_mode: self.test_mode,
            run_generation: self.run_generation,
        }
    }
}

/// Mathematical model of a [`TimerTick`].
pub struct TickView {
    pub remaining_seconds: i64,
    pub session_name: Seq<char>,
    pub part_name: Seq<char>,
    pub part_index: usize,
    pub running: bool,
    pub paused: bool,
    pub daily_total_seconds: u64,
    pub active_session_id: Seq<char>,
    pub session_count: usize,
}

impl View for TimerTick {
    type V = TickView;

    open spec fn view(&self) -> TickView {
        TickView {
            remaining_seconds: self.remaining_seconds,
            session_name: self.session_name@,
            part_name: self.part_name@,
            part_index: self.part_index,
            running: self.running,
            paused: self.paused,
            daily_total_seconds: self.daily_total_seconds,
            active_session_id: self.active_session_id@,
            session_count: self.session_count,
        }
    }
}

/// Index of the session the state shows: the active one, or the first when
/// the active id names no session.
pub open spec fn shown_index(st: StateView) -> int {
    active_index(st.sessions, st.active_session_id)
}

/// The session the state shows.
pub open spec fn shown_session(st: StateView) -> SessionView {
    st.sessions[shown_index(st)]
}

/// Whether the state's current part exists.
pub open spec fn has_current_part(st: StateView) -> bool {
    st.sessions.len() > 0 && st.current_part_index < shown_session(st).parts.len()
}

/// The name shown for a part: its name, or "Part N" (N counted from 1)
/// when the name is blank.
pub open spec fn display_part_name(name: Seq<char>, index: usize) -> Seq<char> {
    if is_blank(name) {
        "Part "@ + decimal((index + 1) as nat)
    } else {
        name
    }
}

/// The snapshot of a state, with the day's tracked total.
pub open spec fn tick_of(st: StateView, daily_total: u64) -> TickView {
    TickView {
        remaining_seconds: st.remaining_seconds,
        session_name: shown_session(st).name,
        part_name: display_part_name(
            shown_session(st).parts[st.current_part_index as int].name,
            st.current_part_index,
        ),
        part_index: st.current_part_index,
        running: st.running,
        paused: st.paused,
        daily_total_seconds: daily_total,
        active_session_id: st.active_session_id,
        session_count: st.sessions.len() as usize,
    }
}

impl PomodoroState {
    /// Index of the session the state shows.
    fn shown(&self) -> (r: usize)
        requires
            self.settings.sessions@.len() > 0,
        ensures
            r as int == shown_index(self@),
            r < self.settings.sessions@.len(),
    {
        proof {
            lemma_index_of_id(self.settings@, self.active_session_id@);
        }
        match find_session_index(self.settings.sessions.as_slice(), self.active_session_id.as_str()) {
            Some(i) => i,
            None => 0,
        }
    }

    /// Whether the current part exists, so that a tick can be built.
    pub fn has_current_part(&self) -> (r: bool)
        ensures
            r == has_current_part(self@),
    {
        if self.settings.sessions.len() == 0 {
            return false;
        }
        let idx = self.shown();
        assert(self.settings.sessions@[idx as int]@ == self@.sessions[idx as int]);
        self.current_part_index < self.settings.sessions[idx].parts.len()
    }
}

/// Build a tick from the current state.
pub fn build_tick(state: &PomodoroState, daily_total: u64) -> (r: TimerTick)
    requires
        has_current_part(state@),
    ensures
        r@ == tick_of(state@, daily_total),
{
    let idx = state.shown();
    let session = &state.settings.sessions[idx];
    assert(session@ == shown_session(state@));
    assert(session@.parts.len() == session.parts@.len());
    let part_count = session.parts.len();
    assert(state.current_part_index < part_count);
    let part = &session.parts[state.current_part_index];
    assert(part@ == shown_session(state@).parts[state.current_part_index as int]);
    let part_name = if blank(part.name.as_str()) {
        let mut n = String::new();
        n.append("Part ");
        push_decimal(&mut n, (state.current_part_index + 1) as u64);
        n
    } else {
        part.name.clone()
    };
    TimerTick {
        remaining_seconds: state.remaining_seconds,
        session_name: session.name.clone(),
        part_name,
        part_index: state.current_part_index,
        running: state.running,
        paused: state.paused,
        daily_total_seconds: daily_total,
        active_session_id: state.active_session_id.clone(),
        session_count: state.settings.sessions.len(),
    }
}

/// `a - b`, held at `i64::MIN` / `i64::MAX` instead of overflowing.
fn saturating_sub_i64(a: i64, b: i64) -> (r: i64)
    ensures
        r == if a - b > i64::MAX {
            i64::MAX as int
        } else if a - b < i64::MIN {
            i64::MIN as int
        } else {
            a - b
        },
{
    match a.checked_sub(b) {
        Some(d) => d,
        None => if b < 0 {
            i64::MAX
        } else {
            i64::MIN
        },
    }
}

/// Seconds to record when a running timer is stopped: nothing for a part
/// that does not track time; the accumulated overtime for a part paused in
/// overtime (its full length was recorded when it reached zero); otherwise
/// the seconds elapsed in the part (`full - remaining`, saturating at the
/// bounds of `i64`), when there are any.
pub open spec fn tracked_on_stop(
    track_time: bool,
    part_full_seconds: u64,
    paused: bool,
    remaining_seconds: i64,
    overtime_tracked_seconds: u64,
) -> Option<u64> {
    if !track_time {
        None
    } else if paused {
        if overtime_tracked_seconds > 0 {
            Some(overtime_tracked_seconds)
        } else {
            None
        }
    } else {
        let diff = (part_full_seconds as i64) - remaining_seconds;
        let elapsed = if diff > i64::MAX {
            i64::MAX as int
        } else {
            diff
        };
        if elapsed > 0 {
            Some(elapsed as u64)
        } else {
            None
        }
    }
}

/// Calculate tracked seconds to record when stopping a running timer.
/// Returns `None` if the part does not track time or no time has elapsed.
pub fn stop_tracked_seconds(
    track_time: bool,
    part_full_seconds: u64,
    paused: bool,
    remaining_seconds: i64,
    overtime_tracked_seconds: u64,
) -> (r: Option<u64>)
    ensures
        r == tracked_on_stop(
            track_time,
            part_full_seconds,
            paused,
            remaining_seconds,
            overtime_tracked_seconds,
        ),
{
    if !track_time {
        return None;
    }
    if paused {
        if overtime_tracked_seconds > 0 {
            Some(overtime_tracked_seconds)
        } else {
            None
        }
    } else {
        let full = part_full_seconds as i64;
        let elapsed = saturating_sub_i64(full, remaining_seconds).max(0) as u64;
        if elapsed > 0 {
            Some(elapsed)
        } else {
            None
        }
    }
}

/// Result of advancing past an extendable part paused in overtime.
#[derive(Debug, Clone, Copy)]
pub struct ContinueAdvance {
    pub new_part_index: usize,
    pub new_remaining_seconds: i64,
    pub new_running: bool,
    pub new_paused: bool,
}

/// What Continue does on an extendable part paused in overtime: go on to
/// the next part, running; after the last part, stop and reset to the first.
pub fn continue_advance(
    current_part_index: usize,
    part_seconds: &[i64],
    first_part_seconds: i64,
) -> (r: ContinueAdvance)
    requires
        current_part_index < usize::MAX,
    ensures
        current_part_index + 1 < part_seconds@.len() ==> r == (ContinueAdvance {
            new_part_index: (current_part_index + 1) as usize,
            new_remaining_seconds: part_seconds@[current_part_index + 1],
            new_running: true,
            new_paused: false,
        }),
        current_part_index + 1 >= part_seconds@.len() ==> r == (ContinueAdvance {
            new_part_index: 0,
            new_remaining_seconds: first_part_seconds,
            new_running: false,
            new_paused: false,
        }),
{
    if current_part_index + 1 < part_seconds.len() {
        ContinueAdvance {
            new_part_index: current_part_index + 1,
            new_remaining_seconds: part_seconds[current_part_index + 1],
            new_running: true,
            new_paused: false,
        }
    } else {
        ContinueAdvance {
            new_part_index: 0,
            new_remaining_seconds: first_part_seconds,
            new_running: false,
            new_paused: false,
        }
    }
}


// ---------------------------------------------------------------------------
// The running timer
// ---------------------------------------------------------------------------

/// One part of the running session, as the ticking loop sees it (taken
/// when the timer starts).
#[derive(Debug, Clone, Copy)]
pub struct PartPlan {
    pub seconds: i64,
    pub extendable: bool,
    pub track_time: bool,
}

/// The plan of a list of parts.
pub open spec fn plan_of(parts: Seq<PartView>, test_mode: bool) -> Seq<PartPlan> {
    parts.map_values(
        |p: PartView|
            PartPlan {
                seconds: part_seconds(p.minutes, test_mode),
                extendable: p.extendable,
                track_time: p.track_time,
            },
    )
}

/// Every part's length in seconds fits.
pub open spec fn parts_fit(parts: Seq<PartView>, test_mode: bool) -> bool {
    forall|i: int| 0 <= i < parts.len() ==> seconds_fit(#[trigger] parts[i].minutes, test_mode)
}

/// What a tick reports to the loop that drives it.
#[derive(Debug, Clone, Copy)]
pub struct TickOutcome {
    /// The timer was no longer running: the loop ends.
    pub halted: bool,
    /// A tracked part reached zero: its index and full length in seconds,
    /// to be recorded.
    pub completed: Option<(usize, u64)>,
    /// The last part finished and the timer stopped.
    pub phase_ended: bool,
}

/// Seconds spent counting down after a tick: one fewer while positive.
pub open spec fn counted_down(remaining: i64) -> int {
    if remaining > 0 {
        remaining - 1
    } else {
        remaining as int
    }
}

/// Whether a tick that carries `generation` belongs to the current run:
/// the timer runs and was last started under that generation.
pub open spec fn tick_is_current(st: StateView, generation: u64) -> bool {
    st.running && generation == st.run_generation
}

/// What a tick needs: when it belongs to the current run, the current part
/// is in the plan, and overtime counts stay within their types.
pub open spec fn tick_allowed(st: StateView, plan: Seq<PartPlan>, generation: u64) -> bool {
    tick_is_current(st, generation) ==> {
        &&& st.current_part_index < plan.len()
        &&& st.paused ==> st.remaining_seconds > i64::MIN
        &&& st.paused && plan[st.current_part_index as int].track_time
            ==> st.overtime_tracked_seconds < u64::MAX
    }
}

/// Seconds of time tracked for a finished part of `seconds` length.
pub open spec fn full_length(seconds: i64) -> u64 {
    if seconds > 0 {
        seconds as u64
    } else {
        0
    }
}

/// A part that will be recorded: whose, which, and how many seconds.
#[derive(Debug, Clone)]
pub struct TrackedTime {
    pub session_id: String,
    pub part_index: usize,
    pub seconds: u64,
}

/// The state moved back to the first part of the shown session, with its
/// full length remaining and no pause or overtime.
pub open spec fn rewound(st: StateView) -> StateView {
    StateView {
        current_part_index: 0,
        remaining_seconds: part_seconds(shown_session(st).parts[0].minutes, st.test_mode),
        paused: false,
        overtime_tracked_seconds: 0,
        ..st
    }
}

/// What stopping needs: a running timer's current part and first part
/// exist and their lengths fit.
pub open spec fn stop_allowed(st: StateView) -> bool {
    st.running ==> {
        &&& has_current_part(st)
        &&& seconds_fit(shown_session(st).parts[st.current_part_index as int].minutes, st.test_mode)
        &&& seconds_fit(shown_session(st).parts[0].minutes, st.test_mode)
    }
}

/// What continuing needs: a paused timer's session has parts whose lengths
/// fit.
pub open spec fn continue_allowed(st: StateView) -> bool {
    st.paused ==> {
        &&& st.sessions.len() > 0
        &&& shown_session(st).parts.len() > 0
        &&& parts_fit(shown_session(st).parts, st.test_mode)
        &&& st.current_part_index < usize::MAX
    }
}

/// What switching to session `id` needs: when it is allowed and `id`
/// exists, that session's first part exists and its length fits.
pub open spec fn switch_allowed(st: StateView, id: Seq<char>) -> bool {
    !st.running ==> match index_of_id(st.sessions, id) {
        Some(i) => st.sessions[i].parts.len() > 0 && seconds_fit(
            st.sessions[i].parts[0].minutes,
            st.test_mode,
        ),
        None => true,
    }
}

/// What a fresh state needs: the shown session and its first part exist
/// and the part's length fits.
pub open spec fn start_allowed(sessions: Seq<SessionView>, active_id: Seq<char>, test_mode: bool) -> bool {
    &&& sessions.len() > 0
    &&& sessions[active_index(sessions, active_id)].parts.len() > 0
    &&& seconds_fit(sessions[active_index(sessions, active_id)].parts[0].minutes, test_mode)
}

/// The generation that follows `g` (wrapping around after the largest).
pub open spec fn next_generation(g: u64) -> u64 {
    if g == u64::MAX {
        0
    } else {
        (g + 1) as u64
    }
}

/// The state after Start: running, out of any pause, with no overtime, in
/// a new run generation.
pub open spec fn after_start(st: StateView) -> StateView {
    StateView {
        running: true,
        paused: false,
        overtime_tracked_seconds: 0,
        run_generation: next_generation(st.run_generation),
        ..st
    }
}

/// The state after Stop: stopped and rewound to the first part.
pub open spec fn after_stop(st: StateView) -> StateView {
    StateView { running: false, ..rewound(st) }
}

/// The seconds Stop reports for recording (see `tracked_on_stop`).
pub open spec fn seconds_on_stop(st: StateView) -> Option<u64> {
    let part = shown_session(st).parts[st.current_part_index as int];
    tracked_on_stop(
        part.track_time,
        part_seconds(part.minutes, st.test_mode) as u64,
        st.paused,
        st.remaining_seconds,
        st.overtime_tracked_seconds,
    )
}

/// The state after Continue: the next part, running, when there is one;
/// otherwise stopped at the first part. Both with their full length and
/// no pause or overtime.
pub open spec fn after_continue(st: StateView) -> StateView {
    let idx = st.current_part_index;
    let plan = plan_of(shown_session(st).parts, st.test_mode);
    if idx + 1 < plan.len() {
        StateView {
            current_part_index: (idx + 1) as usize,
            remaining_seconds: plan[idx + 1].seconds,
            running: true,
            paused: false,
            overtime_tracked_seconds: 0,
            ..st
        }
    } else {
        StateView {
            current_part_index: 0,
            remaining_seconds: plan[0].seconds,
            running: false,
            paused: false,
            overtime_tracked_seconds: 0,
            ..st
        }
    }
}

/// The state after switching to the session `id`: that session is active,
/// rewound to its first part.
pub open spec fn after_switch(st: StateView, id: Seq<char>) -> StateView {
    rewound(StateView { active_session_id: id, ..st })
}

/// The state after the sessions are replaced by `sessions`: the active
/// session stays when it still exists and is otherwise the first one; a
/// stopped timer rewinds to the first part of the shown session.
pub open spec fn after_update(st: StateView, sessions: Seq<SessionView>) -> StateView {
    let active = if index_of_id(sessions, st.active_session_id) is Some {
        st.active_session_id
    } else {
        sessions[0].id
    };
    let moved = StateView { active_session_id: active, sessions, ..st };
    if st.running {
        moved
    } else {
        rewound(moved)
    }
}

/// The state after one second of the timer (see `PomodoroState::tick`).
pub open spec fn after_tick(st: StateView, plan: Seq<PartPlan>, generation: u64) -> StateView {
    let down = counted_down(st.remaining_seconds);
    let idx = st.current_part_index as int;
    if !tick_is_current(st, generation) {
        st
    } else if down == 0 && !st.paused {
        if plan[idx].extendable {
            StateView { remaining_seconds: 0, paused: true, ..st }
        } else if idx + 1 < plan.len() {
            StateView {
                current_part_index: (idx + 1) as usize,
                remaining_seconds: plan[idx + 1].seconds,
                ..st
            }
        } else {
            StateView { running: false, current_part_index: 0, remaining_seconds: plan[0].seconds, ..st }
        }
    } else if st.paused {
        StateView {
            remaining_seconds: (down - 1) as i64,
            overtime_tracked_seconds: if plan[idx].track_time {
                (st.overtime_tracked_seconds + 1) as u64
            } else {
                st.overtime_tracked_seconds
            },
            ..st
        }
    } else {
        StateView { remaining_seconds: down as i64, ..st }
    }
}

/// What one second of the timer reports: halted when it was not running or
/// the tick belongs to an earlier run; the finished part's full length when
/// a tracked part reached zero; the end of the phase when the last part
/// finished.
pub open spec fn tick_report(st: StateView, plan: Seq<PartPlan>, generation: u64) -> TickOutcome {
    let idx = st.current_part_index as int;
    if !tick_is_current(st, generation) {
        TickOutcome { halted: true, completed: None, phase_ended: false }
    } else if counted_down(st.remaining_seconds) == 0 && !st.paused {
        TickOutcome {
            halted: false,
            completed: if plan[idx].track_time {
                Some((st.current_part_index, full_length(plan[idx].seconds)))
            } else {
                None
            },
            phase_ended: !plan[idx].extendable && idx + 1 >= plan.len(),
        }
    } else {
        TickOutcome { halted: false, completed: None, phase_ended: false }
    }
}

impl PomodoroState {
    /// The state at startup: the shown session's first part, stopped.
    pub fn new(settings: PomodoroSettings, active_session_id: String, test_mode: bool) -> (r: PomodoroState)
        requires
            start_allowed(settings@, active_session_id@, test_mode),
        ensures
            r@ == (StateView {
                active_session_id: active_session_id@,
                current_part_index: 0,
                remaining_seconds: part_seconds(
                    settings@[active_index(settings@, active_session_id@)].parts[0].minutes,
                    test_mode,
                ),
                sessions: settings@,
                running: false,
                paused: false,
                overtime_tracked_seconds: 0,
                is_docked: false,
                test_mode,
                run_generation: 0,
            }),
    {
        proof {
            lemma_index_of_id(settings@, active_session_id@);
        }
        let idx = match find_session_index(settings.sessions.as_slice(), active_session_id.as_str()) {
            Some(i) => i,
            None => 0,
        };
        assert(settings.sessions@[idx as int]@ == settings@[idx as int]);
        assert(settings.sessions@[idx as int].parts@[0]@ == settings@[idx as int].parts[0]);
        let remaining = minutes_to_seconds(
            settings.sessions[idx].parts[0].minutes,
            test_mode,
        );
        PomodoroState {
            active_session_id,
            current_part_index: 0,
            remaining_seconds: remaining,
            settings,
            running: false,
            paused: false,
            overtime_tracked_seconds: 0,
            is_docked: false,
            test_mode,
            run_generation: 0,
        }
    }

    /// Whether a fresh state can be made from these settings.
    pub fn can_start(settings: &PomodoroSettings, active_session_id: &str, test_mode: bool) -> (r: bool)
        ensures
            r == start_allowed(settings@, active_session_id@, test_mode),
    {
        if settings.sessions.len() == 0 {
            return false;
        }
        proof {
            lemma_index_of_id(settings@, active_session_id@);
        }
        let idx = match find_session_index(settings.sessions.as_slice(), active_session_id) {
            Some(i) => i,
            None => 0,
        };
        assert(settings.sessions@[idx as int]@ == settings@[idx as int]);
        let parts = &settings.sessions[idx].parts;
        assert(parts@.len() == settings@[idx as int].parts.len());
        if parts.len() == 0 {
            return false;
        }
        assert(parts@[0]@ == settings@[idx as int].parts[0]);
        test_mode || parts[0].minutes <= u64::MAX / 60
    }

    /// Start the timer: it runs from where it stands, out of any pause, in
    /// a new run generation; a ticking loop for this run carries
    /// `run_generation` as it stands afterwards.
    pub fn start(&mut self) -> (r: Result<(), String>)
        ensures
            old(self)@.running ==> (r matches Err(e) && e@ == "Timer is already running"@
                && final(self)@ == old(self)@),
            !old(self)@.running ==> r is Ok && final(self)@ == after_start(old(self)@),
    {
        if self.running {
            return Err("Timer is already running".to_string());
        }
        self.running = true;
        self.paused = false;
        self.overtime_tracked_seconds = 0;
        self.run_generation = if self.run_generation == u64::MAX {
            0
        } else {
            self.run_generation + 1
        };
        Ok(())
    }

    /// Whether the plan of the shown session can be taken.
    pub fn can_plan(&self) -> (r: bool)
        ensures
            r == (self@.sessions.len() > 0 && parts_fit(shown_session(self@).parts, self@.test_mode)),
    {
        if self.settings.sessions.len() == 0 {
            return false;
        }
        let idx = self.shown();
        let parts = &self.settings.sessions[idx].parts;
        assert(self.settings.sessions@[idx as int]@ == shown_session(self@));
        let mut i: usize = 0;
        while i < parts.len()
            invariant
                parts@ == self.settings.sessions@[idx as int].parts@,
                self.settings.sessions@[idx as int]@ == shown_session(self@),
                i <= parts@.len(),
                forall|j: int| 0 <= j < i ==> seconds_fit(#[trigger] shown_session(self@).parts[j].minutes, self@.test_mode),
            decreases parts@.len() - i,
        {
            assert(parts@[i as int]@ == shown_session(self@).parts[i as int]);
            if !self.test_mode && parts[i].minutes > u64::MAX / 60 {
                assert(!seconds_fit(shown_session(self@).parts[i as int].minutes, self@.test_mode));
                return false;
            }
            i = i + 1;
        }
        true
    }

    /// The parts of the shown session as the ticking loop uses them.
    pub fn part_plan(&self) -> (r: Vec<PartPlan>)
        requires
            self@.sessions.len() > 0,
            parts_fit(shown_session(self@).parts, self@.test_mode),
        ensures
            r@ == plan_of(shown_session(self@).parts, self@.test_mode),
    {
        let idx = self.shown();
        let parts = &self.settings.sessions[idx].parts;
        assert(self.settings.sessions@[idx as int]@ == shown_session(self@));
        let mut plan: Vec<PartPlan> = Vec::new();
        let mut i: usize = 0;
        while i < parts.len()
            invariant
                parts@ == self.settings.sessions@[idx as int].parts@,
                self.settings.sessions@[idx as int]@ == shown_session(self@),
                parts_fit(shown_session(self@).parts, self@.test_mode),
                i <= parts@.len(),
                plan@.len() == i,
                forall|j: int| 0 <= j < i ==> #[trigger] plan@[j] == plan_of(shown_session(self@).parts, self@.test_mode)[j],
            decreases parts@.len() - i,
        {
            assert(parts@[i as int]@ == shown_session(self@).parts[i as int]);
            assert(seconds_fit(shown_session(self@).parts[i as int].minutes, self@.test_mode));
            let p = &parts[i];
            plan.push(
                PartPlan {
                    seconds: minutes_to_seconds(p.minutes, self.test_mode),
                    extendable: p.extendable,
                    track_time: p.track_time,
                },
            );
            i = i + 1;
        }
        assert(plan@ =~= plan_of(shown_session(self@).parts, self@.test_mode));
        plan
    }

    /// Whether a tick carrying `generation` may be taken with this plan.
    pub fn can_tick(&self, plan: &[PartPlan], generation: u64) -> (r: bool)
        ensures
            r == tick_allowed(self@, plan@, generation),
    {
        if !self.running || generation != self.run_generation {
            return true;
        }
        if self.current_part_index >= plan.len() {
            return false;
        }
        if self.paused {
            if self.remaining_seconds == i64::MIN {
                return false;
            }
            if plan[self.current_part_index].track_time && self.overtime_tracked_seconds == u64::MAX {
                return false;
            }
        }
        true
    }

    /// One second of the running timer. The remaining time counts down to
    /// zero; at zero an extendable part pauses in overtime, another part
    /// hands over to the next part, and the last part stops the timer and
    /// rewinds it to the first part. A tracked part that reaches zero is
    /// reported for recording. In overtime the remaining time goes on below
    /// zero and, for a tracked part, the overtime seconds are counted.
    /// A tick that carries another generation than the state's comes from
    /// the loop of an earlier run: it changes nothing and reports a halt.
    pub fn tick(&mut self, plan: &[PartPlan], generation: u64) -> (r: TickOutcome)
        requires
            tick_allowed(old(self)@, plan@, generation),
        ensures
            final(self)@ == after_tick(old(self)@, plan@, generation),
            r == tick_report(old(self)@, plan@, generation),
    {
        if !self.running || generation != self.run_generation {
            return TickOutcome { halted: true, completed: None, phase_ended: false };
        }
        let mut completed: Option<(usize, u64)> = None;
        let mut phase_ended = false;
        if self.remaining_seconds > 0 {
            self.remaining_seconds = self.remaining_seconds - 1;
        }
        if self.remaining_seconds == 0 && !self.paused {
            let idx = self.current_part_index;
            if plan[idx].extendable {
                self.paused = true;
            } else if idx + 1 < plan.len() {
                self.current_part_index = idx + 1;
                self.remaining_seconds = plan[idx + 1].seconds;
            } else {
                self.running = false;
                self.current_part_index = 0;
                self.remaining_seconds = plan[0].seconds;
                phase_ended = true;
            }
            if plan[idx].track_time {
                completed = Some((idx, plan[idx].seconds.max(0) as u64));
            }
        } else if self.paused {
            self.remaining_seconds = self.remaining_seconds - 1;
            if plan[self.current_part_index].track_time {
                self.overtime_tracked_seconds = self.overtime_tracked_seconds + 1;
            }
        }
        TickOutcome { halted: false, completed, phase_ended }
    }

    /// Whether stopping is possible from this state.
    pub fn can_stop(&self) -> (r: bool)
        ensures
            r == stop_allowed(self@),
    {
        if !self.running {
            return true;
        }
        if !self.has_current_part() {
            return false;
        }
        let idx = self.shown();
        let parts = &self.settings.sessions[idx].parts;
        assert(self.settings.sessions@[idx as int]@ == shown_session(self@));
        assert(parts@[self.current_part_index as int]@ == shown_session(self@).parts[self.current_part_index as int]);
        assert(parts@[0]@ == shown_session(self@).parts[0]);
        self.test_mode || (parts[self.current_part_index].minutes <= u64::MAX / 60 && parts[0].minutes
            <= u64::MAX / 60)
    }

    /// Stop the timer: the part's tracked time (see `tracked_on_stop`) is
    /// reported for recording, and the timer rewinds to the first part of
    /// the shown session.
    pub fn stop(&mut self) -> (r: Result<Option<TrackedTime>, String>)
        requires
            stop_allowed(old(self)@),
        ensures
            !old(self)@.running ==> (r matches Err(e) && e@ == "Timer is not running"@
                && final(self)@ == old(self)@),
            old(self)@.running ==> {
                &&& final(self)@ == after_stop(old(self)@)
                &&& r matches Ok(t)
                &&& match seconds_on_stop(old(self)@) {
                    Some(seconds) => t matches Some(tt) && tt.session_id@ == old(self)@.active_session_id
                        && tt.part_index == old(self)@.current_part_index && tt.seconds == seconds,
                    None => t is None,
                }
            },
    {
        if !self.running {
            return Err("Timer is not running".to_string());
        }
        let idx = self.shown();
        assert(self.settings.sessions@[idx as int]@ == shown_session(self@));
        let (track_time, full_seconds, first_seconds) = {
            let parts = &self.settings.sessions[idx].parts;
            assert(parts@[self.current_part_index as int]@ == shown_session(self@).parts[self.current_part_index as int]);
            assert(parts@[0]@ == shown_session(self@).parts[0]);
            let part = &parts[self.current_part_index];
            (
                part.track_time,
                minutes_to_seconds(part.minutes, self.test_mode) as u64,
                minutes_to_seconds(parts[0].minutes, self.test_mode),
            )
        };
        let to_record = match stop_tracked_seconds(
            track_time,
            full_seconds,
            self.paused,
            self.remaining_seconds,
            self.overtime_tracked_seconds,
        ) {
            Some(seconds) => Some(
                TrackedTime {
                    session_id: self.active_session_id.clone(),
                    part_index: self.current_part_index,
                    seconds,
                },
            ),
            None => None,
        };
        self.running = false;
        self.paused = false;
        self.overtime_tracked_seconds = 0;
        self.current_part_index = 0;
        self.remaining_seconds = first_seconds;
        Ok(to_record)
    }

    /// Whether continuing is possible from this state.
    pub fn can_continue(&self) -> (r: bool)
        ensures
            r == continue_allowed(self@),
    {
        if !self.paused {
            return true;
        }
        if self.settings.sessions.len() == 0 || self.current_part_index == usize::MAX {
            return false;
        }
        let idx = self.shown();
        assert(self.settings.sessions@[idx as int]@ == shown_session(self@));
        assert(self.settings.sessions@[idx as int].parts@.len() == shown_session(self@).parts.len());
        if self.settings.sessions[idx].parts.len() == 0 {
            return false;
        }
        self.can_plan()
    }

    /// Continue past an extendable part paused in overtime: the overtime
    /// is reported for recording when there is any; the timer goes on with
    /// the next part, or, after the last part, stops and rewinds to the
    /// first.
    pub fn continue_part(&mut self) -> (r: Result<Option<TrackedTime>, String>)
        requires
            continue_allowed(old(self)@),
        ensures
            !old(self)@.paused ==> (r matches Err(e) && e@ == "Timer is not in an extendable pause"@
                && final(self)@ == old(self)@),
            old(self)@.paused ==> {
                &&& r matches Ok(t)
                &&& if old(self)@.overtime_tracked_seconds > 0 {
                    t matches Some(tt) && tt.session_id@ == old(self)@.active_session_id
                        && tt.part_index == old(self)@.current_part_index && tt.seconds
                        == old(self)@.overtime_tracked_seconds
                } else {
                    t is None
                }
                &&& final(self)@ == after_continue(old(self)@)
            },
    {
        if !self.paused {
            return Err("Timer is not in an extendable pause".to_string());
        }
        let plan = self.part_plan();
        let mut part_seconds: Vec<i64> = Vec::new();
        let mut i: usize = 0;
        while i < plan.len()
            invariant
                i <= plan@.len(),
                part_seconds@.len() == i,
                forall|j: int| 0 <= j < i ==> #[trigger] part_seconds@[j] == plan@[j].seconds,
            decreases plan@.len() - i,
        {
            part_seconds.push(plan[i].seconds);
            i = i + 1;
        }
        let first_seconds = part_seconds[0];
        let part_index = self.current_part_index;
        let overtime = self.overtime_tracked_seconds;
        let to_record = if overtime > 0 {
            Some(
                TrackedTime {
                    session_id: self.active_session_id.clone(),
                    part_index,
                    seconds: overtime,
                },
            )
        } else {
            None
        };
        self.overtime_tracked_seconds = 0;
        let adv = continue_advance(self.current_part_index, part_seconds.as_slice(), first_seconds);
        self.current_part_index = adv.new_part_index;
        self.remaining_seconds = adv.new_remaining_seconds;
        self.running = adv.new_running;
        self.paused = adv.new_paused;
        Ok(to_record)
    }

    /// Replace the sessions with a validated list. Sessions without an id
    /// receive a fresh UUID. When the active session is gone, the first
    /// session becomes active. A stopped timer rewinds to the first part of
    /// the shown session; a running one carries on. Returns the new
    /// settings.
    pub fn update_settings(&mut self, sessions: Vec<Session>) -> (r: Result<PomodoroSettings, String>)
        ensures
            validation_error(sessions_view(sessions@)) matches Some(msg) ==> (r matches Err(e) && e@
                == msg && final(self)@ == old(self)@),
            validation_error(sessions_view(sessions@)) is None ==> ({
                &&& r matches Ok(settings)
                &&& settings@ == final(self)@.sessions
                &&& final(self)@.sessions.len() == sessions@.len()
                &&& forall|i: int|
                    0 <= i < sessions@.len() ==> is_migrated_session(
                        #[trigger] sessions@[i]@,
                        final(self)@.sessions[i],
                    )
                &&& final(self)@ == after_update(old(self)@, final(self)@.sessions)
                &&& index_of_id(final(self)@.sessions, final(self)@.active_session_id) is Some
            }),
    {
        let checked = validate_sessions(sessions.as_slice());
        if let Err(e) = checked {
            return Err(e);
        }
        let ghost input = sessions@;
        let mut filled: Vec<Session> = Vec::new();
        let mut i: usize = 0;
        while i < sessions.len()
            invariant
                sessions@ == input,
                i <= input.len(),
                filled@.len() == i,
                forall|k: int| 0 <= k < i ==> is_migrated_session(#[trigger] input[k]@, filled@[k]@),
            decreases input.len() - i,
        {
            let mut s = sessions[i].duplicate();
            if s.id.as_str().is_empty() {
                s.id = new_session_id();
            }
            filled.push(s);
            i = i + 1;
        }
        let new_settings = PomodoroSettings { sessions: duplicate_sessions(&filled) };
        proof {
            lemma_index_of_id(sessions_view(filled@), self.active_session_id@);
            assert(sessions_view(filled@)[0] == filled@[0]@);
        }
        if find_session_index(filled.as_slice(), self.active_session_id.as_str()).is_none() {
            self.active_session_id = filled[0].id.clone();
        }
        proof {
            lemma_index_of_id(sessions_view(filled@), self.active_session_id@);
        }
        self.settings = new_settings;
        if !self.running {
            self.paused = false;
            self.overtime_tracked_seconds = 0;
            self.current_part_index = 0;
            let idx = self.shown();
            proof {
                assert(validation_error(sessions_view(input)) is None);
                lemma_validation(sessions_view(input));
                assert(sessions_view(input)[idx as int] == input[idx as int]@);
                assert(is_migrated_session(input[idx as int]@, sessions_view(filled@)[idx as int]));
                assert(sessions_view(input)[idx as int].parts == self@.sessions[idx as int].parts);
                assert(sessions_view(input)[idx as int].parts.len() >= 1);
                assert(1 <= sessions_view(input)[idx as int].parts[0].minutes <= 120);
                assert(self.settings.sessions@[idx as int]@ == self@.sessions[idx as int]);
                assert(self.settings.sessions@[idx as int].parts@[0]@ == self@.sessions[idx as int].parts[0]);
            }
            self.remaining_seconds = minutes_to_seconds(
                self.settings.sessions[idx].parts[0].minutes,
                self.test_mode,
            );
        }
        Ok(PomodoroSettings { sessions: filled })
    }

    /// Whether switching to `id` is possible from this state.
    pub fn can_switch(&self, id: &str) -> (r: bool)
        ensures
            r == switch_allowed(self@, id@),
    {
        if self.running {
            return true;
        }
        proof {
            lemma_index_of_id(self@.sessions, id@);
        }
        match find_session_index(self.settings.sessions.as_slice(), id) {
            Some(i) => {
                assert(self.settings.sessions@[i as int]@ == self@.sessions[i as int]);
                let parts = &self.settings.sessions[i].parts;
                assert(parts@.len() == self@.sessions[i as int].parts.len());
                if parts.len() == 0 {
                    return false;
                }
                assert(parts@[0]@ == self@.sessions[i as int].parts[0]);
                self.test_mode || parts[0].minutes <= u64::MAX / 60
            },
            None => true,
        }
    }

    /// Make another session active; the timer rewinds to its first part.
    pub fn switch_session(&mut self, session_id: String) -> (r: Result<(), String>)
        requires
            switch_allowed(old(self)@, session_id@),
        ensures
            old(self)@.running ==> (r matches Err(e) && e@
                == "Cannot switch session while timer is running"@ && final(self)@ == old(self)@),
            !old(self)@.running && index_of_id(old(self)@.sessions, session_id@) is None ==> (r matches Err(e)
                && e@ == "Session '"@ + session_id@ + "' not found"@ && final(self)@ == old(self)@),
            !old(self)@.running && index_of_id(old(self)@.sessions, session_id@) is Some ==> r is Ok
                && final(self)@ == after_switch(old(self)@, session_id@),
    {
        if self.running {
            return Err("Cannot switch session while timer is running".to_string());
        }
        proof {
            lemma_index_of_id(self@.sessions, session_id@);
        }
        let idx = match find_session_index(self.settings.sessions.as_slice(), session_id.as_str()) {
            Some(i) => i,
            None => {
                let mut e = String::new();
                e.append("Session '");
                e.append(session_id.as_str());
                e.append("' not found");
                return Err(e);
            },
        };
        assert(self.settings.sessions@[idx as int]@ == self@.sessions[idx as int]);
        assert(self.settings.sessions@[idx as int].parts@[0]@ == self@.sessions[idx as int].parts[0]);
        let remaining = minutes_to_seconds(
            self.settings.sessions[idx].parts[0].minutes,
            self.test_mode,
        );
        self.active_session_id = session_id;
        self.current_part_index = 0;
        self.paused = false;
        self.overtime_tracked_seconds = 0;
        self.remaining_seconds = remaining;
        Ok(())
    }
}



// ---------------------------------------------------------------------------
// Notifications to the platform's foreground service
// ---------------------------------------------------------------------------

/// What the platform's foreground timer service is told.
#[derive(Debug)]
pub enum ServiceEvent {
    Start { tick: TimerTick },
    PartUpdated { tick: TimerTick },
    Stop,
}

/// The notification after a tick of the running timer: `Stop` when the
/// last part finished; `PartUpdated` when the part or the pause changed
/// since the previous tick; nothing otherwise.
pub fn event_after_tick(
    phase_ended: bool,
    tick: TimerTick,
    prev_part_index: usize,
    prev_paused: bool,
) -> (r: Option<ServiceEvent>)
    ensures
        phase_ended ==> r == Some(ServiceEvent::Stop),
        !phase_ended && (tick.part_index != prev_part_index || tick.paused != prev_paused) ==> r
            == Some(ServiceEvent::PartUpdated { tick }),
        !phase_ended && tick.part_index == prev_part_index && tick.paused == prev_paused ==> r is None,
{
    if phase_ended {
        Some(ServiceEvent::Stop)
    } else if tick.part_index != prev_part_index || tick.paused != prev_paused {
        Some(ServiceEvent::PartUpdated { tick })
    } else {
        None
    }
}

/// The notification after Continue: `PartUpdated` when the timer goes on
/// with the next part, `Stop` when it stopped after the last part.
pub fn event_after_continue(tick: TimerTick) -> (r: ServiceEvent)
    ensures
        tick.running ==> r == (ServiceEvent::PartUpdated { tick }),
        !tick.running ==> r == ServiceEvent::Stop,
{
    if tick.running {
        ServiceEvent::PartUpdated { tick }
    } else {
        ServiceEvent::Stop
    }
}

} // verus!
