//! Properties that hold across the timer's transitions.

use vstd::prelude::*;

use crate::model::{index_of_id, lemma_index_of_id, part_seconds, SessionView};
use crate::settings::{
    is_migrated_session, is_settings_of_file, resolve_active, ActiveRef, SettingsFile,
};
use crate::text::{decimal, is_blank};
use crate::timer::{
    after_continue, after_start, after_stop, after_switch, after_tick, after_update,
    full_length, has_current_part, next_generation, parts_fit, plan_of, seconds_on_stop,
    shown_session, tick_of, tick_report, PartPlan, StateView,
};

verus! {

/// A paused timer is running, and overtime is only counted while paused.
pub open spec fn pause_consistent(st: StateView) -> bool {
    &&& st.paused ==> st.running
    &&& st.overtime_tracked_seconds > 0 ==> st.paused
}

/// Every transition keeps the pause consistent: Start, Stop, Continue, a
/// tick, switching session (only taken while stopped) and replacing the
/// sessions.
pub proof fn law_pause_consistency_kept(
    st: StateView,
    plan: Seq<PartPlan>,
    generation: u64,
    id: Seq<char>,
    sessions: Seq<SessionView>,
)
    requires
        pause_consistent(st),
    ensures
        pause_consistent(after_start(st)),
        pause_consistent(after_stop(st)),
        pause_consistent(after_continue(st)),
        pause_consistent(after_tick(st, plan, generation)),
        !st.running ==> pause_consistent(after_switch(st, id)),
        pause_consistent(after_update(st, sessions)),
{
}

/// Starting a stopped, rewound timer and stopping it at once gives back the
/// same state, in the run generation that the start opened.
pub proof fn law_start_then_stop(st: StateView)
    requires
        st == after_stop(st),
    ensures
        after_stop(after_start(st)) == (StateView {
            run_generation: next_generation(st.run_generation),
            ..st
        }),
{
}

/// Only Start opens a new run generation; every other transition keeps it.
/// A tick that carries another generation than the state's leaves the
/// state as it is and reports a halt. So once the timer is stopped and
/// started again, the ticking loop of the earlier run no longer moves it:
/// one loop counts the seconds.
pub proof fn law_one_ticking_run(
    st: StateView,
    plan: Seq<PartPlan>,
    generation: u64,
    id: Seq<char>,
    sessions: Seq<SessionView>,
)
    ensures
        after_start(st).run_generation != st.run_generation,
        after_stop(st).run_generation == st.run_generation,
        after_continue(st).run_generation == st.run_generation,
        after_tick(st, plan, generation).run_generation == st.run_generation,
        after_switch(st, id).run_generation == st.run_generation,
        after_update(st, sessions).run_generation == st.run_generation,
        generation != st.run_generation ==> after_tick(st, plan, generation) == st
            && tick_report(st, plan, generation).halted,
        after_tick(after_start(after_stop(st)), plan, st.run_generation) == after_start(
            after_stop(st),
        ),
        tick_report(after_start(after_stop(st)), plan, st.run_generation).halted,
{
}

/// Stopping a running timer part way through a tracked part reports the
/// seconds elapsed in the part.
pub proof fn law_stop_reports_elapsed(st: StateView)
    requires
        st.running,
        !st.paused,
        has_current_part(st),
        shown_session(st).parts[st.current_part_index as int].track_time,
        0 <= st.remaining_seconds < part_seconds(
            shown_session(st).parts[st.current_part_index as int].minutes,
            st.test_mode,
        ),
    ensures
        seconds_on_stop(st) == Some(
            (part_seconds(
                shown_session(st).parts[st.current_part_index as int].minutes,
                st.test_mode,
            ) - st.remaining_seconds) as u64,
        ),
{
}

/// After the id migration every session has an id.
pub proof fn law_migrated_session_has_id(before: SessionView, after: SessionView)
    requires
        is_migrated_session(before, after),
    ensures
        after.id.len() > 0,
{
}


/// The active id read from a settings file with sessions names one of them.
pub proof fn law_loaded_active_exists(v: Seq<SessionView>, active: Option<ActiveRef>)
    requires
        v.len() > 0,
    ensures
        index_of_id(v, resolve_active(v, active)) is Some,
{
    lemma_index_of_id(v, resolve_active(v, active));
}

/// With the plan taken at Start, the tick of the current run that brings a
/// running, unpaused part from one second to zero: an extendable part pauses
/// at zero; another part hands over to the next part with its full length;
/// the last part stops the timer, rewinds it to the first part and ends the
/// phase. A tracked part reports its full length for recording, under its
/// index; an untracked one reports nothing.
pub proof fn law_tick_reaches_zero(st: StateView, generation: u64)
    requires
        st.running,
        !st.paused,
        generation == st.run_generation,
        st.sessions.len() > 0,
        parts_fit(shown_session(st).parts, st.test_mode),
        has_current_part(st),
        st.remaining_seconds == 1,
    ensures
        ({
            let plan = plan_of(shown_session(st).parts, st.test_mode);
            let parts = shown_session(st).parts;
            let i = st.current_part_index as int;
            let next = after_tick(st, plan, generation);
            let report = tick_report(st, plan, generation);
            &&& !report.halted
            &&& parts[i].extendable ==> next == (StateView {
                paused: true,
                remaining_seconds: 0,
                ..st
            }) && !report.phase_ended
            &&& !parts[i].extendable && i + 1 < parts.len() ==> next == (StateView {
                current_part_index: (i + 1) as usize,
                remaining_seconds: part_seconds(parts[i + 1].minutes, st.test_mode),
                ..st
            }) && !report.phase_ended
            &&& !parts[i].extendable && i + 1 >= parts.len() ==> next == (StateView {
                running: false,
                current_part_index: 0,
                remaining_seconds: part_seconds(parts[0].minutes, st.test_mode),
                ..st
            }) && report.phase_ended
            &&& parts[i].track_time ==> report.completed == Some(
                (st.current_part_index, full_length(part_seconds(parts[i].minutes, st.test_mode))),
            )
            &&& !parts[i].track_time ==> report.completed is None
        }),
{
}

/// With the plan taken at Start, a tick of the current run in overtime
/// counts one second further below zero, keeps the part, the pause and the
/// running timer, counts the second as tracked overtime exactly when the
/// part tracks time, and reports nothing for recording.
pub proof fn law_tick_in_overtime(st: StateView, generation: u64)
    requires
        st.running,
        st.paused,
        generation == st.run_generation,
        st.sessions.len() > 0,
        parts_fit(shown_session(st).parts, st.test_mode),
        has_current_part(st),
        i64::MIN < st.remaining_seconds <= 0,
        st.overtime_tracked_seconds < u64::MAX,
    ensures
        ({
            let plan = plan_of(shown_session(st).parts, st.test_mode);
            let part = shown_session(st).parts[st.current_part_index as int];
            let next = after_tick(st, plan, generation);
            let report = tick_report(st, plan, generation);
            &&& next == (StateView {
                remaining_seconds: (st.remaining_seconds - 1) as i64,
                overtime_tracked_seconds: if part.track_time {
                    (st.overtime_tracked_seconds + 1) as u64
                } else {
                    st.overtime_tracked_seconds
                },
                ..st
            })
            &&& !report.halted
            &&& report.completed is None
            &&& !report.phase_ended
        }),
{
}

/// Stop, from whatever part was current, leaves the timer stopped at the
/// first part of the session whose id is active (the first session when the
/// id names none) with that part's full length remaining, out of any pause
/// and with no overtime; the sessions, the active id and the run generation
/// stay as they were.
pub proof fn law_stop_resets_to_first_part(st: StateView)
    ensures
        ({
            let k = match index_of_id(st.sessions, st.active_session_id) {
                Some(i) => i,
                None => 0,
            };
            let after = after_stop(st);
            &&& !after.running
            &&& !after.paused
            &&& after.overtime_tracked_seconds == 0
            &&& after.current_part_index == 0
            &&& after.remaining_seconds == part_seconds(
                st.sessions[k].parts[0].minutes,
                st.test_mode,
            )
            &&& after.active_session_id == st.active_session_id
            &&& after.sessions == st.sessions
            &&& after.test_mode == st.test_mode
            &&& after.run_generation == st.run_generation
        }),
{
}

/// Replacing the sessions keeps the active id when a session of the new
/// list carries it, and otherwise makes the new first session active. A
/// stopped timer then stands at the first part of the session holding the
/// (kept or new) active id, with its full length; a running timer keeps its
/// part, its remaining time, its pause and its overtime.
pub proof fn law_update_keeps_active(st: StateView, sessions: Seq<SessionView>)
    requires
        sessions.len() > 0,
    ensures
        ({
            let after = after_update(st, sessions);
            let k = match index_of_id(sessions, st.active_session_id) {
                Some(i) => i,
                None => 0,
            };
            &&& after.sessions == sessions
            &&& index_of_id(sessions, st.active_session_id) is Some ==> after.active_session_id
                == st.active_session_id
            &&& index_of_id(sessions, st.active_session_id) is None ==> after.active_session_id
                == sessions[0].id
            &&& !st.running ==> {
                &&& after.current_part_index == 0
                &&& after.remaining_seconds == part_seconds(sessions[k].parts[0].minutes, st.test_mode)
                &&& !after.paused
                &&& after.overtime_tracked_seconds == 0
            }
            &&& st.running ==> {
                &&& after.current_part_index == st.current_part_index
                &&& after.remaining_seconds == st.remaining_seconds
                &&& after.paused == st.paused
                &&& after.overtime_tracked_seconds == st.overtime_tracked_seconds
                &&& after.running
            }
        }),
{
    lemma_index_of_id(sessions, st.active_session_id);
    lemma_index_of_id(sessions, sessions[0].id);
}

/// The snapshot names the session whose id is active (the first session
/// when the id names none), and its part name is the current part of that
/// same session: the part's own name, or "Part N" when that name is blank.
pub proof fn law_tick_shows_active_session(st: StateView, daily_total: u64)
    ensures
        ({
            let k = match index_of_id(st.sessions, st.active_session_id) {
                Some(i) => i,
                None => 0,
            };
            let part = st.sessions[k].parts[st.current_part_index as int];
            let tick = tick_of(st, daily_total);
            &&& tick.session_name == st.sessions[k].name
            &&& !is_blank(part.name) ==> tick.part_name == part.name
            &&& is_blank(part.name) ==> tick.part_name == "Part "@ + decimal(
                (st.current_part_index + 1) as nat,
            )
            &&& tick.active_session_id == st.active_session_id
            &&& tick.remaining_seconds == st.remaining_seconds
            &&& tick.daily_total_seconds == daily_total
        }),
{
}

/// Continue goes on with the next part of the active session (the first
/// session when the id names none), running with that part's full length;
/// after the last part it stops at the first part with the first part's
/// full length. Either way the pause and the overtime are cleared. (A
/// session's parts fit in memory, so their count is at most `usize::MAX`.)
pub proof fn law_continue_moves_on(st: StateView)
    requires
        ({
            let k = match index_of_id(st.sessions, st.active_session_id) {
                Some(i) => i,
                None => 0,
            };
            &&& st.sessions.len() > 0
            &&& st.sessions[k].parts.len() > 0
            &&& st.sessions[k].parts.len() <= usize::MAX
        }),
    ensures
        ({
            let k = match index_of_id(st.sessions, st.active_session_id) {
                Some(i) => i,
                None => 0,
            };
            let parts = st.sessions[k].parts;
            let i = st.current_part_index as int;
            let after = after_continue(st);
            &&& !after.paused
            &&& after.overtime_tracked_seconds == 0
            &&& after.active_session_id == st.active_session_id
            &&& after.sessions == st.sessions
            &&& i + 1 < parts.len() ==> {
                &&& after.running
                &&& after.current_part_index == i + 1
                &&& after.remaining_seconds == part_seconds(parts[i + 1].minutes, st.test_mode)
            }
            &&& i + 1 >= parts.len() ==> {
                &&& !after.running
                &&& after.current_part_index == 0
                &&& after.remaining_seconds == part_seconds(parts[0].minutes, st.test_mode)
            }
        }),
{
    lemma_index_of_id(st.sessions, st.active_session_id);
    let parts = shown_session(st).parts;
    let plan = plan_of(parts, st.test_mode);
    let i = st.current_part_index as int;
    assert(plan.len() == parts.len());
    assert(plan[0].seconds == part_seconds(parts[0].minutes, st.test_mode));
    if i + 1 < parts.len() {
        assert(plan[i + 1].seconds == part_seconds(parts[i + 1].minutes, st.test_mode));
    }
}

/// A settings file of the older format (no sessions, but work or play
/// minutes) keeps its minutes: two sessions, "Pomodoro" whose tracked Work
/// part has the file's work minutes (25 when absent) and whose Break part
/// has its break minutes (5 when absent), and "Play / Break" likewise with
/// the play minutes; the first session is active.
pub proof fn law_legacy_file_keeps_minutes(file: SettingsFile, v: Seq<SessionView>, active: Seq<char>)
    requires
        is_settings_of_file(file, v, active),
        file.sessions is None,
        file.work_minutes is Some || file.play_minutes is Some,
    ensures
        v.len() == 2,
        active == v[0].id,
        v[0].name == "Pomodoro"@,
        v[0].parts.len() == 2,
        v[0].parts[0].name == "Work"@,
        v[0].parts[0].track_time,
        v[0].parts[0].minutes == match file.work_minutes {
            Some(w) => w,
            None => 25,
        },
        v[0].parts[1].minutes == match file.break_minutes {
            Some(b) => b,
            None => 5,
        },
        v[1].name == "Play / Break"@,
        v[1].parts.len() == 2,
        v[1].parts[0].minutes == match file.play_minutes {
            Some(p) => p,
            None => 25,
        },
        v[1].parts[1].minutes == match file.play_break_minutes {
            Some(b) => b,
            None => 5,
        },
{
}

/// Switching to a session that exists makes its id active and stands at
/// its first part with that part's full length, out of any pause and with
/// no overtime; the sessions and the running flag stay as they were.
pub proof fn law_switch_goes_to_first_part(st: StateView, id: Seq<char>)
    requires
        index_of_id(st.sessions, id) is Some,
    ensures
        ({
            let i = index_of_id(st.sessions, id)->0;
            let after = after_switch(st, id);
            &&& st.sessions[i].id == id
            &&& after.active_session_id == id
            &&& after.current_part_index == 0
            &&& after.remaining_seconds == part_seconds(st.sessions[i].parts[0].minutes, st.test_mode)
            &&& !after.paused
            &&& after.overtime_tracked_seconds == 0
            &&& after.sessions == st.sessions
            &&& after.running == st.running
        }),
{
    lemma_index_of_id(st.sessions, id);
}

/// Start runs the timer from where it stands: same session, same part,
/// same remaining time; out of any pause and with no overtime.
pub proof fn law_start_runs_from_where_it_stands(st: StateView)
    ensures
        after_start(st).running,
        !after_start(st).paused,
        after_start(st).overtime_tracked_seconds == 0,
        after_start(st).current_part_index == st.current_part_index,
        after_start(st).remaining_seconds == st.remaining_seconds,
        after_start(st).active_session_id == st.active_session_id,
        after_start(st).sessions == st.sessions,
{
}

} // verus!
