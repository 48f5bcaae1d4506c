use pomodoro::calendar::days_since_epoch_to_date;
use pomodoro::model::{find_session_index, minutes_to_seconds, PomodoroSettings, Session, SessionPart};
use pomodoro::record::{
    add_record_seconds, checked_daily_total, load_daily_total, DayEntry, PartEntry,
    PomodoroRecord, SessionEntry,
};
use pomodoro::settings::{
    load_settings, load_settings_file, validate_sessions, ActiveRef, PartDef, SessionDef,
    SettingsFile,
};
use pomodoro::text::{blank, push_decimal, push_zero_padded, white_space};
use pomodoro::timer::{
    build_tick, event_after_continue, event_after_tick, PartPlan, PomodoroState, ServiceEvent,
};

fn part(name: &str, minutes: u64, extendable: bool, track_time: bool) -> SessionPart {
    SessionPart { name: name.into(), minutes, extendable, track_time }
}

fn session(id: &str, name: &str, parts: Vec<SessionPart>) -> Session {
    Session { id: id.into(), name: name.into(), parts }
}

fn state_with(sessions: Vec<Session>, active: &str) -> PomodoroState {
    let settings = PomodoroSettings { sessions };
    PomodoroState::new(settings, active.to_string(), false)
}

fn is_uuid(s: &str) -> bool {
    s.len() == 36
        && s.chars().enumerate().all(|(i, c)| {
            if i == 8 || i == 13 || i == 18 || i == 23 {
                c == '-'
            } else {
                c.is_ascii_digit() || ('a'..='f').contains(&c)
            }
        })
        && s.as_bytes()[14] == b'4'
}

// ---- text ----

#[test]
fn decimal_rendering() {
    let mut s = String::from("n=");
    push_decimal(&mut s, 0);
    assert_eq!(s, "n=0");
    let mut s = String::new();
    push_decimal(&mut s, 1234567890);
    assert_eq!(s, "1234567890");
    let mut s = String::new();
    push_decimal(&mut s, u64::MAX);
    assert_eq!(s, u64::MAX.to_string());
}

#[test]
fn zero_padding_like_format() {
    for (v, w) in [(5i64, 4u64), (-5, 4), (12345, 4), (0, 2), (7, 2), (-221, 4), (i64::MIN, 4), (i64::MAX, 3)] {
        let mut s = String::new();
        push_zero_padded(&mut s, v, w);
        assert_eq!(s, format!("{:0w$}", v, w = w as usize));
    }
}

#[test]
fn white_space_matches_std() {
    for c in ['\t', '\n', '\r', ' ', '\u{85}', '\u{a0}', '\u{1680}', '\u{2000}', '\u{200a}', '\u{2028}', '\u{3000}', 'a', '0', '\u{200b}', '\u{feff}'] {
        assert_eq!(white_space(c), c.is_whitespace(), "{:?}", c);
    }
    assert!(blank(""));
    assert!(blank(" \t\u{3000}"));
    assert!(!blank("  x "));
}

// ---- model ----

#[test]
fn find_session_index_first_match() {
    let sessions = vec![
        session("a", "A", vec![]),
        session("b", "B", vec![]),
        session("b", "B2", vec![]),
    ];
    assert_eq!(find_session_index(&sessions, "a"), Some(0));
    assert_eq!(find_session_index(&sessions, "b"), Some(1));
    assert_eq!(find_session_index(&sessions, "c"), None);
    assert_eq!(find_session_index(&[], "a"), None);
}

#[test]
fn minutes_to_seconds_wraps_as_cast() {
    assert_eq!(minutes_to_seconds(0, false), 0);
    assert_eq!(minutes_to_seconds(u64::MAX, true), -1);
    assert_eq!(minutes_to_seconds(u64::MAX / 60, false), ((u64::MAX / 60) * 60) as i64);
}

#[test]
fn default_session_id_is_v4_uuid() {
    let a = PomodoroSettings::default();
    let b = PomodoroSettings::default();
    assert!(is_uuid(&a.sessions[0].id), "{}", a.sessions[0].id);
    assert!(is_uuid(&b.sessions[0].id));
    assert_ne!(a.sessions[0].id, b.sessions[0].id);
}

#[test]
fn duplicate_keeps_everything() {
    let s = session("id", "Name", vec![part("A", 3, true, false), part("B", 4, false, true)]);
    let d = s.duplicate();
    assert_eq!(d.id, "id");
    assert_eq!(d.name, "Name");
    assert_eq!(d.parts.len(), 2);
    assert_eq!(d.parts[1].name, "B");
    assert_eq!(d.parts[1].minutes, 4);
    assert!(d.parts[1].track_time);
    assert!(d.parts[0].extendable);
}

// ---- settings ----

#[test]
fn validation_messages() {
    assert_eq!(validate_sessions(&[]), Err("Must have between 1 and 5 sessions".to_string()));
    let blank_second = vec![
        session("a", "Ok", vec![part("P", 1, false, false)]),
        session("b", " \t", vec![part("P", 1, false, false)]),
    ];
    assert_eq!(validate_sessions(&blank_second), Err("Session 2 name cannot be empty".to_string()));
    let no_parts = vec![session("a", "Deep", vec![])];
    assert_eq!(
        validate_sessions(&no_parts),
        Err("Session 'Deep' must have between 1 and 10 parts".to_string())
    );
    let bad_minutes = vec![session(
        "a",
        "Deep",
        vec![part("P", 1, false, false), part("Q", 121, false, false), part("R", 0, false, false)],
    )];
    assert_eq!(
        validate_sessions(&bad_minutes),
        Err("Part 2 in session 'Deep' must be between 1 and 120 minutes".to_string())
    );
}

fn def(id: &str, name: &str) -> SessionDef {
    SessionDef {
        id: id.into(),
        name: name.into(),
        parts: vec![PartDef { name: "P".into(), minutes: 3, extendable: false, track_time: true }],
    }
}

#[test]
fn migration_numeric_active_and_missing_ids() {
    let parsed = SettingsFile {
        sessions: Some(vec![def("keep", "A"), def("", "B")]),
        active_session: Some(ActiveRef::Number(Some(0))),
        ..Default::default()
    };
    let file = load_settings_file(parsed, Some(ActiveRef::Number(Some(0))), None);
    let sessions = file.sessions.clone().unwrap();
    assert_eq!(sessions[0].id, "keep");
    assert!(is_uuid(&sessions[1].id));
    assert_eq!(sessions[1].name, "B");
    match &file.active_session {
        Some(ActiveRef::Text(t)) => assert_eq!(t, "keep"),
        other => panic!("unexpected {:?}", other),
    }
}

#[test]
fn migration_numeric_active_names_fresh_id_of_that_session() {
    let parsed = SettingsFile {
        sessions: Some(vec![def("a", "A"), def("", "B"), def("", "C")]),
        active_session: Some(ActiveRef::Number(Some(1))),
        ..Default::default()
    };
    let file = load_settings_file(parsed, Some(ActiveRef::Number(Some(1))), None);
    let sessions = file.sessions.clone().unwrap();
    assert!(is_uuid(&sessions[1].id));
    assert!(is_uuid(&sessions[2].id));
    assert_ne!(sessions[1].id, sessions[2].id);
    match &file.active_session {
        Some(ActiveRef::Text(t)) => assert_eq!(t, &sessions[1].id),
        other => panic!("unexpected {:?}", other),
    }
    let expected = sessions[1].id.clone();
    let (settings, active) = pomodoro::settings::settings_from_file(file);
    assert_eq!(active, expected);
    assert_eq!(settings.sessions[1].name, "B");
}

#[test]
fn migration_numeric_active_out_of_range_kept() {
    let parsed = SettingsFile {
        sessions: Some(vec![def("a", "A")]),
        active_session: Some(ActiveRef::Number(Some(4))),
        ..Default::default()
    };
    let file = load_settings_file(parsed, Some(ActiveRef::Number(Some(4))), None);
    assert!(matches!(file.active_session, Some(ActiveRef::Number(Some(4)))));
}

#[test]
fn migration_active_session_id_key() {
    let parsed = SettingsFile { sessions: Some(vec![def("a", "A"), def("b", "B")]), ..Default::default() };
    let file = load_settings_file(parsed, None, Some(ActiveRef::Text("b".into())));
    let (_, active) = pomodoro::settings::settings_from_file(file);
    assert_eq!(active, "b");
}

#[test]
fn active_text_not_found_falls_back() {
    let parsed = SettingsFile {
        sessions: Some(vec![def("a", "A"), def("b", "B")]),
        active_session: Some(ActiveRef::Text("zzz".into())),
        ..Default::default()
    };
    let (_, active) = pomodoro::settings::settings_from_file(parsed);
    assert_eq!(active, "a");
    let parsed = SettingsFile {
        sessions: Some(vec![def("a", "A"), def("b", "B")]),
        active_session: Some(ActiveRef::Number(Some(1))),
        ..Default::default()
    };
    let (_, active) = pomodoro::settings::settings_from_file(parsed);
    assert_eq!(active, "b");
    let parsed = SettingsFile { sessions: Some(vec![]), active_session: Some(ActiveRef::Other), ..Default::default() };
    let (settings, active) = pomodoro::settings::settings_from_file(parsed);
    assert_eq!(active, "");
    assert!(settings.sessions.is_empty());
}

#[test]
fn load_settings_flags_legacy_files() {
    let legacy = SettingsFile { play_minutes: Some(40), ..Default::default() };
    let (settings, active, migrated) = load_settings(legacy);
    assert!(migrated);
    assert_eq!(settings.sessions.len(), 2);
    assert_eq!(active, settings.sessions[0].id);
    assert_eq!(settings.sessions[1].parts[0].minutes, 40);
    let (_, _, migrated) = load_settings(SettingsFile::default());
    assert!(!migrated);
    let (_, _, migrated) = load_settings(SettingsFile {
        sessions: Some(vec![def("a", "A")]),
        work_minutes: Some(3),
        ..Default::default()
    });
    assert!(!migrated);
}

// ---- record ----

#[test]
fn record_add_then_total() {
    let mut record = PomodoroRecord { days: vec![] };
    assert_eq!(load_daily_total(&record, "2024-01-01"), 0);
    assert_eq!(add_record_seconds(&mut record, "2024-01-01", "s1", 0, 100), 100);
    assert_eq!(add_record_seconds(&mut record, "2024-01-01", "s1", 0, 50), 150);
    assert_eq!(add_record_seconds(&mut record, "2024-01-01", "s2", 12, 7), 157);
    assert_eq!(add_record_seconds(&mut record, "2024-01-02", "s1", 0, 9), 9);
    assert_eq!(load_daily_total(&record, "2024-01-01"), 157);
    assert_eq!(load_daily_total(&record, "2024-01-02"), 9);
    let day = &record.days[0];
    assert_eq!(day.date, "2024-01-01");
    assert_eq!(day.sessions[0].parts[0].part, "0");
    assert_eq!(day.sessions[0].parts[0].seconds, 150);
    assert_eq!(day.sessions[1].parts[0].part, "12");
}

#[test]
fn record_total_overflow_is_reported() {
    let record = PomodoroRecord {
        days: vec![DayEntry {
            date: "d".into(),
            sessions: vec![SessionEntry {
                session_id: "s".into(),
                parts: vec![
                    PartEntry { part: "0".into(), seconds: u64::MAX },
                    PartEntry { part: "1".into(), seconds: 1 },
                ],
            }],
        }],
    };
    assert_eq!(checked_daily_total(&record, "d"), None);
    assert_eq!(checked_daily_total(&record, "other"), Some(0));
}

// ---- calendar ----

#[test]
fn dates_before_epoch_and_odd_years() {
    assert_eq!(days_since_epoch_to_date(-1), "1969-12-31");
    assert_eq!(days_since_epoch_to_date(-719528), "0000-01-01");
    assert_eq!(days_since_epoch_to_date(-719529), "-001-12-31");
    assert_eq!(days_since_epoch_to_date(-800000), "-221-09-04");
    assert_eq!(days_since_epoch_to_date(-354286), "0999-12-31");
    assert_eq!(days_since_epoch_to_date(2932896), "9999-12-31");
    assert_eq!(days_since_epoch_to_date(2932897), "10000-01-01");
}

#[test]
fn consecutive_days_sort_in_order() {
    let samples: Vec<i64> = vec![0, 58, 364, 10956, 11016, 19782, 2932895];
    for d in samples {
        let a = days_since_epoch_to_date(d);
        let b = days_since_epoch_to_date(d + 1);
        assert_eq!(a.len(), 10);
        assert_eq!(&a[4..5], "-");
        assert_eq!(&a[7..8], "-");
        assert!(a < b, "{} !< {}", a, b);
    }
    assert_eq!(days_since_epoch_to_date(58), "1970-02-28");
    assert_eq!(days_since_epoch_to_date(59), "1970-03-01");
    assert_eq!(days_since_epoch_to_date(2932895), "9999-12-30");
    assert!(days_since_epoch_to_date(100) < days_since_epoch_to_date(2000000));
}

// ---- timer ----

fn two_part_state() -> PomodoroState {
    state_with(
        vec![session("s", "Pomodoro", vec![part("Work", 25, false, true), part("Break", 5, false, false)])],
        "s",
    )
}

#[test]
fn new_state_starts_at_first_part() {
    let st = state_with(
        vec![
            session("a", "A", vec![part("X", 2, false, false)]),
            session("b", "B", vec![part("Y", 3, false, false)]),
        ],
        "b",
    );
    assert_eq!(st.remaining_seconds, 180);
    assert!(!st.running);
    let st = state_with(vec![session("a", "A", vec![part("X", 2, false, false)])], "missing");
    assert_eq!(st.remaining_seconds, 120);
    assert_eq!(st.active_session_id, "missing");
    assert!(PomodoroState::can_start(&st.settings, "a", false));
    assert!(!PomodoroState::can_start(&PomodoroSettings { sessions: vec![] }, "a", false));
    assert!(!PomodoroState::can_start(&PomodoroSettings { sessions: vec![session("a", "A", vec![])] }, "a", false));
}

#[test]
fn start_and_errors() {
    let mut st = two_part_state();
    assert_eq!(st.start(), Ok(()));
    assert!(st.running);
    assert_eq!(st.start(), Err("Timer is already running".to_string()));
    let mut st = two_part_state();
    assert_eq!(st.stop().map(|_| ()), Err("Timer is not running".to_string()));
    assert_eq!(st.continue_part().map(|_| ()), Err("Timer is not in an extendable pause".to_string()));
}

#[test]
fn ticks_advance_through_parts_and_stop() {
    let mut st = state_with(
        vec![session("s", "P", vec![part("Work", 1, false, true), part("Break", 1, false, false)])],
        "s",
    );
    st.test_mode = true;
    st.remaining_seconds = 2;
    let plan = vec![
        PartPlan { seconds: 2, extendable: false, track_time: true },
        PartPlan { seconds: 1, extendable: false, track_time: false },
    ];
    st.start().unwrap();
    let g = st.run_generation;
    let o = st.tick(&plan, g);
    assert!(!o.halted && o.completed.is_none() && !o.phase_ended);
    assert_eq!(st.remaining_seconds, 1);
    let o = st.tick(&plan, g);
    assert_eq!(o.completed, Some((0, 2)));
    assert_eq!(st.current_part_index, 1);
    assert_eq!(st.remaining_seconds, 1);
    let o = st.tick(&plan, g);
    assert!(o.phase_ended);
    assert_eq!(o.completed, None);
    assert!(!st.running);
    assert_eq!(st.current_part_index, 0);
    assert_eq!(st.remaining_seconds, 2);
    let o = st.tick(&plan, g);
    assert!(o.halted);
}

#[test]
fn restart_leaves_earlier_ticking_loop_inert() {
    let mut st = state_with(
        vec![session("s", "P", vec![part("Work", 1, false, true), part("Break", 1, false, false)])],
        "s",
    );
    st.test_mode = true;
    st.remaining_seconds = 5;
    let plan = vec![
        PartPlan { seconds: 5, extendable: false, track_time: true },
        PartPlan { seconds: 1, extendable: false, track_time: false },
    ];
    assert_eq!(st.run_generation, 0);
    st.start().unwrap();
    let first = st.run_generation;
    assert_eq!(first, 1);
    st.tick(&plan, first);
    assert_eq!(st.remaining_seconds, 4);
    st.stop().unwrap();
    st.start().unwrap();
    let second = st.run_generation;
    assert_eq!(second, 2);
    assert_eq!(st.remaining_seconds, 1);
    let o = st.tick(&plan, first);
    assert!(o.halted);
    assert_eq!(st.remaining_seconds, 1);
    assert_eq!(st.current_part_index, 0);
    assert!(st.running);
    let o = st.tick(&plan, second);
    assert!(!o.halted);
    assert_eq!(o.completed, Some((0, 5)));
    assert_eq!(st.current_part_index, 1);
    st.run_generation = u64::MAX;
    st.running = false;
    st.start().unwrap();
    assert_eq!(st.run_generation, 0);
}

#[test]
fn extendable_part_overtime_and_continue() {
    let mut st = state_with(
        vec![session("s", "P", vec![part("Work", 1, true, true), part("Break", 2, false, false)])],
        "s",
    );
    st.remaining_seconds = 1;
    let plan = st.part_plan();
    assert_eq!(plan[0].seconds, 60);
    assert_eq!(plan[1].seconds, 120);
    st.start().unwrap();
    let g = st.run_generation;
    let o = st.tick(&plan, g);
    assert_eq!(o.completed, Some((0, 60)));
    assert!(st.paused && st.running);
    assert_eq!(st.remaining_seconds, 0);
    st.tick(&plan, g);
    st.tick(&plan, g);
    assert_eq!(st.remaining_seconds, -2);
    assert_eq!(st.overtime_tracked_seconds, 2);
    assert!(st.can_continue());
    let t = st.continue_part().unwrap().unwrap();
    assert_eq!((t.session_id.as_str(), t.part_index, t.seconds), ("s", 0, 2));
    assert_eq!(st.current_part_index, 1);
    assert_eq!(st.remaining_seconds, 120);
    assert!(st.running && !st.paused);
    assert_eq!(st.overtime_tracked_seconds, 0);
}

#[test]
fn continue_on_last_part_stops() {
    let mut st = state_with(vec![session("s", "P", vec![part("Only", 3, true, false)])], "s");
    st.running = true;
    st.paused = true;
    st.remaining_seconds = -4;
    let t = st.continue_part().unwrap();
    assert!(t.is_none());
    assert!(!st.running && !st.paused);
    assert_eq!(st.remaining_seconds, 180);
}

#[test]
fn stop_reports_elapsed_and_rewinds() {
    let mut st = two_part_state();
    st.start().unwrap();
    st.remaining_seconds = 1000;
    assert!(st.can_stop());
    let t = st.stop().unwrap().unwrap();
    assert_eq!((t.session_id.as_str(), t.part_index, t.seconds), ("s", 0, 500));
    assert!(!st.running);
    assert_eq!(st.current_part_index, 0);
    assert_eq!(st.remaining_seconds, 1500);

    // An untracked part records nothing.
    let mut st = two_part_state();
    st.start().unwrap();
    st.current_part_index = 1;
    st.remaining_seconds = 10;
    assert!(st.stop().unwrap().is_none());
}

#[test]
fn start_then_stop_returns_to_same_state() {
    let mut st = two_part_state();
    let before = build_tick(&st, 0);
    st.start().unwrap();
    assert!(st.stop().unwrap().is_none());
    let after = build_tick(&st, 0);
    assert_eq!(before.remaining_seconds, after.remaining_seconds);
    assert_eq!(before.part_index, after.part_index);
    assert_eq!(before.running, after.running);
}

#[test]
fn switch_session_rules() {
    let mut st = state_with(
        vec![
            session("a", "A", vec![part("X", 2, false, false)]),
            session("b", "B", vec![part("Y", 3, false, false)]),
        ],
        "a",
    );
    assert_eq!(st.switch_session("zz".into()), Err("Session 'zz' not found".to_string()));
    assert!(st.can_switch("b"));
    assert_eq!(st.switch_session("b".into()), Ok(()));
    assert_eq!(st.active_session_id, "b");
    assert_eq!(st.remaining_seconds, 180);
    st.start().unwrap();
    assert_eq!(
        st.switch_session("a".into()),
        Err("Cannot switch session while timer is running".to_string())
    );
}

#[test]
fn update_settings_rules() {
    let mut st = two_part_state();
    let err = st.update_settings(vec![]);
    assert_eq!(err.map(|_| ()), Err("Must have between 1 and 5 sessions".to_string()));
    let new = st
        .update_settings(vec![
            session("", "Fresh", vec![part("Go", 10, false, false)]),
            session("other", "Other", vec![part("Go", 20, false, false)]),
        ])
        .unwrap();
    assert!(is_uuid(&new.sessions[0].id));
    assert_eq!(new.sessions[1].id, "other");
    // The old active session is gone: the first session becomes active.
    assert_eq!(st.active_session_id, new.sessions[0].id);
    assert_eq!(st.settings.sessions[0].id, new.sessions[0].id);
    assert_eq!(st.remaining_seconds, 600);

    // A running timer keeps its place.
    let mut st = two_part_state();
    st.start().unwrap();
    st.remaining_seconds = 77;
    st.update_settings(vec![session("s", "Kept", vec![part("Go", 9, false, false)])]).unwrap();
    assert_eq!(st.active_session_id, "s");
    assert_eq!(st.remaining_seconds, 77);
    assert!(st.running);
}

#[test]
fn precondition_checks() {
    let mut st = two_part_state();
    st.current_part_index = 5;
    assert!(!st.has_current_part());
    st.running = true;
    assert!(!st.can_stop());
    let plan = vec![PartPlan { seconds: 1, extendable: false, track_time: false }];
    assert!(!st.can_tick(&plan, st.run_generation));
    assert!(st.can_tick(&plan, st.run_generation.wrapping_add(1)));
    let mut st = two_part_state();
    st.settings.sessions[0].parts[0].minutes = u64::MAX;
    assert!(!st.can_plan());
    st.running = true;
    assert!(!st.can_stop());
}

fn sample_tick(part_index: usize, paused: bool, running: bool) -> pomodoro::timer::TimerTick {
    pomodoro::timer::TimerTick {
        remaining_seconds: 1,
        session_name: "S".into(),
        part_name: "P".into(),
        part_index,
        running,
        paused,
        daily_total_seconds: 0,
        active_session_id: "s".into(),
        session_count: 1,
    }
}

#[test]
fn service_events() {
    assert!(matches!(event_after_tick(true, sample_tick(0, false, false), 0, false), Some(ServiceEvent::Stop)));
    assert!(matches!(
        event_after_tick(false, sample_tick(1, false, true), 0, false),
        Some(ServiceEvent::PartUpdated { .. })
    ));
    assert!(matches!(
        event_after_tick(false, sample_tick(0, true, true), 0, false),
        Some(ServiceEvent::PartUpdated { .. })
    ));
    assert!(event_after_tick(false, sample_tick(0, false, true), 0, false).is_none());
    assert!(matches!(event_after_continue(sample_tick(1, false, true)), ServiceEvent::PartUpdated { .. }));
    assert!(matches!(event_after_continue(sample_tick(0, false, false)), ServiceEvent::Stop));
}
