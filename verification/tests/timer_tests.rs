use pomodoro::calendar::{days_since_epoch_to_date, today_string};
use pomodoro::model::{minutes_to_seconds, PomodoroSettings, Session, SessionPart};
use pomodoro::settings::{
    legacy_sessions, settings_from_file, validate_sessions, ActiveRef, PartDef, SessionDef,
    SettingsFile,
};
use pomodoro::timer::{build_tick, continue_advance, stop_tracked_seconds, PomodoroState};

fn part(name: &str, minutes: u64, extendable: bool, track_time: bool) -> SessionPart {
    SessionPart { name: name.into(), minutes, extendable, track_time }
}

fn part_def(name: &str, minutes: u64, extendable: bool, track_time: bool) -> PartDef {
    PartDef { name: name.into(), minutes, extendable, track_time }
}

// ---- PomodoroSettings::default ----

#[test]
fn default_settings_structure() {
    let settings = PomodoroSettings::default();
    assert_eq!(settings.sessions.len(), 1);
    let session = &settings.sessions[0];
    assert!(!session.id.is_empty(), "session should have a UUID");
    assert_eq!(session.name, "Pomodoro");
    assert_eq!(session.parts.len(), 2);
    assert_eq!(session.parts[0].name, "Work");
    assert_eq!(session.parts[0].minutes, 25);
    assert!(!session.parts[0].extendable);
    assert!(session.parts[0].track_time, "Work should have track_time=true");
    assert_eq!(session.parts[1].name, "Break");
    assert_eq!(session.parts[1].minutes, 5);
    assert!(!session.parts[1].extendable);
    assert!(!session.parts[1].track_time, "Break should have track_time=false");
}

// ---- minutes_to_seconds ----

#[test]
fn minutes_to_seconds_normal_mode() {
    assert_eq!(minutes_to_seconds(25, false), 1500);
    assert_eq!(minutes_to_seconds(5, false), 300);
    assert_eq!(minutes_to_seconds(1, false), 60);
    assert_eq!(minutes_to_seconds(120, false), 7200);
}

#[test]
fn minutes_to_seconds_test_mode() {
    assert_eq!(minutes_to_seconds(25, true), 25);
    assert_eq!(minutes_to_seconds(5, true), 5);
    assert_eq!(minutes_to_seconds(1, true), 1);
    assert_eq!(minutes_to_seconds(120, true), 120);
}

// ---- today_string ----

#[test]
fn today_string_format() {
    let secs = std::time::SystemTime::now()
        .duration_since(std::time::SystemTime::UNIX_EPOCH)
        .unwrap_or_default()
        .as_secs();
    let today = today_string(secs);
    // Must be exactly "YYYY-MM-DD"
    assert_eq!(today.len(), 10, "expected YYYY-MM-DD, got '{}'", today);
    assert_eq!(&today[4..5], "-");
    assert_eq!(&today[7..8], "-");
    let year: u32 = today[0..4].parse().unwrap();
    let month: u32 = today[5..7].parse().unwrap();
    let day: u32 = today[8..10].parse().unwrap();
    assert!(year >= 2024);
    assert!(month >= 1 && month <= 12);
    assert!(day >= 1 && day <= 31);
}

// ---- legacy_sessions ----

#[test]
fn legacy_migration_pomodoro_defaults() {
    // Only work_minutes and break_minutes set.
    let file = SettingsFile {
        sessions: None,
        active_session: None,
        work_minutes: Some(30),
        break_minutes: Some(10),
        play_minutes: None,
        play_break_minutes: None,
        session_type: None,
    };
    let sessions = legacy_sessions(&file);
    assert_eq!(sessions.len(), 2);
    // First session: Pomodoro (Work 30 / Break 10).
    assert!(!sessions[0].id.is_empty());
    assert!(sessions[0].parts[0].track_time, "Work should track time");
    assert!(!sessions[0].parts[1].track_time, "Break should not track time");
    assert_eq!(sessions[0].name, "Pomodoro");
    assert_eq!(sessions[0].parts[0].name, "Work");
    assert_eq!(sessions[0].parts[0].minutes, 30);
    assert_eq!(sessions[0].parts[1].name, "Break");
    assert_eq!(sessions[0].parts[1].minutes, 10);
    // Second session: Play / Break (defaults 25/5).
    assert!(!sessions[1].id.is_empty());
    assert!(sessions[1].parts[0].track_time, "Play should track time");
    assert!(!sessions[1].parts[1].track_time);
    assert_eq!(sessions[1].name, "Play / Break");
    assert_eq!(sessions[1].parts[0].name, "Play");
    assert_eq!(sessions[1].parts[0].minutes, 25);
    assert_eq!(sessions[1].parts[1].name, "Break");
    assert_eq!(sessions[1].parts[1].minutes, 5);
}

#[test]
fn legacy_migration_all_fields() {
    // All four minute fields set.
    let file = SettingsFile {
        sessions: None,
        active_session: None,
        work_minutes: Some(25),
        break_minutes: Some(5),
        play_minutes: Some(45),
        play_break_minutes: Some(15),
        session_type: None,
    };
    let sessions = legacy_sessions(&file);
    assert_eq!(sessions.len(), 2);
    assert_eq!(sessions[1].parts[0].minutes, 45);
    assert_eq!(sessions[1].parts[1].minutes, 15);
}

#[test]
fn legacy_migration_empty_uses_defaults() {
    let file = SettingsFile {
        sessions: None,
        active_session: None,
        work_minutes: None,
        break_minutes: None,
        play_minutes: None,
        play_break_minutes: None,
        session_type: None,
    };
    let sessions = legacy_sessions(&file);
    assert_eq!(sessions.len(), 2);
    // Defaults: 25/5 for both.
    assert_eq!(sessions[0].parts[0].minutes, 25);
    assert_eq!(sessions[0].parts[1].minutes, 5);
    assert_eq!(sessions[1].parts[0].minutes, 25);
    assert_eq!(sessions[1].parts[1].minutes, 5);
}

// ---- build_tick ----

#[test]
fn build_tick_basic() {
    let session_id = "test-sid-1".to_string();
    let settings = PomodoroSettings {
        sessions: vec![Session {
            id: session_id.clone(),
            name: "Test Session".into(),
            parts: vec![part("Focus", 25, false, true), part("Rest", 5, false, false)],
        }],
    };
    let state = PomodoroState {
        active_session_id: session_id,
        current_part_index: 0,
        remaining_seconds: 1500,
        settings,
        running: true,
        paused: false,
        overtime_tracked_seconds: 0,
        is_docked: false,
        test_mode: false,
        run_generation: 0,
    };
    let tick = build_tick(&state, 3600);
    assert_eq!(tick.remaining_seconds, 1500);
    assert_eq!(tick.session_name, "Test Session");
    assert_eq!(tick.part_name, "Focus");
    assert_eq!(tick.part_index, 0);
    assert!(tick.running);
    assert!(!tick.paused);
    assert_eq!(tick.daily_total_seconds, 3600);
    assert_eq!(tick.active_session_id, "test-sid-1");
    assert_eq!(tick.session_count, 1);
}

#[test]
fn build_tick_paused() {
    let session_id = "s1".to_string();
    let settings = PomodoroSettings {
        sessions: vec![Session {
            id: session_id.clone(),
            name: "S".into(),
            parts: vec![part("W", 1, true, false)],
        }],
    };
    let state = PomodoroState {
        active_session_id: session_id,
        current_part_index: 0,
        remaining_seconds: -5,
        settings,
        running: true,
        paused: true,
        overtime_tracked_seconds: 5,
        is_docked: false,
        test_mode: false,
        run_generation: 0,
    };
    let tick = build_tick(&state, 0);
    assert_eq!(tick.remaining_seconds, -5);
    assert!(tick.paused);
    assert_eq!(tick.part_name, "W");
    assert_eq!(tick.part_index, 0);
}

#[test]
fn build_tick_empty_part_name_fallback() {
    let session_id = "sid-fallback".to_string();
    let settings = PomodoroSettings {
        sessions: vec![Session {
            id: session_id.clone(),
            name: "Test".into(),
            parts: vec![
                part("  ", 10, false, false),
                part("  ", 10, false, false),
                part("  ", 10, false, false),
            ],
        }],
    };
    let state = PomodoroState {
        active_session_id: session_id,
        current_part_index: 2, // 0-based → "Part 3"
        remaining_seconds: 600,
        settings,
        running: false,
        paused: false,
        overtime_tracked_seconds: 0,
        is_docked: false,
        test_mode: false,
        run_generation: 0,
    };
    let tick = build_tick(&state, 0);
    assert_eq!(tick.part_name, "Part 3");
    assert_eq!(tick.part_index, 2);
}

// ---- validate_sessions ----

#[test]
fn validate_sessions_empty() {
    assert!(validate_sessions(&[]).is_err());
}

#[test]
fn validate_sessions_too_many() {
    let too_many: Vec<Session> = (0..6)
        .map(|i| Session { id: format!("s{}", i), name: format!("S{}", i), parts: vec![] })
        .collect();
    assert!(validate_sessions(&too_many).is_err());
}

#[test]
fn validate_sessions_five_ok() {
    let five: Vec<Session> = (0..5)
        .map(|i| Session {
            id: format!("s{}", i),
            name: format!("S{}", i),
            parts: vec![part("P", 1, false, false)],
        })
        .collect();
    assert!(validate_sessions(&five).is_ok());
}

#[test]
fn validate_empty_session_name() {
    let sessions = vec![Session {
        id: "x".into(),
        name: "   ".into(),
        parts: vec![part("P", 1, false, false)],
    }];
    assert!(validate_sessions(&sessions).is_err());
}

#[test]
fn validate_zero_parts() {
    let sessions = vec![Session { id: "x".into(), name: "S".into(), parts: vec![] }];
    assert!(validate_sessions(&sessions).is_err());
}

#[test]
fn validate_eleven_parts() {
    let sessions = vec![Session {
        id: "x".into(),
        name: "S".into(),
        parts: (0..11).map(|i| part(&format!("P{}", i), 1, false, false)).collect(),
    }];
    assert!(validate_sessions(&sessions).is_err());
}

#[test]
fn validate_ten_parts_ok() {
    let sessions = vec![Session {
        id: "x".into(),
        name: "S".into(),
        parts: (0..10).map(|i| part(&format!("P{}", i), 1, false, false)).collect(),
    }];
    assert!(validate_sessions(&sessions).is_ok());
}

#[test]
fn validate_minutes_zero() {
    let sessions = vec![Session {
        id: "x".into(),
        name: "S".into(),
        parts: vec![part("P", 0, false, false)],
    }];
    assert!(validate_sessions(&sessions).is_err());
}

#[test]
fn validate_minutes_121() {
    let sessions = vec![Session {
        id: "x".into(),
        name: "S".into(),
        parts: vec![part("P", 121, false, false)],
    }];
    assert!(validate_sessions(&sessions).is_err());
}

#[test]
fn validate_minutes_120_ok() {
    let sessions = vec![Session {
        id: "x".into(),
        name: "S".into(),
        parts: vec![part("P", 120, false, false)],
    }];
    assert!(validate_sessions(&sessions).is_ok());
}

#[test]
fn validate_valid_config() {
    let sessions = vec![
        Session {
            id: "a".into(),
            name: "Pomodoro".into(),
            parts: vec![part("Work", 25, false, true), part("Break", 5, false, false)],
        },
        Session {
            id: "b".into(),
            name: "Play / Break".into(),
            parts: vec![part("Play", 25, true, false), part("Break", 10, false, false)],
        },
    ];
    assert!(validate_sessions(&sessions).is_ok());
}

// ---- stop_tracked_seconds ----

#[test]
fn stop_tracked_when_disabled() {
    // track_time=false — never record.
    assert_eq!(stop_tracked_seconds(false, 300, false, 200, 0), None);
}

#[test]
fn stop_tracked_mid_session() {
    // track_time=true, 500s elapsed (1000s remaining).
    assert_eq!(stop_tracked_seconds(true, 1500, false, 1000, 0), Some(500));
}

#[test]
fn stop_tracked_no_elapsed() {
    // Just started, no time elapsed.
    assert_eq!(stop_tracked_seconds(true, 1500, false, 1500, 0), None);
}

#[test]
fn stop_tracked_fully_elapsed() {
    // Timer hit zero exactly (non-extendable).
    assert_eq!(stop_tracked_seconds(true, 1500, false, 0, 0), Some(1500));
}

#[test]
fn stop_tracked_paused_with_overtime() {
    // Paused in overtime, accumulated 30 overtime seconds.
    assert_eq!(stop_tracked_seconds(true, 1500, true, -30, 30), Some(30));
}

#[test]
fn stop_tracked_paused_no_overtime() {
    // Paused exactly at zero, no overtime accumulated yet.
    assert_eq!(stop_tracked_seconds(true, 1500, true, 0, 0), None);
}

#[test]
fn stop_tracked_remaining_negative_not_paused() {
    // Edge case: negative remaining without paused flag.
    let result = stop_tracked_seconds(true, 1500, false, -10, 0);
    // full.saturating_sub(-10) = 1500 - (-10) = 1510
    assert_eq!(result, Some(1510));
}

// ---- continue_advance ----

#[test]
fn continue_advance_mid_session() {
    // Two-part session, currently on part 0 (index 0), advance to part 1.
    let adv = continue_advance(0, &[1500, 300], 1500);
    assert_eq!(adv.new_part_index, 1);
    assert_eq!(adv.new_remaining_seconds, 300);
    assert!(adv.new_running);
    assert!(!adv.new_paused);
}

#[test]
fn continue_advance_last_part() {
    // Two-part session, currently on part 1 (last), advance should stop/reset.
    let adv = continue_advance(1, &[1500, 300], 1500);
    assert_eq!(adv.new_part_index, 0);
    assert_eq!(adv.new_remaining_seconds, 1500);
    assert!(!adv.new_running);
    assert!(!adv.new_paused);
}

#[test]
fn continue_advance_single_part() {
    // Single-part session: only part is also the last part → stop and reset.
    let adv = continue_advance(0, &[600], 600);
    assert_eq!(adv.new_part_index, 0);
    assert_eq!(adv.new_remaining_seconds, 600);
    assert!(!adv.new_running);
    assert!(!adv.new_paused);
}

// ---- days_since_epoch_to_date ----

#[test]
fn days_to_date_epoch() {
    // Day 0 = 1970-01-01 (Unix epoch).
    assert_eq!(days_since_epoch_to_date(0), "1970-01-01");
}

#[test]
fn days_to_date_known_dates() {
    assert_eq!(days_since_epoch_to_date(1), "1970-01-02");
    assert_eq!(days_since_epoch_to_date(10957), "2000-01-01");
    assert_eq!(days_since_epoch_to_date(19723), "2024-01-01");
}

#[test]
fn days_to_date_leap_year() {
    assert_eq!(days_since_epoch_to_date(19782), "2024-02-29");
    assert_eq!(days_since_epoch_to_date(19783), "2024-03-01");
}

#[test]
fn days_to_date_y2k_transition() {
    assert_eq!(days_since_epoch_to_date(10956), "1999-12-31");
    assert_eq!(days_since_epoch_to_date(10957), "2000-01-01");
    assert_eq!(days_since_epoch_to_date(11016), "2000-02-29");
    assert_eq!(days_since_epoch_to_date(11017), "2000-03-01");
}

// ---- settings_from_file ----

#[test]
fn settings_from_file_new_format() {
    // A new-format file with two sessions, extendable work part.
    let file = SettingsFile {
        sessions: Some(vec![
            SessionDef {
                id: "sid-a".into(),
                name: "Pomodoro".into(),
                parts: vec![
                    part_def("Work", 25, true, true),
                    part_def("Break", 5, false, false),
                ],
            },
            SessionDef {
                id: "sid-b".into(),
                name: "Deep Focus".into(),
                parts: vec![
                    part_def("Focus", 50, true, false),
                    part_def("Rest", 10, false, false),
                ],
            },
        ]),
        active_session: Some(ActiveRef::Text("sid-b".into())),
        ..Default::default()
    };
    let (settings, active) = settings_from_file(file);
    assert_eq!(settings.sessions.len(), 2);
    assert_eq!(settings.sessions[0].parts[0].extendable, true);
    assert_eq!(settings.sessions[0].parts[0].track_time, true);
    assert_eq!(settings.sessions[1].name, "Deep Focus");
    assert_eq!(settings.sessions[1].parts[0].minutes, 50);
    assert_eq!(settings.sessions[1].parts[1].minutes, 10);
    assert_eq!(active, "sid-b");
}

#[test]
fn settings_from_file_active_index_clamped() {
    // Old numeric active index beyond bounds → fall back to first session.
    let file = SettingsFile {
        sessions: Some(vec![
            SessionDef {
                id: "a1".into(),
                name: "A".into(),
                parts: vec![part_def("X", 1, false, false)],
            },
            SessionDef {
                id: "b2".into(),
                name: "B".into(),
                parts: vec![part_def("Y", 1, false, false)],
            },
        ]),
        active_session: Some(ActiveRef::Number(Some(99))),
        ..Default::default()
    };
    let (settings, active) = settings_from_file(file);
    assert_eq!(active, "a1"); // out of bounds → first session UUID
    assert_eq!(settings.sessions.len(), 2);
}

#[test]
fn settings_from_file_new_format_no_active() {
    // active_session missing from file → default to first session's UUID.
    let file = SettingsFile {
        sessions: Some(vec![SessionDef {
            id: "solo-id".into(),
            name: "Solo".into(),
            parts: vec![part_def("Task", 30, false, false)],
        }]),
        active_session: None,
        ..Default::default()
    };
    let (_, active) = settings_from_file(file);
    assert_eq!(active, "solo-id");
}

#[test]
fn settings_from_file_empty_defaults() {
    // Completely empty SettingsFile → PomodoroSettings::default().
    let file = SettingsFile::default();
    let (settings, active) = settings_from_file(file);
    assert!(!active.is_empty(), "should get a UUID from defaults");
    assert_eq!(settings.sessions.len(), 1);
    assert_eq!(settings.sessions[0].name, "Pomodoro");
    assert_eq!(settings.sessions[0].parts.len(), 2);
    assert_eq!(settings.sessions[0].parts[0].name, "Work");
    assert_eq!(settings.sessions[0].parts[0].minutes, 25);
    assert!(settings.sessions[0].parts[0].track_time);
    assert_eq!(settings.sessions[0].parts[1].name, "Break");
    assert_eq!(settings.sessions[0].parts[1].minutes, 5);
    assert!(!settings.sessions[0].parts[1].track_time);
}
