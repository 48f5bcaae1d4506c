# pomodoro

A Pomodoro timer whose logic is verified with Verus.

- `src/` — the verified library:
  - `text.rs`: decimal rendering, zero padding, white space, string equality
  - `calendar.rs`: day numbers to `YYYY-MM-DD` dates, with the calendar laws
  - `model.rs`: sessions, parts, settings and their mathematical models
  - `settings.rs`: the settings file, its migrations and the session rules
  - `record.rs`: the per-day time record and its totals
  - `timer.rs`: the timer state, its transitions and the tick snapshot
  - `laws.rs`: properties that hold across transitions
- `tests/` — tests of the library.
- `app/` — the desktop/mobile program: commands, files, the ticking thread,
  window handling and the Android notification bridge.
