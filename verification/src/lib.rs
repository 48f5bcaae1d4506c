//! A Pomodoro timer: sessions made of timed parts, a run state that ticks
//! once per second, daily time tracking and the settings file format.

pub mod text;
pub mod calendar;
pub mod model;
pub mod settings;
pub mod record;
pub mod timer;
pub mod laws;
