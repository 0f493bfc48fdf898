//! The scheduling helper of a calendar applet: the part of it that decides and computes.
//!
//! A user marks spans of free time on a week grid, and the helper turns them into a message
//! that can be pasted into a mail. The modules here hold the dates and times the helper works
//! with, the wording of the message, the merging of spans, the search for free time between
//! calendar events, the gestures on the grid and the state of the window. Drawing, the clipboard,
//! the session bus and the C library's locale are the application's business.
pub mod app_laws;
pub mod calendar;
pub mod call_laws;
pub mod date;
pub mod date_laws;
pub mod drag_laws;
pub mod free_time;
pub mod gesture;
pub mod gesture_laws;
pub mod grid;
pub mod label_laws;
pub mod launch;
pub mod local_time;
pub mod locale;
pub mod message_laws;
pub mod picking_laws;
pub mod scene;
pub mod scene_laws;
pub mod scheduling;
pub mod scheduling_app;
pub mod span_laws;
pub mod state_laws;
pub mod text;
pub mod uid_set;
pub mod window;
