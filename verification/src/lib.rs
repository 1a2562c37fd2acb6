//! Core of a desktop music browser: a directory scanner that builds a
//! filtered, sorted song list, a shared image cache with a monotonic
//! three-state lifecycle, and the event protocol between the UI and the
//! background worker.

pub mod bytes;
pub mod images;
pub mod music;
pub mod ui;
pub mod worker;
