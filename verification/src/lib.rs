//! A work journal kept in one plain text.
//!
//! The journal is a sequence of day sections, the newest first. A day
//! section starts with a date line, followed by an underline and an empty
//! line, and holds sub-sections: a list of things to do, entries under the
//! time of day, and notes under a tag. A sub-section starts with its header
//! line and runs to the next header line or to the end of the day section.
//!
//! Nothing but the text is kept. Every function splits the text into lines,
//! finds what it needs by scanning them, and joins lines into a new text.
//!
//! - `chars`, `runs`, `lines`: characters, scans, and the lines of a text;
//! - `classify`, `locate`: date lines and header lines, and where a day
//!   section and a sub-section lie;
//! - `editor`: reading, replacing and adding sub-sections, opening a day;
//! - `md`: the marks of list items;
//! - `time`: today's date and the time stamp of an entry;
//! - `cli`, `config`, `journal`: the commands, the settings, and one round
//!   of a command around the user's editor;
//! - `laws`: what holds across these functions.

pub mod chars;
pub mod runs;
pub mod lines;
pub mod classify;
pub mod locate;
pub mod time;
pub mod editor;
pub mod md;
pub mod cli;
pub mod config;
pub mod journal;
pub mod laws;
