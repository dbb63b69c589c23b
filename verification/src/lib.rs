//! Keyboard-driven triage of an inbox.
//!
//! Messages fetched from a mail provider are normalized into [`email::Email`]
//! records, arranged so that messages of one sender stand next to each other,
//! and then reviewed one at a time by an [`engine::Engine`] that stages a
//! disposition and applies it to single records or to whole runs of them.
//!
//! The functions here carry contracts that Verus proves. One of them is
//! believed instead: [`text`] splits text with `str::split` and
//! `itertools`, and states what the pieces are. Network access and
//! terminal drawing stay with the caller, who asks [`loader::InboxLoader`]
//! what to fetch next and hands each key press to the engine.

pub mod status;
pub mod email;
pub mod text;
pub mod message;
pub mod order;
pub mod command;
pub mod engine;
pub mod session_laws;
pub mod loader;
