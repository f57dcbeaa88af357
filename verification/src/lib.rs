//! Capture-and-commit core of a digital garden: derive a safe, unique file
//! name for a captured note, tell an abandoned draft from a real one, and
//! decide whether and what to persist. The caller does the filesystem and
//! subprocess work; everything decided here is verified.

pub mod commit;
pub mod draft;
pub mod errors;
pub mod naming;
pub mod session;
pub mod time;
