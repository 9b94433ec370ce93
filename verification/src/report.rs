//! The document every scoring command prints.
//!
//! `assert`, `find`, `resolve`, `wait`, and `diff` answer one class of
//! question — what is true on screen right now — so one envelope, one
//! schema counter, one place the aggregate answer lives. Row-level answers
//! stay on the rows.

use vstd::prelude::*;

verus! {

/// The schema version of every document in this module. Starts at 2: it
/// replaces two independent counters that were both at 1.
pub const CLI_SCHEMA_VERSION: u32 = 2;

/// Which command produced a document.
#[derive(Debug, Clone, Copy, PartialEq, Eq, Structural)]
pub enum Command {
    Assert,
    Find,
    Resolve,
    Wait,
    Diff,
}

/// A command's answer: the rows it produced, and whether they pass.
#[derive(Debug, Clone, PartialEq)]
pub struct Report<T> {
    pub schema: u32,
    pub command: Command,
    /// When the frames behind this answer were taken; absent for commands
    /// that do not capture. Supplied by the caller — there is no clock here.
    pub captured_utc: Option<String>,
    /// How many times the screen was polled, for commands that loop.
    pub polls: Option<u32>,
    /// How long the polling took, measured rather than derived.
    pub elapsed_ms: Option<u64>,
    /// The aggregate the exit code mirrors: 0 when true, 1 when false.
    pub ok: bool,
    pub results: Vec<T>,
}

impl<T> Report<T> {
    /// A document from a command that captured.
    pub fn captured(command: Command, captured_utc: String, ok: bool, results: Vec<T>) -> (r: Self)
        ensures
            r.schema == CLI_SCHEMA_VERSION,
            r.command == command,
            r.captured_utc matches Some(c) && c@ == captured_utc@,
            r.polls is None,
            r.elapsed_ms is None,
            r.ok == ok,
            r.results@ == results@,
    {
        Report {
            schema: CLI_SCHEMA_VERSION,
            command,
            captured_utc: Some(captured_utc),
            polls: None,
            elapsed_ms: None,
            ok,
            results,
        }
    }

    /// A document from a command that answered from the session alone.
    pub fn offline(command: Command, ok: bool, results: Vec<T>) -> (r: Self)
        ensures
            r.schema == CLI_SCHEMA_VERSION,
            r.command == command,
            r.captured_utc is None,
            r.polls is None,
            r.elapsed_ms is None,
            r.ok == ok,
            r.results@ == results@,
    {
        Report {
            schema: CLI_SCHEMA_VERSION,
            command,
            captured_utc: None,
            polls: None,
            elapsed_ms: None,
            ok,
            results,
        }
    }

    /// Record how much polling produced this answer; nothing else changes.
    pub fn polled(self, polls: u32, elapsed_ms: u64) -> (r: Self)
        ensures
            r.schema == self.schema,
            r.command == self.command,
            r.captured_utc == self.captured_utc,
            r.polls == Some(polls),
            r.elapsed_ms == Some(elapsed_ms),
            r.ok == self.ok,
            r.results@ == self.results@,
    {
        let mut r = self;
        r.polls = Some(polls);
        r.elapsed_ms = Some(elapsed_ms);
        r
    }
}

} // verus!
