//! Commands: requests to perform I/O, with the way in which each is to be
//! carried out.

use crate::job::JobSpec;
use serde_json::Value;
use vstd::prelude::*;

verus! {

/// How a command is carried out: at once in the dispatching task, as soon as
/// a worker is free, or by a worker at or after `run_at` (milliseconds since
/// the Unix epoch).
#[derive(Clone, Copy, Debug, PartialEq, Eq, Structural)]
pub enum ExecutionMode {
    Inline,
    Background,
    Scheduled { run_at: i64 },
}

/// A command as the dispatcher sees it: the name of its type, its execution
/// mode, and, for a command that is queued, its job spec and its payload in
/// serialized form.
#[derive(Debug)]
pub struct Command {
    pub name: String,
    pub mode: ExecutionMode,
    pub job_spec: Option<JobSpec>,
    pub payload: Option<Value>,
}

impl Command {
    /// A command is queued unless it runs inline.
    pub open spec fn is_queued(&self) -> bool {
        self.mode != ExecutionMode::Inline
    }

    /// The invariant of commands: a command that is queued has a job spec
    /// and a payload. An inline command needs neither.
    pub open spec fn wf(&self) -> bool {
        self.is_queued() ==> self.job_spec is Some && self.payload is Some
    }

    /// A command of the given type that runs inline.
    pub fn inline(name: &str) -> (cmd: Command)
        ensures
            cmd.name@ == name@,
            cmd.mode == ExecutionMode::Inline,
            cmd.job_spec is None,
            cmd.payload is None,
            cmd.wf(),
    {
        Command { name: name.to_owned(), mode: ExecutionMode::Inline, job_spec: None, payload: None }
    }

    /// A command of the given type that a worker runs as soon as one is
    /// free.
    pub fn background(name: &str, spec: JobSpec, payload: Value) -> (cmd: Command)
        ensures
            cmd.name@ == name@,
            cmd.mode == ExecutionMode::Background,
            cmd.job_spec == Some(spec),
            cmd.payload == Some(payload),
            cmd.wf(),
    {
        Command {
            name: name.to_owned(),
            mode: ExecutionMode::Background,
            job_spec: Some(spec),
            payload: Some(payload),
        }
    }

    /// A command of the given type that a worker runs at or after `run_at`.
    pub fn scheduled(name: &str, spec: JobSpec, payload: Value, run_at: i64) -> (cmd: Command)
        ensures
            cmd.name@ == name@,
            cmd.mode == (ExecutionMode::Scheduled { run_at }),
            cmd.job_spec == Some(spec),
            cmd.payload == Some(payload),
            cmd.wf(),
    {
        Command {
            name: name.to_owned(),
            mode: ExecutionMode::Scheduled { run_at },
            job_spec: Some(spec),
            payload: Some(payload),
        }
    }

    /// The command's execution mode.
    pub fn execution_mode(&self) -> (mode: ExecutionMode)
        ensures
            mode == self.mode,
    {
        self.mode
    }

    /// Checks the invariant of commands.
    pub fn is_valid(&self) -> (ok: bool)
        ensures
            ok == self.wf(),
    {
        match self.mode {
            ExecutionMode::Inline => true,
            _ => self.job_spec.is_some() && self.payload.is_some(),
        }
    }
}

} // verus!
