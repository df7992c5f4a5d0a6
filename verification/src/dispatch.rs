//! The dispatcher: routes each command by its execution mode.
//!
//! An inline command is handed back to the caller, who runs its effect in
//! the current task. A background command becomes a job that is due at
//! once, a scheduled command a job that is due at its run time. A command
//! that cannot be routed is answered with an error, never with a crash.

use crate::command::{Command, ExecutionMode};
use crate::error::StoreError;
use crate::job::JobView;
use crate::platform::{clock_reading, fresh_id, now_millis};
use crate::registry::{Registry, RegistryError, RegistryView};
use crate::store::JobStore;
use crate::table::StoreView;
use vstd::prelude::*;

verus! {

/// Why a command could not be dispatched.
#[derive(Clone, Copy, Debug, PartialEq, Eq, Structural)]
pub enum DispatchError {
    /// The command is to be queued, but has no serialized payload.
    NotSerializable,
    /// The command is to be queued, but has no job spec.
    MissingJobSpec,
    /// The command runs inline, but no effect is registered for its type.
    UnknownCommand,
    /// The job store turned the job down.
    Store(StoreError),
}

/// Where a command goes.
#[derive(Clone, Copy, Debug, PartialEq, Eq, Structural)]
pub enum Route {
    /// To its effect, in the current task.
    Inline,
    /// Onto the job queue, due at once.
    Enqueue,
    /// Onto the job queue, due at `run_at`.
    Schedule { run_at: i64 },
}

/// What the dispatcher did with a command.
#[derive(Clone, Copy, Debug, PartialEq, Eq, Structural)]
pub enum Dispatched {
    /// Nothing yet: the caller runs the command's effect and emits the event
    /// that the effect returns.
    Inline,
    /// The command was queued as job `job_id`.
    JobEnqueued { job_id: u128 },
    /// The command was queued as job `job_id`, due at `run_at`.
    JobScheduled { job_id: u128, run_at: i64 },
}

/// The event that reports a command that could not be dispatched.
#[derive(Clone, Copy, Debug, PartialEq, Eq, Structural)]
pub struct CommandFailed {
    pub correlation_id: u128,
    pub cause: DispatchError,
}

/// An event that the dispatcher itself puts on the bus.
#[derive(Clone, Copy, Debug, PartialEq, Eq, Structural)]
pub enum DispatchEvent {
    JobEnqueued { job_id: u128 },
    CommandFailed(CommandFailed),
}

/// Where a command goes, or why it goes nowhere.
///
/// An inline command needs nothing. A command that is queued needs its
/// payload, and then its job spec.
pub open spec fn route_of(cmd: Command) -> Result<Route, DispatchError> {
    match cmd.mode {
        ExecutionMode::Inline => Ok(Route::Inline),
        ExecutionMode::Background => if cmd.payload is None {
            Err(DispatchError::NotSerializable)
        } else if cmd.job_spec is None {
            Err(DispatchError::MissingJobSpec)
        } else {
            Ok(Route::Enqueue)
        },
        ExecutionMode::Scheduled { run_at } => if cmd.payload is None {
            Err(DispatchError::NotSerializable)
        } else if cmd.job_spec is None {
            Err(DispatchError::MissingJobSpec)
        } else {
            Ok(Route::Schedule { run_at })
        },
    }
}

/// The job that a queued command becomes when it is dispatched at `now`
/// under the identifier `id` and is due at `run_at`.
pub open spec fn job_of(cmd: Command, id: u128, run_at: int, now: int) -> JobView {
    JobView::fresh(
        id,
        cmd.job_spec->0.job_type@,
        cmd.payload->0,
        cmd.job_spec->0.priority as int,
        cmd.job_spec->0.max_retries as nat,
        run_at,
        now,
    )
}

/// The store after `cmd` was dispatched at `now`, with `id` at hand for a
/// new job, and the answer given. `known` says whether an effect is
/// registered for the command's type.
pub open spec fn dispatch_result(known: bool, store: StoreView, cmd: Command, id: u128, now: int)
    -> (StoreView, Result<Dispatched, DispatchError>) {
    match route_of(cmd) {
        Err(e) => (store, Err(e)),
        Ok(Route::Inline) => if known {
            (store, Ok(Dispatched::Inline))
        } else {
            (store, Err(DispatchError::UnknownCommand))
        },
        Ok(Route::Enqueue) => match store.insert_result(job_of(cmd, id, now, now)) {
            (after, Ok(job_id)) => (after, Ok(Dispatched::JobEnqueued { job_id })),
            (after, Err(e)) => (after, Err(DispatchError::Store(e))),
        },
        Ok(Route::Schedule { run_at }) => match store.insert_result(
            job_of(cmd, id, run_at as int, now),
        ) {
            (after, Ok(job_id)) => (after, Ok(Dispatched::JobScheduled { job_id, run_at })),
            (after, Err(e)) => (after, Err(DispatchError::Store(e))),
        },
    }
}

/// The event that the dispatcher puts on the bus for the given answer: the
/// new job for a background command, the failure for a command that could
/// not be dispatched, and nothing otherwise.
pub open spec fn event_of(answer: Result<Dispatched, DispatchError>, correlation_id: u128)
    -> Option<DispatchEvent> {
    match answer {
        Ok(Dispatched::JobEnqueued { job_id }) => Some(DispatchEvent::JobEnqueued { job_id }),
        Ok(_) => None,
        Err(cause) => Some(DispatchEvent::CommandFailed(CommandFailed { correlation_id, cause })),
    }
}

/// Decides where a command goes.
pub fn route(cmd: &Command) -> (res: Result<Route, DispatchError>)
    ensures
        res == route_of(*cmd),
{
    match cmd.mode {
        ExecutionMode::Inline => Ok(Route::Inline),
        ExecutionMode::Background => {
            if cmd.payload.is_none() {
                Err(DispatchError::NotSerializable)
            } else if cmd.job_spec.is_none() {
                Err(DispatchError::MissingJobSpec)
            } else {
                Ok(Route::Enqueue)
            }
        },
        ExecutionMode::Scheduled { run_at } => {
            if cmd.payload.is_none() {
                Err(DispatchError::NotSerializable)
            } else if cmd.job_spec.is_none() {
                Err(DispatchError::MissingJobSpec)
            } else {
                Ok(Route::Schedule { run_at })
            }
        },
    }
}

/// The event to put on the bus for the answer to a dispatch.
pub fn dispatch_event(answer: &Result<Dispatched, DispatchError>, correlation_id: u128) -> (event:
    Option<DispatchEvent>)
    ensures
        event == event_of(*answer, correlation_id),
{
    match answer {
        Ok(Dispatched::JobEnqueued { job_id }) => Some(
            DispatchEvent::JobEnqueued { job_id: *job_id },
        ),
        Ok(_) => None,
        Err(cause) => Some(
            DispatchEvent::CommandFailed(CommandFailed { correlation_id, cause: *cause }),
        ),
    }
}

/// The dispatcher: the effects that are registered, by the name of the
/// command type that each of them handles.
pub struct Dispatcher<F> {
    effects: Registry<F>,
}

impl<F> View for Dispatcher<F> {
    type V = RegistryView<F>;

    closed spec fn view(&self) -> RegistryView<F> {
        self.effects@
    }
}

impl<F> Dispatcher<F> {
    /// A dispatcher without effects.
    pub fn new() -> (dispatcher: Dispatcher<F>)
        ensures
            dispatcher@.names.len() == 0,
            !dispatcher@.frozen,
            dispatcher@.wf(),
    {
        Dispatcher { effects: Registry::new() }
    }

    /// Registers the effect for commands of type `name`. There is at most
    /// one effect per command type.
    pub fn with_effect(&mut self, name: &str, effect: F) -> (res: Result<(), RegistryError>)
        requires
            old(self)@.wf(),
        ensures
            (final(self)@, res) == old(self)@.register_result(name@, effect),
            final(self)@.wf(),
    {
        self.effects.register(name, effect)
    }

    /// Freezes the set of effects.
    pub fn freeze(&mut self)
        ensures
            final(self)@ == (RegistryView { frozen: true, ..old(self)@ }),
    {
        self.effects.freeze()
    }

    /// The effect for commands of type `name`, if one is registered.
    pub fn effect_for(&self, name: &str) -> (found: Option<&F>)
        requires
            self@.wf(),
        ensures
            match found {
                Some(effect) => self@.has(name@) && *effect == self@.handler(name@),
                None => !self@.has(name@),
            },
    {
        self.effects.lookup(name)
    }

    /// Dispatches `cmd` at `now`, with `id` at hand for a new job.
    ///
    /// An inline command whose effect is registered is handed back; a
    /// background command is queued, due at once; a scheduled command is
    /// queued, due at its run time. Only a command that is queued changes
    /// the store, by the one job it becomes.
    pub fn dispatch_with(&self, store: &mut JobStore, cmd: Command, id: u128, now: i64) -> (res:
        Result<Dispatched, DispatchError>)
        requires
            self@.wf(),
            old(store)@.wf(),
        ensures
            (final(store)@, res) == dispatch_result(
                self@.has(cmd.name@),
                old(store)@,
                cmd,
                id,
                now as int,
            ),
            final(store)@.wf(),
    {
        let route = match route(&cmd) {
            Ok(r) => r,
            Err(e) => {
                return Err(e);
            },
        };
        match route {
            Route::Inline => {
                if self.effects.contains(cmd.name.as_str()) {
                    Ok(Dispatched::Inline)
                } else {
                    Err(DispatchError::UnknownCommand)
                }
            },
            Route::Enqueue => {
                let Command { name: _, mode: _, job_spec, payload } = cmd;
                match store.enqueue_with(id, payload.unwrap(), job_spec.unwrap(), now) {
                    Ok(job_id) => Ok(Dispatched::JobEnqueued { job_id }),
                    Err(e) => Err(DispatchError::Store(e)),
                }
            },
            Route::Schedule { run_at } => {
                let Command { name: _, mode: _, job_spec, payload } = cmd;
                match store.schedule_with(id, payload.unwrap(), job_spec.unwrap(), run_at, now) {
                    Ok(job_id) => Ok(Dispatched::JobScheduled { job_id, run_at }),
                    Err(e) => Err(DispatchError::Store(e)),
                }
            },
        }
    }

    /// Dispatches `cmd`.
    ///
    /// This is [`Dispatcher::dispatch_with`] for a newly drawn identifier and
    /// the clock's reading.
    pub fn dispatch(&self, store: &mut JobStore, cmd: Command) -> (res: Result<
        Dispatched,
        DispatchError,
    >)
        requires
            self@.wf(),
            old(store)@.wf(),
        ensures
            exists|id: u128, now: int|
                clock_reading(now) && (final(store)@, res) == #[trigger] dispatch_result(
                    self@.has(cmd.name@),
                    old(store)@,
                    cmd,
                    id,
                    now,
                ),
            final(store)@.wf(),
    {
        let id = fresh_id();
        let now = now_millis();
        self.dispatch_with(store, cmd, id, now)
    }
}

/// A command that does not run inline changes nothing but the job table,
/// and that by at most one job, which is pending.
pub proof fn lemma_dispatch_queues_one(
    known: bool,
    store: StoreView,
    cmd: Command,
    id: u128,
    now: int,
)
    ensures
        ({
            let (after, answer) = dispatch_result(known, store, cmd, id, now);
            &&& after.lease_ms == store.lease_ms
            &&& (answer is Err || answer == Ok::<Dispatched, DispatchError>(Dispatched::Inline)
                ==> after == store)
            &&& (answer matches Ok(Dispatched::JobEnqueued { job_id }) ==> job_id == id
                && after.jobs == store.jobs.push(job_of(cmd, id, now, now)))
            &&& (answer matches Ok(Dispatched::JobScheduled { job_id, run_at }) ==> job_id == id
                && cmd.mode == (ExecutionMode::Scheduled { run_at }) && after.jobs
                == store.jobs.push(job_of(cmd, id, run_at as int, now)))
            &&& (cmd.wf() && cmd.is_queued() ==> !(answer matches Err(
                DispatchError::NotSerializable,
            )) && !(answer matches Err(DispatchError::MissingJobSpec)))
        }),
{
}

} // verus!
