use seesaw::bus::{EventBus, Received};
use seesaw::command::{Command, ExecutionMode};
use seesaw::dispatch::{
    dispatch_event, route, CommandFailed, DispatchError, DispatchEvent, Dispatched, Dispatcher, Route,
};
use seesaw::error::StoreError;
use seesaw::job::{JobSpec, JobStatus};
use seesaw::machine::{feed, Machine};
use seesaw::registry::RegistryError;
use seesaw::store::JobStore;
use serde_json::Value;

const T: i64 = 1_700_000_000_000;

#[test]
fn route_follows_the_execution_mode() {
    assert_eq!(route(&Command::inline("A")), Ok(Route::Inline));
    assert_eq!(route(&Command::background("B", JobSpec::new("b"), Value::Null)), Ok(Route::Enqueue));
    assert_eq!(
        route(&Command::scheduled("C", JobSpec::new("c"), Value::Null, T)),
        Ok(Route::Schedule { run_at: T })
    );
}

#[test]
fn queued_command_without_payload_or_spec_is_refused() {
    let no_payload = Command {
        name: "B".to_string(),
        mode: ExecutionMode::Background,
        job_spec: Some(JobSpec::new("b")),
        payload: None,
    };
    assert!(!no_payload.is_valid());
    assert_eq!(route(&no_payload), Err(DispatchError::NotSerializable));
    let no_spec = Command {
        name: "B".to_string(),
        mode: ExecutionMode::Scheduled { run_at: T },
        job_spec: None,
        payload: Some(Value::Null),
    };
    assert!(!no_spec.is_valid());
    assert_eq!(route(&no_spec), Err(DispatchError::MissingJobSpec));
    let neither = Command {
        name: "B".to_string(),
        mode: ExecutionMode::Background,
        job_spec: None,
        payload: None,
    };
    assert_eq!(route(&neither), Err(DispatchError::NotSerializable));

    let mut store = JobStore::new();
    let dispatcher: Dispatcher<u8> = Dispatcher::new();
    assert_eq!(dispatcher.dispatch_with(&mut store, no_spec, 1, T), Err(DispatchError::MissingJobSpec));
    assert_eq!(store.len(), 0);
}

#[test]
fn background_dispatch_enqueues_one_pending_job() {
    let mut store = JobStore::new();
    let dispatcher: Dispatcher<u8> = Dispatcher::new();
    let mut fields = serde_json::Map::new();
    fields.insert("k".to_string(), Value::from(1));
    let payload = Value::Object(fields);
    let cmd = Command::background("C", JobSpec::new("x:y").with_max_retries(3), payload.clone());
    let answer = dispatcher.dispatch_with(&mut store, cmd, 11, T);
    assert_eq!(answer, Ok(Dispatched::JobEnqueued { job_id: 11 }));
    assert_eq!(dispatch_event(&answer, 5), Some(DispatchEvent::JobEnqueued { job_id: 11 }));
    assert_eq!(store.len(), 1);
    let job = store.get(11).unwrap();
    assert_eq!(job.status, JobStatus::Pending);
    assert_eq!(job.attempt, 1);
    assert_eq!(job.job_type, "x:y");
    assert_eq!(job.payload, payload);
    assert_eq!(job.max_retries, 3);
    assert!(job.run_at <= T);
    let s = store.stats().unwrap();
    assert_eq!((s.pending, s.running, s.succeeded, s.failed, s.dead_letter), (1, 0, 0, 0, 0));
}

#[test]
fn scheduled_dispatch_is_due_at_its_run_time() {
    let mut store = JobStore::new();
    let dispatcher: Dispatcher<u8> = Dispatcher::new();
    let cmd = Command::scheduled("C", JobSpec::new("x:y"), Value::Null, T + 60_000);
    let answer = dispatcher.dispatch_with(&mut store, cmd, 12, T);
    assert_eq!(answer, Ok(Dispatched::JobScheduled { job_id: 12, run_at: T + 60_000 }));
    assert_eq!(dispatch_event(&answer, 5), None);
    assert_eq!(store.get(12).unwrap().run_at, T + 60_000);
    assert_eq!(store.get(12).unwrap().created_at, T);
}

#[test]
fn store_errors_surface_as_dispatch_errors() {
    let mut store = JobStore::new();
    let dispatcher: Dispatcher<u8> = Dispatcher::new();
    let first = Command::background("C", JobSpec::new("x:y"), Value::Null);
    let second = Command::background("C", JobSpec::new("x:y"), Value::Null);
    dispatcher.dispatch_with(&mut store, first, 1, T).unwrap();
    let answer = dispatcher.dispatch_with(&mut store, second, 1, T);
    assert_eq!(answer, Err(DispatchError::Store(StoreError::DuplicateId)));
    assert_eq!(
        dispatch_event(&answer, 9),
        Some(DispatchEvent::CommandFailed(CommandFailed {
            correlation_id: 9,
            cause: DispatchError::Store(StoreError::DuplicateId)
        }))
    );
    assert_eq!(store.len(), 1);
}

#[test]
fn inline_dispatch_needs_a_registered_effect() {
    let mut store = JobStore::new();
    let mut dispatcher: Dispatcher<u8> = Dispatcher::new();
    assert_eq!(
        dispatcher.dispatch_with(&mut store, Command::inline("Do"), 1, T),
        Err(DispatchError::UnknownCommand)
    );
    assert_eq!(dispatcher.with_effect("Do", 7), Ok(()));
    assert_eq!(dispatcher.with_effect("Do", 8), Err(RegistryError::Duplicate));
    assert_eq!(dispatcher.dispatch_with(&mut store, Command::inline("Do"), 1, T), Ok(Dispatched::Inline));
    assert_eq!(dispatcher.effect_for("Do"), Some(&7));
    assert_eq!(dispatcher.effect_for("Other"), None);
    dispatcher.freeze();
    assert_eq!(dispatcher.with_effect("Late", 9), Err(RegistryError::Frozen));
    assert_eq!(store.len(), 0);
}

#[derive(Debug, Clone, PartialEq)]
enum Ev {
    Requested { id: u32 },
    Done { id: u32 },
}

struct Requests;

impl Machine for Requests {
    type Event = Ev;
    type Command = (Command, u32);

    fn decision(&self, event: &Ev) -> Option<(Command, u32)> {
        match event {
            Ev::Requested { id } => Some((Command::inline("Do"), *id)),
            Ev::Done { .. } => None,
        }
    }

    fn after(&self, _event: &Ev) -> Requests {
        Requests
    }

    fn decide(&mut self, event: &Ev) -> Option<(Command, u32)> {
        self.decision(event)
    }
}

fn done(id: u32) -> Ev {
    Ev::Done { id }
}

#[test]
fn inline_happy_path() {
    let mut bus: EventBus<Ev> = EventBus::new();
    let runtime = bus.subscribe();
    let observer = bus.subscribe();
    let mut store = JobStore::new();
    let mut dispatcher: Dispatcher<fn(u32) -> Ev> = Dispatcher::new();
    dispatcher.with_effect("Do", done).unwrap();
    let mut machine = Requests;

    bus.emit(Ev::Requested { id: 0xA });

    // The runtime loop: events go to the machine, commands to the dispatcher.
    loop {
        let event = match bus.recv(runtime) {
            Received::Event(e) => e,
            _ => break,
        };
        for (cmd, id) in feed(&mut machine, &vec![(*event).clone()]) {
            let name = cmd.name.clone();
            match dispatcher.dispatch(&mut store, cmd) {
                Ok(Dispatched::Inline) => {
                    let effect = dispatcher.effect_for(&name).unwrap();
                    bus.emit(effect(id));
                }
                other => panic!("expected an inline dispatch, got {:?}", other),
            }
        }
    }

    let mut observed = Vec::new();
    while let Received::Event(e) = bus.recv(observer) {
        observed.push((*e).clone());
    }
    assert_eq!(observed, vec![Ev::Requested { id: 0xA }, Ev::Done { id: 0xA }]);
    assert_eq!(store.len(), 0);
    let s = store.stats().unwrap();
    assert_eq!((s.pending, s.running, s.succeeded, s.failed, s.dead_letter), (0, 0, 0, 0, 0));
}
