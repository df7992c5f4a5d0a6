use seesaw::command::{Command, ExecutionMode};
use seesaw::dispatch::{Dispatched, Dispatcher};
use seesaw::job::{JobSpec, JobStatus};
use seesaw::store::JobStore;
use serde_json::Value;
use uuid::Uuid;

struct AutoSerializeBackgroundCommand {
    task: String,
    user_id: Uuid,
}

impl AutoSerializeBackgroundCommand {
    fn to_value(&self) -> Value {
        let mut fields = serde_json::Map::new();
        fields.insert("task".to_string(), Value::String(self.task.clone()));
        fields.insert("user_id".to_string(), Value::String(self.user_id.to_string()));
        Value::Object(fields)
    }

    fn from_value(value: &Value) -> Option<AutoSerializeBackgroundCommand> {
        let task = value.get("task")?.as_str()?.to_string();
        let user_id = Uuid::parse_str(value.get("user_id")?.as_str()?).ok()?;
        Some(AutoSerializeBackgroundCommand { task, user_id })
    }

    fn command(&self) -> Command {
        Command::background("AutoSerializeBackgroundCommand", JobSpec::new("auto:background"), self.to_value())
    }
}

struct AutoSerializeScheduledCommand {
    reminder: String,
    run_at: i64,
}

impl AutoSerializeScheduledCommand {
    fn to_value(&self) -> Value {
        let mut fields = serde_json::Map::new();
        fields.insert("reminder".to_string(), Value::String(self.reminder.clone()));
        fields.insert("run_at".to_string(), Value::from(self.run_at));
        Value::Object(fields)
    }

    fn command(&self) -> Command {
        Command::scheduled(
            "AutoSerializeScheduledCommand",
            JobSpec::new("auto:scheduled"),
            self.to_value(),
            self.run_at,
        )
    }
}

#[test]
fn test_background_command_auto_serializes() {
    let mut queue = JobStore::new();
    let dispatcher: Dispatcher<u8> = Dispatcher::new();

    let user_id = Uuid::new_v4();
    let cmd = AutoSerializeBackgroundCommand { task: "send_email".to_string(), user_id };

    let job_id = match dispatcher.dispatch(&mut queue, cmd.command()).unwrap() {
        Dispatched::JobEnqueued { job_id } => job_id,
        other => panic!("expected an enqueued job, got {:?}", other),
    };

    assert_eq!(queue.len(), 1);
    let job = queue.get(job_id).unwrap();
    assert_eq!(job.job_type, "auto:background");

    let payload = &job.payload;
    assert_eq!(payload["task"], "send_email");
    assert_eq!(payload["user_id"], user_id.to_string());
}

#[test]
fn test_scheduled_command_auto_serializes() {
    let mut queue = JobStore::new();
    let dispatcher: Dispatcher<u8> = Dispatcher::new();

    let run_at = chrono::Utc::now().timestamp_millis() + 3_600_000;
    let cmd = AutoSerializeScheduledCommand { reminder: "Meeting in 1 hour".to_string(), run_at };

    let job_id = match dispatcher.dispatch(&mut queue, cmd.command()).unwrap() {
        Dispatched::JobScheduled { job_id, run_at: at } => {
            assert_eq!(at, run_at);
            job_id
        }
        other => panic!("expected a scheduled job, got {:?}", other),
    };

    assert_eq!(queue.len(), 1);
    let job = queue.get(job_id).unwrap();
    assert_eq!(job.job_type, "auto:scheduled");
    assert_eq!(job.run_at, run_at);
    assert_eq!(job.status, JobStatus::Pending);

    let payload = &job.payload;
    assert_eq!(payload["reminder"], "Meeting in 1 hour");
}

#[test]
fn test_inline_command_does_not_require_serialization() {
    let cmd = Command::inline("AutoSerializeInlineCommand");
    assert_eq!(cmd.execution_mode(), ExecutionMode::Inline);
    assert!(cmd.is_valid());
    assert!(cmd.payload.is_none());
}

#[test]
fn test_command_can_be_deserialized() {
    let original = AutoSerializeBackgroundCommand { task: "process".to_string(), user_id: Uuid::new_v4() };

    // Through the queue and back: what a worker is handed rebuilds the command.
    let mut queue = JobStore::new();
    let dispatcher: Dispatcher<u8> = Dispatcher::new();
    dispatcher.dispatch(&mut queue, original.command()).unwrap();
    let claimed = queue.claim_ready("worker-1", 1).unwrap();
    assert_eq!(claimed.len(), 1);
    let deserialized = AutoSerializeBackgroundCommand::from_value(&claimed[0].payload).unwrap();

    assert_eq!(original.task, deserialized.task);
    assert_eq!(original.user_id, deserialized.user_id);
}
