use seesaw::engine::{Directive, Engine, EngineBuilder, InflightTracker, Phase};
use seesaw::envelope::{EventEnvelope, EventRole};
use seesaw::registry::RegistryError;

#[test]
fn tracker_counts_envelopes_by_workflow() {
    let mut tracker = InflightTracker::new();
    assert!(tracker.is_idle());
    assert_eq!(tracker.outstanding(1), 0);
    assert!(tracker.begin(1));
    assert!(tracker.begin(1));
    assert!(tracker.begin(2));
    assert_eq!(tracker.outstanding(1), 2);
    assert_eq!(tracker.outstanding(2), 1);
    assert!(!tracker.is_idle());
    assert!(tracker.complete(1));
    assert_eq!(tracker.outstanding(1), 1);
    assert!(tracker.complete(1));
    assert_eq!(tracker.outstanding(1), 0);
    assert!(!tracker.complete(1));
    assert!(!tracker.is_idle());
    assert!(tracker.complete(2));
    assert!(tracker.is_idle());
    assert!(!tracker.complete(3));
}

#[test]
fn engine_starts_once() {
    let mut engine = Engine::new(4);
    assert_eq!(engine.phase(), Phase::Built);
    assert!(!engine.accept(1));
    assert_eq!(engine.start(), Directive::Spawn { workers: 4 });
    assert_eq!(engine.phase(), Phase::Running);
    assert_eq!(engine.start(), Directive::Nothing);
    assert_eq!(engine.phase(), Phase::Running);
}

#[test]
fn shutdown_drains_before_it_cancels_workers() {
    let mut engine = Engine::new(2);
    engine.start();
    assert!(engine.accept(1));
    assert!(engine.accept(1));
    assert!(engine.accept(2));
    assert_eq!(engine.outstanding(1), 2);
    assert_eq!(engine.shutdown(), Directive::Drain);
    assert_eq!(engine.phase(), Phase::Draining);
    // No new events once shutdown was asked for.
    assert!(!engine.accept(3));
    assert_eq!(engine.outstanding(3), 0);
    assert_eq!(engine.finish(1), Directive::Nothing);
    assert_eq!(engine.finish(2), Directive::Nothing);
    assert_eq!(engine.shutdown(), Directive::Drain);
    assert_eq!(engine.finish(1), Directive::CancelWorkers);
    assert_eq!(engine.phase(), Phase::Stopped);
    assert_eq!(engine.shutdown(), Directive::Nothing);
    assert_eq!(engine.start(), Directive::Nothing);
    assert!(!engine.accept(1));
    assert_eq!(engine.finish(1), Directive::Nothing);
    assert_eq!(engine.phase(), Phase::Stopped);
}

#[test]
fn shutdown_of_an_idle_engine_stops_at_once() {
    let mut engine = Engine::new(2);
    engine.start();
    assert!(engine.accept(1));
    assert_eq!(engine.finish(1), Directive::Nothing);
    assert_eq!(engine.shutdown(), Directive::CancelWorkers);
    assert_eq!(engine.phase(), Phase::Stopped);

    let mut never_started = Engine::new(2);
    assert_eq!(never_started.shutdown(), Directive::Nothing);
    assert_eq!(never_started.phase(), Phase::Stopped);
}

#[test]
fn waiting_ends_on_a_terminal_event_or_when_nothing_is_in_flight() {
    let mut engine = Engine::new(1);
    engine.start();
    engine.accept(7);
    assert!(!engine.is_settled(7, EventRole::Initial));
    assert!(!engine.is_settled(7, EventRole::Intermediate));
    assert!(engine.is_settled(7, EventRole::Terminal));
    assert!(engine.is_settled(8, EventRole::Intermediate));
    engine.finish(7);
    assert!(engine.is_settled(7, EventRole::Intermediate));
}

#[test]
fn envelopes_keep_their_correlation_id_and_count_up() {
    let first = EventEnvelope::initial(0xABCD, "requested");
    assert_eq!(first.correlation_id(), 0xABCD);
    assert_eq!(first.role(), EventRole::Initial);
    assert_eq!(first.sequence(), 0);
    assert_eq!(*first.event(), "requested");
    assert!(!first.is_terminal());
    let second = first.follow(EventRole::Intermediate, "working").unwrap();
    let third = second.follow(EventRole::Terminal, "done").unwrap();
    assert_eq!(second.correlation_id(), 0xABCD);
    assert_eq!(second.sequence(), 1);
    assert_eq!(third.correlation_id(), 0xABCD);
    assert_eq!(third.sequence(), 2);
    assert_eq!(third.role(), EventRole::Terminal);
    assert!(third.is_terminal());
    assert_eq!(third.into_event(), "done");
}

#[test]
fn new_workflows_get_their_own_correlation_ids() {
    let a = EventEnvelope::start(1u8);
    let b = EventEnvelope::start(1u8);
    assert_eq!(a.role(), EventRole::Initial);
    assert_eq!(a.sequence(), 0);
    assert_ne!(a.correlation_id(), b.correlation_id());
}

#[test]
fn builder_freezes_what_it_builds() {
    let builder: EngineBuilder<u8, u16> = EngineBuilder::new()
        .with_effect("Do", 1)
        .with_command("email:send", 10)
        .with_command("report:build", 11)
        .with_workers(3);
    let mut built = builder.build().ok().unwrap();
    assert_eq!(built.engine.phase(), Phase::Built);
    assert_eq!(built.engine.start(), Directive::Spawn { workers: 3 });
    assert_eq!(built.dispatcher.effect_for("Do"), Some(&1));
    assert_eq!(built.commands.lookup("report:build"), Some(&11));
    assert!(built.commands.is_frozen());
    assert_eq!(built.commands.register("late", 12), Err(RegistryError::Frozen));
    assert_eq!(built.dispatcher.with_effect("Late", 2), Err(RegistryError::Frozen));
}

#[test]
fn builder_refuses_two_effects_for_one_command_type() {
    let builder: EngineBuilder<u8, u16> =
        EngineBuilder::new().with_effect("Do", 1).with_effect("Do", 2).with_command("a", 1);
    assert_eq!(builder.build().err(), Some(RegistryError::Duplicate));
    let builder: EngineBuilder<u8, u16> =
        EngineBuilder::new().with_command("a", 1).with_effect("Do", 1).with_command("a", 2);
    assert_eq!(builder.build().err(), Some(RegistryError::Duplicate));
}
