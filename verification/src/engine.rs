//! The engine's bookkeeping: which workflows have envelopes in flight, and
//! where the engine stands between start and shutdown.
//!
//! The engine itself performs no I/O here. It is told what happens (an
//! envelope is published, an envelope is done, shutdown is asked for) and
//! answers with what is to be done.

use crate::dispatch::Dispatcher;
use crate::envelope::EventRole;
use crate::registry::{Registry, RegistryError, RegistryView};
use vstd::prelude::*;

verus! {

/// The number of envelopes in flight for a workflow, where `inflight` maps
/// each workflow that has any to their number.
pub open spec fn outstanding_in(inflight: Map<u128, nat>, correlation_id: u128) -> nat {
    if inflight.dom().contains(correlation_id) {
        inflight[correlation_id]
    } else {
        0
    }
}

/// The map after one more envelope of workflow `correlation_id` is in
/// flight. The count of a workflow stops at the largest number that can be
/// stored; the envelope is then not counted.
pub open spec fn begun(inflight: Map<u128, nat>, correlation_id: u128) -> Map<u128, nat> {
    if outstanding_in(inflight, correlation_id) < u64::MAX {
        inflight.insert(correlation_id, outstanding_in(inflight, correlation_id) + 1)
    } else {
        inflight
    }
}

/// The map after one envelope of workflow `correlation_id` is done. A
/// workflow without envelopes in flight is not in the map.
pub open spec fn completed(inflight: Map<u128, nat>, correlation_id: u128) -> Map<u128, nat> {
    if outstanding_in(inflight, correlation_id) > 1 {
        inflight.insert(correlation_id, (outstanding_in(inflight, correlation_id) - 1) as nat)
    } else {
        inflight.remove(correlation_id)
    }
}

/// Whether no envelope is in flight.
pub open spec fn idle(inflight: Map<u128, nat>) -> bool {
    forall|id: u128| !inflight.dom().contains(id)
}

/// Counts the envelopes in flight, by workflow.
pub struct InflightTracker {
    ids: Vec<u128>,
    counts: Vec<u64>,
}

impl View for InflightTracker {
    type V = Map<u128, nat>;

    closed spec fn view(&self) -> Map<u128, nat> {
        Map::new(
            |id: u128| self.ids@.contains(id),
            |id: u128| self.counts@[self.ids@.index_of(id)] as nat,
        )
    }
}

impl InflightTracker {
    /// The invariant of trackers: each workflow is listed once, and only
    /// while it has envelopes in flight.
    pub closed spec fn wf(&self) -> bool {
        &&& self.ids@.len() == self.counts@.len()
        &&& forall|i: int, j: int|
            0 <= i < j < self.ids@.len() ==> #[trigger] self.ids@[i] != #[trigger] self.ids@[j]
        &&& forall|i: int| 0 <= i < self.counts@.len() ==> #[trigger] self.counts@[i] > 0
    }

    /// Every count in the map of a well-formed tracker is positive.
    pub proof fn lemma_counts_positive(&self, correlation_id: u128)
        requires
            self.wf(),
            self@.dom().contains(correlation_id),
        ensures
            1 <= self@[correlation_id] <= u64::MAX,
    {
        let i = self.ids@.index_of(correlation_id);
        assert(self.ids@[i] == correlation_id);
        assert(self.counts@[i] > 0);
    }

    /// A tracker with nothing in flight.
    pub fn new() -> (tracker: InflightTracker)
        ensures
            tracker@ == Map::<u128, nat>::empty(),
            tracker.wf(),
    {
        let tracker = InflightTracker { ids: Vec::new(), counts: Vec::new() };
        proof {
            assert(tracker@ =~= Map::<u128, nat>::empty());
        }
        tracker
    }

    /// The position of workflow `correlation_id` in the list.
    fn find(&self, correlation_id: u128) -> (found: Option<usize>)
        requires
            self.wf(),
        ensures
            match found {
                Some(i) => i < self.ids@.len() && self.ids@[i as int] == correlation_id
                    && self.ids@.index_of(correlation_id) == i && self@.dom().contains(
                    correlation_id,
                ) && self@[correlation_id] == self.counts@[i as int],
                None => !self.ids@.contains(correlation_id) && !self@.dom().contains(
                    correlation_id,
                ),
            },
    {
        let mut i: usize = 0;
        while i < self.ids.len()
            invariant
                i <= self.ids.len(),
                self.wf(),
                forall|k: int| 0 <= k < i ==> #[trigger] self.ids@[k] != correlation_id,
            decreases self.ids.len() - i,
        {
            if self.ids[i] == correlation_id {
                proof {
                    let first = self.ids@.index_of(correlation_id);
                    assert(self.ids@[i as int] == correlation_id);
                    assert(self.ids@[first] == correlation_id);
                    if first < i {
                        assert(self.ids@[first] != self.ids@[i as int]);
                    }
                    if i < first {
                        assert(self.ids@[i as int] != self.ids@[first]);
                    }
                }
                return Some(i);
            }
            i = i + 1;
        }
        None
    }

    /// The number of envelopes in flight for workflow `correlation_id`.
    pub fn outstanding(&self, correlation_id: u128) -> (n: u64)
        requires
            self.wf(),
        ensures
            n == outstanding_in(self@, correlation_id),
    {
        match self.find(correlation_id) {
            Some(i) => self.counts[i],
            None => 0,
        }
    }

    /// Tells whether nothing is in flight.
    pub fn is_idle(&self) -> (b: bool)
        requires
            self.wf(),
        ensures
            b == idle(self@),
    {
        let empty = self.ids.len() == 0;
        proof {
            if !empty {
                assert(self.ids@.contains(self.ids@[0]));
                assert(self@.dom().contains(self.ids@[0]));
            }
        }
        empty
    }

    /// Counts one more envelope of workflow `correlation_id` as in flight.
    /// Returns whether it was counted.
    pub fn begin(&mut self, correlation_id: u128) -> (counted: bool)
        requires
            old(self).wf(),
        ensures
            final(self)@ == begun(old(self)@, correlation_id),
            counted == (outstanding_in(old(self)@, correlation_id) < u64::MAX),
            final(self).wf(),
    {
        let ghost ids = self.ids@;
        let ghost counts = self.counts@;
        match self.find(correlation_id) {
            Some(i) => {
                let n = self.counts[i];
                if n < u64::MAX {
                    self.counts.set(i, n + 1);
                    proof {
                        assert(self@ =~= begun(old(self)@, correlation_id));
                    }
                    true
                } else {
                    false
                }
            },
            None => {
                self.ids.push(correlation_id);
                self.counts.push(1);
                proof {
                    let last = ids.len() as int;
                    assert(self.ids@[last] == correlation_id);
                    assert forall|id: u128| self.ids@.contains(id) <==> (ids.contains(id) || id
                        == correlation_id) by {
                        if ids.contains(id) {
                            let k = ids.index_of(id);
                            assert(self.ids@[k] == id);
                        }
                        if self.ids@.contains(id) && id != correlation_id {
                            let k = self.ids@.index_of(id);
                            assert(ids[k] == id);
                        }
                    }
                    assert forall|id: u128| ids.contains(id) implies self.ids@.index_of(id)
                        == ids.index_of(id) by {
                        let k = ids.index_of(id);
                        let m = self.ids@.index_of(id);
                        assert(self.ids@[k] == id);
                        assert(self.ids@[m] == id);
                        if m < k {
                            assert(self.ids@[m] != self.ids@[k]);
                        }
                        if k < m {
                            assert(self.ids@[k] != self.ids@[m]);
                        }
                    }
                    assert(self.ids@.index_of(correlation_id) == last) by {
                        let m = self.ids@.index_of(correlation_id);
                        assert(self.ids@[m] == correlation_id);
                        if m < last {
                            assert(ids[m] == correlation_id);
                        }
                    }
                    assert(self@ =~= begun(old(self)@, correlation_id));
                }
                true
            },
        }
    }

    /// Counts one envelope of workflow `correlation_id` as done. Returns
    /// whether one was in flight.
    pub fn complete(&mut self, correlation_id: u128) -> (was_in_flight: bool)
        requires
            old(self).wf(),
        ensures
            final(self)@ == completed(old(self)@, correlation_id),
            was_in_flight == (outstanding_in(old(self)@, correlation_id) > 0),
            final(self).wf(),
    {
        let ghost ids = self.ids@;
        let ghost counts = self.counts@;
        match self.find(correlation_id) {
            Some(i) => {
                let n = self.counts[i];
                if n > 1 {
                    self.counts.set(i, n - 1);
                    proof {
                        assert(self@ =~= completed(old(self)@, correlation_id));
                    }
                } else {
                    self.ids.remove(i);
                    self.counts.remove(i);
                    proof {
                        assert forall|id: u128| self.ids@.contains(id) <==> (ids.contains(id) && id
                            != correlation_id) by {
                            if ids.contains(id) && id != correlation_id {
                                let k = ids.index_of(id);
                                assert(ids[k] == id);
                                if k < i {
                                    assert(self.ids@[k] == id);
                                } else {
                                    assert(self.ids@[k - 1] == id);
                                }
                            }
                            if self.ids@.contains(id) {
                                let k = self.ids@.index_of(id);
                                assert(self.ids@[k] == id);
                                if k < i {
                                    assert(ids[k] == id);
                                    assert(ids[k] != ids[i as int]);
                                } else {
                                    assert(ids[k + 1] == id);
                                    assert(ids[i as int] != ids[k + 1]);
                                }
                            }
                        }
                        assert forall|id: u128| self.ids@.contains(id) implies self.counts@[self.ids@.index_of(
                            id,
                        )] == counts[ids.index_of(id)] by {
                            let k = self.ids@.index_of(id);
                            let m = ids.index_of(id);
                            assert(self.ids@[k] == id);
                            assert(ids[m] == id);
                            let k0 = if k < i {
                                k
                            } else {
                                k + 1
                            };
                            assert(ids[k0] == id);
                            if m < k0 {
                                assert(ids[m] != ids[k0]);
                            }
                            if k0 < m {
                                assert(ids[k0] != ids[m]);
                            }
                        }
                        assert(self@ =~= completed(old(self)@, correlation_id));
                    }
                }
                true
            },
            None => {
                proof {
                    assert(self@ =~= completed(old(self)@, correlation_id));
                }
                false
            },
        }
    }
}

/// Whether a caller that waits for workflow `correlation_id` may go on: the
/// workflow has reached its terminal event, or none of its envelopes is in
/// flight.
pub open spec fn settled(inflight: Map<u128, nat>, correlation_id: u128, role: EventRole) -> bool {
    role == EventRole::Terminal || outstanding_in(inflight, correlation_id) == 0
}

/// Where the engine stands.
#[derive(Clone, Copy, Debug, PartialEq, Eq, Structural)]
pub enum Phase {
    /// Built, not started.
    Built,
    /// Started: events are accepted.
    Running,
    /// Shutdown was asked for: no new events are accepted, and the engine
    /// waits for the envelopes in flight.
    Draining,
    /// Stopped: the workers are cancelled.
    Stopped,
}

/// What the engine's runtime is to do next.
#[derive(Clone, Copy, Debug, PartialEq, Eq, Structural)]
pub enum Directive {
    /// Spawn the runtime loop and this many workers.
    Spawn { workers: usize },
    /// Wait for the envelopes in flight.
    Drain,
    /// Cancel the workers.
    CancelWorkers,
    /// Nothing.
    Nothing,
}

/// The mathematical value of an engine.
pub struct EngineView {
    pub phase: Phase,
    pub workers: nat,
    pub inflight: Map<u128, nat>,
}

impl EngineView {
    /// The engine as built, for the given number of workers.
    pub open spec fn built(workers: nat) -> EngineView {
        EngineView { phase: Phase::Built, workers, inflight: Map::empty() }
    }

    /// The engine after `start`, and what is to be done. Only an engine that
    /// was built and not started starts.
    pub open spec fn started(self) -> (EngineView, Directive) {
        if self.phase == Phase::Built {
            (
                EngineView { phase: Phase::Running, ..self },
                Directive::Spawn { workers: self.workers as usize },
            )
        } else {
            (self, Directive::Nothing)
        }
    }

    /// Whether an envelope of workflow `correlation_id` is accepted: the
    /// engine is running, and the envelope can be counted.
    pub open spec fn accepts(self, correlation_id: u128) -> bool {
        self.phase == Phase::Running && outstanding_in(self.inflight, correlation_id) < u64::MAX
    }

    /// The engine after an envelope of workflow `correlation_id` was offered
    /// for publishing.
    pub open spec fn accepted(self, correlation_id: u128) -> EngineView {
        if self.accepts(correlation_id) {
            EngineView { inflight: begun(self.inflight, correlation_id), ..self }
        } else {
            self
        }
    }

    /// The engine after an envelope of workflow `correlation_id` was dealt
    /// with, and what is to be done. An engine that is draining stops when
    /// the last envelope is done.
    pub open spec fn finished(self, correlation_id: u128) -> (EngineView, Directive) {
        let inflight = completed(self.inflight, correlation_id);
        if self.phase == Phase::Draining && idle(inflight) {
            (EngineView { phase: Phase::Stopped, inflight, ..self }, Directive::CancelWorkers)
        } else {
            (EngineView { inflight, ..self }, Directive::Nothing)
        }
    }

    /// The engine after `shutdown`, and what is to be done. A running engine
    /// stops at once if nothing is in flight, and drains otherwise. An
    /// engine that never started has nothing to cancel.
    pub open spec fn shut_down(self) -> (EngineView, Directive) {
        match self.phase {
            Phase::Built => (EngineView { phase: Phase::Stopped, ..self }, Directive::Nothing),
            Phase::Running => if idle(self.inflight) {
                (EngineView { phase: Phase::Stopped, ..self }, Directive::CancelWorkers)
            } else {
                (EngineView { phase: Phase::Draining, ..self }, Directive::Drain)
            },
            Phase::Draining => (self, Directive::Drain),
            Phase::Stopped => (self, Directive::Nothing),
        }
    }
}

/// The engine's lifecycle and its count of envelopes in flight.
pub struct Engine {
    phase: Phase,
    workers: usize,
    inflight: InflightTracker,
}

impl View for Engine {
    type V = EngineView;

    closed spec fn view(&self) -> EngineView {
        EngineView { phase: self.phase, workers: self.workers as nat, inflight: self.inflight@ }
    }
}

impl Engine {
    /// The invariant of engines.
    pub closed spec fn wf(&self) -> bool {
        self.inflight.wf()
    }

    /// An engine for the given number of workers, not started.
    pub fn new(workers: usize) -> (engine: Engine)
        ensures
            engine@ == EngineView::built(workers as nat),
            engine.wf(),
    {
        Engine { phase: Phase::Built, workers, inflight: InflightTracker::new() }
    }

    /// Where the engine stands.
    pub fn phase(&self) -> (phase: Phase)
        ensures
            phase == self@.phase,
    {
        self.phase
    }

    /// The number of envelopes in flight for workflow `correlation_id`.
    pub fn outstanding(&self, correlation_id: u128) -> (n: u64)
        requires
            self.wf(),
        ensures
            n == outstanding_in(self@.inflight, correlation_id),
    {
        self.inflight.outstanding(correlation_id)
    }

    /// Starts the engine.
    pub fn start(&mut self) -> (directive: Directive)
        requires
            old(self).wf(),
        ensures
            (final(self)@, directive) == old(self)@.started(),
            final(self).wf(),
    {
        match self.phase {
            Phase::Built => {
                self.phase = Phase::Running;
                Directive::Spawn { workers: self.workers }
            },
            _ => Directive::Nothing,
        }
    }

    /// Offers an envelope of workflow `correlation_id` for publishing.
    /// Returns whether it is accepted; an accepted envelope is in flight.
    pub fn accept(&mut self, correlation_id: u128) -> (accepted: bool)
        requires
            old(self).wf(),
        ensures
            final(self)@ == old(self)@.accepted(correlation_id),
            accepted == old(self)@.accepts(correlation_id),
            final(self).wf(),
    {
        match self.phase {
            Phase::Running => self.inflight.begin(correlation_id),
            _ => false,
        }
    }

    /// Records that an envelope of workflow `correlation_id` was dealt with.
    pub fn finish(&mut self, correlation_id: u128) -> (directive: Directive)
        requires
            old(self).wf(),
        ensures
            (final(self)@, directive) == old(self)@.finished(correlation_id),
            final(self).wf(),
    {
        self.inflight.complete(correlation_id);
        let drained = self.inflight.is_idle();
        match self.phase {
            Phase::Draining => {
                if drained {
                    self.phase = Phase::Stopped;
                    Directive::CancelWorkers
                } else {
                    Directive::Nothing
                }
            },
            _ => Directive::Nothing,
        }
    }

    /// Asks the engine to shut down.
    pub fn shutdown(&mut self) -> (directive: Directive)
        requires
            old(self).wf(),
        ensures
            (final(self)@, directive) == old(self)@.shut_down(),
            final(self).wf(),
    {
        match self.phase {
            Phase::Built => {
                self.phase = Phase::Stopped;
                Directive::Nothing
            },
            Phase::Running => {
                if self.inflight.is_idle() {
                    self.phase = Phase::Stopped;
                    Directive::CancelWorkers
                } else {
                    self.phase = Phase::Draining;
                    Directive::Drain
                }
            },
            Phase::Draining => Directive::Drain,
            Phase::Stopped => Directive::Nothing,
        }
    }

    /// Tells whether a caller that waits for workflow `correlation_id` may
    /// go on, after an event with the given role was seen for it.
    pub fn is_settled(&self, correlation_id: u128, role: EventRole) -> (done: bool)
        requires
            self.wf(),
        ensures
            done == settled(self@.inflight, correlation_id, role),
    {
        match role {
            EventRole::Terminal => true,
            _ => self.inflight.outstanding(correlation_id) == 0,
        }
    }
}

/// Collects what an engine is made of: the effects by command type, the
/// deserializers by job type, and the number of workers.
///
/// A registration that is turned down is remembered, and `build` then fails
/// with the first such error: a misconfigured engine is never built.
pub struct EngineBuilder<F, D> {
    effects: Dispatcher<F>,
    commands: Registry<D>,
    workers: usize,
    error: Option<RegistryError>,
}

/// The mathematical value of an [`EngineBuilder`].
pub struct BuilderView<F, D> {
    pub effects: RegistryView<F>,
    pub commands: RegistryView<D>,
    pub workers: nat,
    pub error: Option<RegistryError>,
}

/// What `build` hands over: the engine, the dispatcher with its effects, and
/// the registry of deserializers. The two registries are frozen.
pub struct Built<F, D> {
    pub engine: Engine,
    pub dispatcher: Dispatcher<F>,
    pub commands: Registry<D>,
}

impl<F, D> BuilderView<F, D> {
    /// The invariant of builders.
    pub open spec fn wf(self) -> bool {
        &&& self.effects.wf()
        &&& self.commands.wf()
        &&& !self.effects.frozen
        &&& !self.commands.frozen
    }

    /// The error to remember after a registration answered `res`: the first
    /// one stays.
    pub open spec fn noted(self, res: Result<(), RegistryError>) -> Option<RegistryError> {
        match (self.error, res) {
            (None, Err(e)) => Some(e),
            _ => self.error,
        }
    }

    /// The builder after the effect for commands of type `name` was given.
    pub open spec fn with_effect(self, name: Seq<char>, effect: F) -> BuilderView<F, D> {
        let (effects, res) = self.effects.register_result(name, effect);
        BuilderView { effects, error: self.noted(res), ..self }
    }

    /// The builder after the deserializer for jobs of type `job_type` was
    /// given.
    pub open spec fn with_command(self, job_type: Seq<char>, deserializer: D) -> BuilderView<F, D> {
        let (commands, res) = self.commands.register_result(job_type, deserializer);
        BuilderView { commands, error: self.noted(res), ..self }
    }
}

impl<F, D> View for EngineBuilder<F, D> {
    type V = BuilderView<F, D>;

    closed spec fn view(&self) -> BuilderView<F, D> {
        BuilderView {
            effects: self.effects@,
            commands: self.commands@,
            workers: self.workers as nat,
            error: self.error,
        }
    }
}

impl<F, D> EngineBuilder<F, D> {
    /// A builder without effects, deserializers or workers.
    pub fn new() -> (builder: EngineBuilder<F, D>)
        ensures
            builder@.wf(),
            builder@.effects.names.len() == 0,
            builder@.commands.names.len() == 0,
            builder@.workers == 0,
            builder@.error is None,
    {
        EngineBuilder {
            effects: Dispatcher::new(),
            commands: Registry::new(),
            workers: 0,
            error: None,
        }
    }

    /// Registers the effect for commands of type `name`.
    pub fn with_effect(self, name: &str, effect: F) -> (builder: EngineBuilder<F, D>)
        requires
            self@.wf(),
        ensures
            builder@ == self@.with_effect(name@, effect),
            builder@.wf(),
    {
        let mut builder = self;
        let res = builder.effects.with_effect(name, effect);
        builder.error = match (builder.error, res) {
            (None, Err(e)) => Some(e),
            (kept, _) => kept,
        };
        builder
    }

    /// Registers the deserializer for jobs of type `job_type`.
    pub fn with_command(self, job_type: &str, deserializer: D) -> (builder: EngineBuilder<F, D>)
        requires
            self@.wf(),
        ensures
            builder@ == self@.with_command(job_type@, deserializer),
            builder@.wf(),
    {
        let mut builder = self;
        let res = builder.commands.register(job_type, deserializer);
        builder.error = match (builder.error, res) {
            (None, Err(e)) => Some(e),
            (kept, _) => kept,
        };
        builder
    }

    /// Sets the number of workers.
    pub fn with_workers(self, workers: usize) -> (builder: EngineBuilder<F, D>)
        requires
            self@.wf(),
        ensures
            builder@ == (BuilderView { workers: workers as nat, ..self@ }),
            builder@.wf(),
    {
        let mut builder = self;
        builder.workers = workers;
        builder
    }

    /// Builds the engine, or fails with the first registration that was
    /// turned down. The registries of a built engine are frozen.
    pub fn build(self) -> (res: Result<Built<F, D>, RegistryError>)
        requires
            self@.wf(),
        ensures
            match res {
                Ok(built) => {
                    &&& self@.error is None
                    &&& built.engine@ == EngineView::built(self@.workers)
                    &&& built.engine.wf()
                    &&& built.dispatcher@ == (RegistryView { frozen: true, ..self@.effects })
                    &&& built.commands@ == (RegistryView { frozen: true, ..self@.commands })
                },
                Err(e) => self@.error == Some(e),
            },
    {
        match self.error {
            Some(e) => Err(e),
            None => {
                let mut dispatcher = self.effects;
                let mut commands = self.commands;
                dispatcher.freeze();
                commands.freeze();
                Ok(Built { engine: Engine::new(self.workers), dispatcher, commands })
            },
        }
    }
}

/// A stopped engine stays stopped, accepts nothing, and asks for nothing
/// more; and an engine accepts envelopes only while it is running.
pub proof fn lemma_stopped_is_final(engine: EngineView, correlation_id: u128)
    requires
        engine.phase == Phase::Stopped,
    ensures
        engine.started() == (engine, Directive::Nothing),
        engine.shut_down() == (engine, Directive::Nothing),
        engine.accepted(correlation_id) == engine,
        engine.finished(correlation_id).0.phase == Phase::Stopped,
        engine.finished(correlation_id).1 == Directive::Nothing,
{
}

/// An engine that is draining accepts no envelope, and stops with the
/// envelope that leaves nothing in flight.
pub proof fn lemma_drain(engine: EngineView, correlation_id: u128)
    requires
        engine.phase == Phase::Draining,
    ensures
        !engine.accepts(correlation_id),
        engine.accepted(correlation_id) == engine,
        engine.finished(correlation_id).0.phase == Phase::Stopped <==> idle(
            completed(engine.inflight, correlation_id),
        ),
{
}

/// How far an engine has come.
pub open spec fn progress(phase: Phase) -> nat {
    match phase {
        Phase::Built => 0,
        Phase::Running => 1,
        Phase::Draining => 2,
        Phase::Stopped => 3,
    }
}

/// An engine never goes back: whatever happens, it stays where it stands or
/// moves on towards `Stopped`. And it tells its runtime to cancel the
/// workers only with the step that stops it.
pub proof fn lemma_phase_monotonic(engine: EngineView, correlation_id: u128)
    ensures
        progress(engine.phase) <= progress(engine.started().0.phase),
        progress(engine.phase) <= progress(engine.accepted(correlation_id).phase),
        progress(engine.phase) <= progress(engine.finished(correlation_id).0.phase),
        progress(engine.phase) <= progress(engine.shut_down().0.phase),
        engine.finished(correlation_id).1 == Directive::CancelWorkers ==> engine.phase
            != Phase::Stopped && engine.finished(correlation_id).0.phase == Phase::Stopped,
        engine.shut_down().1 == Directive::CancelWorkers ==> engine.phase != Phase::Stopped
            && engine.shut_down().0.phase == Phase::Stopped,
{
}

} // verus!
