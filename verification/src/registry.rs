//! Registries: handlers keyed by a stable name.
//!
//! The engine keeps two of them: deserializers keyed by `job_type`, which
//! rebuild a queued command from its payload, and effects keyed by the
//! command's type name. A registry is filled while the engine is built and
//! frozen before it starts; a frozen registry takes no more entries.

use vstd::prelude::*;

verus! {

/// Why a registration was turned down.
#[derive(Clone, Copy, Debug, PartialEq, Eq, Structural)]
pub enum RegistryError {
    /// The registry is frozen.
    Frozen,
    /// The name is taken. There is at most one handler per name.
    Duplicate,
}

/// No deserializer is registered for the `job_type` of a queued command.
#[derive(Debug)]
pub struct DeserializationError {
    pub job_type: String,
}

/// Handlers keyed by name, in the order of registration.
pub struct Registry<H> {
    names: Vec<String>,
    handlers: Vec<H>,
    frozen: bool,
}

/// The mathematical value of a registry: its entries in the order of
/// registration, and whether it is frozen.
pub struct RegistryView<H> {
    pub names: Seq<Seq<char>>,
    pub handlers: Seq<H>,
    pub frozen: bool,
}

impl<H> RegistryView<H> {
    /// The invariant of registries: every name has its handler, and no name
    /// occurs twice.
    pub open spec fn wf(self) -> bool {
        &&& self.names.len() == self.handlers.len()
        &&& forall|i: int, j: int|
            0 <= i < j < self.names.len() ==> #[trigger] self.names[i] != #[trigger] self.names[j]
    }

    /// Whether a handler is registered under `name`.
    pub open spec fn has(self, name: Seq<char>) -> bool {
        self.names.contains(name)
    }

    /// The handler registered under `name`.
    pub open spec fn handler(self, name: Seq<char>) -> H {
        self.handlers[self.names.index_of(name)]
    }

    /// The registry as a map from names to handlers.
    pub open spec fn as_map(self) -> Map<Seq<char>, H> {
        Map::new(|name: Seq<char>| self.has(name), |name: Seq<char>| self.handler(name))
    }

    /// The registry after an attempt to register `handler` under `name`, and
    /// the answer given.
    pub open spec fn register_result(self, name: Seq<char>, handler: H) -> (
        RegistryView<H>,
        Result<(), RegistryError>,
    ) {
        if self.frozen {
            (self, Err(RegistryError::Frozen))
        } else if self.has(name) {
            (self, Err(RegistryError::Duplicate))
        } else {
            (
                RegistryView {
                    names: self.names.push(name),
                    handlers: self.handlers.push(handler),
                    ..self
                },
                Ok(()),
            )
        }
    }
}

/// The views of a sequence of names.
pub open spec fn name_views(names: Seq<String>) -> Seq<Seq<char>> {
    names.map_values(|s: String| s@)
}

impl<H> View for Registry<H> {
    type V = RegistryView<H>;

    closed spec fn view(&self) -> RegistryView<H> {
        RegistryView {
            names: name_views(self.names@),
            handlers: self.handlers@,
            frozen: self.frozen,
        }
    }
}

impl<H> Registry<H> {
    /// An empty registry that takes entries.
    pub fn new() -> (registry: Registry<H>)
        ensures
            registry@.names.len() == 0,
            registry@.handlers.len() == 0,
            !registry@.frozen,
            registry@.wf(),
    {
        Registry { names: Vec::new(), handlers: Vec::new(), frozen: false }
    }

    /// The number of entries.
    pub fn len(&self) -> (n: usize)
        ensures
            n == self@.names.len(),
    {
        self.names.len()
    }

    /// Tells whether the registry is frozen.
    pub fn is_frozen(&self) -> (frozen: bool)
        ensures
            frozen == self@.frozen,
    {
        self.frozen
    }

    /// The position of `name` among the registered names.
    fn find(&self, name: &str) -> (found: Option<usize>)
        requires
            self@.wf(),
        ensures
            match found {
                Some(i) => i < self@.names.len() && self@.names[i as int] == name@
                    && self@.names.index_of(name@) == i,
                None => !self@.has(name@),
            },
    {
        let wanted = name.to_owned();
        let mut i: usize = 0;
        while i < self.names.len()
            invariant
                i <= self.names.len(),
                self@.wf(),
                wanted@ == name@,
                forall|k: int| 0 <= k < i ==> #[trigger] self@.names[k] != name@,
            decreases self.names.len() - i,
        {
            if self.names[i] == wanted {
                proof {
                    let first = self@.names.index_of(name@);
                    assert(self@.names[i as int] == name@);
                    assert(self@.names.contains(name@));
                    assert(self@.names[first] == name@);
                    if first < i {
                        assert(self@.names[first] != self@.names[i as int]);
                    }
                    if i < first {
                        assert(self@.names[i as int] != self@.names[first]);
                    }
                }
                return Some(i);
            }
            i = i + 1;
        }
        None
    }

    /// Registers `handler` under `name`.
    ///
    /// A frozen registry takes no entry, and a name is registered once.
    pub fn register(&mut self, name: &str, handler: H) -> (res: Result<(), RegistryError>)
        requires
            old(self)@.wf(),
        ensures
            (final(self)@, res) == old(self)@.register_result(name@, handler),
            final(self)@.wf(),
    {
        if self.frozen {
            return Err(RegistryError::Frozen);
        }
        if self.find(name).is_some() {
            return Err(RegistryError::Duplicate);
        }
        let ghost before = self.names@;
        self.names.push(name.to_owned());
        self.handlers.push(handler);
        proof {
            assert(name_views(self.names@) =~= name_views(before).push(name@));
            assert forall|i: int, j: int| 0 <= i < j < self@.names.len() implies #[trigger] self@.names[i]
                != #[trigger] self@.names[j] by {
                if j == before.len() {
                    assert(old(self)@.names[i] == self@.names[i]);
                    assert(old(self)@.names.contains(self@.names[i]));
                } else {
                    assert(old(self)@.names[i] != old(self)@.names[j]);
                }
            }
        }
        Ok(())
    }

    /// Freezes the registry: from now on it takes no entries.
    pub fn freeze(&mut self)
        ensures
            final(self)@ == (RegistryView { frozen: true, ..old(self)@ }),
    {
        self.frozen = true;
    }

    /// Tells whether a handler is registered under `name`.
    pub fn contains(&self, name: &str) -> (found: bool)
        requires
            self@.wf(),
        ensures
            found == self@.has(name@),
    {
        self.find(name).is_some()
    }

    /// The handler registered under `name`, if there is one.
    pub fn lookup(&self, name: &str) -> (found: Option<&H>)
        requires
            self@.wf(),
        ensures
            match found {
                Some(handler) => self@.has(name@) && *handler == self@.handler(name@),
                None => !self@.has(name@),
            },
    {
        match self.find(name) {
            Some(i) => Some(&self.handlers[i]),
            None => None,
        }
    }

    /// The handler that rebuilds commands of the given `job_type`. Where
    /// none is registered, the error names the type.
    pub fn resolve(&self, job_type: &str) -> (found: Result<&H, DeserializationError>)
        requires
            self@.wf(),
        ensures
            match found {
                Ok(handler) => self@.has(job_type@) && *handler == self@.handler(job_type@),
                Err(e) => !self@.has(job_type@) && e.job_type@ == job_type@,
            },
    {
        match self.find(job_type) {
            Some(i) => Ok(&self.handlers[i]),
            None => Err(DeserializationError { job_type: job_type.to_owned() }),
        }
    }
}

/// Registration is append-only: whatever a registration answers, every entry
/// that was there is still there, under its name and with its handler.
pub proof fn lemma_register_keeps<H>(
    registry: RegistryView<H>,
    name: Seq<char>,
    handler: H,
    other: Seq<char>,
)
    requires
        registry.wf(),
        registry.has(other),
    ensures
        registry.register_result(name, handler).0.has(other),
        registry.register_result(name, handler).0.handler(other) == registry.handler(other),
{
    let after = registry.register_result(name, handler).0;
    let i = registry.names.index_of(other);
    assert(registry.names[i] == other);
    if after != registry {
        assert(after.names[i] == other);
        let j = after.names.index_of(other);
        assert(after.names[j] == other);
        if j == registry.names.len() {
            assert(name == other);
        } else if j != i {
            if i < j {
                assert(registry.names[i] != registry.names[j]);
            } else {
                assert(registry.names[j] != registry.names[i]);
            }
        }
    }
}

/// What was registered is found: after a registration that was accepted,
/// the name resolves to the handler that was given.
pub proof fn lemma_register_then_lookup<H>(registry: RegistryView<H>, name: Seq<char>, handler: H)
    requires
        registry.wf(),
        registry.register_result(name, handler).1 is Ok,
    ensures
        registry.register_result(name, handler).0.has(name),
        registry.register_result(name, handler).0.handler(name) == handler,
        registry.register_result(name, handler).0.as_map() == registry.as_map().insert(
            name,
            handler,
        ),
{
    let after = registry.register_result(name, handler).0;
    let n = registry.names.len() as int;
    assert(after.names[n] == name);
    let j = after.names.index_of(name);
    assert(after.names[j] == name);
    if j < n {
        assert(registry.names[j] == name);
        assert(registry.names.contains(name));
    }
    assert forall|other: Seq<char>| registry.has(other) implies after.has(other) && after.handler(
        other,
    ) == registry.handler(other) by {
        lemma_register_keeps(registry, name, handler, other);
    }
    assert forall|other: Seq<char>| after.has(other) && other != name implies registry.has(
        other,
    ) by {
        let k = after.names.index_of(other);
        assert(after.names[k] == other);
        assert(registry.names[k] == other);
    }
    assert(after.as_map() =~= registry.as_map().insert(name, handler));
}

} // verus!
