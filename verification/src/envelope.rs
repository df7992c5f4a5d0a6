//! Event envelopes: an event together with the workflow it belongs to.

use crate::platform::fresh_id;
use vstd::prelude::*;

verus! {

/// The place of an event in its workflow.
#[derive(Clone, Copy, Debug, PartialEq, Eq, Structural)]
pub enum EventRole {
    /// The event that starts the workflow.
    Initial,
    /// An event on the way.
    Intermediate,
    /// The event that ends the workflow.
    Terminal,
}

/// An event with the identifier of its workflow (the correlation id), its
/// role, and its number in the workflow.
///
/// An envelope never changes: its fields can be read, not written.
#[derive(Debug)]
pub struct EventEnvelope<E> {
    correlation_id: u128,
    role: EventRole,
    sequence: u64,
    event: E,
}

impl<E> EventEnvelope<E> {
    /// The identifier of the workflow.
    pub closed spec fn spec_correlation_id(&self) -> u128 {
        self.correlation_id
    }

    /// The role of the event.
    pub closed spec fn spec_role(&self) -> EventRole {
        self.role
    }

    /// The number of the event in its workflow, counted from zero.
    pub closed spec fn spec_sequence(&self) -> u64 {
        self.sequence
    }

    /// The event.
    pub closed spec fn spec_event(&self) -> E {
        self.event
    }

    /// The envelope of the event that starts workflow `correlation_id`.
    pub fn initial(correlation_id: u128, event: E) -> (envelope: EventEnvelope<E>)
        ensures
            envelope.spec_correlation_id() == correlation_id,
            envelope.spec_role() == EventRole::Initial,
            envelope.spec_sequence() == 0,
            envelope.spec_event() == event,
    {
        EventEnvelope { correlation_id, role: EventRole::Initial, sequence: 0, event }
    }

    /// The envelope of the event that starts a new workflow, under a newly
    /// drawn correlation id.
    pub fn start(event: E) -> (envelope: EventEnvelope<E>)
        ensures
            envelope.spec_role() == EventRole::Initial,
            envelope.spec_sequence() == 0,
            envelope.spec_event() == event,
    {
        EventEnvelope::initial(fresh_id(), event)
    }

    /// The envelope of the event that follows this one in the same
    /// workflow: it has the same correlation id and the next number. There
    /// is none once the numbers are used up.
    pub fn follow(&self, role: EventRole, event: E) -> (next: Option<EventEnvelope<E>>)
        ensures
            next is Some <==> self.spec_sequence() < u64::MAX,
            next matches Some(envelope) ==> {
                &&& envelope.spec_correlation_id() == self.spec_correlation_id()
                &&& envelope.spec_role() == role
                &&& envelope.spec_sequence() == self.spec_sequence() + 1
                &&& envelope.spec_event() == event
            },
    {
        if self.sequence < u64::MAX {
            Some(
                EventEnvelope {
                    correlation_id: self.correlation_id,
                    role,
                    sequence: self.sequence + 1,
                    event,
                },
            )
        } else {
            None
        }
    }

    /// The identifier of the workflow.
    pub fn correlation_id(&self) -> (id: u128)
        ensures
            id == self.spec_correlation_id(),
    {
        self.correlation_id
    }

    /// The role of the event.
    pub fn role(&self) -> (role: EventRole)
        ensures
            role == self.spec_role(),
    {
        self.role
    }

    /// The number of the event in its workflow.
    pub fn sequence(&self) -> (sequence: u64)
        ensures
            sequence == self.spec_sequence(),
    {
        self.sequence
    }

    /// The event.
    pub fn event(&self) -> (event: &E)
        ensures
            *event == self.spec_event(),
    {
        &self.event
    }

    /// Takes the event out of the envelope.
    pub fn into_event(self) -> (event: E)
        ensures
            event == self.spec_event(),
    {
        self.event
    }

    /// Tells whether the event ends its workflow.
    pub fn is_terminal(&self) -> (terminal: bool)
        ensures
            terminal == (self.spec_role() == EventRole::Terminal),
    {
        match self.role {
            EventRole::Terminal => true,
            _ => false,
        }
    }
}

} // verus!
