//! Machines: the decision units of the system.
//!
//! A machine sees events one at a time and may answer each with a command.
//! It may keep state, but it performs no I/O and it is deterministic: what
//! it decides depends on nothing but the events it has seen.

use vstd::prelude::*;

verus! {

/// A decision unit that maps events to commands.
///
/// An implementation says what it decides as a function of its state and
/// the event (`decision`), and what state it is in afterwards (`after`).
/// `decide` is that function, run.
pub trait Machine: Sized {
    type Event;

    type Command;

    /// The command, if any, with which the machine answers `event`.
    spec fn decision(&self, event: &Self::Event) -> Option<Self::Command>;

    /// The machine after it has seen `event`.
    spec fn after(&self, event: &Self::Event) -> Self;

    /// Shows `event` to the machine and returns the command it decides on.
    fn decide(&mut self, event: &Self::Event) -> (cmd: Option<Self::Command>)
        ensures
            cmd == old(self).decision(event),
            *final(self) == old(self).after(event),
    ;
}

/// The machine after it has seen `events`, in order.
pub open spec fn state_after<M: Machine>(machine: M, events: Seq<M::Event>) -> M
    decreases events.len(),
{
    if events.len() == 0 {
        machine
    } else {
        state_after(machine, events.drop_last()).after(&events.last())
    }
}

/// The commands that the machine decides on when it is shown `events`, in
/// order.
pub open spec fn decisions<M: Machine>(machine: M, events: Seq<M::Event>) -> Seq<M::Command>
    decreases events.len(),
{
    if events.len() == 0 {
        Seq::empty()
    } else {
        let earlier = decisions(machine, events.drop_last());
        match state_after(machine, events.drop_last()).decision(&events.last()) {
            Some(cmd) => earlier.push(cmd),
            None => earlier,
        }
    }
}

/// Shows `events` to the machine, in order, and returns the commands it
/// decides on.
pub fn feed<M: Machine>(machine: &mut M, events: &Vec<M::Event>) -> (cmds: Vec<M::Command>)
    ensures
        cmds@ == decisions(*old(machine), events@),
        *final(machine) == state_after(*old(machine), events@),
{
    let mut cmds: Vec<M::Command> = Vec::new();
    let mut i: usize = 0;
    proof {
        assert(events@.take(0) =~= Seq::empty());
    }
    while i < events.len()
        invariant
            i <= events.len(),
            cmds@ == decisions(*old(machine), events@.take(i as int)),
            *machine == state_after(*old(machine), events@.take(i as int)),
        decreases events.len() - i,
    {
        proof {
            assert(events@.take(i + 1).drop_last() =~= events@.take(i as int));
            assert(events@.take(i + 1).last() == events@[i as int]);
        }
        match machine.decide(&events[i]) {
            Some(cmd) => {
                cmds.push(cmd);
            },
            None => {},
        }
        i = i + 1;
    }
    proof {
        assert(events@.take(i as int) =~= events@);
    }
    cmds
}

/// Shows one event to every machine, in order, and returns the commands
/// they decide on.
pub fn fan_out<M: Machine>(machines: &mut Vec<M>, event: &M::Event) -> (cmds: Vec<M::Command>)
    ensures
        final(machines)@.len() == old(machines)@.len(),
        forall|k: int|
            0 <= k < old(machines)@.len() ==> #[trigger] final(machines)@[k] == old(
                machines,
            )@[k].after(event),
        cmds@ == answers(old(machines)@, event),
{
    let mut cmds: Vec<M::Command> = Vec::new();
    let mut i: usize = 0;
    proof {
        assert(old(machines)@.take(0) =~= Seq::empty());
    }
    while i < machines.len()
        invariant
            i <= machines.len(),
            machines@.len() == old(machines)@.len(),
            forall|k: int| 0 <= k < i ==> #[trigger] machines@[k] == old(machines)@[k].after(event),
            forall|k: int| i <= k < machines@.len() ==> #[trigger] machines@[k] == old(machines)@[k],
            cmds@ == answers(old(machines)@.take(i as int), event),
        decreases machines.len() - i,
    {
        proof {
            assert(old(machines)@.take(i + 1).drop_last() =~= old(machines)@.take(i as int));
            assert(old(machines)@.take(i + 1).last() == old(machines)@[i as int]);
            assert(machines@[i as int] == old(machines)@[i as int]);
        }
        let ghost mid = machines@;
        match machines[i].decide(event) {
            Some(cmd) => {
                cmds.push(cmd);
            },
            None => {},
        }
        proof {
            assert(forall|k: int|
                0 <= k < machines@.len() && k != i ==> #[trigger] machines@[k] == mid[k]);
        }
        i = i + 1;
    }
    proof {
        assert(old(machines)@.take(i as int) =~= old(machines)@);
    }
    cmds
}

/// The commands with which the machines answer one event, in the order of
/// the machines.
pub open spec fn answers<M: Machine>(machines: Seq<M>, event: &M::Event) -> Seq<M::Command>
    decreases machines.len(),
{
    if machines.len() == 0 {
        Seq::empty()
    } else {
        let earlier = answers(machines.drop_last(), event);
        match machines.last().decision(event) {
            Some(cmd) => earlier.push(cmd),
            None => earlier,
        }
    }
}

/// Machine determinism: machines in the same state that are shown the same
/// events decide on the same commands and end in the same state.
pub proof fn lemma_deterministic<M: Machine>(
    first: M,
    second: M,
    shown_first: Seq<M::Event>,
    shown_second: Seq<M::Event>,
)
    requires
        first == second,
        shown_first == shown_second,
    ensures
        decisions(first, shown_first) == decisions(second, shown_second),
        state_after(first, shown_first) == state_after(second, shown_second),
{
}

/// Replay: showing a machine some events and then more is the same as
/// showing it all of them at once. So a machine that is rebuilt from the
/// events it had seen goes on as the one that was lost would have.
pub proof fn lemma_replay<M: Machine>(machine: M, seen: Seq<M::Event>, more: Seq<M::Event>)
    ensures
        state_after(machine, seen + more) == state_after(state_after(machine, seen), more),
        decisions(machine, seen + more) == decisions(machine, seen) + decisions(
            state_after(machine, seen),
            more,
        ),
    decreases more.len(),
{
    if more.len() == 0 {
        assert(seen + more =~= seen);
        assert(decisions(machine, seen) + Seq::<M::Command>::empty() =~= decisions(machine, seen));
    } else {
        lemma_replay(machine, seen, more.drop_last());
        assert((seen + more).drop_last() =~= seen + more.drop_last());
        assert((seen + more).last() == more.last());
        let mid = state_after(machine, seen);
        let earlier = decisions(mid, more.drop_last());
        match state_after(mid, more.drop_last()).decision(&more.last()) {
            Some(cmd) => {
                assert((decisions(machine, seen) + earlier).push(cmd) =~= decisions(machine, seen)
                    + earlier.push(cmd));
            },
            None => {},
        }
    }
}

} // verus!
