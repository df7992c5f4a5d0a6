use seesaw::machine::{fan_out, feed, Machine};

#[derive(Debug, Clone, PartialEq)]
enum Ev {
    Requested { id: u32 },
    Done { id: u32 },
}

#[derive(Debug, Clone, PartialEq)]
enum Cmd {
    Do { id: u32 },
}

#[derive(Debug, Clone, PartialEq)]
struct Counting {
    seen: u32,
}

impl Machine for Counting {
    type Event = Ev;
    type Command = Cmd;

    fn decision(&self, event: &Ev) -> Option<Cmd> {
        match event {
            Ev::Requested { id } => Some(Cmd::Do { id: *id }),
            Ev::Done { .. } => None,
        }
    }

    fn after(&self, _event: &Ev) -> Counting {
        Counting { seen: self.seen + 1 }
    }

    fn decide(&mut self, event: &Ev) -> Option<Cmd> {
        let cmd = self.decision(event);
        *self = self.after(event);
        cmd
    }
}

#[test]
fn feed_collects_the_commands_in_order() {
    let mut m = Counting { seen: 0 };
    let events = vec![Ev::Requested { id: 1 }, Ev::Done { id: 1 }, Ev::Requested { id: 2 }];
    let cmds = feed(&mut m, &events);
    assert_eq!(cmds, vec![Cmd::Do { id: 1 }, Cmd::Do { id: 2 }]);
    assert_eq!(m.seen, 3);
}

#[test]
fn same_events_give_same_commands() {
    let events = vec![Ev::Requested { id: 7 }, Ev::Requested { id: 8 }, Ev::Done { id: 7 }];
    let mut a = Counting { seen: 0 };
    let mut b = Counting { seen: 0 };
    assert_eq!(feed(&mut a, &events), feed(&mut b, &events));
    assert_eq!(a, b);
}

#[test]
fn fan_out_shows_the_event_to_every_machine() {
    let mut machines = vec![Counting { seen: 0 }, Counting { seen: 5 }];
    let cmds = fan_out(&mut machines, &Ev::Requested { id: 3 });
    assert_eq!(cmds, vec![Cmd::Do { id: 3 }, Cmd::Do { id: 3 }]);
    assert_eq!(machines[0].seen, 1);
    assert_eq!(machines[1].seen, 6);
}
