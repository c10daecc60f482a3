//! A bounded audit log of security-relevant effects.

use vstd::prelude::*;

verus! {

pub const EVENTS: usize = 8;

/// Who caused an effect.
#[derive(Clone, Copy, Debug, PartialEq, Eq, Structural)]
pub struct Principal(pub u32);

impl Principal {
    /// The principal of the local console.
    pub fn local() -> (r: Principal)
        ensures
            r == Principal(0),
    {
        Principal(0)
    }
}

#[derive(Clone, Copy, Debug, PartialEq, Eq, Structural)]
pub enum Effect {
    SecretWrite,
}

#[derive(Clone, Copy, Debug, PartialEq, Eq, Structural)]
pub struct Event {
    pub principal: Principal,
    pub effect: Effect,
}

pub struct Log {
    events: Vec<Event>,
}

impl Log {
    /// The recorded events, oldest first.
    pub closed spec fn events(&self) -> Seq<Event> {
        self.events@
    }

    pub open spec fn wf(&self) -> bool {
        self.events().len() <= EVENTS
    }

    pub fn new() -> (r: Self)
        ensures
            r.events() == Seq::<Event>::empty(),
            r.wf(),
    {
        Log { events: Vec::new() }
    }

    /// Append `event` unless the log is full.
    pub fn record(&mut self, event: Event) -> (r: bool)
        requires
            old(self).wf(),
        ensures
            final(self).wf(),
            r == (old(self).events().len() < EVENTS),
            r ==> final(self).events() == old(self).events().push(event),
            !r ==> final(self).events() == old(self).events(),
    {
        if self.events.len() == EVENTS {
            return false;
        }
        self.events.push(event);
        true
    }

    /// The most recent event.
    pub fn latest(&self) -> (r: Option<Event>)
        ensures
            r == (if self.events().len() == 0 {
                None
            } else {
                Some(self.events().last())
            }),
    {
        if self.events.len() == 0 {
            None
        } else {
            Some(self.events[self.events.len() - 1])
        }
    }
}

/// A fresh log records a secret write and reports it as the latest event.
pub fn self_check() -> (r: bool)
    ensures
        r,
{
    let mut log = Log::new();
    let event = Event { principal: Principal::local(), effect: Effect::SecretWrite };
    let recorded = log.record(event);
    let latest = log.latest();
    recorded && match latest {
        Some(found) => found == event,
        None => false,
    }
}

} // verus!
