//! Kernel side of a remote call: deadline and cancellation checks,
//! capability gating, and the choice of the kernel action.

use vstd::prelude::*;
use crate::capabilities::{allows_spec, Capability, CapabilityKind, CapabilityManager};

verus! {

#[derive(Clone, Copy, Debug, PartialEq, Eq, Structural)]
pub enum Error {
    Denied,
    UnknownCommand,
    Cancelled,
    TimedOut,
}

/// What the kernel does for a call; the argument-taking calls carry the
/// target they name.
#[derive(Clone, Debug, PartialEq, Eq)]
pub enum Outcome {
    Recovery,
    Reboot,
    PowerOff,
    Ping,
    Tasks,
    Services,
    Drivers,
    Trace,
    Inspect(Vec<u8>),
    Restart(Vec<u8>),
    Cancel(Vec<u8>),
    Error(Error),
}

/// A parsed call: its name and optional argument.
#[derive(Clone, Debug)]
pub struct Call {
    pub name: Vec<u8>,
    pub argument: Option<Vec<u8>>,
}

#[derive(Clone, Copy, Debug, PartialEq, Eq, Structural)]
pub struct Invocation {
    deadline: u64,
    cancelled: bool,
}

pub open spec fn wrapping_distance(now: u64, deadline: u64) -> int {
    if now >= deadline {
        now - deadline
    } else {
        now - deadline + 0x1_0000_0000_0000_0000
    }
}

impl Invocation {
    pub closed spec fn spec_deadline(self) -> u64 {
        self.deadline
    }

    pub closed spec fn spec_cancelled(self) -> bool {
        self.cancelled
    }

    /// Why the call may no longer run at `now`: cancellation first, then a
    /// deadline at or before `now` on the wrapping clock.
    pub open spec fn error_spec(self, now: u64) -> Option<Error> {
        if self.spec_cancelled() {
            Some(Error::Cancelled)
        } else if wrapping_distance(now, self.spec_deadline()) < 0x8000_0000_0000_0000 {
            Some(Error::TimedOut)
        } else {
            None
        }
    }

    pub fn new(deadline: u64) -> (r: Self)
        ensures
            r.spec_deadline() == deadline,
            !r.spec_cancelled(),
    {
        Invocation { deadline, cancelled: false }
    }

    pub fn cancelled(deadline: u64) -> (r: Self)
        ensures
            r.spec_deadline() == deadline,
            r.spec_cancelled(),
    {
        Invocation { deadline, cancelled: true }
    }

    pub fn error(self, now: u64) -> (r: Option<Error>)
        ensures
            r == self.error_spec(now),
    {
        if self.cancelled {
            Some(Error::Cancelled)
        } else if now.wrapping_sub(self.deadline) < 0x8000_0000_0000_0000 {
            Some(Error::TimedOut)
        } else {
            None
        }
    }
}

pub const RECOVERY: [u8; 8] = [0x72, 0x65, 0x63, 0x6f, 0x76, 0x65, 0x72, 0x79];
pub const REBOOT: [u8; 6] = [0x72, 0x65, 0x62, 0x6f, 0x6f, 0x74];
pub const POWEROFF: [u8; 8] = [0x70, 0x6f, 0x77, 0x65, 0x72, 0x6f, 0x66, 0x66];
pub const PING: [u8; 4] = [0x70, 0x69, 0x6e, 0x67];
pub const RESTART: [u8; 7] = [0x72, 0x65, 0x73, 0x74, 0x61, 0x72, 0x74];
pub const CANCEL: [u8; 6] = [0x63, 0x61, 0x6e, 0x63, 0x65, 0x6c];
pub const TASKS: [u8; 5] = [0x74, 0x61, 0x73, 0x6b, 0x73];
pub const SERVICES: [u8; 8] = [0x73, 0x65, 0x72, 0x76, 0x69, 0x63, 0x65, 0x73];
pub const DRIVERS: [u8; 7] = [0x64, 0x72, 0x69, 0x76, 0x65, 0x72, 0x73];
pub const TRACE: [u8; 5] = [0x74, 0x72, 0x61, 0x63, 0x65];
pub const INSPECT: [u8; 7] = [0x69, 0x6e, 0x73, 0x70, 0x65, 0x63, 0x74];

/// Which capability a call needs: `None` for an unknown call name,
/// `Some(None)` for a call open to every session.
pub open spec fn required_spec(name: Seq<u8>) -> Option<Option<CapabilityKind>> {
    if name == RECOVERY@ || name == REBOOT@ || name == POWEROFF@ {
        Some(Some(CapabilityKind::Recovery))
    } else if name == PING@ || name == RESTART@ || name == CANCEL@ {
        Some(Some(CapabilityKind::Service))
    } else if name == TASKS@ || name == SERVICES@ || name == DRIVERS@ || name == TRACE@ || name
        == INSPECT@ {
        Some(None)
    } else {
        None
    }
}

pub fn bytes_equal(a: &[u8], b: &[u8]) -> (r: bool)
    ensures
        r == (a@ == b@),
{
    if a.len() != b.len() {
        return false;
    }
    let mut i: usize = 0;
    while i < a.len()
        invariant
            a@.len() == b@.len(),
            i <= a@.len(),
            forall|j: int| 0 <= j < i ==> a@[j] == b@[j],
        decreases a@.len() - i,
    {
        if a[i] != b[i] {
            return false;
        }
        i += 1;
    }
    assert(a@ =~= b@);
    true
}

/// The capability a call named `name` requires; `Err` for a name the
/// kernel does not know.
pub fn required_capability(name: &[u8]) -> (r: Result<Option<CapabilityKind>, ()>)
    ensures
        match required_spec(name@) {
            None => r is Err,
            Some(kind) => r == Ok::<Option<CapabilityKind>, ()>(kind),
        },
{
    if bytes_equal(name, &RECOVERY) || bytes_equal(name, &REBOOT) || bytes_equal(name, &POWEROFF) {
        Ok(Some(CapabilityKind::Recovery))
    } else if bytes_equal(name, &PING) || bytes_equal(name, &RESTART) || bytes_equal(name, &CANCEL) {
        Ok(Some(CapabilityKind::Service))
    } else if bytes_equal(name, &TASKS) || bytes_equal(name, &SERVICES) || bytes_equal(name, &DRIVERS)
        || bytes_equal(name, &TRACE) || bytes_equal(name, &INSPECT) {
        Ok(None)
    } else {
        Err(())
    }
}

/// The capabilities a session holds.
pub struct Session {
    pub capabilities: Vec<Capability>,
}

pub open spec fn session_allows(
    held: Seq<Capability>,
    manager: Seq<crate::capabilities::Slot>,
    kind: CapabilityKind,
) -> bool {
    exists|i: int| 0 <= i < held.len() && allows_spec(manager, #[trigger] held[i], kind)
}

impl Session {
    /// Some capability of the session allows `kind`.
    pub fn allows(&self, manager: &CapabilityManager, kind: CapabilityKind) -> (r: bool)
        requires
            manager.wf(),
        ensures
            r == session_allows(self.capabilities@, manager.slots(), kind),
    {
        let mut i: usize = 0;
        while i < self.capabilities.len()
            invariant
                manager.wf(),
                i <= self.capabilities@.len(),
                forall|j: int| 0 <= j < i ==> !allows_spec(manager.slots(), #[trigger] self.capabilities@[j], kind),
            decreases self.capabilities@.len() - i,
        {
            if manager.allows(self.capabilities[i], kind) {
                return true;
            }
            i += 1;
        }
        false
    }
}

/// Check the invocation, the call name and the session's capabilities, and
/// choose the kernel action for `call`.
pub fn dispatch(
    call: &Call,
    session: &Session,
    capabilities: &CapabilityManager,
    invocation: Invocation,
    now: u64,
) -> (r: Outcome)
    requires
        capabilities.wf(),
    ensures
        match invocation.error_spec(now) {
            Some(e) => r == Outcome::Error(e),
            None => match required_spec(call.name@) {
                None => r == Outcome::Error(Error::UnknownCommand),
                Some(required) => if required matches Some(kind) && !session_allows(
                    session.capabilities@,
                    capabilities.slots(),
                    kind,
                ) {
                    r == Outcome::Error(Error::Denied)
                } else {
                    same_outcome(r, chosen_action(call.name@, call.argument))
                },
            },
        },
{
    if let Some(error) = invocation.error(now) {
        return Outcome::Error(error);
    }
    let required = match required_capability(&call.name) {
        Ok(required) => required,
        Err(()) => return Outcome::Error(Error::UnknownCommand),
    };
    if let Some(kind) = required {
        if !session.allows(capabilities, kind) {
            return Outcome::Error(Error::Denied);
        }
    }
    choose_action(call)
}

/// Equality of outcomes, comparing carried targets by their bytes.
pub open spec fn same_outcome(a: Outcome, b: Outcome) -> bool {
    match (a, b) {
        (Outcome::Inspect(x), Outcome::Inspect(y)) => x@ == y@,
        (Outcome::Restart(x), Outcome::Restart(y)) => x@ == y@,
        (Outcome::Cancel(x), Outcome::Cancel(y)) => x@ == y@,
        _ => a == b,
    }
}

/// The action a known call name selects; the argument-taking calls fail
/// as unknown without an argument.
pub open spec fn chosen_action(name: Seq<u8>, argument: Option<Vec<u8>>) -> Outcome {
    if name == RECOVERY@ {
        Outcome::Recovery
    } else if name == REBOOT@ {
        Outcome::Reboot
    } else if name == POWEROFF@ {
        Outcome::PowerOff
    } else if name == PING@ {
        Outcome::Ping
    } else if name == TASKS@ {
        Outcome::Tasks
    } else if name == SERVICES@ {
        Outcome::Services
    } else if name == DRIVERS@ {
        Outcome::Drivers
    } else if name == TRACE@ {
        Outcome::Trace
    } else if name == INSPECT@ || name == RESTART@ || name == CANCEL@ {
        match argument {
            None => Outcome::Error(Error::UnknownCommand),
            Some(target) => if name == INSPECT@ {
                Outcome::Inspect(target)
            } else if name == RESTART@ {
                Outcome::Restart(target)
            } else {
                Outcome::Cancel(target)
            },
        }
    } else {
        Outcome::Error(Error::UnknownCommand)
    }
}

fn choose_action(call: &Call) -> (r: Outcome)
    ensures
        same_outcome(r, chosen_action(call.name@, call.argument)),
{
    let name = &call.name;
    if bytes_equal(name, &RECOVERY) {
        Outcome::Recovery
    } else if bytes_equal(name, &REBOOT) {
        Outcome::Reboot
    } else if bytes_equal(name, &POWEROFF) {
        Outcome::PowerOff
    } else if bytes_equal(name, &PING) {
        Outcome::Ping
    } else if bytes_equal(name, &TASKS) {
        Outcome::Tasks
    } else if bytes_equal(name, &SERVICES) {
        Outcome::Services
    } else if bytes_equal(name, &DRIVERS) {
        Outcome::Drivers
    } else if bytes_equal(name, &TRACE) {
        Outcome::Trace
    } else if bytes_equal(name, &INSPECT) || bytes_equal(name, &RESTART) || bytes_equal(name, &CANCEL) {
        match &call.argument {
            None => Outcome::Error(Error::UnknownCommand),
            Some(target) => {
                let target = copy_bytes(target);
                if bytes_equal(name, &INSPECT) {
                    Outcome::Inspect(target)
                } else if bytes_equal(name, &RESTART) {
                    Outcome::Restart(target)
                } else {
                    Outcome::Cancel(target)
                }
            },
        }
    } else {
        Outcome::Error(Error::UnknownCommand)
    }
}

fn copy_bytes(bytes: &Vec<u8>) -> (r: Vec<u8>)
    ensures
        r@ == bytes@,
{
    let mut out: Vec<u8> = Vec::new();
    let mut i: usize = 0;
    while i < bytes.len()
        invariant
            i <= bytes@.len(),
            out@ == bytes@.subrange(0, i as int),
        decreases bytes@.len() - i,
    {
        out.push(bytes[i]);
        i += 1;
        assert(out@ =~= bytes@.subrange(0, i as int));
    }
    assert(out@ =~= bytes@);
    out
}

} // verus!
