//! The decisions of the user-mode entry path: what a return from user mode
//! means for the kernel, and what the trap handler does when a user program
//! traps into the kernel while the kernel waits on its control page.

use vstd::prelude::*;

verus! {

/// Words of a saved user frame.
pub const USER_FRAME_WORDS: usize = 20;

/// A fault taken in user mode.
#[derive(Clone, Copy, Debug, PartialEq, Eq, Structural)]
pub struct FaultRecord {
    pub vector: u8,
    pub error: u64,
    pub rip: u64,
    pub cr2: u64,
}

/// Why a user entry came back to the kernel.
#[derive(Clone, Copy, Debug, PartialEq, Eq, Structural)]
pub enum EntryState {
    Returned,
    Input,
    Command,
    Display,
    Panic,
    Fault(FaultRecord),
}

/// What the kernel keeps of a user program between entries: whether it
/// is blocked, on what, and its saved frame.
pub struct GateState {
    pub blocked: bool,
    pub command: bool,
    pub display: bool,
    pub frame: [u64; USER_FRAME_WORDS],
}

impl GateState {
    /// A program that is not blocked, with an empty frame.
    pub fn new() -> (r: Self)
        ensures
            !r.blocked && !r.command && !r.display,
            forall|i: int| 0 <= i < USER_FRAME_WORDS ==> #[trigger] r.frame@[i] == 0,
    {
        GateState { blocked: false, command: false, display: false, frame: [0; USER_FRAME_WORDS] }
    }
}

/// What the trap handler recorded while the program ran.
#[derive(Clone, Copy, Debug, PartialEq, Eq, Structural)]
pub struct GateFlags {
    pub faulted: bool,
    pub fault: FaultRecord,
    pub panicked: bool,
    pub blocked: bool,
    pub command: bool,
    pub display: bool,
    pub returned: bool,
}

/// Why the entry came back: a fault first, then a panic, then the
/// request a blocked program waits on, else a plain return; nothing when
/// the program neither blocked nor returned.
pub open spec fn entry_state_of(flags: GateFlags) -> Option<EntryState> {
    if flags.faulted {
        Some(EntryState::Fault(flags.fault))
    } else if flags.panicked {
        Some(EntryState::Panic)
    } else if flags.blocked {
        Some(
            if flags.display {
                EntryState::Display
            } else if flags.command {
                EntryState::Command
            } else {
                EntryState::Input
            },
        )
    } else if flags.returned {
        Some(EntryState::Returned)
    } else {
        None
    }
}

/// Why a user entry came back, from what the trap handler recorded.
pub fn entry_state(flags: GateFlags) -> (r: Option<EntryState>)
    ensures
        r == entry_state_of(flags),
{
    if flags.faulted {
        Some(EntryState::Fault(flags.fault))
    } else if flags.panicked {
        Some(EntryState::Panic)
    } else if flags.blocked {
        Some(
            if flags.display {
                EntryState::Display
            } else if flags.command {
                EntryState::Command
            } else {
                EntryState::Input
            },
        )
    } else if flags.returned {
        Some(EntryState::Returned)
    } else {
        None
    }
}

/// What a program's control page says when it traps into the kernel: each
/// request it may wait on, with whether the kernel takes it as a command
/// (else as input) and whether it is a display request.
pub struct GateRequest {
    pub waiting: bool,
    pub command: bool,
    pub display: bool,
}

/// What the trap handler does on a trap.
#[derive(Clone, Copy, Debug, PartialEq, Eq, Structural)]
pub enum GateAction {
    /// Leave user mode; `panicked` where the program reported a panic.
    Exit { panicked: bool },
    /// Resume the program at once.
    Resume,
    /// Save the frame and block the program on a request.
    Block { command: bool, display: bool },
}

/// The first request from `i` on that the program waits on.
pub open spec fn first_waiting(requests: Seq<GateRequest>, i: int) -> Option<int>
    decreases requests.len() - i,
{
    if i < 0 || i >= requests.len() {
        None
    } else if requests[i].waiting {
        Some(i)
    } else {
        first_waiting(requests, i + 1)
    }
}

/// What the trap handler does: without a control page, leave; on a reported
/// panic, leave as panicked; on an acknowledged request, resume; else
/// block on the first request waited on, unless the program is blocked
/// already, and leave otherwise.
pub open spec fn gate_action_of(
    has_context: bool,
    panicked: bool,
    acknowledged: bool,
    requests: Seq<GateRequest>,
    already_blocked: bool,
) -> GateAction {
    if !has_context {
        GateAction::Exit { panicked: false }
    } else if panicked {
        GateAction::Exit { panicked: true }
    } else if acknowledged {
        GateAction::Resume
    } else {
        match first_waiting(requests, 0) {
            Some(i) => if already_blocked {
                GateAction::Exit { panicked: false }
            } else {
                GateAction::Block { command: requests[i].command, display: requests[i].display }
            },
            None => GateAction::Exit { panicked: false },
        }
    }
}

/// Decides what the trap handler does on a trap, the requests in the order the
/// control page is asked about them.
pub fn gate_action(
    has_context: bool,
    panicked: bool,
    acknowledged: bool,
    requests: &[GateRequest],
    already_blocked: bool,
) -> (r: GateAction)
    ensures
        r == gate_action_of(has_context, panicked, acknowledged, requests@, already_blocked),
{
    if !has_context {
        return GateAction::Exit { panicked: false };
    }
    if panicked {
        return GateAction::Exit { panicked: true };
    }
    if acknowledged {
        return GateAction::Resume;
    }
    let mut i: usize = 0;
    while i < requests.len()
        invariant
            i <= requests@.len(),
            has_context && !panicked && !acknowledged,
            first_waiting(requests@, 0) == first_waiting(requests@, i as int),
        decreases requests@.len() - i,
    {
        if requests[i].waiting {
            if already_blocked {
                return GateAction::Exit { panicked: false };
            }
            return GateAction::Block { command: requests[i].command, display: requests[i].display };
        }
        i += 1;
    }
    GateAction::Exit { panicked: false }
}

} // verus!
