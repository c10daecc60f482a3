use logos::user_gate::{entry_state, gate_action, EntryState, FaultRecord, GateAction, GateFlags, GateRequest, GateState};

fn flags() -> GateFlags {
    GateFlags {
        faulted: false,
        fault: FaultRecord { vector: 0, error: 0, rip: 0, cr2: 0 },
        panicked: false,
        blocked: false,
        command: false,
        display: false,
        returned: false,
    }
}

fn request(waiting: bool, command: bool, display: bool) -> GateRequest {
    GateRequest { waiting, command, display }
}

#[test]
fn entries_report_faults_before_panics_before_requests() {
    let fault = FaultRecord { vector: 14, error: 2, rip: 0x1000, cr2: 0xdead };
    let all = GateFlags { faulted: true, fault, panicked: true, blocked: true, display: true, returned: true, ..flags() };
    assert_eq!(entry_state(all), Some(EntryState::Fault(fault)));
    assert_eq!(entry_state(GateFlags { faulted: false, ..all }), Some(EntryState::Panic));
    let blocked = GateFlags { blocked: true, command: true, ..flags() };
    assert_eq!(entry_state(blocked), Some(EntryState::Command));
    assert_eq!(entry_state(GateFlags { display: true, ..blocked }), Some(EntryState::Display));
    assert_eq!(entry_state(GateFlags { command: false, ..blocked }), Some(EntryState::Input));
    assert_eq!(entry_state(GateFlags { returned: true, ..flags() }), Some(EntryState::Returned));
    assert_eq!(entry_state(flags()), None);
    let gate = GateState::new();
    assert!(!gate.blocked && gate.frame.iter().all(|word| *word == 0));
}

#[test]
fn the_gate_blocks_on_the_first_waiting_request_once() {
    let requests = [request(false, false, true), request(true, true, false), request(true, false, true)];
    assert_eq!(gate_action(false, true, true, &requests, false), GateAction::Exit { panicked: false });
    assert_eq!(gate_action(true, true, true, &requests, false), GateAction::Exit { panicked: true });
    assert_eq!(gate_action(true, false, true, &requests, false), GateAction::Resume);
    assert_eq!(gate_action(true, false, false, &requests, false), GateAction::Block { command: true, display: false });
    assert_eq!(gate_action(true, false, false, &requests, true), GateAction::Exit { panicked: false });
    assert_eq!(gate_action(true, false, false, &requests[..1], false), GateAction::Exit { panicked: false });
}
