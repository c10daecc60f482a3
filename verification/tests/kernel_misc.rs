use logos::audit::{self, Effect, Event, Log, Principal, EVENTS};
use logos::capabilities::{CapabilityKind, CapabilityManager, CAPABILITIES};
use logos::commands::{dispatch, required_capability, Call, Error, Invocation, Outcome, Session};
use logos::device::{self, Class, Interface};

#[test]
fn granted_capabilities_allow_their_kind_until_revoked() {
    let mut manager = CapabilityManager::new();
    let debug = manager.grant(CapabilityKind::Debug).unwrap();
    let secret = manager.grant(CapabilityKind::Secret).unwrap();
    assert!(manager.allows(debug, CapabilityKind::Debug));
    assert!(!manager.allows(debug, CapabilityKind::Secret));
    assert!(manager.allows(secret, CapabilityKind::Secret));
    assert!(manager.revoke(debug));
    assert!(!manager.allows(debug, CapabilityKind::Debug));
    assert!(!manager.revoke(debug));
    let again = manager.grant(CapabilityKind::Service).unwrap();
    assert!(!manager.allows(debug, CapabilityKind::Service));
    assert!(manager.allows(again, CapabilityKind::Service));
    assert_eq!(again.raw() & 0xffff, debug.raw() & 0xffff);
    assert_eq!(again.raw() >> 16, (debug.raw() >> 16) + 1);
}

#[test]
fn capability_table_is_bounded() {
    let mut manager = CapabilityManager::new();
    for _ in 0..CAPABILITIES {
        assert!(manager.grant(CapabilityKind::Inference).is_some());
    }
    assert!(manager.grant(CapabilityKind::Inference).is_none());
}

#[test]
fn audit_log_keeps_order_and_refuses_when_full() {
    let mut log = Log::new();
    assert_eq!(log.latest(), None);
    let event = Event { principal: Principal(3), effect: Effect::SecretWrite };
    for _ in 0..EVENTS {
        assert!(log.record(event));
    }
    assert!(!log.record(Event { principal: Principal(4), effect: Effect::SecretWrite }));
    assert_eq!(log.latest(), Some(event));
    assert!(audit::self_check());
}

#[test]
fn device_interfaces_match_by_class() {
    assert!(device::self_check());
    let block = Interface::new(Class::Block);
    assert_eq!(block.class(), Class::Block);
    assert!(block.compatible(Interface::new(Class::Block)));
    assert!(!block.compatible(Interface::new(Class::Entropy)));
}

fn call(name: &[u8], argument: Option<&[u8]>) -> Call {
    Call { name: name.to_vec(), argument: argument.map(|a| a.to_vec()) }
}

#[test]
fn dispatch_gates_calls_by_capability_and_deadline() {
    let mut capabilities = CapabilityManager::new();
    let recovery = capabilities.grant(CapabilityKind::Recovery).unwrap();
    let service = capabilities.grant(CapabilityKind::Service).unwrap();
    let session = Session { capabilities: vec![recovery, service] };
    let denied = Session { capabilities: vec![] };
    let target: &[u8] = b"virtio-balloon";

    assert_eq!(
        dispatch(&call(b"recovery", None), &denied, &capabilities, Invocation::new(2), 1),
        Outcome::Error(Error::Denied)
    );
    assert_eq!(
        dispatch(&call(b"recovery", None), &session, &capabilities, Invocation::new(2), 1),
        Outcome::Recovery
    );
    assert_eq!(
        dispatch(&call(b"not-a-real-call", None), &session, &capabilities, Invocation::new(2), 1),
        Outcome::Error(Error::UnknownCommand)
    );
    assert_eq!(
        dispatch(&call(b"recovery", None), &session, &capabilities, Invocation::cancelled(2), 1),
        Outcome::Error(Error::Cancelled)
    );
    assert_eq!(
        dispatch(&call(b"recovery", None), &session, &capabilities, Invocation::new(1), 1),
        Outcome::Error(Error::TimedOut)
    );
    assert_eq!(dispatch(&call(b"reboot", None), &session, &capabilities, Invocation::new(2), 1), Outcome::Reboot);
    assert_eq!(dispatch(&call(b"poweroff", None), &session, &capabilities, Invocation::new(2), 1), Outcome::PowerOff);
    assert_eq!(dispatch(&call(b"ping", None), &session, &capabilities, Invocation::new(2), 1), Outcome::Ping);
    assert_eq!(dispatch(&call(b"tasks", None), &denied, &capabilities, Invocation::new(2), 1), Outcome::Tasks);
    assert_eq!(dispatch(&call(b"services", None), &denied, &capabilities, Invocation::new(2), 1), Outcome::Services);
    assert_eq!(dispatch(&call(b"drivers", None), &denied, &capabilities, Invocation::new(2), 1), Outcome::Drivers);
    assert_eq!(dispatch(&call(b"trace", None), &denied, &capabilities, Invocation::new(2), 1), Outcome::Trace);
    assert_eq!(
        dispatch(&call(b"inspect", Some(target)), &denied, &capabilities, Invocation::new(2), 1),
        Outcome::Inspect(target.to_vec())
    );
    assert_eq!(
        dispatch(&call(b"restart", Some(target)), &session, &capabilities, Invocation::new(2), 1),
        Outcome::Restart(target.to_vec())
    );
    assert_eq!(
        dispatch(&call(b"cancel", Some(target)), &session, &capabilities, Invocation::new(2), 1),
        Outcome::Cancel(target.to_vec())
    );
    assert_eq!(
        dispatch(&call(b"restart", Some(target)), &denied, &capabilities, Invocation::new(2), 1),
        Outcome::Error(Error::Denied)
    );
    assert_eq!(
        dispatch(&call(b"inspect", None), &denied, &capabilities, Invocation::new(2), 1),
        Outcome::Error(Error::UnknownCommand)
    );
}

#[test]
fn required_capabilities_and_wrapping_deadlines() {
    assert_eq!(required_capability(b"ping"), Ok(Some(CapabilityKind::Service)));
    assert_eq!(required_capability(b"inspect"), Ok(None));
    assert_eq!(required_capability(b"pin"), Err(()));
    assert_eq!(Invocation::new(u64::MAX).error(1), Some(Error::TimedOut));
    assert_eq!(Invocation::new(5).error(u64::MAX), None);
    assert_eq!(Invocation::new(10).error(9), None);
}

#[test]
fn access_survives_other_grants_and_a_revoked_handle_stays_stale() {
    let mut manager = CapabilityManager::new();
    let kept = manager.grant(CapabilityKind::Secret).unwrap();
    let other = manager.grant(CapabilityKind::Debug).unwrap();
    assert!(manager.revoke(other));
    let reused = manager.grant(CapabilityKind::Service).unwrap();
    assert!(manager.allows(kept, CapabilityKind::Secret));
    assert!(!manager.allows(kept, CapabilityKind::Service));
    assert!(!manager.allows(other, CapabilityKind::Debug));
    assert!(!manager.allows(other, CapabilityKind::Service));
    assert!(manager.allows(reused, CapabilityKind::Service));
    assert_ne!(reused.raw(), other.raw());
    assert!(!manager.revoke(other));
}
