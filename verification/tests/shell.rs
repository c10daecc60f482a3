use logos::input_abi::{InputMessage, KeyCode, KeyState};
use logos::shell::{Shell, ShellError, ShellFocus, ShellInputRoute, ShellPhase, MAX_LOGIN_RETRIES};
use logos::user_abi::{
    NamespaceCapabilityHandle, NamespaceRights, NamespaceRoot, SessionHandle, UserId, UserOperation, UserRequest,
    UserResponse, UserStatus, RIGHT_READ,
};

fn response(request: UserRequest, status: UserStatus) -> UserResponse {
    let mut response = UserResponse::new(&request, status);
    if status == UserStatus::Success {
        response.session = SessionHandle::new(1, 2).unwrap();
        response.user = UserId::new(3, 4).unwrap();
        response.capability = NamespaceCapabilityHandle::new(5, 6).unwrap();
        response.root = NamespaceRoot::new(7, 8).unwrap();
        response.rights = NamespaceRights(RIGHT_READ);
    }
    response
}

#[test]
fn focus_routes_lock_screen_then_terminal() {
    let mut shell = Shell::new();
    let input = InputMessage::key(KeyCode::Enter, KeyState::Pressed, 0);
    assert_eq!(shell.route_input(input.clone()), ShellInputRoute::LockScreen(input.clone()));
    let mut request = shell.begin_user_request(UserOperation::Login, b"alice", b"secret").unwrap();
    Shell::acknowledge_sent(&mut request);
    assert!(request.password.iter().all(|byte| *byte == 0));
    shell.apply_user_response(response(request, UserStatus::Success)).unwrap();
    assert_eq!(shell.route_input(input.clone()), ShellInputRoute::Terminal(input));
}

#[test]
fn failure_logout_restart_and_stale_responses_clear_session() {
    let mut shell = Shell::new();
    let request = shell.begin_user_request(UserOperation::Login, b"alice", b"bad").unwrap();
    shell.apply_user_response(response(request, UserStatus::BadCredentials)).unwrap();
    assert_eq!(shell.retries(), 1);
    let request = shell.begin_user_request(UserOperation::Login, b"alice", b"secret").unwrap();
    shell.apply_user_response(response(request, UserStatus::Success)).unwrap();
    let logout = shell.logout().unwrap();
    assert!(shell.context().is_clear());
    shell.apply_user_response(response(logout, UserStatus::Stale)).unwrap();
    shell.restart();
    assert_eq!(shell.phase(), ShellPhase::Locked);
    assert!(shell.context().is_clear());
}

#[test]
fn one_request_at_a_time_and_only_claim_or_login() {
    let mut shell = Shell::new();
    assert_eq!(
        shell.begin_user_request(UserOperation::Logout, b"alice", b"secret").unwrap_err(),
        ShellError::InvalidRequest
    );
    let request = shell.begin_user_request(UserOperation::Claim, b"alice", b"secret").unwrap();
    assert_eq!(request.request_id, 1);
    assert_eq!(request.operation, UserOperation::Claim);
    assert_eq!(&request.name[..request.name_len as usize], b"alice");
    assert_eq!(&request.password[..request.password_len as usize], b"secret");
    assert_eq!(shell.phase(), ShellPhase::ClaimPending);
    assert_eq!(
        shell.begin_user_request(UserOperation::Login, b"alice", b"secret").unwrap_err(),
        ShellError::Busy
    );
}

#[test]
fn login_retries_stop_at_the_limit_until_restart() {
    let mut shell = Shell::new();
    for attempt in 1..=MAX_LOGIN_RETRIES {
        let request = shell.begin_user_request(UserOperation::Login, b"alice", b"bad").unwrap();
        shell.apply_user_response(response(request, UserStatus::BadCredentials)).unwrap();
        assert_eq!(shell.retries(), attempt);
        assert_eq!(shell.focus(), ShellFocus::LockScreen);
    }
    assert_eq!(
        shell.begin_user_request(UserOperation::Login, b"alice", b"secret").unwrap_err(),
        ShellError::RetryLimit
    );
    assert!(shell.begin_user_request(UserOperation::Claim, b"alice", b"secret").is_ok());
    shell.restart();
    assert_eq!(shell.retries(), 0);
    assert!(shell.begin_user_request(UserOperation::Login, b"alice", b"secret").is_ok());
}

#[test]
fn responses_to_other_requests_are_stale() {
    let mut shell = Shell::new();
    let request = shell.begin_user_request(UserOperation::Login, b"alice", b"secret").unwrap();
    let mut other = response(request, UserStatus::Success);
    other.request_id = request.request_id + 1;
    assert_eq!(shell.apply_user_response(other), Err(ShellError::Stale));
    assert_eq!(shell.phase(), ShellPhase::LoginPending);
    shell.apply_user_response(response(request, UserStatus::Success)).unwrap();
    assert_eq!(shell.phase(), ShellPhase::Authenticated);
    assert_eq!(shell.context().session, SessionHandle::new(1, 2).unwrap());
    assert_eq!(shell.apply_user_response(response(request, UserStatus::Success)), Err(ShellError::Stale));
    assert!(shell.context().is_clear());
}

#[test]
fn incomplete_success_locks_and_logout_needs_a_session() {
    let mut shell = Shell::new();
    assert_eq!(shell.logout().unwrap_err(), ShellError::NotAuthenticated);
    let request = shell.begin_user_request(UserOperation::Login, b"alice", b"secret").unwrap();
    let mut partial = response(request, UserStatus::Success);
    partial.rights = NamespaceRights(8);
    shell.apply_user_response(partial).unwrap();
    assert_eq!(shell.phase(), ShellPhase::Locked);
    assert_eq!(shell.retries(), 0);
    let long_name = [b'a'; 33];
    assert_eq!(
        shell.begin_user_request(UserOperation::Login, &long_name, b"secret").unwrap_err(),
        ShellError::InvalidRequest
    );
    let request = shell.begin_user_request(UserOperation::Login, b"alice", b"secret").unwrap();
    assert_eq!(request.request_id, 3);
    shell.apply_user_response(response(request, UserStatus::Success)).unwrap();
    let logout = shell.logout().unwrap();
    assert_eq!(logout.operation, UserOperation::Logout);
    assert_eq!(logout.session, SessionHandle::new(1, 2).unwrap());
    assert_eq!(logout.request_id, 4);
    assert_eq!(shell.focus(), ShellFocus::LockScreen);
}
