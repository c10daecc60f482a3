//! The graphical shell's session logic: which surface gets input, the one
//! user request in flight, login retries, and the session context that a
//! successful login hands over.

use vstd::prelude::*;
use crate::input_abi::InputMessage;
use crate::user::{USER_MAX_USER_NAME_BYTES, USER_MAX_PASSWORD_BYTES};
use crate::user_abi::{
    GuiSessionContext, NamespaceCapabilityHandle, NamespaceRights, NamespaceRoot, RoleId, SessionHandle, UserId,
    UserOperation, UserRequest, UserResponse, UserStatus,
};

verus! {

pub const MAX_LOGIN_RETRIES: u8 = 3;

#[derive(Clone, Copy, Debug, PartialEq, Eq, Structural)]
pub enum ShellFocus {
    LockScreen,
    Terminal,
}

#[derive(Clone, Copy, Debug, PartialEq, Eq, Structural)]
pub enum ShellPhase {
    Locked,
    ClaimPending,
    LoginPending,
    Authenticated,
}

/// Where an input event goes.
#[derive(Clone, Debug, PartialEq)]
pub enum ShellInputRoute {
    LockScreen(InputMessage),
    Terminal(InputMessage),
}

#[derive(Clone, Copy, Debug, PartialEq, Eq, Structural)]
pub enum ShellError {
    InvalidRequest,
    Busy,
    NotAuthenticated,
    RetryLimit,
    Stale,
}

/// The shell as a value.
#[derive(Clone, Copy)]
pub struct ShellState {
    pub phase: ShellPhase,
    pub focus: ShellFocus,
    pub context: GuiSessionContext,
    pub pending_request: u32,
    pub next_request: u32,
    pub retries: u8,
    pub restart_generation: u16,
}

pub struct Shell {
    phase: ShellPhase,
    focus: ShellFocus,
    context: GuiSessionContext,
    pending_request: u32,
    next_request: u32,
    retries: u8,
    restart_generation: u16,
}

/// A request number after `n` is handed out: it skips zero.
pub open spec fn next_request_after(n: u32) -> u32 {
    if n == u32::MAX {
        1
    } else {
        (n + 1) as u32
    }
}

/// The context a successful login response hands over.
pub open spec fn context_from(c: GuiSessionContext, response: UserResponse) -> bool {
    &&& c.session == response.session
    &&& c.user == response.user
    &&& c.capability == response.capability
    &&& c.root == response.root
    &&& c.rights == response.rights
    &&& c.reserved@ == seq![0u8, 0u8, 0u8]
}

/// A success that names a whole session.
pub open spec fn grants_session(response: UserResponse) -> bool {
    &&& response.status == UserStatus::Success
    &&& response.session.valid()
    &&& response.user.valid()
    &&& response.capability.valid()
    &&& response.root.valid()
    &&& response.rights.valid()
}

/// Locked, on the lock screen, with no context, and otherwise as `s`
/// with `pending` in flight and `retries` counted.
pub open spec fn locked(after: ShellState, s: ShellState, pending: u32, retries: u8) -> bool {
    &&& after.phase == ShellPhase::Locked
    &&& after.focus == ShellFocus::LockScreen
    &&& after.context.clear()
    &&& after.pending_request == pending
    &&& after.retries == retries
    &&& after.next_request == s.next_request
    &&& after.restart_generation == s.restart_generation
}

/// A request for `operation` numbered `id`, with nothing but `name` and
/// `password` filled in.
pub open spec fn request_for(request: UserRequest, operation: UserOperation, id: u32, name: Seq<u8>, password: Seq<u8>) -> bool {
    &&& request.operation == operation
    &&& request.request_id == id
    &&& request.valid()
    &&& request.name_view() == name
    &&& request.password_view() == password
    &&& request.session == SessionHandle { slot: 0, generation: 0 }
    &&& request.user == UserId { value: 0, generation: 0 }
    &&& request.role == RoleId { value: 0, generation: 0 }
    &&& request.root == NamespaceRoot { object: 0, generation: 0 }
    &&& request.rights == NamespaceRights(0)
    &&& request.capability == NamespaceCapabilityHandle { slot: 0, generation: 0 }
}

impl Shell {
    pub closed spec fn view(&self) -> ShellState {
        ShellState {
            phase: self.phase,
            focus: self.focus,
            context: self.context,
            pending_request: self.pending_request,
            next_request: self.next_request,
            retries: self.retries,
            restart_generation: self.restart_generation,
        }
    }

    /// Request numbers and restart generations are never zero, and a
    /// locked shell keeps the focus on the lock screen.
    pub open spec fn wf(&self) -> bool {
        &&& self@.next_request != 0
        &&& self@.restart_generation != 0
        &&& self@.phase == ShellPhase::Locked ==> self@.focus == ShellFocus::LockScreen
    }

    pub fn new() -> (r: Shell)
        ensures
            r.wf(),
            r@.phase == ShellPhase::Locked,
            r@.focus == ShellFocus::LockScreen,
            r@.context.clear(),
            r@.pending_request == 0,
            r@.next_request == 1,
            r@.retries == 0,
            r@.restart_generation == 1,
    {
        Shell {
            phase: ShellPhase::Locked,
            focus: ShellFocus::LockScreen,
            context: GuiSessionContext::empty(),
            pending_request: 0,
            next_request: 1,
            retries: 0,
            restart_generation: 1,
        }
    }

    pub fn phase(&self) -> (r: ShellPhase)
        ensures
            r == self@.phase,
    {
        self.phase
    }

    pub fn focus(&self) -> (r: ShellFocus)
        ensures
            r == self@.focus,
    {
        self.focus
    }

    pub fn context(&self) -> (r: GuiSessionContext)
        ensures
            r == self@.context,
    {
        self.context
    }

    pub fn retries(&self) -> (r: u8)
        ensures
            r == self@.retries,
    {
        self.retries
    }

    /// Input goes to the surface that has the focus.
    pub fn route_input(&self, input: InputMessage) -> (r: ShellInputRoute)
        ensures
            r == (match self@.focus {
                ShellFocus::LockScreen => ShellInputRoute::LockScreen(input),
                ShellFocus::Terminal => ShellInputRoute::Terminal(input),
            }),
    {
        match self.focus {
            ShellFocus::LockScreen => ShellInputRoute::LockScreen(input),
            ShellFocus::Terminal => ShellInputRoute::Terminal(input),
        }
    }

    fn take_request_id(&mut self) -> (r: u32)
        ensures
            r == old(self)@.next_request,
            final(self)@ == (ShellState { next_request: next_request_after(old(self)@.next_request), ..old(self)@ }),
    {
        let id = self.next_request;
        self.next_request = if id == u32::MAX {
            1
        } else {
            id + 1
        };
        id
    }

    /// Start a claim or a login: one request at a time, and no login past
    /// the retry limit. A name or password that does not fit is refused
    /// after the request number is used.
    pub fn begin_user_request(&mut self, operation: UserOperation, name: &[u8], password: &[u8]) -> (r: Result<
        UserRequest,
        ShellError,
    >)
        requires
            old(self).wf(),
        ensures
            final(self).wf(),
            old(self)@.pending_request != 0 ==> r == Err::<UserRequest, ShellError>(ShellError::Busy) && final(self)@
                == old(self)@,
            old(self)@.pending_request == 0 && operation != UserOperation::Claim && operation != UserOperation::Login
                ==> r == Err::<UserRequest, ShellError>(ShellError::InvalidRequest) && final(self)@ == old(self)@,
            old(self)@.pending_request == 0 && operation == UserOperation::Login && old(self)@.retries >= MAX_LOGIN_RETRIES
                ==> r == Err::<UserRequest, ShellError>(ShellError::RetryLimit) && final(self)@ == old(self)@,
            old(self)@.pending_request == 0 && (operation == UserOperation::Claim || (operation == UserOperation::Login
                && old(self)@.retries < MAX_LOGIN_RETRIES)) ==> {
                let used = ShellState { next_request: next_request_after(old(self)@.next_request), ..old(self)@ };
                if name@.len() > USER_MAX_USER_NAME_BYTES || password@.len() > USER_MAX_PASSWORD_BYTES {
                    r == Err::<UserRequest, ShellError>(ShellError::InvalidRequest) && final(self)@ == used
                } else {
                    &&& r matches Ok(request) && request_for(request, operation, old(self)@.next_request, name@, password@)
                    &&& final(self)@ == ShellState {
                        pending_request: old(self)@.next_request,
                        phase: if operation == UserOperation::Claim {
                            ShellPhase::ClaimPending
                        } else {
                            ShellPhase::LoginPending
                        },
                        ..used
                    }
                }
            },
    {
        if self.pending_request != 0 {
            return Err(ShellError::Busy);
        }
        if operation != UserOperation::Claim && operation != UserOperation::Login {
            return Err(ShellError::InvalidRequest);
        }
        if operation == UserOperation::Login && self.retries >= MAX_LOGIN_RETRIES {
            return Err(ShellError::RetryLimit);
        }
        let request_id = self.take_request_id();
        let mut request = UserRequest::new(operation, request_id);
        if !request.set_name(name) || !request.set_password(password) {
            return Err(ShellError::InvalidRequest);
        }
        self.pending_request = request_id;
        self.phase = if operation == UserOperation::Claim {
            ShellPhase::ClaimPending
        } else {
            ShellPhase::LoginPending
        };
        Ok(request)
    }

    /// Forget the password of a request once it has been sent.
    pub fn acknowledge_sent(request: &mut UserRequest)
        ensures
            final(request).password_len == 0,
            forall|i: int| 0 <= i < USER_MAX_PASSWORD_BYTES ==> #[trigger] final(request).password@[i] == 0,
            final(request).name == old(request).name,
            final(request).name_len == old(request).name_len,
            final(request).operation == old(request).operation,
            final(request).request_id == old(request).request_id,
            final(request).session == old(request).session,
            final(request).user == old(request).user,
            final(request).role == old(request).role,
            final(request).root == old(request).root,
            final(request).rights == old(request).rights,
            final(request).capability == old(request).capability,
    {
        let mut i: usize = 0;
        while i < USER_MAX_PASSWORD_BYTES
            invariant
                i <= USER_MAX_PASSWORD_BYTES,
                request.password@.len() == USER_MAX_PASSWORD_BYTES,
                forall|j: int| 0 <= j < i ==> #[trigger] request.password@[j] == 0,
                request.name == old(request).name,
                request.name_len == old(request).name_len,
                request.password_len == old(request).password_len,
                request.operation == old(request).operation,
                request.request_id == old(request).request_id,
                request.session == old(request).session,
                request.user == old(request).user,
                request.role == old(request).role,
                request.root == old(request).root,
                request.rights == old(request).rights,
                request.capability == old(request).capability,
            decreases USER_MAX_PASSWORD_BYTES - i,
        {
            request.password.set(i, 0);
            i += 1;
        }
        request.password_len = 0;
    }

    fn lock(&mut self)
        ensures
            locked(final(self)@, old(self)@, old(self)@.pending_request, old(self)@.retries),
    {
        self.context = GuiSessionContext::empty();
        self.phase = ShellPhase::Locked;
        self.focus = ShellFocus::LockScreen;
    }

    /// Take the answer to the request in flight. A success naming a whole
    /// session opens it on the terminal and resets the retries; any other
    /// answer locks the shell, and bad credentials count a retry. An
    /// answer to no request in flight clears the context and is `Stale`.
    pub fn apply_user_response(&mut self, response: UserResponse) -> (r: Result<(), ShellError>)
        requires
            old(self).wf(),
        ensures
            final(self).wf(),
            response.request_id != old(self)@.pending_request || old(self)@.pending_request == 0 ==> {
                &&& r == Err::<(), ShellError>(ShellError::Stale)
                &&& final(self)@.context.clear()
                &&& final(self)@ == ShellState { context: final(self)@.context, ..old(self)@ }
            },
            response.request_id == old(self)@.pending_request && old(self)@.pending_request != 0 && grants_session(
                response,
            ) ==> {
                &&& r == Ok::<(), ShellError>(())
                &&& context_from(final(self)@.context, response)
                &&& final(self)@ == ShellState {
                    phase: ShellPhase::Authenticated,
                    focus: ShellFocus::Terminal,
                    context: final(self)@.context,
                    pending_request: 0,
                    retries: 0,
                    ..old(self)@
                }
            },
            response.request_id == old(self)@.pending_request && old(self)@.pending_request != 0 && !grants_session(
                response,
            ) ==> {
                &&& r == Ok::<(), ShellError>(())
                &&& locked(
                    final(self)@,
                    old(self)@,
                    0,
                    if response.status == UserStatus::BadCredentials {
                        if old(self)@.retries == u8::MAX {
                            u8::MAX
                        } else {
                            (old(self)@.retries + 1) as u8
                        }
                    } else {
                        old(self)@.retries
                    },
                )
            },
    {
        if response.request_id != self.pending_request || self.pending_request == 0 {
            self.context = GuiSessionContext::empty();
            return Err(ShellError::Stale);
        }
        self.pending_request = 0;
        let complete = response.session.is_valid() && response.user.is_valid() && response.capability.generation != 0
            && response.root.is_valid() && response.rights.is_valid();
        if response.status == UserStatus::Success && complete {
            let context = GuiSessionContext {
                session: response.session,
                user: response.user,
                capability: response.capability,
                root: response.root,
                rights: response.rights,
                reserved: [0u8; 3],
            };
            assert(context.reserved@ =~= seq![0u8, 0u8, 0u8]);
            self.context = context;
            self.phase = ShellPhase::Authenticated;
            self.focus = ShellFocus::Terminal;
            self.retries = 0;
            return Ok(());
        }
        if response.status == UserStatus::BadCredentials {
            self.retries = if self.retries == u8::MAX {
                u8::MAX
            } else {
                self.retries + 1
            };
        }
        self.lock();
        Ok(())
    }

    /// Ask to end the authenticated session: the shell locks at once and
    /// the logout request is in flight.
    pub fn logout(&mut self) -> (r: Result<UserRequest, ShellError>)
        requires
            old(self).wf(),
        ensures
            final(self).wf(),
            !old(self)@.context.authenticated() ==> r == Err::<UserRequest, ShellError>(ShellError::NotAuthenticated)
                && final(self)@ == old(self)@,
            old(self)@.context.authenticated() ==> {
                &&& r matches Ok(request) && request_for(
                    UserRequest { session: SessionHandle { slot: 0, generation: 0 }, ..request },
                    UserOperation::Logout,
                    old(self)@.next_request,
                    Seq::empty(),
                    Seq::empty(),
                ) && request.session == old(self)@.context.session
                &&& locked(
                    final(self)@,
                    ShellState { next_request: next_request_after(old(self)@.next_request), ..old(self)@ },
                    old(self)@.next_request,
                    old(self)@.retries,
                )
            },
    {
        let context = self.context;
        if !context.is_authenticated() {
            return Err(ShellError::NotAuthenticated);
        }
        let request_id = self.take_request_id();
        let mut request = UserRequest::new(UserOperation::Logout, request_id);
        assert(request.name_view() =~= Seq::<u8>::empty());
        assert(request.password_view() =~= Seq::<u8>::empty());
        request.session = context.session;
        self.pending_request = request_id;
        self.lock();
        Ok(request)
    }

    /// Start over after the user service restarts: nothing in flight, no
    /// context, locked, retries reset, and a new restart generation.
    pub fn restart(&mut self)
        requires
            old(self).wf(),
        ensures
            final(self).wf(),
            locked(
                final(self)@,
                ShellState {
                    restart_generation: if old(self)@.restart_generation == u16::MAX {
                        1
                    } else {
                        (old(self)@.restart_generation + 1) as u16
                    },
                    ..old(self)@
                },
                0,
                0,
            ),
    {
        self.restart_generation = if self.restart_generation == u16::MAX {
            1
        } else {
            self.restart_generation + 1
        };
        self.pending_request = 0;
        self.retries = 0;
        self.lock();
    }
}

} // verus!
