//! The user service: requests in, responses out, over one catalog and an
//! entropy source for password salts.

use vstd::prelude::*;
use crate::user::{UserError, USER_ARGON2_SALT_BYTES};
use crate::user_abi::{
    NamespaceRoot, UserOperation, UserRequest, UserResponse, UserStatus, NamespaceRights,
    NamespaceCapabilityHandle, SessionHandle, UserId, RoleId,
};
use crate::user_catalog::{
    CatalogState, UserCatalog, EntropySource, CapabilityTemplate, claim_out, create_user_out,
    rename_out, set_password_out, create_role_out, assign_role_out, login_out, logout_out, salt_drawn,
    record_draws,
    derive_out, revoke_result, is_admin_out, first_capability_out,
};

verus! {

/// The status a catalog error is reported as.
pub open spec fn status_of_error(error: UserError) -> UserStatus {
    match error {
        UserError::AlreadyClaimed => UserStatus::AlreadyClaimed,
        UserError::NotClaimed => UserStatus::Unclaimed,
        UserError::NotFound => UserStatus::NotFound,
        UserError::Unauthorized => UserStatus::Unauthorized,
        UserError::BadCredentials => UserStatus::BadCredentials,
        UserError::Stale => UserStatus::Stale,
        UserError::Revoked => UserStatus::Revoked,
        UserError::Capacity => UserStatus::Capacity,
        UserError::Corrupt => UserStatus::Corrupt,
        _ => UserStatus::Invalid,
    }
}

pub fn map_error(error: UserError) -> (r: UserStatus)
    ensures
        r == status_of_error(error),
{
    match error {
        UserError::AlreadyClaimed => UserStatus::AlreadyClaimed,
        UserError::NotClaimed => UserStatus::Unclaimed,
        UserError::NotFound => UserStatus::NotFound,
        UserError::Unauthorized => UserStatus::Unauthorized,
        UserError::BadCredentials => UserStatus::BadCredentials,
        UserError::Stale => UserStatus::Stale,
        UserError::Revoked => UserStatus::Revoked,
        UserError::Capacity => UserStatus::Capacity,
        UserError::Corrupt => UserStatus::Corrupt,
        UserError::InvalidName | UserError::InvalidPassword | UserError::Crypto | UserError::Entropy
        | UserError::Persistence => UserStatus::Invalid,
    }
}

pub open spec fn status_of(result: Result<(), UserError>) -> UserStatus {
    match result {
        Ok(()) => UserStatus::Success,
        Err(e) => status_of_error(e),
    }
}

pub open spec fn unit_of<T>(r: Result<T, UserError>) -> Result<(), UserError> {
    match r {
        Ok(_) => Ok(()),
        Err(e) => Err(e),
    }
}

/// An account request with no root gets the next default home.
pub open spec fn effective_request(c: CatalogState, request: UserRequest) -> UserRequest {
    if request.root == (NamespaceRoot { object: 0, generation: 0 }) && (request.operation
        == UserOperation::Claim || request.operation == UserOperation::Create) {
        UserRequest {
            root: NamespaceRoot { object: (0x1000 + c.next_user) as u64, generation: 1 },
            ..request
        }
    } else {
        request
    }
}

/// A request without a root that claims the catalog or creates an
/// account: it gets the next default home.
pub open spec fn takes_default_home(request: UserRequest) -> bool {
    request.root == (NamespaceRoot { object: 0, generation: 0 }) && (request.operation == UserOperation::Claim
        || request.operation == UserOperation::Create)
}

fn takes_default_home_exec(request: &UserRequest) -> (r: bool)
    ensures
        r == takes_default_home(*request),
{
    request.root.object == 0 && request.root.generation == 0 && (request.operation == UserOperation::Claim
        || request.operation == UserOperation::Create)
}

/// Whether the operation of a valid request draws a salt: a claim of an
/// unclaimed catalog, or an account creation under an administrator's
/// session, that gets past the name, slot and counter checks; or a
/// password change under an administrator's session.
pub open spec fn operation_draws(c: CatalogState, req: UserRequest) -> bool {
    match req.operation {
        UserOperation::Claim => !c.claimed && record_draws(c, req.name_view()),
        UserOperation::Create => admin_session(c, req) && c.claimed && record_draws(c, req.name_view()),
        UserOperation::SetPassword => admin_session(c, req),
        _ => false,
    }
}

/// Whether answering `request` draws a salt from the entropy source.
pub open spec fn draws_salt(c: CatalogState, request: UserRequest) -> bool {
    let req = effective_request(c, request);
    req.valid() && operation_draws(c, req)
}

/// An answer to `request` with nothing filled in yet.
pub open spec fn blank_response(request: UserRequest) -> UserResponse {
    UserResponse {
        operation: request.operation,
        request_id: request.request_id,
        status: UserStatus::Invalid,
        user: UserId { value: 0, generation: 0 },
        session: SessionHandle { slot: 0, generation: 0 },
        role: RoleId { value: 0, generation: 0 },
        capability: NamespaceCapabilityHandle { slot: 0, generation: 0 },
        root: NamespaceRoot { object: 0, generation: 0 },
        rights: NamespaceRights(0),
    }
}

/// The session is that of an administrator.
pub open spec fn admin_session(c: CatalogState, request: UserRequest) -> bool {
    is_admin_out(c, request.session) == Ok::<bool, UserError>(true)
}

/// What the operation of a valid request does, given what the entropy
/// source gave; `resp` is what it fills into `base`.
pub open spec fn operation_result(
    c: CatalogState,
    request: UserRequest,
    salt: Result<[u8; USER_ARGON2_SALT_BYTES], UserError>,
    c2: CatalogState,
    result: Result<(), UserError>,
    resp: UserResponse,
    base: UserResponse,
) -> bool {
    let name = request.name_view();
    let password = request.password_view();
    match request.operation {
        UserOperation::Claim => {
            let (c3, r) = claim_out(c, name, password, request.root, salt);
            &&& c2 == c3
            &&& result == unit_of(r)
            &&& resp == match r {
                Ok(user) => UserResponse { user, ..base },
                Err(_) => base,
            }
        },
        UserOperation::Create => if admin_session(c, request) {
            let (c3, r) = create_user_out(c, name, password, request.root, salt);
            &&& c2 == c3
            &&& result == unit_of(r)
            &&& resp == match r {
                Ok(user) => UserResponse { user, ..base },
                Err(_) => base,
            }
        } else {
            c2 == c && result == Err::<(), UserError>(UserError::Unauthorized) && resp == base
        },
        UserOperation::Rename => if admin_session(c, request) {
            (c2, result) == rename_out(c, request.user, name) && resp == base
        } else {
            c2 == c && result == Err::<(), UserError>(UserError::Unauthorized) && resp == base
        },
        UserOperation::SetPassword => if admin_session(c, request) {
            (c2, result) == set_password_out(c, request.user, password, salt) && resp == base
        } else {
            c2 == c && result == Err::<(), UserError>(UserError::Unauthorized) && resp == base
        },
        UserOperation::CreateRole => if admin_session(c, request) {
            let (c3, r) = create_role_out(
                c,
                name,
                CapabilityTemplate { root: request.root, rights: request.rights },
            );
            &&& c2 == c3
            &&& result == unit_of(r)
            &&& resp == match r {
                Ok(role) => UserResponse { role, ..base },
                Err(_) => base,
            }
        } else {
            c2 == c && result == Err::<(), UserError>(UserError::Unauthorized) && resp == base
        },
        UserOperation::AssignRole => if admin_session(c, request) {
            (c2, result) == assign_role_out(c, request.user, request.role) && resp == base
        } else {
            c2 == c && result == Err::<(), UserError>(UserError::Unauthorized) && resp == base
        },
        UserOperation::Login => {
            let (c3, r) = login_out(c, name, password);
            &&& c2 == c3
            &&& result == unit_of(r)
            &&& resp == match r {
                Ok((user, session)) => UserResponse { user, session, ..base },
                Err(_) => base,
            }
        },
        UserOperation::Logout | UserOperation::RevokeSession => {
            (c2, result) == logout_out(c, request.session) && resp == base
        },
        UserOperation::Derive => {
            let (c3, r) = derive_out(c, request.session, request.capability, request.root, request.rights);
            &&& c2 == c3
            &&& result == unit_of(r)
            &&& resp == match r {
                Ok(capability) => UserResponse {
                    capability,
                    root: request.root,
                    rights: request.rights,
                    ..base
                },
                Err(_) => base,
            }
        },
        UserOperation::RevokeCapability => {
            revoke_result(c, request.session, request.capability, c2, result) && resp == base
        },
    }
}

/// The status set, and after a successful login the session's first
/// capability added when it can be used.
pub open spec fn finish_response(c2: CatalogState, result: Result<(), UserError>, resp: UserResponse) -> UserResponse {
    let answered = UserResponse { status: status_of(result), ..resp };
    if answered.status == UserStatus::Success && answered.operation == UserOperation::Login {
        match first_capability_out(c2, answered.session) {
            Ok((capability, root, rights)) => UserResponse { capability, root, rights, ..answered },
            Err(_) => answered,
        }
    } else {
        answered
    }
}

/// The whole of one request: the catalog before and after, and the
/// answer.
pub open spec fn handled(
    c: CatalogState,
    request: UserRequest,
    salt: Result<[u8; USER_ARGON2_SALT_BYTES], UserError>,
    c2: CatalogState,
    response: UserResponse,
) -> bool {
    let req = effective_request(c, request);
    let base = blank_response(req);
    exists|result: Result<(), UserError>, resp: UserResponse|
        #![trigger finish_response(c2, result, resp)]
        (if req.valid() {
            operation_result(c, req, salt, c2, result, resp, base)
        } else {
            c2 == c && result == Err::<(), UserError>(UserError::InvalidName) && resp == base
        }) && response == finish_response(c2, result, resp)
}

/// The user service over a catalog and an entropy source.
pub struct UserService<E> {
    catalog: UserCatalog,
    entropy: E,
}

impl<E: EntropySource> UserService<E> {
    pub closed spec fn catalog_view(&self) -> CatalogState {
        self.catalog@
    }

    pub closed spec fn wf(&self) -> bool {
        self.catalog.wf()
    }

    /// The entropy source the service draws salts from.
    pub closed spec fn entropy_view(&self) -> E {
        self.entropy
    }

    pub fn new(entropy: E) -> (r: Self)
        ensures
            r.wf(),
            crate::user_catalog::fresh_catalog(r.catalog_view()),
    {
        UserService { catalog: UserCatalog::new(), entropy }
    }

    pub fn catalog(&self) -> (r: &UserCatalog)
        ensures
            r@ == self.catalog_view(),
            self.wf() ==> r.wf(),
    {
        &self.catalog
    }

    fn dispatch(&mut self, request: &UserRequest, response: &mut UserResponse) -> (result: Result<(), UserError>)
        requires
            old(self).wf(),
            request.valid(),
        ensures
            final(self).wf(),
            exists|salt: Result<[u8; USER_ARGON2_SALT_BYTES], UserError>|
                #[trigger] operation_result(
                    old(self).catalog_view(),
                    *request,
                    salt,
                    final(self).catalog_view(),
                    result,
                    *final(response),
                    *old(response),
                ) && salt_drawn(
                    operation_draws(old(self).catalog_view(), *request),
                    old(self).entropy_view(),
                    final(self).entropy_view(),
                    salt,
                ),

    {
        let name = vstd::slice::slice_subrange(request.name.as_slice(), 0, request.name_len as usize);
        let password = vstd::slice::slice_subrange(
            request.password.as_slice(),
            0,
            request.password_len as usize,
        );
        assert(name@ =~= request.name_view());
        assert(password@ =~= request.password_view());
        let ghost c = self.catalog@;
        let ghost base = *response;
        let ghost source = self.entropy;
        let admin = match request.operation {
            UserOperation::Create | UserOperation::Rename | UserOperation::SetPassword
            | UserOperation::CreateRole | UserOperation::AssignRole => {
                match self.catalog.is_admin_session(request.session) {
                    Ok(flag) => flag,
                    Err(_) => false,
                }
            },
            _ => false,
        };
        let result = match request.operation {
            UserOperation::Claim => {
                let r = self.catalog.claim(name, password, request.root, &mut self.entropy);
                let ghost salt = choose|salt: Result<[u8; USER_ARGON2_SALT_BYTES], UserError>|
                    (self.catalog@, r) == #[trigger] claim_out(c, name@, password@, request.root, salt)
                        && salt_drawn(!c.claimed && record_draws(c, name@), source, self.entropy, salt);
                let result = match r {
                    Ok(user) => {
                        response.user = user;
                        Ok(())
                    },
                    Err(e) => Err(e),
                };
                assert(operation_result(c, *request, salt, self.catalog@, result, *response, base));
                assert(salt_drawn(operation_draws(c, *request), source, self.entropy, salt));
                result
            },
            UserOperation::Create => {
                if !admin {
                    let result = Err(UserError::Unauthorized);
                    assert(operation_result(c, *request, Err(UserError::Entropy), self.catalog@, result, *response, base));
                    assert(salt_drawn(operation_draws(c, *request), source, self.entropy, Err(UserError::Entropy)));
                    result
                } else {
                let r = self.catalog.create_user(name, password, request.root, &mut self.entropy);
                let ghost salt = choose|salt: Result<[u8; USER_ARGON2_SALT_BYTES], UserError>|
                    (self.catalog@, r) == #[trigger] create_user_out(c, name@, password@, request.root, salt)
                        && salt_drawn(c.claimed && record_draws(c, name@), source, self.entropy, salt);
                let result = match r {
                    Ok(user) => {
                        response.user = user;
                        Ok(())
                    },
                    Err(e) => Err(e),
                };
                assert(operation_result(c, *request, salt, self.catalog@, result, *response, base));
                assert(salt_drawn(operation_draws(c, *request), source, self.entropy, salt));
                result
                }
            },
            UserOperation::Rename => {
                let result = if admin {
                    self.catalog.rename_user(request.user, name)
                } else {
                    Err(UserError::Unauthorized)
                };
                assert(operation_result(c, *request, Err(UserError::Entropy), self.catalog@, result, *response, base));
                assert(salt_drawn(operation_draws(c, *request), source, self.entropy, Err(UserError::Entropy)));
                result
            },
            UserOperation::SetPassword => {
                if !admin {
                    let result = Err(UserError::Unauthorized);
                    assert(operation_result(c, *request, Err(UserError::Entropy), self.catalog@, result, *response, base));
                    assert(salt_drawn(operation_draws(c, *request), source, self.entropy, Err(UserError::Entropy)));
                    result
                } else {
                    let result = self.catalog.set_password(request.user, password, &mut self.entropy);
                    let ghost salt = choose|salt: Result<[u8; USER_ARGON2_SALT_BYTES], UserError>|
                        (self.catalog@, result) == #[trigger] set_password_out(c, request.user, password@, salt)
                            && self.entropy.fills() == source.fills().push(crate::user_catalog::drawn(salt));
                    assert(operation_result(c, *request, salt, self.catalog@, result, *response, base));
                    assert(salt_drawn(operation_draws(c, *request), source, self.entropy, salt));
                    result
                }
            },
            UserOperation::CreateRole => {
                if !admin {
                    let result = Err(UserError::Unauthorized);
                    assert(operation_result(c, *request, Err(UserError::Entropy), self.catalog@, result, *response, base));
                    assert(salt_drawn(operation_draws(c, *request), source, self.entropy, Err(UserError::Entropy)));
                    result
                } else {
                    let r = self.catalog.create_role(
                        name,
                        CapabilityTemplate { root: request.root, rights: request.rights },
                    );
                    let result = match r {
                        Ok(role) => {
                            response.role = role;
                            Ok(())
                        },
                        Err(e) => Err(e),
                    };
                    assert(operation_result(c, *request, Err(UserError::Entropy), self.catalog@, result, *response, base));
                    assert(salt_drawn(operation_draws(c, *request), source, self.entropy, Err(UserError::Entropy)));
                    result
                }
            },
            UserOperation::AssignRole => {
                let result = if admin {
                    self.catalog.assign_role(request.user, request.role)
                } else {
                    Err(UserError::Unauthorized)
                };
                assert(operation_result(c, *request, Err(UserError::Entropy), self.catalog@, result, *response, base));
                assert(salt_drawn(operation_draws(c, *request), source, self.entropy, Err(UserError::Entropy)));
                result
            },
            UserOperation::Login => {
                let r = self.catalog.login(name, password);
                let result = match r {
                    Ok((user, session)) => {
                        response.user = user;
                        response.session = session;
                        Ok(())
                    },
                    Err(e) => Err(e),
                };
                assert(operation_result(c, *request, Err(UserError::Entropy), self.catalog@, result, *response, base));
                assert(salt_drawn(operation_draws(c, *request), source, self.entropy, Err(UserError::Entropy)));
                result
            },
            UserOperation::Logout | UserOperation::RevokeSession => {
                let result = self.catalog.logout(request.session);
                assert(operation_result(c, *request, Err(UserError::Entropy), self.catalog@, result, *response, base));
                assert(salt_drawn(operation_draws(c, *request), source, self.entropy, Err(UserError::Entropy)));
                result
            },
            UserOperation::Derive => {
                let r = self.catalog.derive(request.session, request.capability, request.root, request.rights);
                let result = match r {
                    Ok(capability) => {
                        response.capability = capability;
                        response.root = request.root;
                        response.rights = request.rights;
                        Ok(())
                    },
                    Err(e) => Err(e),
                };
                assert(operation_result(c, *request, Err(UserError::Entropy), self.catalog@, result, *response, base));
                assert(salt_drawn(operation_draws(c, *request), source, self.entropy, Err(UserError::Entropy)));
                result
            },
            UserOperation::RevokeCapability => {
                let result = self.catalog.revoke_capability(request.session, request.capability);
                assert(operation_result(c, *request, Err(UserError::Entropy), self.catalog@, result, *response, base));
                assert(salt_drawn(operation_draws(c, *request), source, self.entropy, Err(UserError::Entropy)));
                result
            },
        };
        assert(exists|salt: Result<[u8; USER_ARGON2_SALT_BYTES], UserError>|
            #[trigger] operation_result(c, *request, salt, self.catalog@, result, *response, base)
                && salt_drawn(operation_draws(c, *request), source, self.entropy, salt));
        assert(c == old(self).catalog_view());
        assert(self.catalog@ == self.catalog_view());
        assert(base == *old(response));
        result
    }

    /// Answer one request. A request without a root that claims the
    /// catalog or creates an account gets the next default home; account
    /// administration needs an administrator's session; the password is
    /// wiped from the request once used.
    pub fn handle(&mut self, request: UserRequest) -> (r: UserResponse)
        requires
            old(self).wf(),
            takes_default_home(request) ==> old(self).catalog_view().next_user <= u64::MAX - 0x1000,
        ensures
            final(self).wf(),
            exists|salt: Result<[u8; USER_ARGON2_SALT_BYTES], UserError>|
                #[trigger] handled(old(self).catalog_view(), request, salt, final(self).catalog_view(), r)
                    && salt_drawn(
                    draws_salt(old(self).catalog_view(), request),
                    old(self).entropy_view(),
                    final(self).entropy_view(),
                    salt,
                ),
    {
        let ghost c = self.catalog@;
        let mut req = request;
        if takes_default_home_exec(&req) {
            req.root = self.catalog.default_home_root();
        }
        assert(req == effective_request(c, request));
        let mut response = UserResponse::new(&req, UserStatus::Invalid);
        let ghost base = response;
        assert(base == blank_response(req));
        let ghost mut salt_choice: Result<[u8; USER_ARGON2_SALT_BYTES], UserError> = Err(UserError::Entropy);
        let ghost source = self.entropy;
        let result = if req.is_valid() {
            let result = self.dispatch(&req, &mut response);
            proof {
                let salt = choose|salt: Result<[u8; USER_ARGON2_SALT_BYTES], UserError>|
                    #[trigger] operation_result(c, req, salt, self.catalog@, result, response, base)
                        && salt_drawn(operation_draws(c, req), source, self.entropy, salt);
                salt_choice = salt;
            }
            result
        } else {
            Err(UserError::InvalidName)
        };
        let ghost resp_mid = response;
        req.password = [0u8; crate::user::USER_MAX_PASSWORD_BYTES];
        response.status = match result {
            Ok(()) => UserStatus::Success,
            Err(e) => map_error(e),
        };
        if response.status == UserStatus::Success && response.operation == UserOperation::Login {
            match self.catalog.first_capability(response.session) {
                Ok((capability, root, rights)) => {
                    response.capability = capability;
                    response.root = root;
                    response.rights = rights;
                },
                Err(_) => {},
            }
        }
        assert(response == finish_response(self.catalog@, result, resp_mid));
        assert(salt_drawn(draws_salt(c, request), source, self.entropy, salt_choice));
        assert(handled(c, request, salt_choice, self.catalog_view(), response));
        response
    }
}

} // verus!
