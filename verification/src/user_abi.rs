//! The identifiers, rights and request records that the user service
//! exchanges with its clients.

use vstd::prelude::*;
use crate::user::{USER_MAX_USER_NAME_BYTES, USER_MAX_PASSWORD_BYTES};

verus! {

pub const RIGHT_READ: u8 = 1;
pub const RIGHT_WRITE: u8 = 2;
pub const RIGHT_DERIVE: u8 = 4;
pub const RIGHTS_ALL: u8 = 7;

/// A set of namespace rights, one bit each.
#[derive(Clone, Copy, Debug, PartialEq, Eq, Structural)]
pub struct NamespaceRights(pub u8);

impl NamespaceRights {
    /// Only known rights are set.
    pub open spec fn valid(self) -> bool {
        self.0 <= RIGHTS_ALL
    }

    /// Every right of `other` is in `self`.
    pub open spec fn includes(self, other: NamespaceRights) -> bool {
        self.0 & other.0 == other.0
    }

    pub fn is_valid(self) -> (r: bool)
        ensures
            r == self.valid(),
    {
        self.0 <= RIGHTS_ALL
    }

    pub fn contains(self, other: NamespaceRights) -> (r: bool)
        ensures
            r == self.includes(other),
    {
        self.0 & other.0 == other.0
    }

    pub fn none() -> (r: NamespaceRights)
        ensures
            r.0 == 0,
    {
        NamespaceRights(0)
    }
}

/// A namespace object and its generation; both zero for no root.
#[derive(Clone, Copy, Debug, PartialEq, Eq, Structural)]
pub struct NamespaceRoot {
    pub object: u64,
    pub generation: u32,
}

impl NamespaceRoot {
    pub open spec fn valid(self) -> bool {
        self.object != 0 && self.generation != 0
    }

    pub fn empty() -> (r: NamespaceRoot)
        ensures
            r.object == 0 && r.generation == 0,
    {
        NamespaceRoot { object: 0, generation: 0 }
    }

    pub fn new(object: u64, generation: u32) -> (r: Option<NamespaceRoot>)
        ensures
            r == (if object != 0 && generation != 0 {
                Some(NamespaceRoot { object, generation })
            } else {
                None
            }),
    {
        if object != 0 && generation != 0 {
            Some(NamespaceRoot { object, generation })
        } else {
            None
        }
    }

    pub fn is_valid(self) -> (r: bool)
        ensures
            r == self.valid(),
    {
        self.object != 0 && self.generation != 0
    }
}

/// A user: its number and generation, both non-zero.
#[derive(Clone, Copy, Debug, PartialEq, Eq, Structural)]
pub struct UserId {
    pub value: u64,
    pub generation: u32,
}

impl UserId {
    pub open spec fn valid(self) -> bool {
        self.value != 0 && self.generation != 0
    }

    pub fn empty() -> (r: UserId)
        ensures
            r.value == 0 && r.generation == 0,
    {
        UserId { value: 0, generation: 0 }
    }

    pub fn new(value: u64, generation: u32) -> (r: Option<UserId>)
        ensures
            r == (if value != 0 && generation != 0 {
                Some(UserId { value, generation })
            } else {
                None
            }),
    {
        if value != 0 && generation != 0 {
            Some(UserId { value, generation })
        } else {
            None
        }
    }

    pub fn is_valid(self) -> (r: bool)
        ensures
            r == self.valid(),
    {
        self.value != 0 && self.generation != 0
    }
}

/// A role: its number and generation, both non-zero.
#[derive(Clone, Copy, Debug, PartialEq, Eq, Structural)]
pub struct RoleId {
    pub value: u64,
    pub generation: u32,
}

impl RoleId {
    pub open spec fn valid(self) -> bool {
        self.value != 0 && self.generation != 0
    }

    pub fn empty() -> (r: RoleId)
        ensures
            r.value == 0 && r.generation == 0,
    {
        RoleId { value: 0, generation: 0 }
    }

    pub fn new(value: u64, generation: u32) -> (r: Option<RoleId>)
        ensures
            r == (if value != 0 && generation != 0 {
                Some(RoleId { value, generation })
            } else {
                None
            }),
    {
        if value != 0 && generation != 0 {
            Some(RoleId { value, generation })
        } else {
            None
        }
    }
}

/// A login session: its table slot and generation, which is not zero.
#[derive(Clone, Copy, Debug, PartialEq, Eq, Structural)]
pub struct SessionHandle {
    pub slot: u32,
    pub generation: u32,
}

impl SessionHandle {
    pub open spec fn valid(self) -> bool {
        self.generation != 0
    }

    pub fn empty() -> (r: SessionHandle)
        ensures
            r.slot == 0 && r.generation == 0,
    {
        SessionHandle { slot: 0, generation: 0 }
    }

    pub fn new(slot: u32, generation: u32) -> (r: Option<SessionHandle>)
        ensures
            r == (if generation != 0 {
                Some(SessionHandle { slot, generation })
            } else {
                None
            }),
    {
        if generation != 0 {
            Some(SessionHandle { slot, generation })
        } else {
            None
        }
    }

    pub fn is_valid(self) -> (r: bool)
        ensures
            r == self.valid(),
    {
        self.generation != 0
    }
}

/// A namespace capability of a session: its slot and generation, which
/// is not zero.
#[derive(Clone, Copy, Debug, PartialEq, Eq, Structural)]
pub struct NamespaceCapabilityHandle {
    pub slot: u32,
    pub generation: u32,
}

impl NamespaceCapabilityHandle {
    pub open spec fn valid(self) -> bool {
        self.generation != 0
    }

    pub fn empty() -> (r: NamespaceCapabilityHandle)
        ensures
            r.slot == 0 && r.generation == 0,
    {
        NamespaceCapabilityHandle { slot: 0, generation: 0 }
    }

    pub fn new(slot: u32, generation: u32) -> (r: Option<NamespaceCapabilityHandle>)
        ensures
            r == (if generation != 0 {
                Some(NamespaceCapabilityHandle { slot, generation })
            } else {
                None
            }),
    {
        if generation != 0 {
            Some(NamespaceCapabilityHandle { slot, generation })
        } else {
            None
        }
    }
}

#[derive(Clone, Copy, Debug, PartialEq, Eq, Structural)]
pub enum UserOperation {
    Claim,
    Create,
    Rename,
    SetPassword,
    CreateRole,
    AssignRole,
    Login,
    Logout,
    RevokeSession,
    Derive,
    RevokeCapability,
}

#[derive(Clone, Copy, Debug, PartialEq, Eq, Structural)]
pub enum UserStatus {
    Success,
    Invalid,
    AlreadyClaimed,
    Unclaimed,
    NotFound,
    Unauthorized,
    BadCredentials,
    Stale,
    Revoked,
    Capacity,
    Corrupt,
}

/// What the shell holds of an authenticated session: its handle, its
/// account, and one capability with its root and rights.
#[derive(Clone, Copy, Debug, PartialEq, Eq)]
pub struct GuiSessionContext {
    pub session: SessionHandle,
    pub user: UserId,
    pub capability: NamespaceCapabilityHandle,
    pub root: NamespaceRoot,
    pub rights: NamespaceRights,
    pub reserved: [u8; 3],
}

impl GuiSessionContext {
    /// Every part of it names something.
    pub open spec fn authenticated(self) -> bool {
        self.session.valid() && self.user.valid() && self.capability.valid() && self.root.valid()
            && self.rights.valid()
    }

    /// It holds nothing.
    pub open spec fn clear(self) -> bool {
        &&& self.session == SessionHandle { slot: 0, generation: 0 }
        &&& self.user == UserId { value: 0, generation: 0 }
        &&& self.capability == NamespaceCapabilityHandle { slot: 0, generation: 0 }
        &&& self.root == NamespaceRoot { object: 0, generation: 0 }
        &&& self.rights == NamespaceRights(0)
        &&& self.reserved@ == seq![0u8, 0u8, 0u8]
    }

    pub fn empty() -> (r: GuiSessionContext)
        ensures
            r.clear(),
    {
        let r = GuiSessionContext {
            session: SessionHandle::empty(),
            user: UserId::empty(),
            capability: NamespaceCapabilityHandle::empty(),
            root: NamespaceRoot::empty(),
            rights: NamespaceRights::none(),
            reserved: [0u8; 3],
        };
        assert(r.reserved@ =~= seq![0u8, 0u8, 0u8]);
        r
    }

    pub fn is_authenticated(&self) -> (r: bool)
        ensures
            r == self.authenticated(),
    {
        self.session.is_valid() && self.user.is_valid() && self.capability.generation != 0
            && self.root.is_valid() && self.rights.is_valid()
    }

    pub fn is_clear(&self) -> (r: bool)
        ensures
            r == self.clear(),
    {
        let r = self.session.slot == 0 && self.session.generation == 0 && self.user.value == 0
            && self.user.generation == 0 && self.capability.slot == 0 && self.capability.generation == 0
            && self.root.object == 0 && self.root.generation == 0 && self.rights.0 == 0 && self.reserved[0] == 0
            && self.reserved[1] == 0 && self.reserved[2] == 0;
        assert(r ==> self.reserved@ =~= seq![0u8, 0u8, 0u8]);
        r
    }
}

/// A request to the user service.
#[derive(Clone, Copy, Debug)]
pub struct UserRequest {
    pub operation: UserOperation,
    pub request_id: u32,
    pub session: SessionHandle,
    pub user: UserId,
    pub role: RoleId,
    pub root: NamespaceRoot,
    pub rights: NamespaceRights,
    pub capability: NamespaceCapabilityHandle,
    pub name: [u8; USER_MAX_USER_NAME_BYTES],
    pub name_len: u8,
    pub password: [u8; USER_MAX_PASSWORD_BYTES],
    pub password_len: u8,
}

impl UserRequest {
    /// The name the request carries.
    pub open spec fn name_view(self) -> Seq<u8> {
        self.name@.take(self.name_len as int)
    }

    /// The password the request carries.
    pub open spec fn password_view(self) -> Seq<u8> {
        self.password@.take(self.password_len as int)
    }

    /// Its lengths lie within its fields.
    pub open spec fn valid(self) -> bool {
        self.name_len <= USER_MAX_USER_NAME_BYTES && self.password_len <= USER_MAX_PASSWORD_BYTES
    }

    /// A request for `operation` with nothing filled in.
    pub fn new(operation: UserOperation, request_id: u32) -> (r: UserRequest)
        ensures
            r.operation == operation,
            r.request_id == request_id,
            r.session == (SessionHandle { slot: 0, generation: 0 }),
            r.user == (UserId { value: 0, generation: 0 }),
            r.role == (RoleId { value: 0, generation: 0 }),
            r.root == (NamespaceRoot { object: 0, generation: 0 }),
            r.rights == (NamespaceRights(0)),
            r.capability == (NamespaceCapabilityHandle { slot: 0, generation: 0 }),
            r.name_len == 0,
            r.password_len == 0,
            r.valid(),
    {
        UserRequest {
            operation,
            request_id,
            session: SessionHandle::empty(),
            user: UserId::empty(),
            role: RoleId::empty(),
            root: NamespaceRoot::empty(),
            rights: NamespaceRights::none(),
            capability: NamespaceCapabilityHandle::empty(),
            name: [0u8; USER_MAX_USER_NAME_BYTES],
            name_len: 0,
            password: [0u8; USER_MAX_PASSWORD_BYTES],
            password_len: 0,
        }
    }

    /// Set the name; false, and nothing changed, when it does not fit.
    pub fn set_name(&mut self, name: &[u8]) -> (r: bool)
        ensures
            r == (name@.len() <= USER_MAX_USER_NAME_BYTES),
            r ==> final(self).name_view() == name@ && final(self).name_len == name@.len()
                && *final(self) == (UserRequest { name: final(self).name, name_len: final(self).name_len, ..*old(self) }),
            !r ==> *final(self) == *old(self),
            final(self).operation == old(self).operation,
            final(self).password_len == old(self).password_len,
    {
        if name.len() > USER_MAX_USER_NAME_BYTES {
            return false;
        }
        let mut i: usize = 0;
        while i < name.len()
            invariant
                name@.len() <= USER_MAX_USER_NAME_BYTES,
                i <= name@.len(),
                self.name@.len() == USER_MAX_USER_NAME_BYTES,
                forall|j: int| 0 <= j < i ==> self.name@[j] == name@[j],
                *self == (UserRequest { name: self.name, ..*old(self) }),
            decreases name@.len() - i,
        {
            self.name.set(i, name[i]);
            i += 1;
        }
        self.name_len = name.len() as u8;
        assert(self.name_view() =~= name@);
        true
    }

    /// Set the password; false, and nothing changed, when it does not fit.
    pub fn set_password(&mut self, password: &[u8]) -> (r: bool)
        ensures
            r == (password@.len() <= USER_MAX_PASSWORD_BYTES),
            r ==> final(self).password_view() == password@ && final(self).password_len == password@.len()
                && *final(self) == (UserRequest {
                password: final(self).password,
                password_len: final(self).password_len,
                ..*old(self)
            }),
            !r ==> *final(self) == *old(self),
            final(self).operation == old(self).operation,
            final(self).name_len == old(self).name_len,
    {
        if password.len() > USER_MAX_PASSWORD_BYTES {
            return false;
        }
        let mut i: usize = 0;
        while i < password.len()
            invariant
                password@.len() <= USER_MAX_PASSWORD_BYTES,
                i <= password@.len(),
                self.password@.len() == USER_MAX_PASSWORD_BYTES,
                forall|j: int| 0 <= j < i ==> self.password@[j] == password@[j],
                *self == (UserRequest { password: self.password, ..*old(self) }),
            decreases password@.len() - i,
        {
            self.password.set(i, password[i]);
            i += 1;
        }
        self.password_len = password.len() as u8;
        assert(self.password_view() =~= password@);
        true
    }

    pub fn is_valid(&self) -> (r: bool)
        ensures
            r == self.valid(),
    {
        self.name_len as usize <= USER_MAX_USER_NAME_BYTES && self.password_len as usize
            <= USER_MAX_PASSWORD_BYTES
    }
}

/// The service's answer to a request.
#[derive(Clone, Copy, Debug)]
pub struct UserResponse {
    pub operation: UserOperation,
    pub request_id: u32,
    pub status: UserStatus,
    pub user: UserId,
    pub session: SessionHandle,
    pub role: RoleId,
    pub capability: NamespaceCapabilityHandle,
    pub root: NamespaceRoot,
    pub rights: NamespaceRights,
}

impl UserResponse {
    /// An answer to `request` with `status` and nothing else filled in.
    pub fn new(request: &UserRequest, status: UserStatus) -> (r: UserResponse)
        ensures
            r.operation == request.operation,
            r.request_id == request.request_id,
            r.status == status,
            r.user == (UserId { value: 0, generation: 0 }),
            r.session == (SessionHandle { slot: 0, generation: 0 }),
            r.role == (RoleId { value: 0, generation: 0 }),
            r.capability == (NamespaceCapabilityHandle { slot: 0, generation: 0 }),
            r.root == (NamespaceRoot { object: 0, generation: 0 }),
            r.rights == (NamespaceRights(0)),
    {
        UserResponse {
            operation: request.operation,
            request_id: request.request_id,
            status,
            user: UserId::empty(),
            session: SessionHandle::empty(),
            role: RoleId::empty(),
            capability: NamespaceCapabilityHandle::empty(),
            root: NamespaceRoot::empty(),
            rights: NamespaceRights::none(),
        }
    }
}

} // verus!
