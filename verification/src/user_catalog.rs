//! The user catalog: accounts with password verifiers, roles that grant
//! namespace capabilities, and login sessions holding capabilities that
//! can only be narrowed and are revoked with everything derived from them.

use vstd::prelude::*;
use crate::user::{
    UserError, UserName, RoleName, PasswordVerifier, USER_ARGON2_SALT_BYTES, MAX_ROLE_GRANTS,
    MAX_ROLE_TEMPLATES, USER_MAX_USER_NAME_BYTES, USER_MAX_ROLE_NAME_BYTES, ARGON2_VERSION,
    name_valid, password_valid, verifier_digest, user_name_of, role_name_of, digest_array,
};
use vstd::array::{spec_array_update, spec_array_fill_for_copy_type};
use crate::user_abi::{
    NamespaceCapabilityHandle, NamespaceRights, NamespaceRoot, RoleId, SessionHandle, UserId,
    RIGHT_DERIVE,
};

verus! {

pub const MAX_USERS: usize = 32;
pub const MAX_ROLES: usize = 16;
pub const MAX_SESSIONS: usize = 32;
pub const MAX_CAPABILITIES_PER_SESSION: usize = 16;

/// The rights and root a role grants; an empty root stands for the
/// user's home.
#[derive(Clone, Copy, Debug, PartialEq, Eq, Structural)]
pub struct CapabilityTemplate {
    pub root: NamespaceRoot,
    pub rights: NamespaceRights,
}

#[derive(Clone, Copy, Debug)]
pub struct RoleRecord {
    pub id: RoleId,
    pub name: RoleName,
    pub templates: [Option<CapabilityTemplate>; MAX_ROLE_TEMPLATES],
    pub template_count: usize,
}

#[derive(Clone, Copy, Debug)]
pub struct UserRecord {
    pub id: UserId,
    pub name: UserName,
    pub verifier: PasswordVerifier,
    pub home: NamespaceRoot,
    pub roles: [RoleId; MAX_ROLE_GRANTS],
    pub role_count: usize,
    pub next_lineage: u64,
    pub admin: bool,
}

/// A capability held by a session: where it reaches, what it allows,
/// its own lineage and the lineage it was derived from.
#[derive(Clone, Copy, Debug, PartialEq, Eq, Structural)]
pub struct CapabilityRecord {
    pub handle: NamespaceCapabilityHandle,
    pub root: NamespaceRoot,
    pub rights: NamespaceRights,
    pub lineage: u64,
    pub parent_lineage: u64,
    pub revoked: bool,
}

#[derive(Clone, Copy, Debug)]
pub struct SessionRecord {
    pub handle: SessionHandle,
    pub user: UserId,
    pub lineage: u64,
    pub revoked: bool,
    pub capabilities: [Option<CapabilityRecord>; MAX_CAPABILITIES_PER_SESSION],
    pub capability_generations: [u32; MAX_CAPABILITIES_PER_SESSION],
}

/// The catalog as a value.
pub struct CatalogState {
    pub claimed: bool,
    pub next_user: u64,
    pub next_role: u64,
    pub next_lineage: u64,
    pub users: Seq<Option<UserRecord>>,
    pub roles: Seq<Option<RoleRecord>>,
    pub sessions: Seq<Option<SessionRecord>>,
}

pub open spec fn user_record_wf(r: UserRecord) -> bool {
    r.name.wf() && r.role_count <= MAX_ROLE_GRANTS
}

pub open spec fn role_record_wf(r: RoleRecord) -> bool {
    r.name.wf() && r.template_count <= MAX_ROLE_TEMPLATES
}

pub open spec fn catalog_wf(c: CatalogState) -> bool {
    &&& c.users.len() == MAX_USERS
    &&& c.roles.len() == MAX_ROLES
    &&& c.sessions.len() == MAX_SESSIONS
    &&& forall|i: int|
        0 <= i < MAX_USERS && (#[trigger] c.users[i]) is Some ==> user_record_wf(c.users[i].unwrap())
    &&& forall|i: int|
        0 <= i < MAX_ROLES && (#[trigger] c.roles[i]) is Some ==> role_record_wf(c.roles[i].unwrap())
}

/// A catalog value with these accounts and roles and no sessions.
pub open spec fn without_sessions(
    claimed: bool,
    counters: (u64, u64, u64),
    users: Seq<Option<UserRecord>>,
    roles: Seq<Option<RoleRecord>>,
) -> CatalogState {
    CatalogState {
        claimed,
        next_user: counters.0,
        next_role: counters.1,
        next_lineage: counters.2,
        users,
        roles,
        sessions: Seq::new(MAX_SESSIONS as nat, |i: int| None::<SessionRecord>),
    }
}

// ----- lookups -----

/// An unclaimed catalog with empty tables and counters at one.
pub open spec fn fresh_catalog(c: CatalogState) -> bool {
    &&& !c.claimed
    &&& c.next_user == 1
    &&& c.next_role == 1
    &&& c.next_lineage == 1
    &&& c.users == Seq::new(MAX_USERS as nat, |i: int| None::<UserRecord>)
    &&& c.roles == Seq::new(MAX_ROLES as nat, |i: int| None::<RoleRecord>)
    &&& c.sessions == Seq::new(MAX_SESSIONS as nat, |i: int| None::<SessionRecord>)
}

/// The first empty slot at or after `i`.
pub open spec fn first_none<T>(s: Seq<Option<T>>, i: int) -> Option<int>
    decreases s.len() - i,
{
    if i < 0 || i >= s.len() {
        None
    } else if s[i] is None {
        Some(i)
    } else {
        first_none(s, i + 1)
    }
}

/// The first user record at or after `i` with the name `name`.
pub open spec fn user_named(users: Seq<Option<UserRecord>>, name: Seq<u8>, i: int) -> Option<int>
    decreases users.len() - i,
{
    if i < 0 || i >= users.len() {
        None
    } else if users[i] matches Some(r) && r.name@ == name {
        Some(i)
    } else {
        user_named(users, name, i + 1)
    }
}

/// The first user record at or after `i` with the identifier `id`.
pub open spec fn user_with_id(users: Seq<Option<UserRecord>>, id: UserId, i: int) -> Option<int>
    decreases users.len() - i,
{
    if i < 0 || i >= users.len() {
        None
    } else if users[i] matches Some(r) && r.id == id {
        Some(i)
    } else {
        user_with_id(users, id, i + 1)
    }
}

/// The first role record at or after `i` with the name `name`.
pub open spec fn role_named(roles: Seq<Option<RoleRecord>>, name: Seq<u8>, i: int) -> Option<int>
    decreases roles.len() - i,
{
    if i < 0 || i >= roles.len() {
        None
    } else if roles[i] matches Some(r) && r.name@ == name {
        Some(i)
    } else {
        role_named(roles, name, i + 1)
    }
}

/// The first role record at or after `i` with the identifier `id`.
pub open spec fn role_with_id(roles: Seq<Option<RoleRecord>>, id: RoleId, i: int) -> Option<int>
    decreases roles.len() - i,
{
    if i < 0 || i >= roles.len() {
        None
    } else if roles[i] matches Some(r) && r.id == id {
        Some(i)
    } else {
        role_with_id(roles, id, i + 1)
    }
}

/// The first capability at or after `i` with the handle `handle`, live
/// ones only when `live`.
pub open spec fn capability_with(
    caps: Seq<Option<CapabilityRecord>>,
    handle: NamespaceCapabilityHandle,
    live: bool,
    i: int,
) -> Option<int>
    decreases caps.len() - i,
{
    if i < 0 || i >= caps.len() {
        None
    } else if caps[i] matches Some(r) && r.handle == handle && (!live || !r.revoked) {
        Some(i)
    } else {
        capability_with(caps, handle, live, i + 1)
    }
}

/// The first capability at or after `i`.
pub open spec fn first_some<T>(s: Seq<Option<T>>, i: int) -> Option<int>
    decreases s.len() - i,
{
    if i < 0 || i >= s.len() {
        None
    } else if s[i] is Some {
        Some(i)
    } else {
        first_some(s, i + 1)
    }
}

pub open spec fn as_index(r: Option<usize>) -> Option<int> {
    match r {
        Some(k) => Some(k as int),
        None => None,
    }
}

/// The session slot a live handle names; `Stale` for a handle that names
/// no session, `Revoked` for a session that has ended.
pub open spec fn session_slot(c: CatalogState, handle: SessionHandle) -> Result<int, UserError> {
    let slot = handle.slot as int;
    if slot >= MAX_SESSIONS {
        Err(UserError::Stale)
    } else {
        match c.sessions[slot] {
            None => Err(UserError::Stale),
            Some(r) => if r.handle != handle {
                Err(UserError::Stale)
            } else if r.revoked {
                Err(UserError::Revoked)
            } else {
                Ok(slot)
            },
        }
    }
}

/// The lineage counter after one is handed out: it skips zero.
pub open spec fn next_lineage_after(value: u64) -> u64 {
    if value == u64::MAX {
        1
    } else {
        (value + 1) as u64
    }
}

pub open spec fn with_lineage_taken(c: CatalogState) -> CatalogState {
    CatalogState { next_lineage: next_lineage_after(c.next_lineage), ..c }
}

pub open spec fn with_session(c: CatalogState, slot: int, r: SessionRecord) -> CatalogState {
    CatalogState { sessions: c.sessions.update(slot, Some(r)), ..c }
}

pub open spec fn with_user(c: CatalogState, slot: int, r: UserRecord) -> CatalogState {
    CatalogState { users: c.users.update(slot, Some(r)), ..c }
}

pub open spec fn with_role(c: CatalogState, slot: int, r: RoleRecord) -> CatalogState {
    CatalogState { roles: c.roles.update(slot, Some(r)), ..c }
}

/// The record that holds `capability` in `slot` of a session, with the
/// slot's generation in its handle.
pub open spec fn holding(s: SessionRecord, slot: int, capability: CapabilityRecord) -> bool {
    &&& s.capabilities@[slot] == Some(capability)
    &&& capability.handle == NamespaceCapabilityHandle {
        slot: slot as u32,
        generation: s.capability_generations@[slot],
    }
}


// ----- what the operations do -----

pub open spec fn logout_out(c: CatalogState, handle: SessionHandle) -> (CatalogState, Result<(), UserError>) {
    match session_slot(c, handle) {
        Err(e) => (c, Err(e)),
        Ok(slot) => (with_session(c, slot, SessionRecord { revoked: true, ..c.sessions[slot].unwrap() }), Ok(())),
    }
}

pub open spec fn is_admin_out(c: CatalogState, handle: SessionHandle) -> Result<bool, UserError> {
    match session_slot(c, handle) {
        Err(e) => Err(e),
        Ok(slot) => match user_with_id(c.users, c.sessions[slot].unwrap().user, 0) {
            None => Err(UserError::NotFound),
            Some(i) => Ok(c.users[i].unwrap().admin),
        },
    }
}

/// The root and rights of a capability of a live session; `Revoked` once
/// the capability or the session is.
pub open spec fn capability_out(
    c: CatalogState,
    handle: SessionHandle,
    capability: NamespaceCapabilityHandle,
) -> Result<(NamespaceRoot, NamespaceRights), UserError> {
    match session_slot(c, handle) {
        Err(e) => Err(e),
        Ok(slot) => {
            let s = c.sessions[slot].unwrap();
            match capability_with(s.capabilities@, capability, false, 0) {
                None => Err(UserError::Stale),
                Some(k) => {
                    let e = s.capabilities@[k].unwrap();
                    if e.revoked || s.revoked {
                        Err(UserError::Revoked)
                    } else {
                        Ok((e.root, e.rights))
                    }
                },
            }
        },
    }
}

pub open spec fn first_capability_out(c: CatalogState, handle: SessionHandle) -> Result<
    (NamespaceCapabilityHandle, NamespaceRoot, NamespaceRights),
    UserError,
> {
    match session_slot(c, handle) {
        Err(e) => Err(e),
        Ok(slot) => {
            let s = c.sessions[slot].unwrap();
            match first_some(s.capabilities@, 0) {
                None => Err(UserError::NotFound),
                Some(k) => {
                    let e = s.capabilities@[k].unwrap();
                    if e.revoked || s.revoked {
                        Err(UserError::Revoked)
                    } else {
                        Ok((e.handle, e.root, e.rights))
                    }
                },
            }
        },
    }
}

/// A new live capability in the first free slot of session `slot`.
pub open spec fn add_capability(
    c: CatalogState,
    slot: int,
    root: NamespaceRoot,
    rights: NamespaceRights,
    lineage: u64,
    parent_lineage: u64,
) -> (CatalogState, Result<NamespaceCapabilityHandle, UserError>) {
    let s = c.sessions[slot].unwrap();
    match first_none(s.capabilities@, 0) {
        None => (c, Err(UserError::Capacity)),
        Some(k) => {
            let generation = s.capability_generations@[k];
            if generation == 0 {
                (c, Err(UserError::Corrupt))
            } else {
                let handle = NamespaceCapabilityHandle { slot: k as u32, generation };
                let record = CapabilityRecord {
                    handle,
                    root,
                    rights,
                    lineage,
                    parent_lineage,
                    revoked: false,
                };
                (
                    with_session(
                        c,
                        slot,
                        SessionRecord {
                            capabilities: spec_array_update(s.capabilities, k, Some(record)),
                            ..s
                        },
                    ),
                    Ok(handle),
                )
            }
        },
    }
}

/// A capability for a session, derived from the session itself.
pub open spec fn attach_out(
    c: CatalogState,
    handle: SessionHandle,
    root: NamespaceRoot,
    rights: NamespaceRights,
) -> (CatalogState, Result<NamespaceCapabilityHandle, UserError>) {
    if !rights.valid() {
        (c, Err(UserError::Unauthorized))
    } else {
        let c1 = with_lineage_taken(c);
        match session_slot(c1, handle) {
            Err(e) => (c1, Err(e)),
            Ok(slot) => add_capability(
                c1,
                slot,
                root,
                rights,
                c.next_lineage,
                c1.sessions[slot].unwrap().lineage,
            ),
        }
    }
}

/// A capability narrowed from a live parent that may derive: the same
/// root and no right the parent lacks.
pub open spec fn derive_out(
    c: CatalogState,
    handle: SessionHandle,
    parent: NamespaceCapabilityHandle,
    root: NamespaceRoot,
    rights: NamespaceRights,
) -> (CatalogState, Result<NamespaceCapabilityHandle, UserError>) {
    if !rights.valid() {
        (c, Err(UserError::Unauthorized))
    } else {
        let c1 = with_lineage_taken(c);
        match session_slot(c1, handle) {
            Err(e) => (c1, Err(e)),
            Ok(slot) => {
                let s = c1.sessions[slot].unwrap();
                match capability_with(s.capabilities@, parent, true, 0) {
                    None => (c1, Err(UserError::Stale)),
                    Some(p) => {
                        let from = s.capabilities@[p].unwrap();
                        if !from.rights.includes(NamespaceRights(RIGHT_DERIVE)) || from.root != root
                            || !from.rights.includes(rights) {
                            (c1, Err(UserError::Unauthorized))
                        } else {
                            add_capability(c1, slot, root, rights, c.next_lineage, from.lineage)
                        }
                    },
                }
            },
        }
    }
}

pub open spec fn assign_role_inner_out(c: CatalogState, user: UserId, role: RoleId) -> (CatalogState, Result<(), UserError>) {
    match user_with_id(c.users, user, 0) {
        None => (c, Err(UserError::NotFound)),
        Some(i) => {
            let r = c.users[i].unwrap();
            if r.role_count == MAX_ROLE_GRANTS {
                (c, Err(UserError::Capacity))
            } else {
                (
                    with_user(
                        c,
                        i,
                        UserRecord {
                            roles: spec_array_update(r.roles, r.role_count as int, role),
                            role_count: (r.role_count + 1) as usize,
                            ..r
                        },
                    ),
                    Ok(()),
                )
            }
        },
    }
}

/// Grant an existing role to a user, up to `MAX_ROLE_GRANTS` grants.
pub open spec fn assign_role_out(c: CatalogState, user: UserId, role: RoleId) -> (CatalogState, Result<(), UserError>) {
    if role_with_id(c.roles, role, 0) is None {
        (c, Err(UserError::NotFound))
    } else {
        assign_role_inner_out(c, user, role)
    }
}

/// Another user already has the name.
pub open spec fn name_taken_by_other(c: CatalogState, user: UserId, name: Seq<u8>) -> bool {
    exists|i: int|
        0 <= i < MAX_USERS && (#[trigger] c.users[i] matches Some(r) && r.id != user && r.name@ == name)
}

pub open spec fn rename_out(c: CatalogState, user: UserId, name: Seq<u8>) -> (CatalogState, Result<(), UserError>) {
    if !name_valid(name, USER_MAX_USER_NAME_BYTES as int) {
        (c, Err(UserError::InvalidName))
    } else if name_taken_by_other(c, user, name) {
        (c, Err(UserError::Capacity))
    } else {
        match user_with_id(c.users, user, 0) {
            None => (c, Err(UserError::NotFound)),
            Some(i) => (with_user(c, i, UserRecord { name: user_name_of(name), ..c.users[i].unwrap() }), Ok(())),
        }
    }
}

/// The templates of a new role: the one given, then empty slots.
pub open spec fn single_template(template: CapabilityTemplate) -> [Option<CapabilityTemplate>; MAX_ROLE_TEMPLATES] {
    spec_array_update(
        spec_array_fill_for_copy_type::<Option<CapabilityTemplate>, MAX_ROLE_TEMPLATES>(None),
        0,
        Some(template),
    )
}

/// A new role in the first free slot, under the next role number.
pub open spec fn insert_role(c: CatalogState, name: Seq<u8>, template: CapabilityTemplate) -> (CatalogState, Result<RoleId, UserError>) {
    match first_none(c.roles, 0) {
        None => (c, Err(UserError::Capacity)),
        Some(slot) => {
            if c.next_role == 0 {
                (c, Err(UserError::Corrupt))
            } else if c.next_role == u64::MAX {
                (c, Err(UserError::Capacity))
            } else {
                let id = RoleId { value: c.next_role, generation: 1 };
                (
                    CatalogState {
                        next_role: (c.next_role + 1) as u64,
                        roles: c.roles.update(
                            slot,
                            Some(
                                RoleRecord {
                                    id,
                                    name: role_name_of(name),
                                    templates: single_template(template),
                                    template_count: 1,
                                },
                            ),
                        ),
                        ..c
                    },
                    Ok(id),
                )
            }
        },
    }
}

pub open spec fn create_role_out(c: CatalogState, name: Seq<u8>, template: CapabilityTemplate) -> (CatalogState, Result<RoleId, UserError>) {
    if !template.rights.valid() || !template.root.valid() {
        (c, Err(UserError::InvalidName))
    } else if !name_valid(name, USER_MAX_ROLE_NAME_BYTES as int) {
        (c, Err(UserError::InvalidName))
    } else if role_named(c.roles, name, 0) is Some {
        (c, Err(UserError::Capacity))
    } else {
        insert_role(c, name, template)
    }
}

/// The role named `name`, made with `template` when there is none.
pub open spec fn ensure_role_out(c: CatalogState, name: Seq<u8>, template: CapabilityTemplate) -> (CatalogState, Result<RoleId, UserError>) {
    if !name_valid(name, USER_MAX_ROLE_NAME_BYTES as int) {
        (c, Err(UserError::InvalidName))
    } else {
        match role_named(c.roles, name, 0) {
            Some(i) => (c, Ok(c.roles[i].unwrap().id)),
            None => insert_role(c, name, template),
        }
    }
}


// ----- searching the tables -----

fn first_free<T: Copy, const N: usize>(slots: &[Option<T>; N]) -> (r: Option<usize>)
    ensures
        as_index(r) == first_none(slots@, 0),
        r matches Some(k) ==> k < N && slots@[k as int] is None,
{
    let mut i: usize = 0;
    while i < N
        invariant
            i <= N,
            slots@.len() == N,
            first_none(slots@, 0) == first_none(slots@, i as int),
        decreases N - i,
    {
        if slots[i].is_none() {
            return Some(i);
        }
        i += 1;
    }
    None
}

fn first_present<T: Copy, const N: usize>(slots: &[Option<T>; N]) -> (r: Option<usize>)
    ensures
        as_index(r) == first_some(slots@, 0),
        r matches Some(k) ==> k < N && slots@[k as int] is Some,
{
    let mut i: usize = 0;
    while i < N
        invariant
            i <= N,
            slots@.len() == N,
            first_some(slots@, 0) == first_some(slots@, i as int),
        decreases N - i,
    {
        if slots[i].is_some() {
            return Some(i);
        }
        i += 1;
    }
    None
}

fn find_user_named(users: &[Option<UserRecord>; MAX_USERS], name: &UserName) -> (r: Option<usize>)
    requires
        name.wf(),
        forall|i: int| 0 <= i < MAX_USERS && (#[trigger] users@[i]) is Some ==> user_record_wf(users@[i].unwrap()),
    ensures
        as_index(r) == user_named(users@, name@, 0),
        r matches Some(k) ==> k < MAX_USERS && (users@[k as int] matches Some(rec) && rec.name@ == name@),
{
    let mut i: usize = 0;
    while i < MAX_USERS
        invariant
            i <= MAX_USERS,
            name.wf(),
            forall|j: int| 0 <= j < MAX_USERS && (#[trigger] users@[j]) is Some ==> user_record_wf(users@[j].unwrap()),
            user_named(users@, name@, 0) == user_named(users@, name@, i as int),
        decreases MAX_USERS - i,
    {
        if let Some(record) = &users[i] {
            if record.name.same(name) {
                return Some(i);
            }
        }
        i += 1;
    }
    None
}

fn find_user_id(users: &[Option<UserRecord>; MAX_USERS], id: UserId) -> (r: Option<usize>)
    ensures
        as_index(r) == user_with_id(users@, id, 0),
        r matches Some(k) ==> k < MAX_USERS && (users@[k as int] matches Some(rec) && rec.id == id),
{
    let mut i: usize = 0;
    while i < MAX_USERS
        invariant
            i <= MAX_USERS,
            user_with_id(users@, id, 0) == user_with_id(users@, id, i as int),
        decreases MAX_USERS - i,
    {
        if let Some(record) = &users[i] {
            if record.id == id {
                return Some(i);
            }
        }
        i += 1;
    }
    None
}

fn find_role_named(roles: &[Option<RoleRecord>; MAX_ROLES], name: &RoleName) -> (r: Option<usize>)
    requires
        name.wf(),
        forall|i: int| 0 <= i < MAX_ROLES && (#[trigger] roles@[i]) is Some ==> role_record_wf(roles@[i].unwrap()),
    ensures
        as_index(r) == role_named(roles@, name@, 0),
        r matches Some(k) ==> k < MAX_ROLES && (roles@[k as int] matches Some(rec) && rec.name@ == name@),
{
    let mut i: usize = 0;
    while i < MAX_ROLES
        invariant
            i <= MAX_ROLES,
            name.wf(),
            forall|j: int| 0 <= j < MAX_ROLES && (#[trigger] roles@[j]) is Some ==> role_record_wf(roles@[j].unwrap()),
            role_named(roles@, name@, 0) == role_named(roles@, name@, i as int),
        decreases MAX_ROLES - i,
    {
        if let Some(record) = &roles[i] {
            if record.name.same(name) {
                return Some(i);
            }
        }
        i += 1;
    }
    None
}

fn find_role_id(roles: &[Option<RoleRecord>; MAX_ROLES], id: RoleId) -> (r: Option<usize>)
    ensures
        as_index(r) == role_with_id(roles@, id, 0),
        r matches Some(k) ==> k < MAX_ROLES && (roles@[k as int] matches Some(rec) && rec.id == id),
{
    let mut i: usize = 0;
    while i < MAX_ROLES
        invariant
            i <= MAX_ROLES,
            role_with_id(roles@, id, 0) == role_with_id(roles@, id, i as int),
        decreases MAX_ROLES - i,
    {
        if let Some(record) = &roles[i] {
            if record.id == id {
                return Some(i);
            }
        }
        i += 1;
    }
    None
}

fn find_capability(
    caps: &[Option<CapabilityRecord>; MAX_CAPABILITIES_PER_SESSION],
    handle: NamespaceCapabilityHandle,
    live: bool,
) -> (r: Option<usize>)
    ensures
        as_index(r) == capability_with(caps@, handle, live, 0),
        r matches Some(k) ==> k < MAX_CAPABILITIES_PER_SESSION && (caps@[k as int] matches Some(
            rec,
        ) && rec.handle == handle && (!live || !rec.revoked)),
{
    let mut i: usize = 0;
    while i < MAX_CAPABILITIES_PER_SESSION
        invariant
            i <= MAX_CAPABILITIES_PER_SESSION,
            capability_with(caps@, handle, live, 0) == capability_with(caps@, handle, live, i as int),
        decreases MAX_CAPABILITIES_PER_SESSION - i,
    {
        if let Some(record) = &caps[i] {
            if record.handle == handle && (!live || !record.revoked) {
                return Some(i);
            }
        }
        i += 1;
    }
    None
}

/// The catalog of users, roles and sessions.
pub struct UserCatalog {
    claimed: bool,
    next_user: u64,
    next_role: u64,
    next_lineage: u64,
    users: [Option<UserRecord>; MAX_USERS],
    roles: [Option<RoleRecord>; MAX_ROLES],
    sessions: [Option<SessionRecord>; MAX_SESSIONS],
}

impl UserCatalog {
    pub closed spec fn view(&self) -> CatalogState {
        CatalogState {
            claimed: self.claimed,
            next_user: self.next_user,
            next_role: self.next_role,
            next_lineage: self.next_lineage,
            users: self.users@,
            roles: self.roles@,
            sessions: self.sessions@,
        }
    }

    pub open spec fn wf(&self) -> bool {
        catalog_wf(self@)
    }

    pub fn new() -> (r: Self)
        ensures
            r.wf(),
            fresh_catalog(r@),
    {
        let r = UserCatalog {
            claimed: false,
            next_user: 1,
            next_role: 1,
            next_lineage: 1,
            users: [None; MAX_USERS],
            roles: [None; MAX_ROLES],
            sessions: [None; MAX_SESSIONS],
        };
        assert(r.users@ =~= Seq::new(MAX_USERS as nat, |i: int| None::<UserRecord>));
        assert(r.roles@ =~= Seq::new(MAX_ROLES as nat, |i: int| None::<RoleRecord>));
        assert(r.sessions@ =~= Seq::new(MAX_SESSIONS as nat, |i: int| None::<SessionRecord>));
        r
    }

    pub fn is_claimed(&self) -> (r: bool)
        ensures
            r == self@.claimed,
    {
        self.claimed
    }

    /// The counters: next user number, next role number, next lineage.
    pub(crate) fn counters(&self) -> (r: (u64, u64, u64))
        ensures
            r == (self@.next_user, self@.next_role, self@.next_lineage),
    {
        (self.next_user, self.next_role, self.next_lineage)
    }

    pub(crate) fn user_slots(&self) -> (r: &[Option<UserRecord>; MAX_USERS])
        ensures
            r@ == self@.users,
    {
        &self.users
    }

    pub(crate) fn role_slots(&self) -> (r: &[Option<RoleRecord>; MAX_ROLES])
        ensures
            r@ == self@.roles,
    {
        &self.roles
    }

    /// A catalog with these accounts and roles and no sessions.
    pub(crate) fn from_parts(
        claimed: bool,
        counters: (u64, u64, u64),
        users: [Option<UserRecord>; MAX_USERS],
        roles: [Option<RoleRecord>; MAX_ROLES],
    ) -> (r: Self)
        ensures
            r@ == without_sessions(claimed, counters, users@, roles@),
    {
        let r = UserCatalog {
            claimed,
            next_user: counters.0,
            next_role: counters.1,
            next_lineage: counters.2,
            users,
            roles,
            sessions: [None; MAX_SESSIONS],
        };
        assert(r.sessions@ =~= Seq::new(MAX_SESSIONS as nat, |i: int| None::<SessionRecord>));
        r
    }

    /// The home root a new account gets when none is asked for.
    pub fn default_home_root(&self) -> (r: NamespaceRoot)
        requires
            self@.next_user <= u64::MAX - 0x1000,
        ensures
            r == (NamespaceRoot { object: (0x1000 + self@.next_user) as u64, generation: 1 }),
    {
        NamespaceRoot { object: 0x1000 + self.next_user, generation: 1 }
    }

    fn session_slot(&self, handle: SessionHandle) -> (r: Result<usize, UserError>)
        requires
            self.wf(),
        ensures
            match r {
                Ok(k) => session_slot(self@, handle) == Ok::<int, UserError>(k as int),
                Err(e) => session_slot(self@, handle) == Err::<int, UserError>(e),
            },
    {
        let slot = handle.slot as usize;
        if slot >= MAX_SESSIONS {
            return Err(UserError::Stale);
        }
        match &self.sessions[slot] {
            None => Err(UserError::Stale),
            Some(record) => {
                if record.handle != handle {
                    Err(UserError::Stale)
                } else if record.revoked {
                    Err(UserError::Revoked)
                } else {
                    Ok(slot)
                }
            },
        }
    }

    fn take_lineage(&mut self) -> (r: u64)
        ensures
            r == old(self)@.next_lineage,
            final(self)@ == with_lineage_taken(old(self)@),
    {
        let value = self.next_lineage;
        self.next_lineage = if value == u64::MAX {
            1
        } else {
            value + 1
        };
        value
    }

    pub fn logout(&mut self, session: SessionHandle) -> (r: Result<(), UserError>)
        requires
            old(self).wf(),
        ensures
            final(self).wf(),
            (final(self)@, r) == logout_out(old(self)@, session),
    {
        let slot = match self.session_slot(session) {
            Ok(slot) => slot,
            Err(e) => return Err(e),
        };
        let mut record = self.sessions[slot].unwrap();
        record.revoked = true;
        self.sessions.set(slot, Some(record));
        Ok(())
    }

    pub fn is_admin_session(&self, session: SessionHandle) -> (r: Result<bool, UserError>)
        requires
            self.wf(),
        ensures
            r == is_admin_out(self@, session),
    {
        let slot = match self.session_slot(session) {
            Ok(slot) => slot,
            Err(e) => return Err(e),
        };
        let user = self.sessions[slot].unwrap().user;
        match find_user_id(&self.users, user) {
            None => Err(UserError::NotFound),
            Some(index) => Ok(self.users[index].unwrap().admin),
        }
    }

    pub fn capability(&self, session: SessionHandle, capability: NamespaceCapabilityHandle) -> (r:
        Result<(NamespaceRoot, NamespaceRights), UserError>)
        requires
            self.wf(),
        ensures
            r == capability_out(self@, session, capability),
    {
        let slot = match self.session_slot(session) {
            Ok(slot) => slot,
            Err(e) => return Err(e),
        };
        let record = self.sessions[slot].unwrap();
        match find_capability(&record.capabilities, capability, false) {
            None => Err(UserError::Stale),
            Some(k) => {
                let entry = record.capabilities[k].unwrap();
                if entry.revoked || record.revoked {
                    Err(UserError::Revoked)
                } else {
                    Ok((entry.root, entry.rights))
                }
            },
        }
    }

    pub fn first_capability(&self, session: SessionHandle) -> (r: Result<
        (NamespaceCapabilityHandle, NamespaceRoot, NamespaceRights),
        UserError,
    >)
        requires
            self.wf(),
        ensures
            r == first_capability_out(self@, session),
    {
        let slot = match self.session_slot(session) {
            Ok(slot) => slot,
            Err(e) => return Err(e),
        };
        let record = self.sessions[slot].unwrap();
        match first_present(&record.capabilities) {
            None => Err(UserError::NotFound),
            Some(k) => {
                let entry = record.capabilities[k].unwrap();
                if entry.revoked || record.revoked {
                    Err(UserError::Revoked)
                } else {
                    Ok((entry.handle, entry.root, entry.rights))
                }
            },
        }
    }

    fn add_capability(
        &mut self,
        slot: usize,
        root: NamespaceRoot,
        rights: NamespaceRights,
        lineage: u64,
        parent_lineage: u64,
    ) -> (r: Result<NamespaceCapabilityHandle, UserError>)
        requires
            old(self).wf(),
            slot < MAX_SESSIONS,
            old(self)@.sessions[slot as int] is Some,
        ensures
            final(self).wf(),
            (final(self)@, r) == add_capability(old(self)@, slot as int, root, rights, lineage, parent_lineage),
    {
        let mut record = self.sessions[slot].unwrap();
        let k = match first_free(&record.capabilities) {
            None => return Err(UserError::Capacity),
            Some(k) => k,
        };
        let generation = record.capability_generations[k];
        if generation == 0 {
            return Err(UserError::Corrupt);
        }
        let handle = NamespaceCapabilityHandle { slot: k as u32, generation };
        let entry = CapabilityRecord { handle, root, rights, lineage, parent_lineage, revoked: false };
        let ghost before = record;
        record.capabilities.set(k, Some(entry));
        assert(record.capabilities =~= spec_array_update(before.capabilities, k as int, Some(entry)));
        self.sessions.set(slot, Some(record));
        Ok(handle)
    }

    pub fn attach_capability(
        &mut self,
        session: SessionHandle,
        root: NamespaceRoot,
        rights: NamespaceRights,
    ) -> (r: Result<NamespaceCapabilityHandle, UserError>)
        requires
            old(self).wf(),
        ensures
            final(self).wf(),
            (final(self)@, r) == attach_out(old(self)@, session, root, rights),
    {
        if !rights.is_valid() {
            return Err(UserError::Unauthorized);
        }
        let lineage = self.take_lineage();
        let slot = match self.session_slot(session) {
            Ok(slot) => slot,
            Err(e) => return Err(e),
        };
        let parent_lineage = self.sessions[slot].unwrap().lineage;
        self.add_capability(slot, root, rights, lineage, parent_lineage)
    }

    pub fn derive(
        &mut self,
        session: SessionHandle,
        parent: NamespaceCapabilityHandle,
        root: NamespaceRoot,
        rights: NamespaceRights,
    ) -> (r: Result<NamespaceCapabilityHandle, UserError>)
        requires
            old(self).wf(),
        ensures
            final(self).wf(),
            (final(self)@, r) == derive_out(old(self)@, session, parent, root, rights),
    {
        if !rights.is_valid() {
            return Err(UserError::Unauthorized);
        }
        let lineage = self.take_lineage();
        let slot = match self.session_slot(session) {
            Ok(slot) => slot,
            Err(e) => return Err(e),
        };
        let record = self.sessions[slot].unwrap();
        let p = match find_capability(&record.capabilities, parent, true) {
            None => return Err(UserError::Stale),
            Some(p) => p,
        };
        let from = record.capabilities[p].unwrap();
        if !from.rights.contains(NamespaceRights(RIGHT_DERIVE)) || from.root != root
            || !from.rights.contains(rights) {
            return Err(UserError::Unauthorized);
        }
        self.add_capability(slot, root, rights, lineage, from.lineage)
    }

    fn assign_role_inner(&mut self, user: UserId, role: RoleId) -> (r: Result<(), UserError>)
        requires
            old(self).wf(),
        ensures
            final(self).wf(),
            (final(self)@, r) == assign_role_inner_out(old(self)@, user, role),
    {
        let index = match find_user_id(&self.users, user) {
            None => return Err(UserError::NotFound),
            Some(index) => index,
        };
        let mut record = self.users[index].unwrap();
        if record.role_count == MAX_ROLE_GRANTS {
            return Err(UserError::Capacity);
        }
        let ghost before = record;
        record.roles.set(record.role_count, role);
        assert(record.roles =~= spec_array_update(before.roles, before.role_count as int, role));
        record.role_count += 1;
        self.users.set(index, Some(record));
        Ok(())
    }

    pub fn assign_role(&mut self, user: UserId, role: RoleId) -> (r: Result<(), UserError>)
        requires
            old(self).wf(),
        ensures
            final(self).wf(),
            (final(self)@, r) == assign_role_out(old(self)@, user, role),
    {
        if find_role_id(&self.roles, role).is_none() {
            return Err(UserError::NotFound);
        }
        self.assign_role_inner(user, role)
    }

    /// Rename a user; the caller must already hold the right to administer
    /// accounts.
    pub fn rename_user(&mut self, user: UserId, name: &[u8]) -> (r: Result<(), UserError>)
        requires
            old(self).wf(),
        ensures
            final(self).wf(),
            (final(self)@, r) == rename_out(old(self)@, user, name@),
    {
        let parsed = match UserName::parse(name) {
            Ok(parsed) => parsed,
            Err(e) => return Err(e),
        };
        let mut i: usize = 0;
        while i < MAX_USERS
            invariant
                i <= MAX_USERS,
                self.wf(),
                parsed.wf(),
                parsed@ == name@,
                name_valid(name@, USER_MAX_USER_NAME_BYTES as int),
                parsed == user_name_of(name@),
                self@ == old(self)@,
                forall|j: int|
                    0 <= j < i ==> !(#[trigger] self@.users[j] matches Some(r) && r.id != user && r.name@
                        == name@),
            decreases MAX_USERS - i,
        {
            if let Some(record) = &self.users[i] {
                if record.id != user && record.name.same(&parsed) {
                    assert(self@.users[i as int] matches Some(r) && r.id != user && r.name@ == name@);
                    assert(name_taken_by_other(self@, user, name@));
                    return Err(UserError::Capacity);
                }
            }
            i += 1;
        }
        let index = match find_user_id(&self.users, user) {
            None => return Err(UserError::NotFound),
            Some(index) => index,
        };
        let mut record = self.users[index].unwrap();
        record.name = parsed;
        self.users.set(index, Some(record));
        Ok(())
    }

    fn insert_role(&mut self, name: RoleName, template: CapabilityTemplate) -> (r: Result<RoleId, UserError>)
        requires
            old(self).wf(),
            name.wf(),
        ensures
            final(self).wf(),
            (final(self)@, r) == insert_role(old(self)@, name@, template),
    {
        let slot = match first_free(&self.roles) {
            None => return Err(UserError::Capacity),
            Some(slot) => slot,
        };
        if self.next_role == 0 {
            return Err(UserError::Corrupt);
        }
        if self.next_role == u64::MAX {
            return Err(UserError::Capacity);
        }
        let id = RoleId { value: self.next_role, generation: 1 };
        self.next_role = self.next_role + 1;
        let mut templates = [None; MAX_ROLE_TEMPLATES];
        let ghost empty = templates;
        templates.set(0, Some(template));
        assert(templates =~= single_template(template));
        proof {
            crate::user::lemma_role_name_of(name);
        }
        self.roles.set(slot, Some(RoleRecord { id, name, templates, template_count: 1 }));
        Ok(id)
    }

    pub fn create_role(&mut self, name: &[u8], template: CapabilityTemplate) -> (r: Result<RoleId, UserError>)
        requires
            old(self).wf(),
        ensures
            final(self).wf(),
            (final(self)@, r) == create_role_out(old(self)@, name@, template),
    {
        if !template.rights.is_valid() || !template.root.is_valid() {
            return Err(UserError::InvalidName);
        }
        let name = match RoleName::parse(name) {
            Ok(name) => name,
            Err(e) => return Err(e),
        };
        if find_role_named(&self.roles, &name).is_some() {
            return Err(UserError::Capacity);
        }
        self.insert_role(name, template)
    }

    fn ensure_builtin_role(&mut self, name: &[u8], template: CapabilityTemplate) -> (r: Result<RoleId, UserError>)
        requires
            old(self).wf(),
        ensures
            final(self).wf(),
            (final(self)@, r) == ensure_role_out(old(self)@, name@, template),
    {
        let name = match RoleName::parse(name) {
            Ok(name) => name,
            Err(e) => return Err(e),
        };
        match find_role_named(&self.roles, &name) {
            Some(index) => Ok(self.roles[index].unwrap().id),
            None => self.insert_role(name, template),
        }
    }
}


// ----- accounts -----

/// Random bytes for password salts; the catalog's users supply it.
pub trait EntropySource {
    /// What each call of `fill` wrote, or the error it gave, oldest
    /// first. A source defines it for itself; one that leaves it as it
    /// stands claims to record nothing, so its `fill` can promise nothing.
    closed spec fn fills(&self) -> Seq<Result<Seq<u8>, UserError>> {
        Seq::empty()
    }

    fn fill(&mut self, output: &mut [u8]) -> (r: Result<(), UserError>)
        ensures
            final(self).fills() == old(self).fills().push(
                match r {
                    Ok(()) => Ok(final(output)@),
                    Err(e) => Err(e),
                },
            ),
    ;
}

/// What drawing `salt` looks like from the source's side.
pub open spec fn drawn(salt: Result<[u8; USER_ARGON2_SALT_BYTES], UserError>) -> Result<Seq<u8>, UserError> {
    match salt {
        Ok(s) => Ok(s@),
        Err(e) => Err(e),
    }
}

/// Whether creating an account gets as far as drawing a salt: the name
/// is valid and free, a slot is free, and the account counter is usable.
pub open spec fn record_draws(c: CatalogState, name: Seq<u8>) -> bool {
    &&& name_valid(name, USER_MAX_USER_NAME_BYTES as int)
    &&& user_named(c.users, name, 0) is None
    &&& first_none(c.users, 0) is Some
    &&& c.next_user != 0
    &&& c.next_user != u64::MAX
}

/// `after` is `before` when no salt is drawn, and otherwise has been
/// filled exactly once more, giving `salt`.
pub open spec fn salt_drawn<E: EntropySource>(
    draws: bool,
    before: E,
    after: E,
    salt: Result<[u8; USER_ARGON2_SALT_BYTES], UserError>,
) -> bool {
    &&& draws ==> after.fills() == before.fills().push(drawn(salt))
    &&& !draws ==> after == before
}

/// A new account record: no roles yet, and a verifier of `password`
/// under `salt`.
pub open spec fn new_user_record(
    id: UserId,
    name: Seq<u8>,
    password: Seq<u8>,
    salt: [u8; USER_ARGON2_SALT_BYTES],
    home: NamespaceRoot,
) -> UserRecord {
    UserRecord {
        id,
        name: user_name_of(name),
        verifier: PasswordVerifier { version: ARGON2_VERSION, salt, output: digest_array(password, salt@) },
        home,
        roles: spec_array_fill_for_copy_type::<RoleId, MAX_ROLE_GRANTS>(RoleId { value: 0, generation: 0 }),
        role_count: 0,
        next_lineage: 1,
        admin: false,
    }
}

/// Creating an account, given what the entropy source gave (`salt`).
pub open spec fn create_record_out(
    c: CatalogState,
    name: Seq<u8>,
    password: Seq<u8>,
    home: NamespaceRoot,
    salt: Result<[u8; USER_ARGON2_SALT_BYTES], UserError>,
) -> (CatalogState, Result<UserId, UserError>) {
    if !name_valid(name, USER_MAX_USER_NAME_BYTES as int) {
        (c, Err(UserError::InvalidName))
    } else if user_named(c.users, name, 0) is Some {
        (c, Err(UserError::Capacity))
    } else {
        match first_none(c.users, 0) {
            None => (c, Err(UserError::Capacity)),
            Some(slot) => {
                if c.next_user == 0 {
                    (c, Err(UserError::Corrupt))
                } else if c.next_user == u64::MAX {
                    (c, Err(UserError::Capacity))
                } else {
                    let id = UserId { value: c.next_user, generation: 1 };
                    let c1 = CatalogState { next_user: (c.next_user + 1) as u64, ..c };
                    match salt {
                        Err(e) => (c1, Err(e)),
                        Ok(s) => {
                            if !password_valid(password) {
                                (c1, Err(UserError::InvalidPassword))
                            } else {
                                (with_user(c1, slot, new_user_record(id, name, password, s, home)), Ok(id))
                            }
                        },
                    }
                }
            },
        }
    }
}

pub open spec fn set_password_out(
    c: CatalogState,
    user: UserId,
    password: Seq<u8>,
    salt: Result<[u8; USER_ARGON2_SALT_BYTES], UserError>,
) -> (CatalogState, Result<(), UserError>) {
    match salt {
        Err(e) => (c, Err(e)),
        Ok(s) => {
            if !password_valid(password) {
                (c, Err(UserError::InvalidPassword))
            } else {
                match user_with_id(c.users, user, 0) {
                    None => (c, Err(UserError::NotFound)),
                    Some(i) => (
                        with_user(
                            c,
                            i,
                            UserRecord {
                                verifier: PasswordVerifier {
                                    version: ARGON2_VERSION,
                                    salt: s,
                                    output: digest_array(password, s@),
                                },
                                ..c.users[i].unwrap()
                            },
                        ),
                        Ok(()),
                    ),
                }
            }
        },
    }
}

/// The account `user` exists and its verifier accepts `password`.
pub open spec fn password_accepted(c: CatalogState, user: UserId, password: Seq<u8>) -> bool {
    user_with_id(c.users, user, 0) matches Some(i) && {
        let v = c.users[i].unwrap().verifier;
        v.version == ARGON2_VERSION && password_valid(password) && verifier_digest(password, v.salt@) == v.output@
    }
}

/// Replacing a record by one with the same identifier changes no lookup
/// by identifier.
pub proof fn lemma_user_with_id_keeps(users: Seq<Option<UserRecord>>, slot: int, r: UserRecord, id: UserId, i: int)
    requires
        0 <= slot < users.len(),
        users[slot] is Some,
        users[slot].unwrap().id == r.id,
    ensures
        user_with_id(users.update(slot, Some(r)), id, i) == user_with_id(users, id, i),
    decreases users.len() - i,
{
    if 0 <= i < users.len() {
        lemma_user_with_id_keeps(users, slot, r, id, i + 1);
    }
}

/// Replacing a record by one with the same name changes no lookup by
/// name.
pub proof fn lemma_user_named_keeps(users: Seq<Option<UserRecord>>, slot: int, r: UserRecord, name: Seq<u8>, i: int)
    requires
        0 <= slot < users.len(),
        users[slot] is Some,
        users[slot].unwrap().name@ == r.name@,
    ensures
        user_named(users.update(slot, Some(r)), name, i) == user_named(users, name, i),
    decreases users.len() - i,
{
    if 0 <= i < users.len() {
        lemma_user_named_keeps(users, slot, r, name, i + 1);
    }
}

/// `system-admin`
pub open spec fn system_admin_name() -> Seq<u8> {
    seq![0x73u8, 0x79, 0x73, 0x74, 0x65, 0x6d, 0x2d, 0x61, 0x64, 0x6d, 0x69, 0x6e]
}

/// `user`
pub open spec fn user_role_name() -> Seq<u8> {
    seq![0x75u8, 0x73, 0x65, 0x72]
}

/// What every account gets: read and write in its home.
pub open spec fn user_template() -> CapabilityTemplate {
    CapabilityTemplate { root: NamespaceRoot { object: 0, generation: 0 }, rights: NamespaceRights(3) }
}

/// What the administrator gets: read, write and derive in `home`.
pub open spec fn admin_template(home: NamespaceRoot) -> CapabilityTemplate {
    CapabilityTemplate { root: home, rights: NamespaceRights(7) }
}

pub open spec fn grant_admin(c: CatalogState, user: UserId) -> (CatalogState, Result<(), UserError>) {
    match user_with_id(c.users, user, 0) {
        None => (c, Err(UserError::NotFound)),
        Some(i) => (with_user(c, i, UserRecord { admin: true, ..c.users[i].unwrap() }), Ok(())),
    }
}

/// The roles of the first account once it exists: administrator and user.
pub open spec fn claim_roles(c: CatalogState, user: UserId, home: NamespaceRoot) -> (CatalogState, Result<UserId, UserError>) {
    let (c2, a) = grant_admin(c, user);
    match a {
        Err(e) => (c2, Err(e)),
        Ok(()) => {
            let (c3, admin_role) = ensure_role_out(c2, system_admin_name(), admin_template(home));
            match admin_role {
                Err(e) => (c3, Err(e)),
                Ok(admin_role) => {
                    let (c4, user_role) = ensure_role_out(c3, user_role_name(), user_template());
                    match user_role {
                        Err(e) => (c4, Err(e)),
                        Ok(user_role) => {
                            let (c5, d) = assign_role_out(c4, user, admin_role);
                            match d {
                                Err(e) => (c5, Err(e)),
                                Ok(()) => {
                                    let (c6, f) = assign_role_out(c5, user, user_role);
                                    match f {
                                        Err(e) => (c6, Err(e)),
                                        Ok(()) => (CatalogState { claimed: true, ..c6 }, Ok(user)),
                                    }
                                },
                            }
                        },
                    }
                },
            }
        },
    }
}

/// The first account: only once, and it administers the catalog.
pub open spec fn claim_out(
    c: CatalogState,
    name: Seq<u8>,
    password: Seq<u8>,
    home: NamespaceRoot,
    salt: Result<[u8; USER_ARGON2_SALT_BYTES], UserError>,
) -> (CatalogState, Result<UserId, UserError>) {
    if c.claimed {
        (c, Err(UserError::AlreadyClaimed))
    } else {
        let (c1, r) = create_record_out(c, name, password, home, salt);
        match r {
            Err(e) => (c1, Err(e)),
            Ok(user) => claim_roles(c1, user, home),
        }
    }
}

/// Further accounts, once the catalog is claimed, with the user role.
pub open spec fn create_user_out(
    c: CatalogState,
    name: Seq<u8>,
    password: Seq<u8>,
    home: NamespaceRoot,
    salt: Result<[u8; USER_ARGON2_SALT_BYTES], UserError>,
) -> (CatalogState, Result<UserId, UserError>) {
    if !c.claimed {
        (c, Err(UserError::NotClaimed))
    } else {
        let (c1, r) = create_record_out(c, name, password, home, salt);
        match r {
            Err(e) => (c1, Err(e)),
            Ok(user) => {
                let (c2, role) = ensure_role_out(c1, user_role_name(), user_template());
                match role {
                    Err(e) => (c2, Err(e)),
                    Ok(role) => {
                        let (c3, d) = assign_role_out(c2, user, role);
                        match d {
                            Err(e) => (c3, Err(e)),
                            Ok(()) => (c3, Ok(user)),
                        }
                    },
                }
            },
        }
    }
}

// ----- login -----

/// The templates present among the first `count` slots, from `i` on.
pub open spec fn present_templates(ts: Seq<Option<CapabilityTemplate>>, count: int, i: int) -> Seq<CapabilityTemplate>
    decreases count - i,
{
    if i < 0 || i >= count || i >= ts.len() {
        Seq::empty()
    } else {
        (if ts[i] is Some {
            seq![ts[i].unwrap()]
        } else {
            Seq::<CapabilityTemplate>::empty()
        }) + present_templates(ts, count, i + 1)
    }
}

/// The templates the role `id` grants.
pub open spec fn role_templates(roles: Seq<Option<RoleRecord>>, id: RoleId) -> Seq<CapabilityTemplate> {
    match role_with_id(roles, id, 0) {
        None => Seq::empty(),
        Some(k) => present_templates(
            roles[k].unwrap().templates@,
            roles[k].unwrap().template_count as int,
            0,
        ),
    }
}

/// The templates the user's roles grant, from grant `j` on.
pub open spec fn granted_from(roles: Seq<Option<RoleRecord>>, u: UserRecord, j: int) -> Seq<CapabilityTemplate>
    decreases u.role_count - j,
{
    if j < 0 || j >= u.role_count || j >= MAX_ROLE_GRANTS {
        Seq::empty()
    } else {
        role_templates(roles, u.roles@[j]) + granted_from(roles, u, j + 1)
    }
}

/// Attach the capabilities of `templates` from `i` on, an empty root
/// standing for `home`; the first failure ends it.
pub open spec fn attach_all(
    c: CatalogState,
    handle: SessionHandle,
    templates: Seq<CapabilityTemplate>,
    home: NamespaceRoot,
    i: int,
) -> (CatalogState, Result<(), UserError>)
    decreases templates.len() - i,
{
    if i < 0 || i >= templates.len() {
        (c, Ok(()))
    } else {
        let t = templates[i];
        let root = if t.root.valid() {
            t.root
        } else {
            home
        };
        let (c1, r) = attach_out(c, handle, root, t.rights);
        match r {
            Err(e) => (c1, Err(e)),
            Ok(_) => attach_all(c1, handle, templates, home, i + 1),
        }
    }
}

/// The session's capabilities attached; its account and handle when all
/// of them were.
pub open spec fn finish_login(
    c: CatalogState,
    handle: SessionHandle,
    templates: Seq<CapabilityTemplate>,
    home: NamespaceRoot,
    id: UserId,
) -> (CatalogState, Result<(UserId, SessionHandle), UserError>) {
    let (c2, r) = attach_all(c, handle, templates, home, 0);
    match r {
        Err(e) => (c2, Err(e)),
        Ok(()) => (c2, Ok((id, handle))),
    }
}

pub open spec fn fresh_session(handle: SessionHandle, user: UserId, lineage: u64) -> SessionRecord {
    SessionRecord {
        handle,
        user,
        lineage,
        revoked: false,
        capabilities: spec_array_fill_for_copy_type::<Option<CapabilityRecord>, MAX_CAPABILITIES_PER_SESSION>(None),
        capability_generations: spec_array_fill_for_copy_type::<u32, MAX_CAPABILITIES_PER_SESSION>(1),
    }
}

/// Logging in: the password must match the account's verifier; the session gets the
/// capabilities its roles grant.
pub open spec fn login_out(c: CatalogState, name: Seq<u8>, password: Seq<u8>) -> (
    CatalogState,
    Result<(UserId, SessionHandle), UserError>,
) {
    if !c.claimed {
        (c, Err(UserError::NotClaimed))
    } else if !name_valid(name, USER_MAX_USER_NAME_BYTES as int) {
        (c, Err(UserError::InvalidName))
    } else {
        match user_named(c.users, name, 0) {
            None => (c, Err(UserError::NotFound)),
            Some(i) => {
                let u = c.users[i].unwrap();
                if u.verifier.version != ARGON2_VERSION || !password_valid(password) {
                    (c, Err(UserError::BadCredentials))
                } else if verifier_digest(password, u.verifier.salt@) != u.verifier.output@ {
                    (c, Err(UserError::BadCredentials))
                } else {
                    match first_none(c.sessions, 0) {
                        None => (c, Err(UserError::Capacity)),
                        Some(slot) => {
                            let handle = SessionHandle { slot: slot as u32, generation: 1 };
                            let c1 = with_session(
                                with_lineage_taken(c),
                                slot,
                                fresh_session(handle, u.id, c.next_lineage),
                            );
                            finish_login(c1, handle, granted_from(c1.roles, u, 0), u.home, u.id)
                        },
                    }
                }
            },
        }
    }
}


impl UserCatalog {
    fn create_record<E: EntropySource>(
        &mut self,
        name: &[u8],
        password: &[u8],
        home: NamespaceRoot,
        entropy: &mut E,
    ) -> (r: Result<UserId, UserError>)
        requires
            old(self).wf(),
        ensures
            final(self).wf(),
            exists|salt: Result<[u8; USER_ARGON2_SALT_BYTES], UserError>|
                (final(self)@, r) == #[trigger] create_record_out(old(self)@, name@, password@, home, salt)
                    && salt_drawn(record_draws(old(self)@, name@), *old(entropy), *final(entropy), salt),
    {
        let parsed = match UserName::parse(name) {
            Ok(parsed) => parsed,
            Err(e) => {
                let r = Err(e);
                assert((self@, r) == create_record_out(old(self)@, name@, password@, home, Err(e)));
                return r;
            },
        };
        if find_user_named(&self.users, &parsed).is_some() {
            let r = Err(UserError::Capacity);
            assert((self@, r) == create_record_out(old(self)@, name@, password@, home, Err(UserError::Capacity)));
            return r;
        }
        let slot = match first_free(&self.users) {
            None => {
                let r = Err(UserError::Capacity);
                assert((self@, r) == create_record_out(old(self)@, name@, password@, home, Err(UserError::Capacity)));
                return r;
            },
            Some(slot) => slot,
        };
        if self.next_user == 0 {
            let r = Err(UserError::Corrupt);
            assert((self@, r) == create_record_out(old(self)@, name@, password@, home, Err(UserError::Corrupt)));
            return r;
        }
        if self.next_user == u64::MAX {
            let r = Err(UserError::Capacity);
            assert((self@, r) == create_record_out(old(self)@, name@, password@, home, Err(UserError::Capacity)));
            return r;
        }
        let id = UserId { value: self.next_user, generation: 1 };
        self.next_user = self.next_user + 1;
        let mut salt = [0u8; USER_ARGON2_SALT_BYTES];
        match entropy.fill(&mut salt) {
            Err(e) => {
                let r = Err(e);
                assert((self@, r) == create_record_out(old(self)@, name@, password@, home, Err(e)));
                return r;
            },
            Ok(()) => {},
        }
        let verifier = match PasswordVerifier::create(password, salt) {
            Err(e) => {
                let r = Err(e);
                assert((self@, r) == create_record_out(old(self)@, name@, password@, home, Ok(salt)));
                return r;
            },
            Ok(verifier) => verifier,
        };
        let roles = [RoleId { value: 0, generation: 0 }; MAX_ROLE_GRANTS];
        let record = UserRecord {
            id,
            name: parsed,
            verifier,
            home,
            roles,
            role_count: 0,
            next_lineage: 1,
            admin: false,
        };
        proof {
            crate::user::lemma_digest_array(verifier.output, password@, salt@);
        }
        assert(record == new_user_record(id, name@, password@, salt, home));
        self.users.set(slot, Some(record));
        let r = Ok(id);
        assert((self@, r) == create_record_out(old(self)@, name@, password@, home, Ok(salt)));
        r
    }

    /// Replace a user's password verifier; the password itself is not
    /// kept.
    pub fn set_password<E: EntropySource>(&mut self, user: UserId, password: &[u8], entropy: &mut E) -> (r:
        Result<(), UserError>)
        requires
            old(self).wf(),
        ensures
            final(self).wf(),
            exists|salt: Result<[u8; USER_ARGON2_SALT_BYTES], UserError>|
                (final(self)@, r) == #[trigger] set_password_out(old(self)@, user, password@, salt)
                    && final(entropy).fills() == old(entropy).fills().push(drawn(salt)),
            r is Ok ==> password_accepted(final(self)@, user, password@),
    {
        let mut salt = [0u8; USER_ARGON2_SALT_BYTES];
        match entropy.fill(&mut salt) {
            Err(e) => {
                let r = Err(e);
                assert((self@, r) == set_password_out(old(self)@, user, password@, Err(e)));
                return r;
            },
            Ok(()) => {},
        }
        let verifier = match PasswordVerifier::create(password, salt) {
            Err(e) => {
                let r = Err(e);
                assert((self@, r) == set_password_out(old(self)@, user, password@, Ok(salt)));
                return r;
            },
            Ok(verifier) => verifier,
        };
        proof {
            crate::user::lemma_digest_array(verifier.output, password@, salt@);
        }
        let index = match find_user_id(&self.users, user) {
            None => {
                let r = Err(UserError::NotFound);
                assert((self@, r) == set_password_out(old(self)@, user, password@, Ok(salt)));
                return r;
            },
            Some(index) => index,
        };
        let mut record = self.users[index].unwrap();
        record.verifier = verifier;
        let ghost users_before = self.users@;
        self.users.set(index, Some(record));
        let r = Ok(());
        assert((self@, r) == set_password_out(old(self)@, user, password@, Ok(salt)));
        proof {
            lemma_user_with_id_keeps(users_before, index as int, record, user, 0);
        }
        r
    }

    fn grant_admin(&mut self, user: UserId) -> (r: Result<(), UserError>)
        requires
            old(self).wf(),
        ensures
            final(self).wf(),
            (final(self)@, r) == grant_admin(old(self)@, user),
    {
        let index = match find_user_id(&self.users, user) {
            None => return Err(UserError::NotFound),
            Some(index) => index,
        };
        let mut record = self.users[index].unwrap();
        record.admin = true;
        self.users.set(index, Some(record));
        Ok(())
    }

    fn claim_roles(&mut self, user: UserId, home: NamespaceRoot) -> (r: Result<UserId, UserError>)
        requires
            old(self).wf(),
        ensures
            final(self).wf(),
            (final(self)@, r) == claim_roles(old(self)@, user, home),
    {
        match self.grant_admin(user) {
            Err(e) => return Err(e),
            Ok(()) => {},
        }
        let system_admin = [0x73u8, 0x79, 0x73, 0x74, 0x65, 0x6d, 0x2d, 0x61, 0x64, 0x6d, 0x69, 0x6e];
        assert(system_admin@ =~= system_admin_name());
        let admin_role = match self.ensure_builtin_role(
            &system_admin,
            CapabilityTemplate { root: home, rights: NamespaceRights(7) },
        ) {
            Err(e) => return Err(e),
            Ok(role) => role,
        };
        let user_name = [0x75u8, 0x73, 0x65, 0x72];
        assert(user_name@ =~= user_role_name());
        let user_role = match self.ensure_builtin_role(
            &user_name,
            CapabilityTemplate { root: NamespaceRoot { object: 0, generation: 0 }, rights: NamespaceRights(3) },
        ) {
            Err(e) => return Err(e),
            Ok(role) => role,
        };
        match self.assign_role(user, admin_role) {
            Err(e) => return Err(e),
            Ok(()) => {},
        }
        match self.assign_role(user, user_role) {
            Err(e) => return Err(e),
            Ok(()) => {},
        }
        self.claimed = true;
        Ok(user)
    }

    /// Create the first account, which administers the catalog; only once.
    pub fn claim<E: EntropySource>(
        &mut self,
        name: &[u8],
        password: &[u8],
        home: NamespaceRoot,
        entropy: &mut E,
    ) -> (r: Result<UserId, UserError>)
        requires
            old(self).wf(),
        ensures
            final(self).wf(),
            exists|salt: Result<[u8; USER_ARGON2_SALT_BYTES], UserError>|
                (final(self)@, r) == #[trigger] claim_out(old(self)@, name@, password@, home, salt)
                    && salt_drawn(!old(self)@.claimed && record_draws(old(self)@, name@), *old(entropy), *final(entropy), salt),
    {
        if self.claimed {
            let r = Err(UserError::AlreadyClaimed);
            assert((self@, r) == claim_out(old(self)@, name@, password@, home, Err(UserError::Capacity)));
            return r;
        }
        let user = match self.create_record(name, password, home, entropy) {
            Err(e) => {
                let r = Err(e);
                proof {
                    let salt = choose|salt: Result<[u8; USER_ARGON2_SALT_BYTES], UserError>|
                        (self@, r) == #[trigger] create_record_out(old(self)@, name@, password@, home, salt)
                            && salt_drawn(record_draws(old(self)@, name@), *old(entropy), *entropy, salt);
                    assert((self@, r) == claim_out(old(self)@, name@, password@, home, salt));
                }
                return r;
            },
            Ok(user) => user,
        };
        let ghost created = self@;
        let ghost salt = choose|salt: Result<[u8; USER_ARGON2_SALT_BYTES], UserError>|
            (created, Ok::<UserId, UserError>(user)) == #[trigger] create_record_out(old(self)@, name@, password@, home, salt)
                && salt_drawn(record_draws(old(self)@, name@), *old(entropy), *entropy, salt);
        let r = self.claim_roles(user, home);
        assert((self@, r) == claim_out(old(self)@, name@, password@, home, salt));
        r
    }

    /// Create a further account with the user role; the caller must
    /// already hold the right to administer accounts.
    pub fn create_user<E: EntropySource>(
        &mut self,
        name: &[u8],
        password: &[u8],
        home: NamespaceRoot,
        entropy: &mut E,
    ) -> (r: Result<UserId, UserError>)
        requires
            old(self).wf(),
        ensures
            final(self).wf(),
            exists|salt: Result<[u8; USER_ARGON2_SALT_BYTES], UserError>|
                (final(self)@, r) == #[trigger] create_user_out(old(self)@, name@, password@, home, salt)
                    && salt_drawn(old(self)@.claimed && record_draws(old(self)@, name@), *old(entropy), *final(entropy), salt),
    {
        if !self.claimed {
            let r = Err(UserError::NotClaimed);
            assert((self@, r) == create_user_out(old(self)@, name@, password@, home, Err(UserError::Capacity)));
            return r;
        }
        let user = match self.create_record(name, password, home, entropy) {
            Err(e) => {
                let r = Err(e);
                proof {
                    let salt = choose|salt: Result<[u8; USER_ARGON2_SALT_BYTES], UserError>|
                        (self@, r) == #[trigger] create_record_out(old(self)@, name@, password@, home, salt)
                            && salt_drawn(record_draws(old(self)@, name@), *old(entropy), *entropy, salt);
                    assert((self@, r) == create_user_out(old(self)@, name@, password@, home, salt));
                }
                return r;
            },
            Ok(user) => user,
        };
        let ghost created = self@;
        let ghost salt = choose|salt: Result<[u8; USER_ARGON2_SALT_BYTES], UserError>|
            (created, Ok::<UserId, UserError>(user)) == #[trigger] create_record_out(old(self)@, name@, password@, home, salt)
                && salt_drawn(record_draws(old(self)@, name@), *old(entropy), *entropy, salt);
        let user_name = [0x75u8, 0x73, 0x65, 0x72];
        assert(user_name@ =~= user_role_name());
        let role = match self.ensure_builtin_role(
            &user_name,
            CapabilityTemplate { root: NamespaceRoot { object: 0, generation: 0 }, rights: NamespaceRights(3) },
        ) {
            Err(e) => {
                let r = Err(e);
                assert((self@, r) == create_user_out(old(self)@, name@, password@, home, salt));
                return r;
            },
            Ok(role) => role,
        };
        let r = match self.assign_role(user, role) {
            Err(e) => Err(e),
            Ok(()) => Ok(user),
        };
        assert((self@, r) == create_user_out(old(self)@, name@, password@, home, salt));
        r
    }
}


impl UserCatalog {
    /// The templates the roles of `user` grant, in order.
    fn granted_templates(&self, user: &UserRecord) -> (r: Vec<CapabilityTemplate>)
        requires
            self.wf(),
            user.role_count <= MAX_ROLE_GRANTS,
        ensures
            r@ == granted_from(self@.roles, *user, 0),
    {
        let mut templates: Vec<CapabilityTemplate> = Vec::new();
        let mut j: usize = 0;
        while j < user.role_count
            invariant
                self.wf(),
                user.role_count <= MAX_ROLE_GRANTS,
                j <= user.role_count,
                granted_from(self@.roles, *user, 0) == templates@ + granted_from(self@.roles, *user, j as int),
            decreases user.role_count - j,
        {
            let ghost before = templates@;
            if let Some(k) = find_role_id(&self.roles, user.roles[j]) {
                let role = self.roles[k].unwrap();
                let mut t: usize = 0;
                while t < role.template_count
                    invariant
                        role.template_count <= MAX_ROLE_TEMPLATES,
                        t <= role.template_count,
                        present_templates(role.templates@, role.template_count as int, 0) == templates@.skip(
                            before.len() as int,
                        ) + present_templates(role.templates@, role.template_count as int, t as int),
                        templates@.take(before.len() as int) == before,
                        before.len() <= templates@.len(),
                    decreases role.template_count - t,
                {
                    let ghost step = templates@;
                    if let Some(template) = role.templates[t] {
                        templates.push(template);
                    }
                    assert(templates@.skip(before.len() as int) =~= step.skip(before.len() as int) + (if role.templates@[t as int] is Some {
                        seq![role.templates@[t as int].unwrap()]
                    } else {
                        Seq::<CapabilityTemplate>::empty()
                    }));
                    assert(templates@.take(before.len() as int) =~= before);
                    t += 1;
                }
                assert(templates@ =~= before + role_templates(self@.roles, user.roles@[j as int]));
            } else {
                assert(role_templates(self@.roles, user.roles@[j as int]) =~= Seq::<CapabilityTemplate>::empty());
                assert(templates@ =~= before + role_templates(self@.roles, user.roles@[j as int]));
            }
            j += 1;
        }
        assert(templates@ =~= templates@ + Seq::<CapabilityTemplate>::empty());
        templates
    }

    /// Open a session for the account named `name` when `password`
    /// matches its verifier; the session holds what the account's roles
    /// grant.
    pub fn login(&mut self, name: &[u8], password: &[u8]) -> (r: Result<(UserId, SessionHandle), UserError>)
        requires
            old(self).wf(),
        ensures
            final(self).wf(),
            (final(self)@, r) == login_out(old(self)@, name@, password@),
    {
        if !self.claimed {
            let r = Err(UserError::NotClaimed);
            assert((self@, r) == login_out(old(self)@, name@, password@));
            return r;
        }
        let parsed = match UserName::parse(name) {
            Ok(parsed) => parsed,
            Err(e) => {
                let r = Err(e);
                assert((self@, r) == login_out(old(self)@, name@, password@));
                return r;
            },
        };
        let index = match find_user_named(&self.users, &parsed) {
            None => {
                let r = Err(UserError::NotFound);
                assert((self@, r) == login_out(old(self)@, name@, password@));
                return r;
            },
            Some(index) => index,
        };
        let user = self.users[index].unwrap();
        match user.verifier.verify(password) {
            Err(e) => {
                let r = Err(e);
                assert((self@, r) == login_out(old(self)@, name@, password@));
                return r;
            },
            Ok(()) => {},
        }
        let slot = match first_free(&self.sessions) {
            None => {
                let r = Err(UserError::Capacity);
                assert((self@, r) == login_out(old(self)@, name@, password@));
                return r;
            },
            Some(slot) => slot,
        };
        let lineage = self.take_lineage();
        let handle = SessionHandle { slot: slot as u32, generation: 1 };
        let session = SessionRecord {
            handle,
            user: user.id,
            lineage,
            revoked: false,
            capabilities: [None; MAX_CAPABILITIES_PER_SESSION],
            capability_generations: [1u32; MAX_CAPABILITIES_PER_SESSION],
        };
        assert(session == fresh_session(handle, user.id, old(self)@.next_lineage));
        self.sessions.set(slot, Some(session));
        let templates = self.granted_templates(&user);
        let ghost opened = self@;
        let ghost goal = login_out(old(self)@, name@, password@);
        assert(goal == finish_login(opened, handle, templates@, user.home, user.id));
        let mut i: usize = 0;
        while i < templates.len()
            invariant
                self.wf(),
                i <= templates@.len(),
                goal == finish_login(opened, handle, templates@, user.home, user.id),
                goal == login_out(old(self)@, name@, password@),
                attach_all(opened, handle, templates@, user.home, 0) == attach_all(
                    self@,
                    handle,
                    templates@,
                    user.home,
                    i as int,
                ),
            decreases templates@.len() - i,
        {
            let t = templates[i];
            let root = if t.root.is_valid() {
                t.root
            } else {
                user.home
            };
            match self.attach_capability(handle, root, t.rights) {
                Err(e) => {
                    let r = Err(e);
                    assert((self@, r) == goal);
                    return r;
                },
                Ok(_) => {},
            }
            i += 1;
        }
        let r = Ok((user.id, handle));
        assert((self@, r) == goal);
        r
    }
}


// ----- revocation -----

/// A capability in `slot` that is live.
pub open spec fn live_at(caps: Seq<Option<CapabilityRecord>>, slot: int) -> bool {
    0 <= slot < caps.len() && (caps[slot] matches Some(e) && !e.revoked)
}

/// The capability in `slot` is the target, or derives from the target
/// or from a capability in `set`.
pub open spec fn derives_from(caps: Seq<Option<CapabilityRecord>>, target: u64, slot: int, set: Set<int>) -> bool {
    let e = caps[slot].unwrap();
    ||| e.lineage == target
    ||| e.parent_lineage == target
    ||| exists|j: int|
        #![trigger set.contains(j), caps[j]]
        set.contains(j) && 0 <= j < caps.len() && (caps[j] matches Some(p) && p.lineage == e.parent_lineage)
}

/// Every live capability that derives from `set` or the target is in it.
pub open spec fn closed_under(caps: Seq<Option<CapabilityRecord>>, target: u64, set: Set<int>) -> bool {
    forall|slot: int|
        #![trigger set.contains(slot)]
        live_at(caps, slot) && derives_from(caps, target, slot, set) ==> set.contains(slot)
}

/// Live before, revoked after.
pub open spec fn newly_revoked(before: Seq<Option<CapabilityRecord>>, after: Seq<Option<CapabilityRecord>>, slot: int) -> bool {
    live_at(before, slot) && (after[slot] matches Some(e) && e.revoked)
}

pub open spec fn revoked_set(before: Seq<Option<CapabilityRecord>>, after: Seq<Option<CapabilityRecord>>) -> Set<int> {
    Set::new(|slot: int| newly_revoked(before, after, slot))
}

/// `after` is `before` with exactly the live capabilities reached from
/// `target` by derivation revoked: the smallest set closed under
/// deriving.
pub open spec fn revocation(before: Seq<Option<CapabilityRecord>>, after: Seq<Option<CapabilityRecord>>, target: u64) -> bool {
    let gone = revoked_set(before, after);
    &&& after.len() == before.len()
    &&& forall|j: int|
        0 <= j < before.len() ==> #[trigger] after[j] == match before[j] {
            None => None,
            Some(a) => Some(CapabilityRecord { revoked: a.revoked || gone.contains(j), ..a }),
        }
    &&& closed_under(before, target, gone)
    &&& forall|x: Set<int>| #[trigger] closed_under(before, target, x) ==> gone.subset_of(x)
}

/// Revoking a capability of a live session: it and everything derived
/// from it, directly or through other capabilities, is revoked.
pub open spec fn revoke_result(
    c: CatalogState,
    handle: SessionHandle,
    capability: NamespaceCapabilityHandle,
    c2: CatalogState,
    r: Result<(), UserError>,
) -> bool {
    match session_slot(c, handle) {
        Err(e) => c2 == c && r == Err::<(), UserError>(e),
        Ok(slot) => {
            let s = c.sessions[slot].unwrap();
            match capability_with(s.capabilities@, capability, false, 0) {
                None => c2 == c && r == Err::<(), UserError>(UserError::Stale),
                Some(k) => {
                    let target = s.capabilities@[k].unwrap().lineage;
                    let after = c2.sessions[slot].unwrap().capabilities;
                    &&& r == Ok::<(), UserError>(())
                    &&& c2 == with_session(c, slot, SessionRecord { capabilities: after, ..s })
                    &&& revocation(s.capabilities@, after@, target)
                },
            }
        },
    }
}

/// How many of the first `n` slots were newly revoked.
pub open spec fn newly_count(before: Seq<Option<CapabilityRecord>>, after: Seq<Option<CapabilityRecord>>, n: int) -> int
    decreases n,
{
    if n <= 0 {
        0
    } else {
        newly_count(before, after, n - 1) + if newly_revoked(before, after, n - 1) {
            1int
        } else {
            0int
        }
    }
}

proof fn lemma_newly_count_bounds(before: Seq<Option<CapabilityRecord>>, after: Seq<Option<CapabilityRecord>>, n: int)
    requires
        n >= 0,
    ensures
        0 <= newly_count(before, after, n) <= n,
        newly_count(before, after, n) == n ==> forall|j: int| 0 <= j < n ==> newly_revoked(before, after, j),
    decreases n,
{
    if n > 0 {
        lemma_newly_count_bounds(before, after, n - 1);
    }
}

proof fn lemma_newly_count_step(
    before: Seq<Option<CapabilityRecord>>,
    after: Seq<Option<CapabilityRecord>>,
    next: Seq<Option<CapabilityRecord>>,
    slot: int,
    n: int,
)
    requires
        0 <= slot < after.len(),
        n >= 0,
        after.len() == next.len(),
        before.len() == after.len(),
        forall|j: int| 0 <= j < after.len() && j != slot ==> next[j] == after[j],
        !newly_revoked(before, after, slot),
        newly_revoked(before, next, slot),
    ensures
        newly_count(before, next, n) == newly_count(before, after, n) + if slot < n {
            1int
        } else {
            0int
        },
    decreases n,
{
    if n > 0 {
        lemma_newly_count_step(before, after, next, slot, n - 1);
        if n - 1 != slot && 0 <= n - 1 < after.len() {
            assert(next[n - 1] == after[n - 1]);
        }
    }
}

/// The capability list has `value` among its first `count` entries.
fn lineage_listed(list: &[u64; MAX_CAPABILITIES_PER_SESSION], count: usize, value: u64) -> (r: bool)
    requires
        count <= MAX_CAPABILITIES_PER_SESSION,
    ensures
        r == (exists|i: int| 0 <= i < count && list@[i] == value),
{
    let mut i: usize = 0;
    while i < count
        invariant
            count <= MAX_CAPABILITIES_PER_SESSION,
            i <= count,
            forall|j: int| 0 <= j < i ==> list@[j] != value,
        decreases count - i,
    {
        if list[i] == value {
            return true;
        }
        i += 1;
    }
    false
}


/// Only the revoked flag changes, and only from live to revoked.
pub open spec fn same_but_revoked(before: Option<CapabilityRecord>, after: Option<CapabilityRecord>) -> bool {
    match before {
        None => after is None,
        Some(a) => after matches Some(b) && b == (CapabilityRecord { revoked: b.revoked, ..a }) && (a.revoked
            ==> b.revoked),
    }
}

/// Every listed lineage after the first is that of a newly revoked
/// capability.
pub open spec fn list_backed(
    before: Seq<Option<CapabilityRecord>>,
    after: Seq<Option<CapabilityRecord>>,
    list: Seq<u64>,
    count: int,
) -> bool {
    forall|i: int|
        #![trigger list[i]]
        1 <= i < count ==> exists|j: int|
            #![trigger newly_revoked(before, after, j)]
            newly_revoked(before, after, j) && before[j].unwrap().lineage == list[i]
}

/// Every newly revoked capability has its lineage listed.
pub open spec fn list_covers(
    before: Seq<Option<CapabilityRecord>>,
    after: Seq<Option<CapabilityRecord>>,
    list: Seq<u64>,
    count: int,
) -> bool {
    forall|j: int|
        #![trigger newly_revoked(before, after, j)]
        0 <= j < before.len() && newly_revoked(before, after, j) ==> exists|i: int|
            #![trigger list[i]]
            0 <= i < count && list[i] == before[j].unwrap().lineage
}

/// The live capabilities before `index` that stay live derive from
/// nothing listed.
pub open spec fn quiet_before(
    before: Seq<Option<CapabilityRecord>>,
    after: Seq<Option<CapabilityRecord>>,
    target: u64,
    list: Seq<u64>,
    count: int,
    index: int,
) -> bool {
    forall|j: int|
        #![trigger live_at(before, j)]
        0 <= j < index && live_at(before, j) && !newly_revoked(before, after, j) ==> !(
        before[j].unwrap().lineage == target || exists|i: int|
            #![trigger list[i]]
            0 <= i < count && list[i] == before[j].unwrap().parent_lineage)
}

pub open spec fn min_of_int(a: int, b: int) -> int {
    if a <= b {
        a
    } else {
        b
    }
}

impl UserCatalog {
    /// Revoke a capability of a live session, and with it every live
    /// capability derived from it, directly or through others.
    pub fn revoke_capability(&mut self, session: SessionHandle, capability: NamespaceCapabilityHandle) -> (r:
        Result<(), UserError>)
        requires
            old(self).wf(),
        ensures
            final(self).wf(),
            revoke_result(old(self)@, session, capability, final(self)@, r),
    {
        let slot = match self.session_slot(session) {
            Ok(slot) => slot,
            Err(e) => return Err(e),
        };
        let mut record = self.sessions[slot].unwrap();
        let k = match find_capability(&record.capabilities, capability, false) {
            None => return Err(UserError::Stale),
            Some(k) => k,
        };
        let target = record.capabilities[k].unwrap().lineage;
        let ghost before = record.capabilities@;
        let ghost start = record;
        let mut list = [0u64; MAX_CAPABILITIES_PER_SESSION];
        list.set(0, target);
        let mut count: usize = 1;
        let ghost mut newly: int = 0;
        proof {
            assert(revoked_set(before, record.capabilities@) =~= Set::<int>::empty());
            assert(newly_count(before, record.capabilities@, 16) == 0) by {
                lemma_newly_count_zero(before, 16);
            }
        }
        let mut round: usize = 0;
        let mut settled = false;
        while round < MAX_CAPABILITIES_PER_SESSION && !settled
            invariant
                before.len() == MAX_CAPABILITIES_PER_SESSION,
                record.capabilities@.len() == MAX_CAPABILITIES_PER_SESSION,
                record == (SessionRecord { capabilities: record.capabilities, ..start }),
                forall|j: int|
                    0 <= j < MAX_CAPABILITIES_PER_SESSION ==> same_but_revoked(before[j], #[trigger] record.capabilities@[j]),
                forall|x: Set<int>|
                    #[trigger] closed_under(before, target, x) ==> revoked_set(before, record.capabilities@).subset_of(x),
                1 <= count <= MAX_CAPABILITIES_PER_SESSION,
                list@[0] == target,
                list_backed(before, record.capabilities@, list@, count as int),
                newly == newly_count(before, record.capabilities@, MAX_CAPABILITIES_PER_SESSION as int),
                count == min_of_int(1 + newly, MAX_CAPABILITIES_PER_SESSION as int),
                newly <= 15 ==> list_covers(before, record.capabilities@, list@, count as int),
                newly >= round,
                round <= MAX_CAPABILITIES_PER_SESSION,
                settled ==> closed_under(before, target, revoked_set(before, record.capabilities@)),
            decreases MAX_CAPABILITIES_PER_SESSION - round + (if settled { 0int } else { 1int }),
        {
            let ghost round_count = count;
            let ghost round_newly = newly;
            let mut changed = false;
            let mut index: usize = 0;
            while index < MAX_CAPABILITIES_PER_SESSION
                invariant
                    before.len() == MAX_CAPABILITIES_PER_SESSION,
                    record.capabilities@.len() == MAX_CAPABILITIES_PER_SESSION,
                    record == (SessionRecord { capabilities: record.capabilities, ..start }),
                    forall|j: int|
                        0 <= j < MAX_CAPABILITIES_PER_SESSION ==> same_but_revoked(before[j], #[trigger] record.capabilities@[j]),
                    forall|x: Set<int>|
                        #[trigger] closed_under(before, target, x) ==> revoked_set(before, record.capabilities@).subset_of(x),
                    1 <= count <= MAX_CAPABILITIES_PER_SESSION,
                    list@[0] == target,
                    list_backed(before, record.capabilities@, list@, count as int),
                    newly == newly_count(before, record.capabilities@, MAX_CAPABILITIES_PER_SESSION as int),
                    count == min_of_int(1 + newly, MAX_CAPABILITIES_PER_SESSION as int),
                    newly <= 15 ==> list_covers(before, record.capabilities@, list@, count as int),
                    index <= MAX_CAPABILITIES_PER_SESSION,
                    !changed ==> count == round_count && newly == round_newly,
                    changed ==> newly >= round_newly + 1,
                    !changed ==> quiet_before(before, record.capabilities@, target, list@, count as int, index as int),
                decreases MAX_CAPABILITIES_PER_SESSION - index,
            {
                if let Some(entry) = record.capabilities[index] {
                    let ancestor = entry.lineage == target || lineage_listed(&list, count, entry.parent_lineage);
                    if ancestor && !entry.revoked {
                        let ghost cur0 = record.capabilities@;
                        let ghost list0 = list@;
                        let ghost count0 = count;
                        let revoked_entry = CapabilityRecord { revoked: true, ..entry };
                        record.capabilities.set(index, Some(revoked_entry));
                        proof {
                            assert(!newly_revoked(before, cur0, index as int));
                            assert(newly_revoked(before, record.capabilities@, index as int));
                            lemma_newly_count_step(before, cur0, record.capabilities@, index as int, 16);
                            newly = newly + 1;
                            assert forall|x: Set<int>| #[trigger] closed_under(before, target, x) implies revoked_set(
                                before,
                                record.capabilities@,
                            ).subset_of(x) by {
                                assert(revoked_set(before, cur0).subset_of(x));
                                let e = before[index as int].unwrap();
                                if e.lineage != target {
                                    let i = choose|i: int| 0 <= i < count0 && list0[i] == e.parent_lineage;
                                    if i == 0 {
                                        assert(e.parent_lineage == target);
                                    } else {
                                        let j = choose|j: int| newly_revoked(before, cur0, j) && before[j].unwrap().lineage == list0[i];
                                        assert(revoked_set(before, cur0).contains(j));
                                        assert(x.contains(j));
                                    }
                                }
                                assert(derives_from(before, target, index as int, x));
                                assert(x.contains(index as int));
                                assert forall|j: int| revoked_set(before, record.capabilities@).contains(j) implies x.contains(j) by {
                                    if j != index {
                                        assert(record.capabilities@[j] == cur0[j]);
                                        assert(revoked_set(before, cur0).contains(j));
                                    }
                                }
                            }
                            assert forall|i: int| #![trigger list0[i]] 1 <= i < count0 implies exists|j: int|
                                #![trigger newly_revoked(before, record.capabilities@, j)]
                                newly_revoked(before, record.capabilities@, j) && before[j].unwrap().lineage == list0[i] by {
                                let j = choose|j: int| newly_revoked(before, cur0, j) && before[j].unwrap().lineage == list0[i];
                                assert(j != index);
                                assert(record.capabilities@[j] == cur0[j]);
                                assert(newly_revoked(before, record.capabilities@, j));
                            }
                        }
                        if count < MAX_CAPABILITIES_PER_SESSION {
                            list.set(count, entry.lineage);
                            count += 1;
                        }
                        proof {
                            assert forall|i: int| #![trigger list@[i]] 1 <= i < count implies exists|j: int|
                                #![trigger newly_revoked(before, record.capabilities@, j)]
                                newly_revoked(before, record.capabilities@, j) && before[j].unwrap().lineage == list@[i] by {
                                if i < count0 {
                                    assert(list@[i] == list0[i]);
                                } else {
                                    assert(newly_revoked(before, record.capabilities@, index as int));
                                }
                            }
                            assert(list_backed(before, record.capabilities@, list@, count as int));
                            if newly <= 15 {
                                assert forall|j: int|
                                    #![trigger newly_revoked(before, record.capabilities@, j)]
                                    0 <= j < before.len() && newly_revoked(before, record.capabilities@, j)
                                        implies exists|i: int| #![trigger list@[i]] 0 <= i < count && list@[i] == before[j].unwrap().lineage by {
                                    if j == index {
                                        assert(list@[count0 as int] == before[j].unwrap().lineage);
                                    } else {
                                        assert(record.capabilities@[j] == cur0[j]);
                                        assert(newly_revoked(before, cur0, j));
                                        let i = choose|i: int| 0 <= i < count0 && list0[i] == before[j].unwrap().lineage;
                                        assert(list@[i] == list0[i]);
                                    }
                                }
                                assert(list_covers(before, record.capabilities@, list@, count as int));
                            }
                        }
                        changed = true;
                    }
                }
                index += 1;
            }
            if !changed {
                settled = true;
                proof {
                    lemma_newly_count_bounds(before, record.capabilities@, 16);
                    let gone = revoked_set(before, record.capabilities@);
                    assert forall|slot: int| #![trigger gone.contains(slot)]
                        live_at(before, slot) && derives_from(before, target, slot, gone) implies gone.contains(slot) by {
                        if !newly_revoked(before, record.capabilities@, slot) {
                            let e = before[slot].unwrap();
                            if e.lineage != target && e.parent_lineage != target {
                                let j = choose|j: int| gone.contains(j) && 0 <= j < before.len() && (before[j] matches Some(p)
                                    && p.lineage == e.parent_lineage);
                                if newly <= 15 {
                                    assert(newly_revoked(before, record.capabilities@, j));
                                    let i = choose|i: int| 0 <= i < count && list@[i] == before[j].unwrap().lineage;
                                    assert(list@[i] == e.parent_lineage);
                                } else {
                                    assert(newly_revoked(before, record.capabilities@, slot));
                                }
                            } else if e.parent_lineage == target {
                                assert(list@[0] == e.parent_lineage);
                            }
                        }
                    }
                }
            } else {
                round += 1;
            }
        }
        proof {
            lemma_newly_count_bounds(before, record.capabilities@, 16);
            let gone = revoked_set(before, record.capabilities@);
            if !settled {
                assert forall|slot: int| #![trigger gone.contains(slot)]
                    live_at(before, slot) && derives_from(before, target, slot, gone) implies gone.contains(slot) by {
                    assert(newly_revoked(before, record.capabilities@, slot));
                }
            }
            assert forall|j: int| 0 <= j < before.len() implies #[trigger] record.capabilities@[j] == match before[j] {
                None => None,
                Some(a) => Some(CapabilityRecord { revoked: a.revoked || gone.contains(j), ..a }),
            } by {
                assert(same_but_revoked(before[j], record.capabilities@[j]));
            }
        }
        self.sessions.set(slot, Some(record));
        Ok(())
    }
}

proof fn lemma_newly_count_zero(before: Seq<Option<CapabilityRecord>>, n: int)
    ensures
        newly_count(before, before, n) == 0,
    decreases n,
{
    if n > 0 {
        lemma_newly_count_zero(before, n - 1);
    }
}

} // verus!
