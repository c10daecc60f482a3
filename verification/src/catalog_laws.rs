//! What holds of the user catalog across its operations.

use vstd::prelude::*;
use crate::user::{
    UserError, USER_ARGON2_SALT_BYTES, USER_MAX_USER_NAME_BYTES, ARGON2_VERSION, verifier_digest, name_valid,
    user_name_of, lemma_user_name_of_valid,
};
use crate::user_abi::{NamespaceCapabilityHandle, NamespaceRights, NamespaceRoot, SessionHandle, UserId, RIGHT_DERIVE};
use crate::user_catalog::{
    CatalogState, CapabilityRecord, claim_out, claim_roles, logout_out, capability_out, first_capability_out,
    is_admin_out, session_slot, catalog_wf, revoke_result, revocation, revoked_set, live_at, derives_from,
    CapabilityTemplate, login_out, user_named, user_with_id, password_accepted, first_none, with_session,
    with_lineage_taken, fresh_session, granted_from, attach_all, attach_out, rename_out, name_taken_by_other,
    UserRecord, MAX_USERS, lemma_user_with_id_keeps, derive_out, capability_with,
};

verus! {

/// Claiming is one-shot: a claim that succeeds leaves the catalog claimed,
/// and every later claim is refused with `AlreadyClaimed`, changing
/// nothing.
pub proof fn lemma_claim_is_one_shot(
    c: CatalogState,
    name: Seq<u8>,
    password: Seq<u8>,
    home: NamespaceRoot,
    salt: Result<[u8; USER_ARGON2_SALT_BYTES], UserError>,
    other_name: Seq<u8>,
    other_password: Seq<u8>,
    other_home: NamespaceRoot,
    other_salt: Result<[u8; USER_ARGON2_SALT_BYTES], UserError>,
)
    requires
        claim_out(c, name, password, home, salt).1 is Ok,
    ensures
        claim_out(c, name, password, home, salt).0.claimed,
        claim_out(claim_out(c, name, password, home, salt).0, other_name, other_password, other_home, other_salt)
            == (claim_out(c, name, password, home, salt).0, Err::<UserId, UserError>(UserError::AlreadyClaimed)),
{
}

/// Logging out ends the session: from then on every request under its
/// handle is refused with `Revoked`, a second logout included.
pub proof fn lemma_logout_ends_session(c: CatalogState, handle: SessionHandle, capability: NamespaceCapabilityHandle)
    requires
        catalog_wf(c),
        logout_out(c, handle).1 is Ok,
    ensures
        capability_out(logout_out(c, handle).0, handle, capability) == Err::<(NamespaceRoot, NamespaceRights), UserError>(UserError::Revoked),
        first_capability_out(logout_out(c, handle).0, handle) == Err::<(NamespaceCapabilityHandle, NamespaceRoot, NamespaceRights), UserError>(UserError::Revoked),
        is_admin_out(logout_out(c, handle).0, handle) == Err::<bool, UserError>(UserError::Revoked),
        logout_out(logout_out(c, handle).0, handle) == (logout_out(c, handle).0, Err::<(), UserError>(UserError::Revoked)),
{
    let c2 = logout_out(c, handle).0;
    assert(session_slot(c2, handle) == Err::<int, UserError>(UserError::Revoked));
}

/// A derived capability only narrows: it has the root and rights asked
/// for, and it came from a live capability of the same session with that
/// root, every one of those rights and the right to derive.
pub proof fn lemma_derive_only_attenuates(
    c: CatalogState,
    handle: SessionHandle,
    parent: NamespaceCapabilityHandle,
    root: NamespaceRoot,
    rights: NamespaceRights,
)
    requires
        catalog_wf(c),
        derive_out(c, handle, parent, root, rights).1 is Ok,
    ensures
        ({
            let (c2, r) = derive_out(c, handle, parent, root, rights);
            let slot = handle.slot as int;
            let caps = c.sessions[slot].unwrap().capabilities@;
            &&& session_slot(c, handle) == Ok::<int, UserError>(slot)
            &&& capability_with(caps, parent, true, 0) matches Some(p) && {
                let from = caps[p].unwrap();
                &&& !from.revoked
                &&& from.root == root
                &&& from.rights.includes(NamespaceRights(RIGHT_DERIVE))
                &&& from.rights.includes(rights)
                &&& exists|k: int| 0 <= k < caps.len() && #[trigger] c2.sessions[slot].unwrap().capabilities@[k] == Some(CapabilityRecord {
                    handle: r.unwrap(),
                    root,
                    rights,
                    lineage: c.next_lineage,
                    parent_lineage: from.lineage,
                    revoked: false,
                })
            }
        }),
{
    let slot = handle.slot as int;
    let c1 = with_lineage_taken(c);
    assert(session_slot(c1, handle) == session_slot(c, handle));
    let caps = c.sessions[slot].unwrap().capabilities@;
    let p = capability_with(caps, parent, true, 0).unwrap();
    let k = first_none(caps, 0).unwrap();
    let (c2, r) = derive_out(c, handle, parent, root, rights);
    assert(0 <= k < caps.len()) by {
        lemma_first_none_in_range(caps, 0);
    }
    assert(c2.sessions[slot].unwrap().capabilities@[k] == Some(CapabilityRecord {
        handle: r.unwrap(),
        root,
        rights,
        lineage: c.next_lineage,
        parent_lineage: caps[p].unwrap().lineage,
        revoked: false,
    }));
    lemma_capability_with_found(caps, parent, true, 0);
    let from = caps[p].unwrap();
    assert(session_slot(c, handle) == Ok::<int, UserError>(slot));
    assert(!from.revoked);
    assert(from.root == root);
    assert(from.rights.includes(NamespaceRights(RIGHT_DERIVE)));
    assert(from.rights.includes(rights));
}

/// Revoking a capability refuses it from then on with `Revoked`, and
/// revokes with it every live capability derived from it, directly or
/// from a capability this revocation revoked.
pub proof fn lemma_revoke_reaches_descendants(
    c: CatalogState,
    handle: SessionHandle,
    capability: NamespaceCapabilityHandle,
    c2: CatalogState,
)
    requires
        catalog_wf(c),
        revoke_result(c, handle, capability, c2, Ok(())),
    ensures
        capability_out(c2, handle, capability) == Err::<(NamespaceRoot, NamespaceRights), UserError>(UserError::Revoked),
        ({
            let slot = handle.slot as int;
            let before = c.sessions[slot].unwrap().capabilities@;
            let after = c2.sessions[slot].unwrap().capabilities@;
            let target = before[capability_with(before, capability, false, 0).unwrap()].unwrap().lineage;
            &&& forall|j: int|
                #![trigger after[j]]
                0 <= j < before.len() && before[j] is Some && before[j].unwrap().parent_lineage == target
                    ==> after[j] is Some && after[j].unwrap().revoked
            &&& forall|j: int, k: int|
                #![trigger after[j], after[k]]
                0 <= j < before.len() && 0 <= k < before.len() && live_at(before, k) && after[k] is Some
                    && after[k].unwrap().revoked && before[j] is Some && before[j].unwrap().parent_lineage
                    == after[k].unwrap().lineage ==> after[j] is Some && after[j].unwrap().revoked
        }),
{
    let slot = handle.slot as int;
    let s = c.sessions[slot].unwrap();
    let before = s.capabilities@;
    let after = c2.sessions[slot].unwrap().capabilities@;
    let k = capability_with(before, capability, false, 0).unwrap();
    let target = before[k].unwrap().lineage;
    let gone = revoked_set(before, after);
    lemma_capability_with_found(before, capability, false, 0);
    assert(revocation(before, after, target));
    assert forall|j: int| 0 <= j < before.len() implies (before[j] is Some <==> after[j] is Some) && (before[j] is Some
        ==> before[j].unwrap().handle == after[j].unwrap().handle) by {
        assert(after[j] == match before[j] {
            None => None,
            Some(a) => Some(CapabilityRecord { revoked: a.revoked || gone.contains(j), ..a }),
        });
    }
    lemma_capability_with_same_handles(after, before, capability, 0);
    assert(session_slot(c2, handle) == Ok::<int, UserError>(slot));
    assert(after[k] == match before[k] {
        None => None,
        Some(a) => Some(CapabilityRecord { revoked: a.revoked || gone.contains(k), ..a }),
    });
    if !before[k].unwrap().revoked {
        assert(live_at(before, k));
        assert(derives_from(before, target, k, gone));
        assert(gone.contains(k));
    }
    assert forall|j: int|
        #![trigger after[j]]
        0 <= j < before.len() && before[j] is Some && before[j].unwrap().parent_lineage == target
            implies after[j] is Some && after[j].unwrap().revoked by {
        assert(after[j] == match before[j] {
            None => None,
            Some(a) => Some(CapabilityRecord { revoked: a.revoked || gone.contains(j), ..a }),
        });
        if !before[j].unwrap().revoked {
            assert(derives_from(before, target, j, gone));
            assert(gone.contains(j));
        }
    }
    assert forall|j: int, m: int|
        #![trigger after[j], after[m]]
        0 <= j < before.len() && 0 <= m < before.len() && live_at(before, m) && after[m] is Some
            && after[m].unwrap().revoked && before[j] is Some && before[j].unwrap().parent_lineage
            == after[m].unwrap().lineage implies after[j] is Some && after[j].unwrap().revoked by {
        assert(after[j] == match before[j] {
            None => None,
            Some(a) => Some(CapabilityRecord { revoked: a.revoked || gone.contains(j), ..a }),
        });
        assert(after[m] == match before[m] {
            None => None,
            Some(a) => Some(CapabilityRecord { revoked: a.revoked || gone.contains(m), ..a }),
        });
        assert(gone.contains(m));
        if !before[j].unwrap().revoked {
            assert(gone.contains(m) && 0 <= m < before.len() && (before[m] matches Some(q) && q.lineage == before[j].unwrap().parent_lineage));
            assert(derives_from(before, target, j, gone));
            assert(gone.contains(j));
        }
    }
}

/// A login that succeeds was for a claimed catalog, names an account
/// whose verifier the password matches under that account's salt, and
/// hands out that account's identifier.
pub proof fn lemma_login_checks_password(c: CatalogState, name: Seq<u8>, password: Seq<u8>)
    requires
        login_out(c, name, password).1 is Ok,
    ensures
        c.claimed,
        user_named(c.users, name, 0) matches Some(i) && {
            let u = c.users[i].unwrap();
            &&& u.verifier.version == ARGON2_VERSION
            &&& verifier_digest(password, u.verifier.salt@) == u.verifier.output@
            &&& login_out(c, name, password).1.unwrap().0 == u.id
        },
{
}

/// A password whose digest under the account's salt is not the stored
/// one is refused with `BadCredentials`, and nothing changes.
pub proof fn lemma_wrong_password_is_refused(c: CatalogState, name: Seq<u8>, password: Seq<u8>)
    requires
        c.claimed,
        name_valid(name, USER_MAX_USER_NAME_BYTES as int),
        user_named(c.users, name, 0) matches Some(i) && verifier_digest(password, c.users[i].unwrap().verifier.salt@)
            != c.users[i].unwrap().verifier.output@,
    ensures
        login_out(c, name, password) == (c, Err::<(UserId, SessionHandle), UserError>(UserError::BadCredentials)),
{
}

/// A password the account `user` accepts gets past the credential check
/// when logging in under the account's name: the login is not refused as
/// bad credentials.
pub proof fn lemma_accepted_password_logs_in(c: CatalogState, user: UserId, name: Seq<u8>, password: Seq<u8>)
    requires
        password_accepted(c, user, password),
        user_named(c.users, name, 0) == user_with_id(c.users, user, 0),
    ensures
        login_out(c, name, password).1 != Err::<(UserId, SessionHandle), UserError>(UserError::BadCredentials),
{
    let (c2, r) = login_out(c, name, password);
    if c.claimed && name_valid(name, USER_MAX_USER_NAME_BYTES as int) {
        let i = user_named(c.users, name, 0).unwrap();
        let u = c.users[i].unwrap();
        if first_none(c.sessions, 0) is Some {
            let slot = first_none(c.sessions, 0).unwrap();
            let handle = SessionHandle { slot: slot as u32, generation: 1 };
            let c1 = with_session(with_lineage_taken(c), slot, fresh_session(handle, u.id, c.next_lineage));
            lemma_attach_all_errors(c1, handle, granted_from(c1.roles, u, 0), u.home, 0);
        }
    }
}

/// Renaming moves the login name: afterwards the new name finds the
/// renamed account, and the old name, which only that account had, finds
/// none, so a login under it is refused with `NotFound`.
pub proof fn lemma_rename_moves_login(
    c: CatalogState,
    user: UserId,
    old_name: Seq<u8>,
    new_name: Seq<u8>,
    password: Seq<u8>,
)
    requires
        catalog_wf(c),
        rename_out(c, user, new_name).1 is Ok,
        old_name != new_name,
        forall|j: int|
            0 <= j < MAX_USERS && (#[trigger] c.users[j]) is Some && c.users[j].unwrap().name@ == old_name
                ==> user_with_id(c.users, user, 0) == Some(j),
    ensures
        ({
            let c2 = rename_out(c, user, new_name).0;
            &&& user_with_id(c2.users, user, 0) is Some
            &&& user_named(c2.users, new_name, 0) == user_with_id(c2.users, user, 0)
            &&& user_named(c2.users, old_name, 0) is None
            &&& c2.claimed && name_valid(old_name, USER_MAX_USER_NAME_BYTES as int) ==> login_out(c2, old_name, password)
                == (c2, Err::<(UserId, SessionHandle), UserError>(UserError::NotFound))
        }),
{
    let i = user_with_id(c.users, user, 0).unwrap();
    lemma_user_with_id_first(c.users, user, 0);
    let r = UserRecord { name: user_name_of(new_name), ..c.users[i].unwrap() };
    let c2 = rename_out(c, user, new_name).0;
    assert(c2.users == c.users.update(i, Some(r)));
    lemma_user_name_of_valid(new_name);
    lemma_user_with_id_keeps(c.users, i, r, user, 0);
    assert forall|j: int| 0 <= j < i implies !(#[trigger] c2.users[j] matches Some(q) && q.name@ == new_name) by {
        assert(c2.users[j] == c.users[j]);
        if c.users[j] is Some && c.users[j].unwrap().name@ == new_name {
            assert(c.users[j].unwrap().id != user);
            assert(name_taken_by_other(c, user, new_name));
        }
    }
    lemma_user_named_first(c2.users, new_name, i, 0);
    assert forall|j: int| 0 <= j < c2.users.len() implies !(#[trigger] c2.users[j] matches Some(q) && q.name@ == old_name) by {
        if j != i {
            assert(c2.users[j] == c.users[j]);
        }
    }
    lemma_user_named_none(c2.users, old_name, 0);
}

proof fn lemma_user_with_id_first(users: Seq<Option<UserRecord>>, id: UserId, i: int)
    requires
        0 <= i,
    ensures
        user_with_id(users, id, i) matches Some(k) ==> i <= k < users.len() && (users[k] matches Some(q) && q.id == id)
            && forall|j: int| i <= j < k ==> !(#[trigger] users[j] matches Some(q) && q.id == id),
    decreases users.len() - i,
{
    if i < users.len() && !(users[i] matches Some(q) && q.id == id) {
        lemma_user_with_id_first(users, id, i + 1);
    }
}

proof fn lemma_user_named_first(users: Seq<Option<UserRecord>>, name: Seq<u8>, k: int, i: int)
    requires
        0 <= i <= k < users.len(),
        users[k] matches Some(q) && q.name@ == name,
        forall|j: int| i <= j < k ==> !(#[trigger] users[j] matches Some(q) && q.name@ == name),
    ensures
        user_named(users, name, i) == Some(k),
    decreases k - i,
{
    if i < k {
        lemma_user_named_first(users, name, k, i + 1);
    }
}

proof fn lemma_user_named_none(users: Seq<Option<UserRecord>>, name: Seq<u8>, i: int)
    requires
        0 <= i,
        forall|j: int| i <= j < users.len() ==> !(#[trigger] users[j] matches Some(q) && q.name@ == name),
    ensures
        user_named(users, name, i) is None,
    decreases users.len() - i,
{
    if i < users.len() {
        lemma_user_named_none(users, name, i + 1);
    }
}

/// Attaching capabilities fails only as attaching one does: never with
/// `BadCredentials`.
proof fn lemma_attach_all_errors(
    c: CatalogState,
    handle: SessionHandle,
    templates: Seq<CapabilityTemplate>,
    home: NamespaceRoot,
    i: int,
)
    ensures
        attach_all(c, handle, templates, home, i).1 != Err::<(), UserError>(UserError::BadCredentials),
    decreases templates.len() - i,
{
    if 0 <= i < templates.len() {
        let t = templates[i];
        let root = if t.root.valid() {
            t.root
        } else {
            home
        };
        let (c1, r) = attach_out(c, handle, root, t.rights);
        lemma_attach_errors(c, handle, root, t.rights);
        if r is Ok {
            lemma_attach_all_errors(c1, handle, templates, home, i + 1);
        }
    }
}

proof fn lemma_attach_errors(c: CatalogState, handle: SessionHandle, root: NamespaceRoot, rights: NamespaceRights)
    ensures
        attach_out(c, handle, root, rights).1 != Err::<NamespaceCapabilityHandle, UserError>(UserError::BadCredentials),
{
}

proof fn lemma_capability_with_same_handles(
    a: Seq<Option<CapabilityRecord>>,
    b: Seq<Option<CapabilityRecord>>,
    handle: NamespaceCapabilityHandle,
    i: int,
)
    requires
        a.len() == b.len(),
        forall|j: int| 0 <= j < a.len() ==> (b[j] is Some <==> a[j] is Some) && (b[j] is Some
            ==> b[j].unwrap().handle == a[j].unwrap().handle),
    ensures
        capability_with(a, handle, false, i) == capability_with(b, handle, false, i),
    decreases a.len() - i,
{
    if 0 <= i < a.len() {
        lemma_capability_with_same_handles(a, b, handle, i + 1);
    }
}

proof fn lemma_capability_with_found(
    caps: Seq<Option<CapabilityRecord>>,
    handle: NamespaceCapabilityHandle,
    live: bool,
    i: int,
)
    ensures
        capability_with(caps, handle, live, i) matches Some(k) ==> i <= k < caps.len() && (caps[k] matches Some(
            e,
        ) && e.handle == handle && (!live || !e.revoked)),
    decreases caps.len() - i,
{
    if 0 <= i < caps.len() && !(caps[i] matches Some(e) && e.handle == handle && (!live || !e.revoked)) {
        lemma_capability_with_found(caps, handle, live, i + 1);
    }
}

proof fn lemma_first_none_in_range<T>(s: Seq<Option<T>>, i: int)
    ensures
        first_none(s, i) matches Some(k) ==> i <= k < s.len() && s[k] is None,
    decreases s.len() - i,
{
    if 0 <= i < s.len() && s[i] is Some {
        lemma_first_none_in_range(s, i + 1);
    }
}

} // verus!
